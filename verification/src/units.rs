//! Time and carrier units: microsecond durations, carrier-tick counts,
//! the conversions between them, and the mark/space pulse pair.

use vstd::prelude::*;

verus! {

/// Frequency of the infrared carrier in hertz: 38 kHz, so one carrier tick
/// lasts 1_000_000 / 38_000 microseconds (about 26.3 us).
pub const IR_CARRIER_FREQ: u16 = 38000;

/// An unsigned duration in microseconds.
#[derive(Clone, Copy, Debug, PartialEq, Eq, Structural)]
pub struct Microseconds(pub u32);

/// A count of periods of the 38 kHz infrared carrier, the wire format's
/// native time unit.
#[derive(Clone, Copy, Debug, PartialEq, Eq, Structural)]
pub struct IrCarrierCounter(pub u16);

impl core::default::Default for Microseconds {
    /// The zero duration.
    fn default() -> (r: Self)
        ensures
            r == Microseconds(0),
    {
        Microseconds(0)
    }
}

/// Number of carrier ticks in a duration of `us` microseconds, truncating,
/// reduced to the 16-bit range of the wire format.
pub open spec fn spec_us_to_ticks(us: int) -> int {
    (us * 38000 / 1000000) % 0x10000
}

/// Number of whole microseconds covered by `t` carrier ticks, truncating.
pub open spec fn spec_ticks_to_us(t: int) -> int {
    t * 1000000 / 38000
}

impl vstd::std_specs::convert::FromSpecImpl<Microseconds> for IrCarrierCounter {
    open spec fn obeys_from_spec() -> bool {
        true
    }

    open spec fn from_spec(v: Microseconds) -> IrCarrierCounter {
        IrCarrierCounter(spec_us_to_ticks(v.0 as int) as u16)
    }
}

impl core::convert::From<Microseconds> for IrCarrierCounter {
    /// Converts a microsecond duration to carrier ticks by truncation.
    fn from(x: Microseconds) -> (r: Self) {
        let y: u64 = x.0 as u64 * IR_CARRIER_FREQ as u64 / 1_000_000u64;
        let t: u16 = (y % 0x10000) as u16;
        IrCarrierCounter(t)
    }
}

impl vstd::std_specs::convert::FromSpecImpl<IrCarrierCounter> for Microseconds {
    open spec fn obeys_from_spec() -> bool {
        true
    }

    open spec fn from_spec(v: IrCarrierCounter) -> Microseconds {
        Microseconds(spec_ticks_to_us(v.0 as int) as u32)
    }
}

impl core::convert::From<IrCarrierCounter> for Microseconds {
    /// Converts carrier ticks to whole microseconds by truncation.
    fn from(x: IrCarrierCounter) -> (r: Self) {
        let y: u64 = 1_000_000u64 * x.0 as u64 / IR_CARRIER_FREQ as u64;
        proof {
            vstd::arithmetic::div_mod::lemma_div_is_ordered(
                1_000_000 * (x.0 as int),
                0xffff * 1_000_000int,
                38000,
            );
        }
        Microseconds(y as u32)
    }
}

impl vstd::std_specs::ops::AddSpecImpl<Microseconds> for Microseconds {
    open spec fn obeys_add_spec() -> bool {
        true
    }

    open spec fn add_req(self, rhs: Microseconds) -> bool {
        self.0 + rhs.0 <= u32::MAX
    }

    open spec fn add_spec(self, rhs: Microseconds) -> Microseconds {
        Microseconds((self.0 + rhs.0) as u32)
    }
}

impl core::ops::Add<Microseconds> for Microseconds {
    type Output = Microseconds;

    /// Component sum; the caller must rule out overflow.
    fn add(self, other: Self) -> Self::Output {
        Microseconds(self.0 + other.0)
    }
}

impl vstd::std_specs::ops::SubSpecImpl<Microseconds> for Microseconds {
    open spec fn obeys_sub_spec() -> bool {
        true
    }

    open spec fn sub_req(self, rhs: Microseconds) -> bool {
        self.0 >= rhs.0
    }

    open spec fn sub_spec(self, rhs: Microseconds) -> Microseconds {
        Microseconds((self.0 - rhs.0) as u32)
    }
}

impl core::ops::Sub<Microseconds> for Microseconds {
    type Output = Microseconds;

    /// Component difference; the caller must rule out underflow.
    fn sub(self, other: Self) -> Self::Output {
        Microseconds(self.0 - other.0)
    }
}

impl vstd::std_specs::ops::AddSpecImpl<IrCarrierCounter> for IrCarrierCounter {
    open spec fn obeys_add_spec() -> bool {
        true
    }

    open spec fn add_req(self, rhs: IrCarrierCounter) -> bool {
        self.0 + rhs.0 <= u16::MAX
    }

    open spec fn add_spec(self, rhs: IrCarrierCounter) -> IrCarrierCounter {
        IrCarrierCounter((self.0 + rhs.0) as u16)
    }
}

impl core::ops::Add<IrCarrierCounter> for IrCarrierCounter {
    type Output = IrCarrierCounter;

    /// Component sum; the caller must rule out overflow.
    fn add(self, other: Self) -> Self::Output {
        IrCarrierCounter(self.0 + other.0)
    }
}

impl vstd::std_specs::ops::SubSpecImpl<IrCarrierCounter> for IrCarrierCounter {
    open spec fn obeys_sub_spec() -> bool {
        true
    }

    open spec fn sub_req(self, rhs: IrCarrierCounter) -> bool {
        self.0 >= rhs.0
    }

    open spec fn sub_spec(self, rhs: IrCarrierCounter) -> IrCarrierCounter {
        IrCarrierCounter((self.0 - rhs.0) as u16)
    }
}

impl core::ops::Sub<IrCarrierCounter> for IrCarrierCounter {
    type Output = IrCarrierCounter;

    /// Component difference; the caller must rule out underflow.
    fn sub(self, other: Self) -> Self::Output {
        IrCarrierCounter(self.0 - other.0)
    }
}

/// One pulse: a mark (carrier on) interval followed by a space (carrier off)
/// interval, generic over the time unit.
#[derive(Clone, Copy, Debug, PartialEq, Eq, Structural)]
pub struct MarkAndSpace<T> {
    pub mark: T,
    pub space: T,
}

/// A pulse measured in microseconds.
pub type MarkAndSpaceMicros = MarkAndSpace<Microseconds>;

/// A pulse measured in carrier ticks.
pub type MarkAndSpaceIrCarrier = MarkAndSpace<IrCarrierCounter>;

impl<
    T: core::ops::Add<Output = T> + vstd::std_specs::ops::AddSpec,
> vstd::std_specs::ops::AddSpecImpl<MarkAndSpace<T>> for MarkAndSpace<T> {
    open spec fn obeys_add_spec() -> bool {
        T::obeys_add_spec()
    }

    open spec fn add_req(self, rhs: MarkAndSpace<T>) -> bool {
        self.mark.add_req(rhs.mark) && self.space.add_req(rhs.space)
    }

    open spec fn add_spec(self, rhs: MarkAndSpace<T>) -> MarkAndSpace<T> {
        MarkAndSpace { mark: self.mark.add_spec(rhs.mark), space: self.space.add_spec(rhs.space) }
    }
}

impl<
    T: core::ops::Add<Output = T> + vstd::std_specs::ops::AddSpec,
> core::ops::Add<MarkAndSpace<T>> for MarkAndSpace<T> {
    type Output = MarkAndSpace<T>;

    /// Component-wise sum of two pulses of the same unit.
    fn add(self, other: Self) -> Self::Output {
        MarkAndSpace { mark: self.mark + other.mark, space: self.space + other.space }
    }
}

impl<
    T: core::ops::Sub<Output = T> + vstd::std_specs::ops::SubSpec,
> vstd::std_specs::ops::SubSpecImpl<MarkAndSpace<T>> for MarkAndSpace<T> {
    open spec fn obeys_sub_spec() -> bool {
        T::obeys_sub_spec()
    }

    open spec fn sub_req(self, rhs: MarkAndSpace<T>) -> bool {
        self.mark.sub_req(rhs.mark) && self.space.sub_req(rhs.space)
    }

    open spec fn sub_spec(self, rhs: MarkAndSpace<T>) -> MarkAndSpace<T> {
        MarkAndSpace { mark: self.mark.sub_spec(rhs.mark), space: self.space.sub_spec(rhs.space) }
    }
}

impl<
    T: core::ops::Sub<Output = T> + vstd::std_specs::ops::SubSpec,
> core::ops::Sub<MarkAndSpace<T>> for MarkAndSpace<T> {
    type Output = MarkAndSpace<T>;

    /// Component-wise difference of two pulses of the same unit.
    fn sub(self, other: Self) -> Self::Output {
        MarkAndSpace { mark: self.mark - other.mark, space: self.space - other.space }
    }
}

impl<T> vstd::std_specs::convert::FromSpecImpl<MarkAndSpace<T>> for (T, T) {
    open spec fn obeys_from_spec() -> bool {
        true
    }

    open spec fn from_spec(v: MarkAndSpace<T>) -> (T, T) {
        (v.mark, v.space)
    }
}

impl<T> core::convert::From<MarkAndSpace<T>> for (T, T) {
    /// A pulse as a (mark, space) tuple.
    fn from(x: MarkAndSpace<T>) -> Self {
        (x.mark, x.space)
    }
}

impl<T> vstd::std_specs::convert::FromSpecImpl<(T, T)> for MarkAndSpace<T> {
    open spec fn obeys_from_spec() -> bool {
        true
    }

    open spec fn from_spec(v: (T, T)) -> MarkAndSpace<T> {
        MarkAndSpace { mark: v.0, space: v.1 }
    }
}

impl<T> core::convert::From<(T, T)> for MarkAndSpace<T> {
    /// A (mark, space) tuple as a pulse.
    fn from(x: (T, T)) -> Self {
        MarkAndSpace { mark: x.0, space: x.1 }
    }
}

/// The microsecond pulse read off a carrier-tick pulse, both components
/// truncating.
pub open spec fn spec_carrier_to_micros(v: MarkAndSpaceIrCarrier) -> MarkAndSpaceMicros {
    MarkAndSpace {
        mark: Microseconds(spec_ticks_to_us(v.mark.0 as int) as u32),
        space: Microseconds(spec_ticks_to_us(v.space.0 as int) as u32),
    }
}

/// The carrier-tick pulse read off a microsecond pulse, both components
/// truncating.
pub open spec fn spec_micros_to_carrier(v: MarkAndSpaceMicros) -> MarkAndSpaceIrCarrier {
    MarkAndSpace {
        mark: IrCarrierCounter(spec_us_to_ticks(v.mark.0 as int) as u16),
        space: IrCarrierCounter(spec_us_to_ticks(v.space.0 as int) as u16),
    }
}

impl vstd::std_specs::convert::FromSpecImpl<MarkAndSpaceIrCarrier> for MarkAndSpaceMicros {
    open spec fn obeys_from_spec() -> bool {
        true
    }

    open spec fn from_spec(v: MarkAndSpaceIrCarrier) -> MarkAndSpaceMicros {
        spec_carrier_to_micros(v)
    }
}

impl core::convert::From<MarkAndSpaceIrCarrier> for MarkAndSpaceMicros {
    /// Converts both components from carrier ticks to microseconds.
    fn from(carrier: MarkAndSpaceIrCarrier) -> (r: Self) {
        MarkAndSpace {
            mark: Microseconds::from(carrier.mark),
            space: Microseconds::from(carrier.space),
        }
    }
}

impl vstd::std_specs::convert::FromSpecImpl<MarkAndSpaceMicros> for MarkAndSpaceIrCarrier {
    open spec fn obeys_from_spec() -> bool {
        true
    }

    open spec fn from_spec(v: MarkAndSpaceMicros) -> MarkAndSpaceIrCarrier {
        spec_micros_to_carrier(v)
    }
}

impl core::convert::From<MarkAndSpaceMicros> for MarkAndSpaceIrCarrier {
    /// Converts both components from microseconds to carrier ticks.
    fn from(micros: MarkAndSpaceMicros) -> (r: Self) {
        MarkAndSpace {
            mark: IrCarrierCounter::from(micros.mark),
            space: IrCarrierCounter::from(micros.space),
        }
    }
}

/// The hexadecimal digit character for a value below 16, upper case.
pub open spec fn spec_hex_digit(v: int) -> char {
    if v == 0 {
        '0'
    } else if v == 1 {
        '1'
    } else if v == 2 {
        '2'
    } else if v == 3 {
        '3'
    } else if v == 4 {
        '4'
    } else if v == 5 {
        '5'
    } else if v == 6 {
        '6'
    } else if v == 7 {
        '7'
    } else if v == 8 {
        '8'
    } else if v == 9 {
        '9'
    } else if v == 10 {
        'A'
    } else if v == 11 {
        'B'
    } else if v == 12 {
        'C'
    } else if v == 13 {
        'D'
    } else if v == 14 {
        'E'
    } else {
        'F'
    }
}

/// A byte as two upper-case hexadecimal digits, high nibble first.
pub open spec fn spec_hex_byte(b: int) -> Seq<char> {
    seq![spec_hex_digit(b / 16), spec_hex_digit(b % 16)]
}

/// A 16-bit value as four hexadecimal digits in byte-swapped order:
/// the low byte's two digits come first, then the high byte's.
pub open spec fn spec_hex4_le(t: int) -> Seq<char> {
    spec_hex_byte(t % 256) + spec_hex_byte(t / 256)
}

fn hex_digit_str(v: u8) -> (r: &'static str)
    requires
        v < 16,
    ensures
        r@ == seq![spec_hex_digit(v as int)],
{
    if v == 0 {
        proof {
            reveal_strlit("0");
            assert("0"@ =~= seq![spec_hex_digit(0int)]);
        }
        "0"
    } else if v == 1 {
        proof {
            reveal_strlit("1");
            assert("1"@ =~= seq![spec_hex_digit(1int)]);
        }
        "1"
    } else if v == 2 {
        proof {
            reveal_strlit("2");
            assert("2"@ =~= seq![spec_hex_digit(2int)]);
        }
        "2"
    } else if v == 3 {
        proof {
            reveal_strlit("3");
            assert("3"@ =~= seq![spec_hex_digit(3int)]);
        }
        "3"
    } else if v == 4 {
        proof {
            reveal_strlit("4");
            assert("4"@ =~= seq![spec_hex_digit(4int)]);
        }
        "4"
    } else if v == 5 {
        proof {
            reveal_strlit("5");
            assert("5"@ =~= seq![spec_hex_digit(5int)]);
        }
        "5"
    } else if v == 6 {
        proof {
            reveal_strlit("6");
            assert("6"@ =~= seq![spec_hex_digit(6int)]);
        }
        "6"
    } else if v == 7 {
        proof {
            reveal_strlit("7");
            assert("7"@ =~= seq![spec_hex_digit(7int)]);
        }
        "7"
    } else if v == 8 {
        proof {
            reveal_strlit("8");
            assert("8"@ =~= seq![spec_hex_digit(8int)]);
        }
        "8"
    } else if v == 9 {
        proof {
            reveal_strlit("9");
            assert("9"@ =~= seq![spec_hex_digit(9int)]);
        }
        "9"
    } else if v == 10 {
        proof {
            reveal_strlit("A");
            assert("A"@ =~= seq![spec_hex_digit(10int)]);
        }
        "A"
    } else if v == 11 {
        proof {
            reveal_strlit("B");
            assert("B"@ =~= seq![spec_hex_digit(11int)]);
        }
        "B"
    } else if v == 12 {
        proof {
            reveal_strlit("C");
            assert("C"@ =~= seq![spec_hex_digit(12int)]);
        }
        "C"
    } else if v == 13 {
        proof {
            reveal_strlit("D");
            assert("D"@ =~= seq![spec_hex_digit(13int)]);
        }
        "D"
    } else if v == 14 {
        proof {
            reveal_strlit("E");
            assert("E"@ =~= seq![spec_hex_digit(14int)]);
        }
        "E"
    } else {
        proof {
            reveal_strlit("F");
            assert("F"@ =~= seq![spec_hex_digit(15int)]);
        }
        "F"
    }
}

impl IrCarrierCounter {
    /// Renders the 16-bit tick count as four upper-case hexadecimal digits
    /// in byte-swapped order, low byte first.
    pub fn to_string_littel_endian_u16(self) -> (r: String)
        ensures
            r@ == spec_hex4_le(self.0 as int),
    {
        let lower: u8 = (self.0 & 0xff) as u8;
        let upper: u8 = ((self.0 >> 8) & 0xff) as u8;
        proof {
            let v = self.0;
            assert(v & 0xff == v % 256) by (bit_vector);
            assert((v >> 8) & 0xff == v / 256) by (bit_vector);
        }
        let mut s = String::new();
        s.append(hex_digit_str(lower / 16));
        s.append(hex_digit_str(lower % 16));
        s.append(hex_digit_str(upper / 16));
        s.append(hex_digit_str(upper % 16));
        proof {
            assert(s@ =~= spec_hex4_le(self.0 as int));
        }
        s
    }
}

impl MarkAndSpaceIrCarrier {
    /// Renders the mark then the space, each as four byte-swapped
    /// hexadecimal digits.
    pub fn to_string_littel_endian_u16(&self) -> (r: String)
        ensures
            r@ == spec_hex4_le(self.mark.0 as int) + spec_hex4_le(self.space.0 as int),
    {
        let mut s = self.mark.to_string_littel_endian_u16();
        let t = self.space.to_string_littel_endian_u16();
        s.append(t.as_str());
        s
    }
}

} // verus!
