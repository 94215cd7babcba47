//! Parsing of the textual wire formats: a whitespace-separated sequence of
//! 8-hex-digit groups giving carrier-tick pulses, and a brace-enclosed
//! decimal list giving microsecond durations.

use vstd::prelude::*;
use vstd::string::StrSliceExecFns;
use vstd::string::StringExecFns;

use crate::units::IrCarrierCounter;
use crate::units::MarkAndSpace;
use crate::units::MarkAndSpaceIrCarrier;
use crate::units::MarkAndSpaceMicros;
use crate::units::Microseconds;
use crate::units::spec_carrier_to_micros;

verus! {

/// Whether a character is an ASCII hexadecimal digit.
pub open spec fn spec_is_hex_digit(c: char) -> bool {
    (48 <= c as u32 <= 57) || (65 <= c as u32 <= 70) || (97 <= c as u32 <= 102)
}

/// The value of an ASCII hexadecimal digit.
pub open spec fn spec_hex_value(c: char) -> int
    recommends
        spec_is_hex_digit(c),
{
    if c as u32 <= 57 {
        c as u32 - 48
    } else if c as u32 <= 70 {
        c as u32 - 55
    } else {
        c as u32 - 87
    }
}

/// Whether a character is one of the whitespace characters accepted between
/// wire-format groups: blank, tab, carriage return or line feed.
pub open spec fn spec_is_wire_ws(c: char) -> bool {
    c as u32 == 32 || c as u32 == 9 || c as u32 == 13 || c as u32 == 10
}

/// Whether two hexadecimal digits stand at position `i`.
pub open spec fn spec_two_hex_ok(s: Seq<char>, i: int) -> bool {
    &&& 0 <= i
    &&& i + 2 <= s.len()
    &&& spec_is_hex_digit(s[i])
    &&& spec_is_hex_digit(s[i + 1])
}

/// The byte value of the two hexadecimal digits at position `i`.
pub open spec fn spec_two_hex_value(s: Seq<char>, i: int) -> int
    recommends
        spec_two_hex_ok(s, i),
{
    16 * spec_hex_value(s[i]) + spec_hex_value(s[i + 1])
}

/// Whether four hexadecimal digits stand at position `i`.
pub open spec fn spec_four_hex_ok(s: Seq<char>, i: int) -> bool {
    spec_two_hex_ok(s, i) && spec_two_hex_ok(s, i + 2)
}

/// The 16-bit value of the four hexadecimal digits at position `i`, read
/// byte-swapped: the first two digits give the low byte, the next two the
/// high byte.
pub open spec fn spec_four_hex_value_le(s: Seq<char>, i: int) -> int
    recommends
        spec_four_hex_ok(s, i),
{
    256 * spec_two_hex_value(s, i + 2) + spec_two_hex_value(s, i)
}

/// Whether a full 8-hex-digit mark/space group stands at position `i`.
pub open spec fn spec_group_ok(s: Seq<char>, i: int) -> bool {
    spec_four_hex_ok(s, i) && spec_four_hex_ok(s, i + 4)
}

/// The carrier-tick pulse encoded by the 8-hex-digit group at position `i`.
pub open spec fn spec_group_value(s: Seq<char>, i: int) -> MarkAndSpaceIrCarrier
    recommends
        spec_group_ok(s, i),
{
    MarkAndSpace {
        mark: IrCarrierCounter(spec_four_hex_value_le(s, i) as u16),
        space: IrCarrierCounter(spec_four_hex_value_le(s, i + 4) as u16),
    }
}

/// The carrier-tick pulses read greedily from position `i` on: whitespace
/// is skipped, each 8-hex-digit group becomes one pulse, and the scan stops
/// at the first position holding neither whitespace nor a full group.
pub open spec fn spec_wire_groups(s: Seq<char>, i: int) -> Seq<MarkAndSpaceIrCarrier>
    decreases s.len() - i,
{
    if i < 0 || i >= s.len() {
        Seq::empty()
    } else if spec_is_wire_ws(s[i]) {
        spec_wire_groups(s, i + 1)
    } else if spec_group_ok(s, i) {
        seq![spec_group_value(s, i)] + spec_wire_groups(s, i + 8)
    } else {
        Seq::empty()
    }
}

/// The value of a string of hexadecimal digits, highest digit first.
pub open spec fn spec_hex_seq_value(s: Seq<char>) -> int
    decreases s.len(),
{
    if s.len() == 0 {
        0
    } else {
        spec_hex_seq_value(s.drop_last()) * 16 + spec_hex_value(s.last())
    }
}

/// Parses a whole string as a hexadecimal byte: it must be non-empty, hold
/// only hexadecimal digits, and fit eight bits.
pub fn from_hex(input: &str) -> (r: Option<u8>)
    ensures
        r is Some <==> (input@.len() > 0 && (forall|i: int|
            0 <= i < input@.len() ==> spec_is_hex_digit(#[trigger] input@[i]))
            && spec_hex_seq_value(input@) <= u8::MAX),
        r matches Some(v) ==> v == spec_hex_seq_value(input@),
{
    let n = input.unicode_len();
    let mut j: usize = 0;
    let mut acc: u32 = 0;
    let mut overflow = false;
    proof {
        assert(input@.subrange(0, 0) =~= Seq::<char>::empty());
    }
    while j < n
        invariant
            j <= n,
            n == input@.len(),
            forall|k: int| 0 <= k < j ==> spec_is_hex_digit(#[trigger] input@[k]),
            !overflow ==> acc == spec_hex_seq_value(input@.subrange(0, j as int)) && acc
                <= u8::MAX,
            overflow ==> spec_hex_seq_value(input@.subrange(0, j as int)) > u8::MAX,
        decreases input@.len() - j,
    {
        let c = input.get_char(j);
        if !is_hex_digit(c) {
            return None;
        }
        let d = hex_digit_value(c);
        proof {
            assert(input@.subrange(0, j as int + 1).drop_last() =~= input@.subrange(0, j as int));
            assert(input@.subrange(0, j as int + 1).last() == input@[j as int]);
        }
        if overflow {
        } else {
            let next = acc * 16 + d as u32;
            if next > u8::MAX as u32 {
                overflow = true;
            } else {
                acc = next;
            }
        }
        j = j + 1;
    }
    proof {
        assert(input@.subrange(0, n as int) =~= input@);
    }
    if j == 0 {
        None
    } else if overflow {
        None
    } else {
        Some(acc as u8)
    }
}

/// Whether a character is an ASCII hexadecimal digit.
pub fn is_hex_digit(c: char) -> (r: bool)
    ensures
        r == spec_is_hex_digit(c),
{
    let v = c as u32;
    (48 <= v && v <= 57) || (65 <= v && v <= 70) || (97 <= v && v <= 102)
}

fn hex_digit_value(c: char) -> (r: u8)
    requires
        spec_is_hex_digit(c),
    ensures
        r == spec_hex_value(c),
        r < 16,
{
    let v = c as u32;
    if v <= 57 {
        (v - 48) as u8
    } else if v <= 70 {
        (v - 55) as u8
    } else {
        (v - 87) as u8
    }
}

fn is_wire_ws(c: char) -> (r: bool)
    ensures
        r == spec_is_wire_ws(c),
{
    let v = c as u32;
    v == 32 || v == 9 || v == 13 || v == 10
}

/// Reads the two hexadecimal digits at `pos` as one byte.
pub fn two_digits_hexadecimal(input: &str, pos: usize) -> (r: Option<u8>)
    requires
        pos <= input@.len(),
    ensures
        r is Some <==> spec_two_hex_ok(input@, pos as int),
        r matches Some(v) ==> v == spec_two_hex_value(input@, pos as int),
{
    let n = input.unicode_len();
    if n - pos < 2 {
        return None;
    }
    let c0 = input.get_char(pos);
    let c1 = input.get_char(pos + 1);
    if is_hex_digit(c0) && is_hex_digit(c1) {
        Some(16 * hex_digit_value(c0) + hex_digit_value(c1))
    } else {
        None
    }
}

/// Reads the four hexadecimal digits at `pos` as one byte-swapped 16-bit
/// carrier-tick count: low byte first, high byte second.
pub fn four_digits_hexadecimal(input: &str, pos: usize) -> (r: Option<IrCarrierCounter>)
    requires
        pos <= input@.len(),
    ensures
        r is Some <==> spec_four_hex_ok(input@, pos as int),
        r matches Some(v) ==> v.0 == spec_four_hex_value_le(input@, pos as int),
{
    let lower = match two_digits_hexadecimal(input, pos) {
        Some(v) => v,
        None => {
            return None;
        },
    };
    if input.unicode_len() - pos < 4 {
        return None;
    }
    let higher = match two_digits_hexadecimal(input, pos + 2) {
        Some(v) => v,
        None => {
            return None;
        },
    };
    Some(IrCarrierCounter(256 * (higher as u16) + lower as u16))
}

/// Reads the 8-hex-digit group at `pos` as one carrier-tick pulse: four
/// digits of mark, then four digits of space.
pub fn mark_and_space_hexadecimal(input: &str, pos: usize) -> (r: Option<MarkAndSpaceIrCarrier>)
    requires
        pos <= input@.len(),
    ensures
        r is Some <==> spec_group_ok(input@, pos as int),
        r matches Some(v) ==> v == spec_group_value(input@, pos as int),
{
    let mark = match four_digits_hexadecimal(input, pos) {
        Some(v) => v,
        None => {
            return None;
        },
    };
    if input.unicode_len() - pos < 8 {
        return None;
    }
    let space = match four_digits_hexadecimal(input, pos + 4) {
        Some(v) => v,
        None => {
            return None;
        },
    };
    Some(MarkAndSpace { mark, space })
}

/// Scans the whole input greedily for whitespace-separated 8-hex-digit
/// groups, reading each as one carrier-tick pulse; the scan stops at the
/// first position holding neither whitespace nor a full group, and whatever
/// follows is ignored.
pub fn take_mark_and_spaces_ircarrier(input: &str) -> (r: Vec<MarkAndSpaceIrCarrier>)
    ensures
        r@ == spec_wire_groups(input@, 0),
{
    let n = input.unicode_len();
    let mut out: Vec<MarkAndSpaceIrCarrier> = Vec::new();
    let mut i: usize = 0;
    proof {
        assert(out@ + spec_wire_groups(input@, 0) =~= spec_wire_groups(input@, 0));
    }
    while i < n
        invariant_except_break
            i <= input@.len(),
            n == input@.len(),
            spec_wire_groups(input@, 0) == out@ + spec_wire_groups(input@, i as int),
        ensures
            spec_wire_groups(input@, 0) == out@ + spec_wire_groups(input@, i as int),
            spec_wire_groups(input@, i as int) == Seq::<MarkAndSpaceIrCarrier>::empty(),
        decreases input@.len() - i,
    {
        let c = input.get_char(i);
        if is_wire_ws(c) {
            i = i + 1;
        } else {
            match mark_and_space_hexadecimal(input, i) {
                Some(pulse) => {
                    let ghost prefix = out@;
                    out.push(pulse);
                    proof {
                        assert(prefix + (seq![spec_group_value(input@, i as int)]
                            + spec_wire_groups(input@, i as int + 8)) =~= out@ + spec_wire_groups(
                            input@,
                            i as int + 8,
                        ));
                    }
                    i = i + 8;
                },
                None => {
                    break;
                },
            }
        }
    }
    proof {
        assert(out@ + Seq::<MarkAndSpaceIrCarrier>::empty() =~= out@);
    }
    out
}

/// Parses the wire text into carrier-tick pulses: at least one 8-hex-digit
/// group, groups optionally separated by whitespace; trailing unparsable
/// text is ignored.  Fails exactly when no group can be read.
pub fn from_infrared_code(input: &str) -> (r: Result<Vec<MarkAndSpaceIrCarrier>, String>)
    ensures
        r is Ok <==> spec_wire_groups(input@, 0).len() > 0,
        r matches Ok(v) ==> v@ == spec_wire_groups(input@, 0),
        r matches Err(e) ==> e@ == "from_infrared_code: no mark and space pairs were found."@,
{
    let pulses = take_mark_and_spaces_ircarrier(input);
    if pulses.len() == 0 {
        Err(String::from_str("from_infrared_code: no mark and space pairs were found."))
    } else {
        Ok(pulses)
    }
}

/// Parses the wire text and converts each carrier-tick pulse to
/// microseconds, the form the decode pipeline takes.
pub fn parse_infrared_code(ircode: &str) -> (r: Result<Vec<MarkAndSpaceMicros>, String>)
    ensures
        r is Ok <==> spec_wire_groups(ircode@, 0).len() > 0,
        r matches Ok(v) ==> v@ == spec_wire_groups(ircode@, 0).map_values(
            |p: MarkAndSpaceIrCarrier| spec_carrier_to_micros(p),
        ),
        r matches Err(e) ==> e@ == "from_infrared_code: no mark and space pairs were found."@,
{
    let ghost groups = spec_wire_groups(ircode@, 0);
    let carrier = match from_infrared_code(ircode) {
        Ok(v) => v,
        Err(e) => {
            return Err(e);
        },
    };
    let mut out: Vec<MarkAndSpaceMicros> = Vec::new();
    let mut i: usize = 0;
    while i < carrier.len()
        invariant
            i <= carrier@.len(),
            carrier@ == groups,
            out@.len() == i,
            forall|k: int| 0 <= k < i ==> #[trigger] out@[k] == spec_carrier_to_micros(groups[k]),
        decreases carrier@.len() - i,
    {
        out.push(MarkAndSpaceMicros::from(carrier[i]));
        i = i + 1;
    }
    proof {
        assert(out@ =~= groups.map_values(|p: MarkAndSpaceIrCarrier| spec_carrier_to_micros(p)));
    }
    Ok(out)
}

/// Whether a character is a blank accepted inside the array format: a
/// space or a tab.
pub open spec fn spec_is_blank(c: char) -> bool {
    c as u32 == 32 || c as u32 == 9
}

/// The first position at or after `i` holding no blank.
pub open spec fn spec_skip_blank(s: Seq<char>, i: int) -> int
    decreases s.len() - i,
{
    if 0 <= i < s.len() && spec_is_blank(s[i]) {
        spec_skip_blank(s, i + 1)
    } else {
        i
    }
}

proof fn lemma_skip_blank_bounds(s: Seq<char>, i: int)
    ensures
        i <= spec_skip_blank(s, i),
        i <= s.len() ==> spec_skip_blank(s, i) <= s.len(),
    decreases s.len() - i,
{
    if 0 <= i < s.len() && spec_is_blank(s[i]) {
        lemma_skip_blank_bounds(s, i + 1);
    }
}

/// Whether a character is an ASCII decimal digit.
pub open spec fn spec_is_ascii_digit(c: char) -> bool {
    48 <= c as u32 <= 57
}

/// The position just after the run of decimal digits starting at `i`.
pub open spec fn spec_digits_end(s: Seq<char>, i: int) -> int
    decreases s.len() - i,
{
    if 0 <= i < s.len() && spec_is_ascii_digit(s[i]) {
        spec_digits_end(s, i + 1)
    } else {
        i
    }
}

proof fn lemma_digits_end_bounds(s: Seq<char>, i: int)
    ensures
        i <= spec_digits_end(s, i),
        i <= s.len() ==> spec_digits_end(s, i) <= s.len(),
    decreases s.len() - i,
{
    if 0 <= i < s.len() && spec_is_ascii_digit(s[i]) {
        lemma_digits_end_bounds(s, i + 1);
    }
}

/// The decimal value of the digits at positions `i` up to `j`.
pub open spec fn spec_digits_value(s: Seq<char>, i: int, j: int) -> int
    decreases j - i,
{
    if i >= j {
        0
    } else {
        spec_digits_value(s, i, j - 1) * 10 + (s[j - 1] as u32 - 48)
    }
}

/// Whether a number parses at position `i`: at least one decimal digit,
/// with a value that fits an unsigned 32-bit duration.
pub open spec fn spec_number_ok(s: Seq<char>, i: int) -> bool {
    &&& spec_digits_end(s, i) > i
    &&& spec_digits_value(s, i, spec_digits_end(s, i)) <= u32::MAX
}

/// The value of the number at position `i`.
pub open spec fn spec_number_value(s: Seq<char>, i: int) -> u32
    recommends
        spec_number_ok(s, i),
{
    spec_digits_value(s, i, spec_digits_end(s, i)) as u32
}

/// The comma-separated numbers following the first one, from position `k`:
/// each step skips blanks, takes a comma, skips blanks and takes a number.
/// `None` reports a comma followed by no valid number; otherwise the values
/// come with the position just after the last number taken.
pub open spec fn spec_list_rest(s: Seq<char>, k: int) -> Option<(Seq<u32>, int)>
    decreases s.len() - k,
        when true
        via spec_list_rest_dec
{
    let m = spec_skip_blank(s, k);
    if m < s.len() && s[m] == ',' {
        let n = spec_skip_blank(s, m + 1);
        if spec_number_ok(s, n) {
            match spec_list_rest(s, spec_digits_end(s, n)) {
                Option::None => Option::None,
                Option::Some((vs, e)) => Option::Some(
                    (seq![spec_number_value(s, n)] + vs, e),
                ),
            }
        } else {
            Option::None
        }
    } else {
        Option::Some((Seq::empty(), k))
    }
}

#[via_fn]
proof fn spec_list_rest_dec(s: Seq<char>, k: int) {
    let m = spec_skip_blank(s, k);
    lemma_skip_blank_bounds(s, k);
    if m < s.len() && s[m] == ',' {
        lemma_skip_blank_bounds(s, m + 1);
        lemma_digits_end_bounds(s, spec_skip_blank(s, m + 1));
    }
}

/// The whole array format: an opening brace, blanks, one or more numbers
/// separated by blank-framed commas, blanks, and a closing brace; whatever
/// follows the brace is ignored.
pub open spec fn spec_parse_array(s: Seq<char>) -> Option<Seq<u32>> {
    if s.len() == 0 || s[0] != '{' {
        Option::None
    } else {
        let i1 = spec_skip_blank(s, 1);
        if !spec_number_ok(s, i1) {
            Option::None
        } else {
            match spec_list_rest(s, spec_digits_end(s, i1)) {
                Option::None => Option::None,
                Option::Some((vs, k)) => {
                    let c = spec_skip_blank(s, k);
                    if c < s.len() && s[c] == '}' {
                        Option::Some(seq![spec_number_value(s, i1)] + vs)
                    } else {
                        Option::None
                    }
                },
            }
        }
    }
}

/// Consecutive values paired into pulses, mark first; a final value with no
/// partner becomes a mark with a zero space.
pub open spec fn spec_pair_up(vals: Seq<u32>) -> Seq<MarkAndSpaceMicros>
    decreases vals.len(),
{
    if vals.len() == 0 {
        Seq::empty()
    } else if vals.len() == 1 {
        seq![MarkAndSpace { mark: Microseconds(vals[0]), space: Microseconds(0) }]
    } else {
        seq![MarkAndSpace { mark: Microseconds(vals[0]), space: Microseconds(vals[1]) }]
            + spec_pair_up(vals.skip(2))
    }
}

fn is_ascii_digit_char(c: char) -> (r: bool)
    ensures
        r == spec_is_ascii_digit(c),
{
    let v = c as u32;
    48 <= v && v <= 57
}

fn skip_space0(input: &str, pos: usize) -> (r: usize)
    requires
        pos <= input@.len(),
    ensures
        r == spec_skip_blank(input@, pos as int),
        pos <= r <= input@.len(),
{
    let n = input.unicode_len();
    let mut i = pos;
    while i < n
        invariant_except_break
            pos <= i <= n,
            n == input@.len(),
            spec_skip_blank(input@, pos as int) == spec_skip_blank(input@, i as int),
        ensures
            pos <= i <= n,
            n == input@.len(),
            spec_skip_blank(input@, pos as int) == spec_skip_blank(input@, i as int),
            i == input@.len() || !spec_is_blank(input@[i as int]),
        decreases input@.len() - i,
    {
        let c = input.get_char(i);
        let v = c as u32;
        if v == 32 || v == 9 {
            i = i + 1;
        } else {
            break;
        }
    }
    i
}

/// Reads the run of decimal digits at `pos` as a microsecond duration,
/// with the position just past the run; fails when there is no digit or
/// the value does not fit 32 bits.
fn take_microseconds(input: &str, pos: usize) -> (r: Option<(Microseconds, usize)>)
    requires
        pos <= input@.len(),
    ensures
        r is Some <==> spec_number_ok(input@, pos as int),
        r matches Some(p) ==> p.1 == spec_digits_end(input@, pos as int) && p.0.0
            == spec_number_value(input@, pos as int),
{
    let n = input.unicode_len();
    let mut j = pos;
    let mut acc: u64 = 0;
    let mut overflow = false;
    while j < n && is_ascii_digit_char(input.get_char(j))
        invariant
            pos <= j <= n,
            n == input@.len(),
            spec_digits_end(input@, pos as int) == spec_digits_end(input@, j as int),
            forall|k: int| pos <= k < j ==> spec_is_ascii_digit(#[trigger] input@[k]),
            !overflow ==> acc == spec_digits_value(input@, pos as int, j as int) && acc
                <= u32::MAX,
            overflow ==> spec_digits_value(input@, pos as int, j as int) > u32::MAX,
        decreases input@.len() - j,
    {
        let c = input.get_char(j);
        let d = (c as u32 - 48) as u64;
        proof {
            assert(spec_digits_value(input@, pos as int, j as int + 1) == spec_digits_value(
                input@,
                pos as int,
                j as int,
            ) * 10 + (input@[j as int] as u32 - 48));
        }
        if overflow {
        } else {
            let next = acc * 10 + d;
            if next > u32::MAX as u64 {
                overflow = true;
            } else {
                acc = next;
            }
        }
        j = j + 1;
    }
    proof {
        assert(spec_digits_end(input@, j as int) == j as int);
    }
    if j == pos {
        None
    } else if overflow {
        None
    } else {
        Some((Microseconds(acc as u32), j))
    }
}

/// Parses a brace-enclosed, comma-separated list of decimal microsecond
/// durations and pairs consecutive values into pulses, mark first; a final
/// unpaired value becomes a mark with a zero space.  Text after the closing
/// brace is ignored.
pub fn from_array(input: &str) -> (r: Result<Vec<MarkAndSpaceMicros>, String>)
    ensures
        r is Ok <==> spec_parse_array(input@) is Some,
        r matches Ok(v) ==> spec_parse_array(input@) matches Some(vals) && v@ == spec_pair_up(
            vals,
        ),
        r matches Err(e) ==> e@
            == "from_array: expected a brace-enclosed list of decimal durations."@,
{
    let n = input.unicode_len();
    if n == 0 {
        return Err(
            String::from_str("from_array: expected a brace-enclosed list of decimal durations."),
        );
    }
    let c0 = input.get_char(0);
    if c0 != '{' {
        return Err(
            String::from_str("from_array: expected a brace-enclosed list of decimal durations."),
        );
    }
    let i1 = skip_space0(input, 1);
    let (first, k0) = match take_microseconds(input, i1) {
        Some(p) => p,
        None => {
            return Err(
                String::from_str(
                    "from_array: expected a brace-enclosed list of decimal durations.",
                ),
            );
        },
    };
    let mut vals: Vec<u32> = Vec::new();
    vals.push(first.0);
    let mut k = k0;
    proof {
        lemma_digits_end_bounds(input@, i1 as int);
    }
    loop
        invariant_except_break
            k <= n,
            n == input@.len(),
            input@.len() > 0 && input@[0] == '{',
            i1 == spec_skip_blank(input@, 1),
            spec_number_ok(input@, i1 as int),
            k0 == spec_digits_end(input@, i1 as int),
            vals@.len() >= 1,
            vals@[0] == spec_number_value(input@, i1 as int),
            match spec_list_rest(input@, k as int) {
                Option::None => spec_list_rest(input@, k0 as int) is None,
                Option::Some((vs, e)) => spec_list_rest(input@, k0 as int) == Option::Some(
                    (vals@.skip(1) + vs, e),
                ),
            },
        ensures
            k <= n,
            n == input@.len(),
            vals@.len() >= 1,
            vals@[0] == spec_number_value(input@, i1 as int),
            spec_list_rest(input@, k0 as int) == Option::Some((vals@.skip(1), k as int)),
        decreases input@.len() - k,
    {
        proof {
            assert(vals@.skip(1) + Seq::<u32>::empty() =~= vals@.skip(1));
        }
        let m = skip_space0(input, k);
        if m < n {
            let c = input.get_char(m);
            if c == ',' {
                let after_comma = skip_space0(input, m + 1);
                match take_microseconds(input, after_comma) {
                    Some((v, e)) => {
                        let ghost old_vals = vals@;
                        vals.push(v.0);
                        proof {
                            lemma_digits_end_bounds(input@, after_comma as int);
                            match spec_list_rest(input@, e as int) {
                                Option::None => {},
                                Option::Some((vs2, e2)) => {
                                    assert(old_vals.skip(1) + (seq![
                                        spec_number_value(input@, after_comma as int),
                                    ] + vs2) =~= vals@.skip(1) + vs2);
                                },
                            }
                        }
                        k = e;
                    },
                    None => {
                        proof {
                            assert(spec_list_rest(input@, k as int) is None);
                            assert(spec_list_rest(input@, k0 as int) is None);
                            assert(spec_parse_array(input@) is None);
                        }
                        return Err(
                            String::from_str(
                                "from_array: expected a brace-enclosed list of decimal durations.",
                            ),
                        );
                    },
                }
            } else {
                break;
            }
        } else {
            break;
        }
    }
    let c = skip_space0(input, k);
    if !(c < n) {
        return Err(
            String::from_str("from_array: expected a brace-enclosed list of decimal durations."),
        );
    }
    let cc = input.get_char(c);
    if cc != '}' {
        return Err(
            String::from_str("from_array: expected a brace-enclosed list of decimal durations."),
        );
    }
    proof {
        assert(spec_parse_array(input@) matches Some(vs) && vs =~= vals@);
    }
    let mut out: Vec<MarkAndSpaceMicros> = Vec::new();
    let mut i: usize = 0;
    proof {
        assert(vals@.skip(0) =~= vals@);
        assert(out@ + spec_pair_up(vals@) =~= spec_pair_up(vals@));
    }
    while i < vals.len()
        invariant
            i <= vals@.len(),
            spec_pair_up(vals@) == out@ + spec_pair_up(vals@.skip(i as int)),
        decreases vals@.len() - i,
    {
        let ghost prefix = out@;
        let ghost rest = vals@.skip(i as int);
        if i + 1 < vals.len() {
            out.push(MarkAndSpace { mark: Microseconds(vals[i]), space: Microseconds(vals[i + 1]) });
            proof {
                assert(rest[0] == vals@[i as int]);
                assert(rest[1] == vals@[i as int + 1]);
                assert(rest.skip(2) =~= vals@.skip(i as int + 2));
                assert(prefix + (seq![
                    MarkAndSpace { mark: Microseconds(rest[0]), space: Microseconds(rest[1]) },
                ] + spec_pair_up(rest.skip(2))) =~= out@ + spec_pair_up(vals@.skip(i as int + 2)));
            }
            i = i + 2;
        } else {
            out.push(MarkAndSpace { mark: Microseconds(vals[i]), space: Microseconds(0) });
            proof {
                assert(rest.len() == 1);
                assert(rest[0] == vals@[i as int]);
                assert(prefix + seq![
                    MarkAndSpace { mark: Microseconds(rest[0]), space: Microseconds(0) },
                ] =~= out@);
                assert(vals@.skip(i as int + 1) =~= Seq::<u32>::empty());
                assert(out@ + spec_pair_up(Seq::<u32>::empty()) =~= out@);
            }
            i = i + 1;
        }
    }
    proof {
        assert(vals@.skip(i as int) =~= Seq::<u32>::empty());
        assert(out@ + Seq::<MarkAndSpaceMicros>::empty() =~= out@);
    }
    Ok(out)
}

} // verus!
