use infrared_remote::IrCarrierCounter;
use infrared_remote::MarkAndSpaceIrCarrier;
use infrared_remote::MarkAndSpaceMicros;
use infrared_remote::Microseconds;

#[test]
fn test_microseconds_to_ircarriercounter() {
    assert_eq!(
        MarkAndSpaceIrCarrier::from(MarkAndSpaceMicros {
            mark: Microseconds(9000),
            space: Microseconds(4500),
        }),
        MarkAndSpaceIrCarrier {
            mark: IrCarrierCounter(0x0156),
            space: IrCarrierCounter(0x00AB),
        },
    );
    assert_eq!(
        IrCarrierCounter::from(Microseconds(4500)),
        IrCarrierCounter(0x00AB)
    );
    assert_eq!(
        IrCarrierCounter::from(Microseconds(9000)),
        IrCarrierCounter(0x0156)
    );
    assert_eq!(
        IrCarrierCounter::from(Microseconds(4500)),
        IrCarrierCounter(0x00AB)
    );
    assert_eq!(
        IrCarrierCounter::from(Microseconds(3400)),
        IrCarrierCounter(0x0081)
    );
    assert_eq!(
        IrCarrierCounter::from(Microseconds(1700)),
        IrCarrierCounter(0x0040)
    );
    assert_eq!(
        IrCarrierCounter::from(Microseconds(2400)),
        IrCarrierCounter(0x005B)
    );
    assert_eq!(
        IrCarrierCounter::from(Microseconds(600)),
        IrCarrierCounter(0x0016)
    );
}

#[test]
fn test_ircarriercounter_to_microseconds() {
    assert_eq!(
        MarkAndSpaceMicros::from(MarkAndSpaceIrCarrier {
            mark: IrCarrierCounter(0x0156),
            space: IrCarrierCounter(0x00AB),
        }),
        MarkAndSpaceMicros {
            mark: Microseconds(9000),
            space: Microseconds(4500),
        },
    );
    assert_eq!(
        Microseconds::from(IrCarrierCounter(0x0156)),
        Microseconds(9000)
    );
    assert_eq!(
        Microseconds::from(IrCarrierCounter(0x00AB)),
        Microseconds(4500)
    );
    assert_eq!(
        Microseconds::from(IrCarrierCounter(0x0081)),
        Microseconds(3394)
    );
    assert_eq!(
        Microseconds::from(IrCarrierCounter(0x0040)),
        Microseconds(1684)
    );
    assert_eq!(
        Microseconds::from(IrCarrierCounter(0x005B)),
        Microseconds(2394)
    );
    assert_eq!(
        Microseconds::from(IrCarrierCounter(0x0016)),
        Microseconds(578)
    );
}

#[test]
fn test_to_string_littel_endian_u16() {
    assert_eq!(IrCarrierCounter(0x1234).to_string_littel_endian_u16(), "3412");
    assert_eq!(IrCarrierCounter(0xabcd).to_string_littel_endian_u16(), "CDAB");
    assert_eq!(IrCarrierCounter(0xf0a0).to_string_littel_endian_u16(), "A0F0");
    assert_eq!(IrCarrierCounter(0xa0f0).to_string_littel_endian_u16(), "F0A0");
    assert_eq!(IrCarrierCounter(0xff00).to_string_littel_endian_u16(), "00FF");
    assert_eq!(IrCarrierCounter(0x00ff).to_string_littel_endian_u16(), "FF00");
}

#[test]
fn test_mark_and_space_to_string_littel_endian_u16() {
    let pulse = MarkAndSpaceIrCarrier {
        mark: IrCarrierCounter(0x0156),
        space: IrCarrierCounter(0x00AA),
    };
    assert_eq!(pulse.to_string_littel_endian_u16(), "5601AA00");
}

#[test]
fn test_mark_and_space_arithmetic() {
    let a = MarkAndSpaceMicros {
        mark: Microseconds(400),
        space: Microseconds(700),
    };
    let b = MarkAndSpaceMicros {
        mark: Microseconds(40),
        space: Microseconds(300),
    };
    assert_eq!(
        a + b,
        MarkAndSpaceMicros {
            mark: Microseconds(440),
            space: Microseconds(1000),
        }
    );
    assert_eq!(
        a - b,
        MarkAndSpaceMicros {
            mark: Microseconds(360),
            space: Microseconds(400),
        }
    );
}

#[test]
fn test_tuple_conversions() {
    let pulse: MarkAndSpaceMicros = (Microseconds(100), Microseconds(200)).into();
    assert_eq!(pulse.mark, Microseconds(100));
    assert_eq!(pulse.space, Microseconds(200));
    let pair: (Microseconds, Microseconds) = pulse.into();
    assert_eq!(pair, (Microseconds(100), Microseconds(200)));
}

#[test]
fn test_microseconds_default() {
    assert_eq!(Microseconds::default(), Microseconds(0));
}
