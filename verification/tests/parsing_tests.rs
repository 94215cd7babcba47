use infrared_remote::four_digits_hexadecimal;
use infrared_remote::from_hex;
use infrared_remote::from_array;
use infrared_remote::from_infrared_code;
use infrared_remote::mark_and_space_hexadecimal;
use infrared_remote::take_mark_and_spaces_ircarrier;
use infrared_remote::IrCarrierCounter;
use infrared_remote::MarkAndSpaceIrCarrier;
use infrared_remote::MarkAndSpaceMicros;
use infrared_remote::Microseconds;

#[test]
fn test_four_digits_hexadecimal() {
    assert_eq!(
        four_digits_hexadecimal("5601", 0),
        Some(IrCarrierCounter(0x0156))
    );
    assert_eq!(
        mark_and_space_hexadecimal("5601AA00", 0),
        Some(MarkAndSpaceIrCarrier {
            mark: IrCarrierCounter(0x0156),
            space: IrCarrierCounter(0x00AA),
        })
    );
}

#[test]
fn test_take_mark_and_spaces() {
    assert_eq!(
        take_mark_and_spaces_ircarrier("5601AA00 17001500"),
        vec![
            (IrCarrierCounter(0x0156), IrCarrierCounter(0x00AA)).into(),
            (IrCarrierCounter(0x0017), IrCarrierCounter(0x0015)).into(),
        ]
    );
}

#[test]
fn test_from_infrared_code() {
    assert_eq!(
        from_infrared_code("5601AA00 17001500"),
        Ok(vec![
            MarkAndSpaceIrCarrier {
                mark: IrCarrierCounter(0x0156),
                space: IrCarrierCounter(0x00AA),
            },
            MarkAndSpaceIrCarrier {
                mark: IrCarrierCounter(0x0017),
                space: IrCarrierCounter(0x0015),
            }
        ])
    );
}

#[test]
fn test_from_infrared_code_empty_is_rejected() {
    assert_eq!(
        from_infrared_code(""),
        Err("from_infrared_code: no mark and space pairs were found.".to_string())
    );
    assert!(from_infrared_code("560").is_err());
}

#[test]
fn test1_from_array() {
    assert_eq!(
        from_array("{1}"),
        Ok(vec![MarkAndSpaceMicros {
            mark: Microseconds(1),
            space: Microseconds::default(),
        }])
    );
}

#[test]
fn test2_from_array() {
    assert_eq!(
        from_array("{1,2}"),
        Ok(vec![MarkAndSpaceMicros {
            mark: Microseconds(1),
            space: Microseconds(2)
        }])
    );
}

#[test]
fn test3_from_array() {
    assert_eq!(
        from_array("{ 1, 2 }"),
        Ok(vec![MarkAndSpaceMicros {
            mark: Microseconds(1),
            space: Microseconds(2)
        }])
    );
}

#[test]
fn test4_from_array() {
    assert_eq!(
        from_array("{1,2,3}"),
        Ok(vec![
            MarkAndSpaceMicros {
                mark: Microseconds(1),
                space: Microseconds(2)
            },
            MarkAndSpaceMicros {
                mark: Microseconds(3),
                space: Microseconds::default(),
            }
        ])
    );
}

#[test]
fn test5_from_array() {
    assert_eq!(
        from_array("{  1 , 2 , 3 , 4 }"),
        Ok(vec![
            MarkAndSpaceMicros {
                mark: Microseconds(1),
                space: Microseconds(2)
            },
            MarkAndSpaceMicros {
                mark: Microseconds(3),
                space: Microseconds(4)
            }
        ])
    );
}

#[test]
fn test_from_hex() {
    assert_eq!(from_hex("56"), Some(0x56));
    assert_eq!(from_hex("ff"), Some(0xFF));
    assert_eq!(from_hex("0"), Some(0));
    assert_eq!(from_hex(""), None);
    assert_eq!(from_hex("100"), None);
    assert_eq!(from_hex("5g"), None);
}

#[test]
fn test_from_array_malformed_is_rejected() {
    let msg = "from_array: expected a brace-enclosed list of decimal durations.".to_string();
    assert_eq!(from_array(""), Err(msg.clone()));
    assert_eq!(from_array("{}"), Err(msg.clone()));
    assert_eq!(from_array("{1,}"), Err(msg.clone()));
    assert_eq!(from_array("{1 2}"), Err(msg.clone()));
    assert_eq!(from_array("{4294967296}"), Err(msg));
}
