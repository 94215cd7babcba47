use infrared_remote::decode_phase1;
use infrared_remote::decode_phase2;
use infrared_remote::demodulate_pulse_distance_modulation;
use infrared_remote::demodulate_pulse_width_modulation;
use infrared_remote::encode_infrared_remote_code;
use infrared_remote::encode_phase1;
use infrared_remote::encode_phase2;
use infrared_remote::encode_phase3;
use infrared_remote::encode_to_mark_and_spaces;
use infrared_remote::from_infrared_code;
use infrared_remote::parse_infrared_code;
use infrared_remote::show_bit_pattern;
use infrared_remote::Bit;
use infrared_remote::InfraredRemoteDemodulatedFrame;
use infrared_remote::InfraredRemoteFrame;
use infrared_remote::IrCarrierCounter;
use infrared_remote::MarkAndSpaceIrCarrier;
use infrared_remote::MarkAndSpaceMicros;
use infrared_remote::Microseconds;

fn decode(input: &str) -> Result<Vec<InfraredRemoteDemodulatedFrame>, String> {
    let markandspaces = parse_infrared_code(input)?;
    let frames = decode_phase1(&markandspaces)?;
    Ok(frames
        .iter()
        .map(|frame| decode_phase2(frame))
        .collect::<Vec<InfraredRemoteDemodulatedFrame>>())
}

fn ms(mark: u32, space: u32) -> MarkAndSpaceMicros {
    MarkAndSpaceMicros {
        mark: Microseconds(mark),
        space: Microseconds(space),
    }
}

#[test]
fn test1_decode_phase1() {
    let empty: Vec<MarkAndSpaceMicros> = vec![];
    assert_eq!(
        decode_phase1(&empty),
        Err("decode_phase1: input is empty.".to_string())
    )
}

#[test]
#[should_panic]
fn test2_decode_phase1() {
    let a = from_infrared_code("").unwrap();
    let b = a
        .iter()
        .map(|x| MarkAndSpaceMicros::from(*x))
        .collect::<Vec<MarkAndSpaceMicros>>();
    let _ = decode_phase1(&b);
}

#[test]
fn test3_decode_phase1() {
    let a = from_infrared_code("5601AA00 17001500 18001400 18001500").unwrap();
    let b = a
        .iter()
        .map(|x| MarkAndSpaceMicros::from(*x))
        .collect::<Vec<MarkAndSpaceMicros>>();
    assert_eq!(
        decode_phase1(&b),
        Ok(vec![InfraredRemoteFrame(vec![
            MarkAndSpaceIrCarrier {
                mark: IrCarrierCounter(0x0156),
                space: IrCarrierCounter(0x00AA),
            }
            .into(),
            MarkAndSpaceIrCarrier {
                mark: IrCarrierCounter(0x0017),
                space: IrCarrierCounter(0x0015),
            }
            .into(),
            MarkAndSpaceIrCarrier {
                mark: IrCarrierCounter(0x0018),
                space: IrCarrierCounter(0x0014),
            }
            .into(),
            MarkAndSpaceIrCarrier {
                mark: IrCarrierCounter(0x0018),
                space: IrCarrierCounter(0x0015),
            }
            .into(),
        ])])
    );
}

#[test]
fn test4_decode_phase1() {
    let a = &from_infrared_code("5601AA00 17001500 18001400 18001500").unwrap();
    let b = a
        .iter()
        .map(|x| MarkAndSpaceMicros::from(*x))
        .collect::<Vec<MarkAndSpaceMicros>>();
    assert_eq!(
        decode_phase1(&b),
        Ok(vec![InfraredRemoteFrame(vec![
            MarkAndSpaceIrCarrier {
                mark: IrCarrierCounter(0x0156),
                space: IrCarrierCounter(0x00AA),
            }
            .into(),
            MarkAndSpaceIrCarrier {
                mark: IrCarrierCounter(0x0017),
                space: IrCarrierCounter(0x0015),
            }
            .into(),
            MarkAndSpaceIrCarrier {
                mark: IrCarrierCounter(0x0018),
                space: IrCarrierCounter(0x0014),
            }
            .into(),
            MarkAndSpaceIrCarrier {
                mark: IrCarrierCounter(0x0018),
                space: IrCarrierCounter(0x0015),
            }
            .into(),
        ])])
    );
}

#[test]
fn test5_decode_phase1() {
    let a = from_infrared_code("5601AA00 17008001 5601AA00 18001500").unwrap();
    let b = a
        .iter()
        .map(|x| MarkAndSpaceMicros::from(*x))
        .collect::<Vec<MarkAndSpaceMicros>>();
    assert_eq!(
        decode_phase1(&b),
        Ok(vec![
            InfraredRemoteFrame(vec![
                MarkAndSpaceIrCarrier {
                    mark: IrCarrierCounter(0x0156),
                    space: IrCarrierCounter(0x00AA),
                }
                .into(),
                MarkAndSpaceIrCarrier {
                    mark: IrCarrierCounter(0x0017),
                    space: IrCarrierCounter(0x0180),
                }
                .into(),
            ]),
            InfraredRemoteFrame(vec![
                MarkAndSpaceIrCarrier {
                    mark: IrCarrierCounter(0x0156),
                    space: IrCarrierCounter(0x00AA),
                }
                .into(),
                MarkAndSpaceIrCarrier {
                    mark: IrCarrierCounter(0x0018),
                    space: IrCarrierCounter(0x0015),
                }
                .into()
            ])
        ],)
    );
}

#[test]
fn test1_decode() {
    let ircode = "8600420014000F00130031001300100014000E0014000F001300100014000F001300100014000F00130010001300100013000F001300100013003100130010001300100013000F0014000F0013001000130010001300100013001000130010001300300014000F0013001000130010001300100013000F0014000F001300100014000F00140030001300100013003000140030001300310014002F0014000F0015000D0016003000130010001300300014003000130031001300300014000F001300310014004F03";
    let codes = decode(ircode).unwrap();
    for item in codes {
        println!("{:?}", item);
    }
}

#[test]
fn test2_decode() {
    let ircode = "8700410015000F00130030001300100014000E0015000F0013000F0014000F0014000F00130010001400100013000F0014000F0014000E001400300014000F001400100013000E0015000E0015000F0013000F0014000F001400100013000E0015002F00140010001300100013000F001300110013000E0014000F0015000F0013001000130030001400100013002F001400100013000F00140010001300100013000E0015002F0014000F001400300014000E0015000E0015000F00120010001400310013004F03";
    let codes = decode(ircode).unwrap();
    for item in codes {
        println!("{:?}", item);
    }
}

#[test]
fn test3_decode() {
    let ircode = "5601A900180015001800140018001400190013001900140019001400170040001700150018003F0019003E0018003E0019003F0019003E00170040001800140019003E001800150018003F00180014001800140019003F0018001400170016001700150018003F001800140018003F0018003F001800140019003F0018003F0018003E0019004F03";
    let codes = decode(ircode).unwrap();
    for item in codes {
        println!("{:?}", item);
    }
}

#[test]
fn test4_decode() {
    let ircode = "5601AA0017001500180014001800150018001400170016001700150018003F0018001400180040001700400017003F001800400018003F0017003F001800150018003F001800150018003E0018003F001700410017003F0019003E00180015001700160016004000180014001800150018001500170016001600160017003F0018003F0018004F03";
    let codes = decode(ircode).unwrap();
    for item in codes {
        println!("{:?}", item);
    }
}

#[test]
fn test5_decode() {
    let ircode = "5B0019002D001900170018002E001800170018002E00180017001800170019002E0018002E0018002E001800170019002D001900160019002D001900170018001700180017001900170018001700180017000B025C0018002E001700180018002E001800180017002F0017001800170018001700300017002F0016002F001800170018002E001700180019002D001800180017001800180017001800170018001800180017000B025C0018002E001800170018002E001800170018002E0018001800170018001700300017002F0017002F001700180017002F001700180019002D001700180018001800170018001700180018001800170018000B025C0018002E001800180017002F001700180017002F00170019001600180018002E0019002E0017002F001700180018002E001800180017002F001700180017001800170018001900170017001800180017004F03";
    let codes = decode(ircode).unwrap();
    for item in codes {
        println!("{:?}", item);
    }
}

#[test]
fn test6_decode() {
    let ircode = "5B0018002E001800180018002E001800170018002F00170018001700180017002F00180017001900170018001700180018004F03";
    let codes = decode(ircode).unwrap();
    for item in codes {
        println!("{:?}", item);
    }
}

#[test]
fn test7_decode() {
    let ircode = "1100120012001100120011001100120012001100120011001200B0038200450011003300120011001100120011001200110033001200110011001200120011001200110012003200120011001100330012003200120011001200320011003300120032001200320012003200120011001200110013003100130010001200110012001100120011001100120012001100120011001100120012001100110012001200320011001200120032001200110012001100120011001200320011003300120013000F0012001200110012001100110033001200110012003200130010001100120012001100120011001200110011001200110012001200110012001100110033001200320011003300110012001200110011003300120011001100120012004F03";
    let codes = decode(ircode).unwrap();
    for item in codes {
        println!("{:?}", item);
    }
}

#[test]
fn test1_decode_and_encode() {
    let ircode = "5601A900180015001800140018001400190013001900140019001400170040001700150018003F0019003E0018003E0019003F0019003E00170040001800140019003E001800150018003F00180014001800140019003F0018001400170016001700150018003F001800140018003F0018003F001800140019003F0018003F0018003E0019004F03";
    let frames = decode(ircode).unwrap();
    let encoded = encode_infrared_remote_code(&frames).unwrap();
    let frames2 = decode(&encoded).unwrap();
    assert_eq!(frames, frames2);
}

#[test]
fn test2_decode_and_encode() {
    let ircode = "8600420014000F00130031001300100014000E0014000F001300100014000F001300100014000F00130010001300100013000F001300100013003100130010001300100013000F0014000F0013001000130010001300100013001000130010001300300014000F0013001000130010001300100013000F0014000F001300100014000F00140030001300100013003000140030001300310014002F0014000F0015000D0016003000130010001300300014003000130031001300300014000F001300310014004F03";
    let codes = decode(ircode).unwrap();
    let encoded = encode_infrared_remote_code(&codes).unwrap();
    let codes2 = decode(&encoded).unwrap();
    assert_eq!(codes, codes2);
}

#[test]
fn test3_decode_and_encode() {
    let ircode = "5B0019002D001900170018002E001800170018002E00180017001800170019002E0018002E0018002E001800170019002D001900160019002D001900170018001700180017001900170018001700180017000B025C0018002E001700180018002E001800180017002F0017001800170018001700300017002F0016002F001800170018002E001700180019002D001800180017001800180017001800170018001800180017000B025C0018002E001800170018002E001800170018002E0018001800170018001700300017002F0017002F001700180017002F001700180019002D001700180018001800170018001700180018001800170018000B025C0018002E001800180017002F001700180017002F00170019001600180018002E0019002E0017002F001700180018002E001800180017002F001700180017001800170018001900170017001800180017004F03";
    let codes = decode(ircode).unwrap();
    let encoded = encode_infrared_remote_code(&codes).unwrap();
    let codes2 = decode(&encoded).unwrap();
    assert_eq!(codes, codes2);
}

#[test]
fn test_end_to_end_nec_classification() {
    let frames = decode("5601AA00 17001500 18001400 18001500").unwrap();
    assert_eq!(
        frames,
        vec![InfraredRemoteDemodulatedFrame::Nec(vec![
            Bit::new(0),
            Bit::new(0),
            Bit::new(0)
        ])]
    );
}

#[test]
fn test_multi_frame_classification() {
    let frames = decode("5601AA00 17008001 5601AA00 18001500").unwrap();
    assert_eq!(frames.len(), 2);
    assert!(matches!(frames[0], InfraredRemoteDemodulatedFrame::Nec(_)));
    assert!(matches!(frames[1], InfraredRemoteDemodulatedFrame::Nec(_)));
}

#[test]
fn test_classification_per_protocol() {
    let aeha = InfraredRemoteFrame(vec![ms(3520, 1760), ms(440, 1320)]);
    assert_eq!(
        decode_phase2(&aeha),
        InfraredRemoteDemodulatedFrame::Aeha(vec![Bit::new(1)])
    );
    let nec = InfraredRemoteFrame(vec![ms(8992, 4496), ms(562, 562)]);
    assert_eq!(
        decode_phase2(&nec),
        InfraredRemoteDemodulatedFrame::Nec(vec![Bit::new(0)])
    );
    let sirc = InfraredRemoteFrame(vec![ms(2400, 600), ms(1200, 600)]);
    assert_eq!(
        decode_phase2(&sirc),
        InfraredRemoteDemodulatedFrame::Sirc(vec![Bit::new(1)])
    );
    let unknown = InfraredRemoteFrame(vec![ms(1000, 1000), ms(440, 440)]);
    assert_eq!(
        decode_phase2(&unknown),
        InfraredRemoteDemodulatedFrame::Unknown(vec![ms(1000, 1000), ms(440, 440)])
    );
}

#[test]
fn test_pdm_boundary() {
    assert_eq!(demodulate_pulse_distance_modulation(ms(500, 1000)), Bit::new(1));
    assert_eq!(demodulate_pulse_distance_modulation(ms(500, 999)), Bit::new(0));
    assert_eq!(demodulate_pulse_distance_modulation(ms(500, 1001)), Bit::new(1));
}

#[test]
fn test_pwm_boundary() {
    assert_eq!(demodulate_pulse_width_modulation(ms(1100, 600)), Bit::new(1));
    assert_eq!(demodulate_pulse_width_modulation(ms(1300, 600)), Bit::new(1));
    assert_eq!(demodulate_pulse_width_modulation(ms(1099, 600)), Bit::new(0));
    assert_eq!(demodulate_pulse_width_modulation(ms(1301, 600)), Bit::new(0));
}

#[test]
fn test_segmentation_gap_retained() {
    let pulses = vec![ms(100, 8000), ms(200, 300)];
    assert_eq!(
        decode_phase1(&pulses),
        Ok(vec![
            InfraredRemoteFrame(vec![ms(100, 8000)]),
            InfraredRemoteFrame(vec![ms(200, 300)]),
        ])
    );
    let pulses2 = vec![ms(100, 7999), ms(200, 300)];
    assert_eq!(
        decode_phase1(&pulses2),
        Ok(vec![InfraredRemoteFrame(vec![ms(100, 7999), ms(200, 300)])])
    );
}

#[test]
fn test_show_bit_pattern() {
    let bits = vec![
        Bit::new(1),
        Bit::new(0),
        Bit::new(1),
        Bit::new(0),
        Bit::new(1),
        Bit::new(0),
        Bit::new(1),
        Bit::new(0),
        Bit::new(1),
    ];
    assert_eq!(show_bit_pattern(&bits), "10101010 1");
}

#[test]
fn test_encode_phase1_unknown_is_rejected() {
    let unknown = InfraredRemoteDemodulatedFrame::Unknown(vec![ms(1000, 1000)]);
    assert_eq!(
        encode_phase1(&unknown),
        Err("encode_phase1: an unknown protocol cannot be modulated.".to_string())
    );
}

#[test]
fn test_encode_phase1_invalid_bit_is_rejected() {
    let bad = InfraredRemoteDemodulatedFrame::Aeha(vec![Bit::new(0), Bit(5)]);
    assert_eq!(
        encode_phase1(&bad),
        Err("encode_phase1: a bit value other than zero or one cannot be modulated.".to_string())
    );
}

#[test]
fn test_encode_phase1_nec() {
    let frame = InfraredRemoteDemodulatedFrame::Nec(vec![Bit::new(1), Bit::new(0)]);
    assert_eq!(
        encode_phase1(&frame),
        Ok(InfraredRemoteFrame(vec![
            ms(8992, 4496),
            ms(562, 1686),
            ms(562, 562),
        ]))
    );
}

#[test]
fn test_encode_phase2_regenerates_gaps() {
    let frames = vec![
        InfraredRemoteFrame(vec![ms(440, 440)]),
        InfraredRemoteFrame(vec![ms(562, 562), ms(562, 1686)]),
    ];
    assert_eq!(
        encode_phase2(&frames),
        vec![ms(440, 8000), ms(562, 562), ms(562, 8000)]
    );
}

#[test]
fn test_encode_to_mark_and_spaces_nec() {
    let frames = vec![InfraredRemoteDemodulatedFrame::Nec(vec![Bit::new(1)])];
    assert_eq!(
        encode_to_mark_and_spaces(&frames),
        Ok(vec![ms(8992, 4496), ms(562, 8000)])
    );
}

#[test]
fn test_encode_phase3_literal() {
    assert_eq!(encode_phase3(&[ms(9000, 4500)]), "5601AB00");
}
