//! The programmer, its power, the command line, numbers and texts.
use flashcat::args::{
    parse_hex_or_dec, parse_mhz, parse_number, parse_voltage, MhzError, NumError, VoltageChoice,
};
use flashcat::bytes::{read_le16, read_le32, read_le64};
use flashcat::error::Error;
use flashcat::fpga::{bitstream, cdone_missing, load, set_vcc, vcc_off, Bitstream, Voltage};
use flashcat::host::HostOp;
use flashcat::programmer::Programmer;
use flashcat::progress::Progress;
use flashcat::text::{
    equal_but_case, is_white, push_dec, push_hex, push_left, push_left_dec, push_radix, trim,
};
use flashcat::usb::{
    bulk_alt_setting, check_echo, firmware_version, identify, packet_aligned, retry_after_failure,
    setup_words, Retry, UsbReq,
};

#[test]
fn clock_arguments() {
    for mhz in 0..=255u8 {
        let supported = [1, 2, 4, 8, 12, 16, 24, 32].contains(&mhz);
        let want = if supported { Ok(mhz) } else { Err(MhzError::Unsupported(mhz)) };
        assert_eq!(parse_mhz(&mhz.to_string()), want);
    }
    assert_eq!(parse_mhz("256"), Err(MhzError::NotANumber));
    assert_eq!(parse_mhz("8MHz"), Err(MhzError::NotANumber));
    assert_eq!(parse_mhz(""), Err(MhzError::NotANumber));
    assert_eq!(parse_mhz("+8"), Ok(8));
}

#[test]
fn number_arguments_are_those_of_std() {
    let cases = [
        "0", "1", "4294967295", "4294967296", "99999999999999999999", "", "+", "-", "-0", "+5",
        "++5", "12a", " 1", "1 ", "0x", "0xff", "0XFF", "0xFFFFFFFF", "0x100000000", "0x+1", "0x-1",
        "0xg", "x1", "00012", "0x00000000001", "１", "0b1",
    ];
    for s in cases {
        let hex = s.strip_prefix("0x").or_else(|| s.strip_prefix("0X"));
        let want = match hex {
            Some(h) => u32::from_str_radix(h, 16),
            None => s.parse::<u32>(),
        };
        let want = want.map_err(|e| match e.kind() {
            std::num::IntErrorKind::Empty => NumError::Empty,
            std::num::IntErrorKind::PosOverflow => NumError::Overflow,
            _ => NumError::InvalidDigit,
        });
        assert_eq!(parse_hex_or_dec(s), want, "{s:?}");
    }
    let digits: Vec<char> = "z101".chars().collect();
    assert_eq!(parse_number(&digits, 1, 2, 5), Ok(5));
    assert_eq!(parse_number(&digits, 1, 2, 4), Err(NumError::Overflow));
}

#[test]
fn voltage_arguments() {
    let v = |s: &str| parse_voltage(s);
    assert_eq!(v("auto"), Some(VoltageChoice::Auto));
    for s in ["1v8", "1.8"] {
        assert_eq!(v(s), Some(VoltageChoice::Explicit(Voltage::V1_8)));
    }
    for s in ["3v3", "3.3"] {
        assert_eq!(v(s), Some(VoltageChoice::Explicit(Voltage::V3_3)));
    }
    for s in ["5v", "5.0"] {
        assert_eq!(v(s), Some(VoltageChoice::Explicit(Voltage::V5_0)));
    }
    assert_eq!(v("5"), None);
    assert_eq!(v("AUTO"), None);
}

#[test]
fn programmers_are_told_by_their_ids() {
    assert_eq!(identify(0x16C0, 0x05DE), Some(Programmer::Classic));
    assert_eq!(identify(0x16C0, 0x05E0), Some(Programmer::Pro5));
    assert_eq!(identify(0x16C0, 0x05E1), Some(Programmer::Mach1));
    assert_eq!(identify(0x16C0, 0x05DF), None);
    assert_eq!(identify(0x16C1, 0x05E0), None);
    assert_eq!(bulk_alt_setting(Programmer::Classic), None);
    assert_eq!(bulk_alt_setting(Programmer::Mach1), Some(1));
    assert!(Programmer::Pro5.uses_interface_recipient());
    assert!(!Programmer::Classic.has_fpga());
}

#[test]
fn supported_voltages() {
    assert_eq!(Programmer::Classic.supported_voltages(), [Voltage::V3_3, Voltage::V5_0]);
    assert_eq!(Programmer::Pro5.supported_voltages(), [Voltage::V3_3, Voltage::V1_8]);
    assert!(Programmer::Mach1.supports_voltage(Voltage::V1_8));
    assert!(!Programmer::Mach1.supports_voltage(Voltage::V5_0));
    assert_eq!(
        Programmer::Classic.check_voltage(Voltage::V1_8),
        Err(Error::UnsupportedVoltage { kind: Programmer::Classic, voltage: Voltage::V1_8 })
    );
    assert_eq!(Programmer::Classic.check_voltage(Voltage::V5_0), Ok(()));
    // Whatever is supported can be applied.
    for kind in [Programmer::Classic, Programmer::Pro5, Programmer::Mach1] {
        for voltage in kind.supported_voltages() {
            assert_eq!(bitstream(kind, voltage).unwrap().is_some(), kind.has_fpga());
            assert!(set_vcc(kind, voltage).is_ok());
        }
    }
}

#[test]
fn power_scripts() {
    assert_eq!(bitstream(Programmer::Classic, Voltage::V5_0), Ok(None));
    assert_eq!(bitstream(Programmer::Pro5, Voltage::V1_8), Ok(Some(Bitstream::Pro5V1_8)));
    assert_eq!(bitstream(Programmer::Mach1, Voltage::V3_3), Ok(Some(Bitstream::Mach1V3_3)));
    assert_eq!(bitstream(Programmer::Mach1, Voltage::V5_0), Err(Error::FpgaNo5v));
    assert_eq!(set_vcc(Programmer::Classic, Voltage::V1_8).err(), Some(Error::ClassicNo1v8));
    let s = set_vcc(Programmer::Classic, Voltage::V5_0).unwrap();
    assert!(matches!(s[0], HostOp::Control { req: UsbReq::Vcc5v, .. }));
    assert!(matches!(s[1], HostOp::Control { req: UsbReq::VccOn, .. }));
    assert!(matches!(s[2], HostOp::Sleep { ms: 250 }));
    let s = set_vcc(Programmer::Pro5, Voltage::V1_8).unwrap();
    assert!(s.len() == 1 && matches!(s[0], HostOp::Sleep { ms: 100 }));
    assert!(matches!(vcc_off(Programmer::Pro5)[0], HostOp::Control { req: UsbReq::LogicOff, .. }));
    assert!(matches!(vcc_off(Programmer::Classic)[0], HostOp::Control { req: UsbReq::VccOff, .. }));
}

#[test]
fn loading_an_image() {
    let s = load(Voltage::V1_8, vec![7; 40]);
    let mut requests = Vec::new();
    let mut sent = Vec::new();
    for op in &s {
        match op {
            HostOp::Control { req, .. } => requests.push(*req),
            HostOp::ControlIn { req, len: 4, .. } => requests.push(*req),
            HostOp::BulkOut { bytes } => sent.push(bytes.clone()),
            _ => {}
        }
    }
    assert_eq!(
        requests,
        vec![
            UsbReq::Logic1v8,
            UsbReq::SpiInit,
            UsbReq::SpiSsEnable,
            UsbReq::PulseReset,
            UsbReq::SpiSsDisable,
            UsbReq::SpiWrData,
            UsbReq::SpiSsEnable,
            UsbReq::SpiWrData,
            UsbReq::SpiSsDisable,
            UsbReq::SpiWrData,
            UsbReq::LogicStatus,
            UsbReq::LogicStart,
        ]
    );
    assert_eq!(sent, vec![vec![0], vec![7; 40], vec![0; 13]]);
    assert!(matches!(s[1],
        HostOp::Control { data, .. } if data == (1 << 24) | (3 << 16) | 24));
    assert!(matches!(load(Voltage::V3_3, vec![])[0],
        HostOp::Control { req: UsbReq::Logic3v3, .. }));
    assert!(cdone_missing(&[0xFE]));
    assert!(!cdone_missing(&[0x01]));
    assert!(!cdone_missing(&[]));
}

#[test]
fn usb_plumbing() {
    assert_eq!(setup_words(0x1234_5678), (0x1234, 0x5678));
    assert_eq!(packet_aligned(0, 512), 0);
    assert_eq!(packet_aligned(1, 512), 512);
    assert_eq!(packet_aligned(512, 512), 512);
    assert_eq!(packet_aligned(513, 512), 1024);
    assert_eq!(check_echo(b"EMBC"), Ok(()));
    assert_eq!(check_echo(b"CBME"), Err(Error::EchoMismatch));
    assert_eq!(check_echo(b"EMB"), Err(Error::EchoMismatch));
    assert_eq!(firmware_version(&[5, b'1', b'1', b'9']).unwrap(), "1.19");
    assert_eq!(firmware_version(&[5, 0xE9, b'1', b'9', 0]).unwrap(), "é.19");
    assert_eq!(firmware_version(&[5, 1, 1]), Err(Error::ShortVersion));
    assert_eq!(retry_after_failure(5, 6, 150), Retry::After(150));
    assert_eq!(retry_after_failure(6, 6, 150), Retry::GiveUpAfter(150));
}

#[test]
fn little_endian_words() {
    let t = [0x01, 0x02, 0x03, 0x04, 0x05, 0x06, 0x07, 0x88, 0x99];
    assert_eq!(read_le16(&t, 1), 0x0302);
    assert_eq!(read_le32(&t, 4), 0x8807_0605);
    assert_eq!(read_le64(&t, 1), 0x9988_0706_0504_0302);
}

#[test]
fn progress_counts() {
    let mut p = Progress::new("Reading", 100);
    p.inc(30);
    p.inc(12);
    assert_eq!((p.label.as_str(), p.total, p.current), ("Reading", 100, 42));
}

#[test]
fn numbers_print_as_std_prints_them() {
    for n in [0u64, 1, 9, 10, 15, 16, 255, 4096, 123_456_789, u32::MAX as u64, u64::MAX] {
        let mut s = String::from("<");
        push_dec(&mut s, n);
        assert_eq!(s, format!("<{n}"));
        let mut s = String::new();
        push_hex(&mut s, n, 8);
        assert_eq!(s, format!("{n:#010x}"));
        let mut s = String::new();
        push_radix(&mut s, n, 2, 4, false);
        assert_eq!(s, format!("{n:04b}"));
        let mut s = String::new();
        push_radix(&mut s, n, 16, 2, true);
        assert_eq!(s, format!("{n:02X}"));
        let mut s = String::new();
        push_left_dec(&mut s, n, 10);
        assert_eq!(s, format!("{n:<10}"));
    }
    let mut s = String::new();
    push_left(&mut s, "aé", 4);
    push_left(&mut s, "abcdef", 4);
    assert_eq!(s, format!("{:<4}{:<4}", "aé", "abcdef"));
}

#[test]
fn white_space_is_that_of_std() {
    for code in 0..=0x10FFFFu32 {
        if let Some(c) = char::from_u32(code) {
            assert_eq!(is_white(c), c.is_whitespace(), "{code:#x}");
        }
    }
    let s: Vec<char> = "\u{2028} a b\t\r\n".chars().collect();
    assert_eq!(trim(&s), ['a', ' ', 'b']);
    let blank: Vec<char> = " \t".chars().collect();
    assert!(trim(&blank).is_empty());
}

#[test]
fn case_is_ignored_for_ascii_letters_only() {
    for a in 0..=0x17Fu32 {
        for b in 0..=0x17Fu32 {
            if let (Some(x), Some(y)) = (char::from_u32(a), char::from_u32(b)) {
                assert_eq!(equal_but_case(&[x], &[y]), x.eq_ignore_ascii_case(&y));
            }
        }
    }
    assert!(!equal_but_case(&['a'], &['a', 'b']));
}
