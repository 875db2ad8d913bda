use netsweep::address::Address;
use netsweep::error::{ConfigurationError, InputParseError, PortRangeError};
use netsweep::portscan::PortRange;
use netsweep::privilege::{check_privilege, Privilege};
use netsweep::scanner::NetworkScanner;
use netsweep::text::{chars_of, is_space, push_decimal, push_spaces, read_i32, read_u16, read_u32, split_on, trim};

fn chars(s: &str) -> Vec<char> {
    s.chars().collect()
}

#[test]
fn chars_of_gives_each_character() {
    assert_eq!(chars_of("a-b"), vec!['a', '-', 'b']);
    assert_eq!(chars_of(""), Vec::<char>::new());
    assert_eq!(chars_of("é 1"), vec!['é', ' ', '1']);
}

#[test]
fn white_space_is_what_unicode_says() {
    for c in [' ', '\t', '\n', '\r', '\u{0B}', '\u{0C}', '\u{85}', '\u{A0}', '\u{1680}', '\u{2000}',
        '\u{200A}', '\u{2028}', '\u{2029}', '\u{202F}', '\u{205F}', '\u{3000}']
    {
        assert!(is_space(c));
    }
    for c in ['a', '0', '-', '\u{200B}', '\u{1F}', '\u{180E}', '\u{FEFF}'] {
        assert!(!is_space(c));
    }
    let mut code: u32 = 0;
    while code < 0x3100 {
        if let Some(c) = char::from_u32(code) {
            assert_eq!(is_space(c), c.is_whitespace());
        }
        code += 1;
    }
}

#[test]
fn trim_removes_white_space_at_both_ends_only() {
    assert_eq!(trim(&chars("  2\n")), chars("2"));
    assert_eq!(trim(&chars("\t1 - 2 \r\n")), chars("1 - 2"));
    assert_eq!(trim(&chars("   ")), chars(""));
    assert_eq!(trim(&chars("")), chars(""));
    assert_eq!(trim(&chars("abc")), chars("abc"));
    assert_eq!(trim(&chars("\u{3000}x\u{A0}")), chars("x"));
}

#[test]
fn split_gives_one_piece_more_than_separators() {
    assert_eq!(split_on(&chars("1-1024"), '-'), vec![chars("1"), chars("1024")]);
    assert_eq!(split_on(&chars(""), '-'), vec![chars("")]);
    assert_eq!(split_on(&chars("-"), '-'), vec![chars(""), chars("")]);
    assert_eq!(split_on(&chars("a-"), '-'), vec![chars("a"), chars("")]);
    assert_eq!(split_on(&chars("-a"), '-'), vec![chars(""), chars("a")]);
    assert_eq!(split_on(&chars("1-2-3"), '-'), vec![chars("1"), chars("2"), chars("3")]);
    assert_eq!(split_on(&chars("abc"), '.'), vec![chars("abc")]);
    assert_eq!(
        split_on(&chars("10.0.0.5"), '.'),
        vec![chars("10"), chars("0"), chars("0"), chars("5")]
    );
}

#[test]
fn read_u16_agrees_with_the_standard_parser() {
    for text in ["0", "80", "+80", "65535", "65536", "", "+", "-", "-1", "++1", "1 ", " 1", "00080",
        "8o", "１２", "70000", "99999999999999999999", "+0", "1.0", "0x10"]
    {
        assert_eq!(read_u16(&chars(text)), text.parse::<u16>().ok(), "{}", text);
    }
}

#[test]
fn read_u32_agrees_with_the_standard_parser() {
    for text in ["0", "24", "+24", "32", "33", "4294967295", "4294967296", "", "+", "-1", "2 4",
        "0000000000000000000000007", "99999999999999999999999999", "x", "24/"]
    {
        assert_eq!(read_u32(&chars(text)), text.parse::<u32>().ok(), "{}", text);
    }
}

#[test]
fn lines_are_read_without_the_white_space_around_them() {
    assert_eq!(NetworkScanner::read_cidr(" 24\n"), Some(24));
    assert_eq!(NetworkScanner::read_cidr("33\r\n"), Some(33));
    assert_eq!(NetworkScanner::read_cidr("\n"), None);
    assert_eq!(NetworkScanner::read_cidr("2 4"), None);
    assert_eq!(NetworkScanner::read_cidr("-1"), None);
    assert_eq!(Address::from_line("  10.0.0.5\n"), Some(Address::from_octets(10, 0, 0, 5)));
    assert_eq!(Address::from_line("10.0.0.5 x"), None);
    assert_eq!(Address::from_line(""), None);
}

#[test]
fn read_i32_agrees_with_the_standard_parser() {
    for text in ["0", "7", "+2", "-2", "-0", "2147483647", "2147483648", "-2147483648",
        "-2147483649", "", "+", "-", "+-1", "-+1", "abc", "4 ", "004", "99999999999999999999",
        "-99999999999999999999", "3.5"]
    {
        assert_eq!(read_i32(&chars(text)), text.parse::<i32>().ok(), "{}", text);
    }
}

#[test]
fn decimal_writing_has_no_leading_zeros() {
    for (n, text) in [(0u32, "0"), (7, "7"), (10, "10"), (443, "443"), (65535, "65535"),
        (1_000_000, "1000000"), (4294967295, "4294967295")]
    {
        let mut out = String::from("p");
        push_decimal(&mut out, n);
        assert_eq!(out, format!("p{}", text));
    }
}

#[test]
fn spaces_are_appended() {
    let mut out = String::from("ab");
    push_spaces(&mut out, 3);
    assert_eq!(out, "ab   ");
    push_spaces(&mut out, 0);
    assert_eq!(out, "ab   ");
}

#[test]
fn address_is_written_in_dotted_decimal() {
    assert_eq!(Address::from_octets(10, 0, 0, 5).to_text(), "10.0.0.5");
    assert_eq!(Address::from_bits(0).to_text(), "0.0.0.0");
    assert_eq!(Address::from_bits(0xFFFF_FFFF).to_text(), "255.255.255.255");
    assert_eq!(Address::from_bits(0xC0A8_0164).to_text(), "192.168.1.100");
    let mut out = String::from("Host IP: ");
    Address::from_octets(172, 16, 3, 255).push_text(&mut out);
    assert_eq!(out, "Host IP: 172.16.3.255");
}

#[test]
fn address_octets_and_bits_agree() {
    let a = Address::from_octets(10, 0, 0, 5);
    assert_eq!(a.to_bits(), 0x0A00_0005);
    assert_eq!(a.octets(), (10, 0, 0, 5));
    assert_eq!(Address::from_bits(0xC0A8_0164).octets(), (192, 168, 1, 100));
    assert_eq!(Address::from_octets(255, 255, 255, 255).to_bits(), u32::MAX);
}

#[test]
fn address_is_read_from_dotted_decimal() {
    assert_eq!(Address::from_text("10.0.0.5"), Some(Address::from_octets(10, 0, 0, 5)));
    assert_eq!(Address::from_text("0.0.0.0"), Some(Address::from_bits(0)));
    assert_eq!(Address::from_text("255.255.255.255"), Some(Address::from_bits(u32::MAX)));
    assert_eq!(Address::from_chars(&chars("192.168.1.100")), Some(Address::from_bits(0xC0A8_0164)));
}

#[test]
fn address_reading_refuses_what_is_no_dotted_address() {
    for text in ["", "10.0.0", "10.0.0.5.6", "10.0.0.256", "10.0.0.05", "10.0.0.", ".10.0.0",
        "10..0.5", "10.0.0.5 ", " 10.0.0.5", "10.0.0.+5", "10.0.0.-5", "1000.0.0.1", "a.b.c.d",
        "::1", "10.0.0.0/24", "0x10.0.0.1", "00.0.0.0", "10,0,0,5"]
    {
        assert_eq!(Address::from_text(text), None, "{}", text);
    }
}

#[test]
fn address_reading_and_writing_agree() {
    for bits in [0u32, 1, 255, 256, 0x0A00_0005, 0x7F00_0001, 0xC0A8_0164, 0xFFFF_FFFE, u32::MAX] {
        let a = Address::from_bits(bits);
        assert_eq!(Address::from_text(&a.to_text()), Some(a));
    }
}

#[test]
fn port_range_is_read_from_start_and_end() {
    assert_eq!(PortRange::from_str("1-1024"), Ok(PortRange(1, 1024)));
    assert_eq!(PortRange::from_str("0-65535"), Ok(PortRange(0, 65535)));
    assert_eq!(PortRange::from_str("443-80"), Ok(PortRange(443, 80)));
    assert_eq!(PortRange::from_str("+5-+7"), Ok(PortRange(5, 7)));
}

#[test]
fn port_range_errors_name_what_is_wrong() {
    assert_eq!(PortRange::from_str(""), Err(PortRangeError::InvalidFormat));
    assert_eq!(PortRange::from_str("80"), Err(PortRangeError::InvalidFormat));
    assert_eq!(PortRange::from_str("1-2-3"), Err(PortRangeError::InvalidFormat));
    assert_eq!(PortRange::from_str("-5"), Err(PortRangeError::InvalidStartPort));
    assert_eq!(PortRange::from_str("a-5"), Err(PortRangeError::InvalidStartPort));
    assert_eq!(PortRange::from_str("65536-5"), Err(PortRangeError::InvalidStartPort));
    assert_eq!(PortRange::from_str(" 1-5"), Err(PortRangeError::InvalidStartPort));
    assert_eq!(PortRange::from_str("a-b"), Err(PortRangeError::InvalidStartPort));
    assert_eq!(PortRange::from_str("1-"), Err(PortRangeError::InvalidEndPort));
    assert_eq!(PortRange::from_str("1-65536"), Err(PortRangeError::InvalidEndPort));
    assert_eq!(PortRange::from_str("1-5 "), Err(PortRangeError::InvalidEndPort));
}

#[test]
fn port_range_lists_its_ports() {
    assert_eq!(PortRange(5, 8).to_ports(), vec![5, 6, 7, 8]);
    assert_eq!(PortRange(80, 80).to_ports(), vec![80]);
    assert_eq!(PortRange(81, 80).to_ports(), Vec::<u16>::new());
    assert_eq!(PortRange(65534, 65535).to_ports(), vec![65534, 65535]);
    assert_eq!(PortRange(0, 2).to_ports(), vec![0, 1, 2]);
    assert_eq!(PortRange(0, 65535).to_ports().len(), 65536);
}

#[test]
fn errors_have_their_words() {
    assert_eq!(PortRangeError::InvalidFormat.message(), "Invalid format");
    assert_eq!(PortRangeError::InvalidStartPort.message(), "Invalid start port");
    assert_eq!(PortRangeError::InvalidEndPort.message(), "Invalid end port");
    assert_eq!(InputParseError::InvalidAddress.message(), "Invalid IP address");
    assert_eq!(InputParseError::InvalidStartPort.message(), "Invalid start port");
    assert_eq!(InputParseError::InvalidEndPort.message(), "Invalid end port");
    assert_eq!(ConfigurationError::InvalidBlock.message(), "Invalid CIDR");
    assert_eq!(ConfigurationError::InvalidBatchSize.message(), "Invalid batch size");
}

#[test]
fn only_root_is_granted() {
    assert_eq!(check_privilege(Some("root")), Privilege::Granted);
    assert_eq!(check_privilege(Some("alice")), Privilege::Escalate);
    assert_eq!(check_privilege(Some("")), Privilege::Escalate);
    assert_eq!(check_privilege(Some("Root")), Privilege::Escalate);
    assert_eq!(check_privilege(Some("root ")), Privilege::Escalate);
    assert_eq!(check_privilege(Some("roots")), Privilege::Escalate);
    assert_eq!(check_privilege(None), Privilege::Unknown);
    assert_eq!(Privilege::Granted.exit_code(), None);
    assert_eq!(Privilege::Escalate.exit_code(), Some(1));
    assert_eq!(Privilege::Unknown.exit_code(), Some(2));
}
