use rp1210test::ini::{ini_lookup, parse_count, parse_line, IniLine};

fn lines(text: &str) -> Vec<String> {
    text.lines().map(|l| l.to_string()).collect()
}

#[test]
fn line_kinds() {
    assert!(matches!(parse_line("  [VendorInformation] "), IniLine::Section(s) if s == "VendorInformation"));
    assert!(matches!(parse_line("[ Spaced ]"), IniLine::Section(s) if s == "Spaced"));
    assert!(matches!(parse_line("Name = Adapter X\r"), IniLine::Entry(k, v) if k == "Name" && v == "Adapter X"));
    assert!(matches!(parse_line("Cmd=a=b"), IniLine::Entry(k, v) if k == "Cmd" && v == "a=b"));
    assert!(matches!(parse_line("Empty="), IniLine::Entry(k, v) if k == "Empty" && v.is_empty()));
    assert!(matches!(parse_line("; Name=comment"), IniLine::Other));
    assert!(matches!(parse_line("# Name=comment"), IniLine::Other));
    assert!(matches!(parse_line("no equals sign"), IniLine::Other));
    assert!(matches!(parse_line("   "), IniLine::Other));
    assert!(matches!(parse_line(""), IniLine::Other));
}

#[test]
fn lookup_in_section() {
    let file = lines(
        "TimeStampWeight=5\n[VendorInformation]\nName=Adapter X\nTimeStampWeight = 1000\nTimeStampWeight=7\n[DeviceInformation1]\nTimeStampWeight=3\nDeviceID=1\n",
    );
    assert_eq!(ini_lookup(&file, "VendorInformation", "TimeStampWeight"), Some("1000".to_string()));
    assert_eq!(ini_lookup(&file, "VendorInformation", "Name"), Some("Adapter X".to_string()));
    assert_eq!(ini_lookup(&file, "DeviceInformation1", "DeviceID"), Some("1".to_string()));
    assert_eq!(ini_lookup(&file, "DeviceInformation1", "Name"), None);
    assert_eq!(ini_lookup(&file, "Missing", "Name"), None);
    assert_eq!(ini_lookup(&Vec::new(), "VendorInformation", "Name"), None);
}

#[test]
fn counts() {
    assert_eq!(parse_count("1000"), Some(1000));
    assert_eq!(parse_count(" 42 "), Some(42));
    assert_eq!(parse_count("0"), Some(0));
    assert_eq!(parse_count("999999999"), Some(999_999_999));
    assert_eq!(parse_count("1000000000"), None);
    assert_eq!(parse_count(""), None);
    assert_eq!(parse_count("1.5"), None);
    assert_eq!(parse_count("-1"), None);
}
