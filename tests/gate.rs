use tabsync::config::Settings;
use tabsync::gate::{check_access, parse_ipv4, Admission, GateError};
use tabsync::ip::Ips;

fn blocking_settings(codes: &[&str]) -> Settings {
    let mut s = Settings::new();
    s.enable_region_block = true;
    s.white_region_code_list = codes.iter().map(|c| String::from(*c)).collect();
    s
}

#[test]
fn region_policy_denies_unlisted_and_allows_listed() {
    let s = blocking_settings(&["SG"]);
    match s.admit_region("US") {
        Admission::Deny(code) => assert_eq!(code, "US"),
        Admission::Allow => panic!("US must be denied"),
    }
    assert!(matches!(s.admit_region("SG"), Admission::Allow));
}

#[test]
fn region_policy_disabled_allows_everything() {
    let mut s = blocking_settings(&["SG"]);
    s.enable_region_block = false;
    assert!(matches!(s.admit_region("US"), Admission::Allow));
    assert!(matches!(s.admit_region("unknown"), Admission::Allow));
    assert!(matches!(s.admit_region(""), Admission::Allow));
}

#[test]
fn parse_ipv4_encodes_big_endian() {
    assert_eq!(parse_ipv4("1.2.3.4"), Ok(16909060));
    assert_eq!(parse_ipv4("0.0.0.0"), Ok(0));
    assert_eq!(parse_ipv4("255.255.255.255"), Ok(u32::MAX));
    assert_eq!(parse_ipv4("2.58.224.0"), Ok(37412864));
    assert_eq!(parse_ipv4("127.0.0.1"), Ok(2130706433));
}

#[test]
fn parse_ipv4_rejects_malformed() {
    for s in ["", "1.2.3", "1.2.3.4.5", "1.2.3.256", "a.b.c.d", "1..3.4", "1.2.3.4 ", " 1.2.3.4", "-1.2.3.4", "1.2.3.99999999999"] {
        assert_eq!(parse_ipv4(s), Err(GateError::MalformedAddress), "{}", s);
    }
}

#[test]
fn check_access_by_resolved_region() {
    let table = Ips::parse("16909056,16909311,US\n2130706432,2130706687,SG\n");
    let s = blocking_settings(&["SG"]);
    match check_access(&table, &s, "1.2.3.4") {
        Ok(Admission::Deny(code)) => assert_eq!(code, "US"),
        _ => panic!("1.2.3.4 must be denied as US"),
    }
    assert!(matches!(check_access(&table, &s, "127.0.0.1"), Ok(Admission::Allow)));
    match check_access(&table, &s, "8.8.8.8") {
        Ok(Admission::Deny(code)) => assert_eq!(code, "unknown"),
        _ => panic!("an unlisted address resolves to unknown"),
    }
}

#[test]
fn check_access_fails_closed_on_malformed_address() {
    let table = Ips::parse("0,4294967295,SG\n");
    let s = blocking_settings(&["SG"]);
    assert!(matches!(check_access(&table, &s, "not-an-ip"), Err(GateError::MalformedAddress)));
}

#[test]
fn check_access_disabled_skips_address() {
    let table = Ips::parse("");
    let mut s = blocking_settings(&["SG"]);
    s.enable_region_block = false;
    assert!(matches!(check_access(&table, &s, "not-an-ip"), Ok(Admission::Allow)));
}
