use tabsync::ip::{Ip, Ips};

fn sample_table() -> Ips {
    Ips::parse("37347328,37347583,ES\r\n37459712,37459967,SG\r\n")
}

#[test]
fn test_es() {
    assert_eq!(sample_table().get_region(37347328), "ES");
}

#[test]
fn test_sg() {
    assert_eq!(sample_table().get_region(37459967), "SG");
}

#[test]
fn resolve_region_two_rows() {
    let t = Ips {
        ip_list: vec![
            Ip { low: 0, high: 100, region: String::from("A") },
            Ip { low: 101, high: 200, region: String::from("B") },
        ],
    };
    assert_eq!(t.get_region(50), "A");
    assert_eq!(t.get_region(150), "B");
    assert_eq!(t.get_region(300), "unknown");
}

#[test]
fn bounds_are_inclusive() {
    let t = Ips::parse("10,20,X\n");
    assert_eq!(t.get_region(9), "unknown");
    assert_eq!(t.get_region(10), "X");
    assert_eq!(t.get_region(20), "X");
    assert_eq!(t.get_region(21), "unknown");
}

#[test]
fn empty_table_resolves_unknown() {
    let t = Ips::parse("");
    assert_eq!(t.ip_list.len(), 0);
    assert_eq!(t.get_region(0), "unknown");
    assert_eq!(t.get_region(u32::MAX), "unknown");
}

#[test]
fn parse_skips_malformed_lines() {
    let t = Ips::parse("1,2,A\nbad line\n3,x,B\n5,6\n7,8,C,D\n9,4294967296,E\n,10,F\n11,12,G");
    let rows: Vec<(u32, u32, String)> =
        t.ip_list.iter().map(|r| (r.low, r.high, r.region.clone())).collect();
    assert_eq!(rows, vec![(1, 2, String::from("A")), (11, 12, String::from("G"))]);
}

#[test]
fn parse_accepts_both_line_endings() {
    let t = Ips::parse("1,2,A\r\n3,4,B\n");
    assert_eq!(t.ip_list.len(), 2);
    assert_eq!(t.ip_list[0].region, "A");
    assert_eq!(t.ip_list[1].region, "B");
}

#[test]
fn parse_largest_bound() {
    let t = Ips::parse("4294967295,4294967295,Z");
    assert_eq!(t.get_region(u32::MAX), "Z");
}

#[test]
fn first_covering_row_wins() {
    let t = Ips::parse("0,10,A\n5,15,B\n");
    assert_eq!(t.get_region(7), "A");
    assert_eq!(t.get_region(12), "B");
}
