use tabsync::config::{Config, RetentionPolicy, RotateType, Settings};

#[test]
fn test_all_config_fields() {
    let config = Config::new();
    assert!(config.settings.rotate_count > 0);
    assert!(config.settings.rotate_time > 0);
    assert!(config.settings.rotate_size > 0);
    assert_ne!(config.settings.rotate_type, RotateType::Reserved);
    assert!(config.settings.enable_region_block == true || config.settings.enable_region_block == false);
    assert!(config.settings.white_region_code_list.len() > 0);
}

#[test]
fn default_settings_values() {
    let s = Settings::new();
    assert_eq!(s.rotate_type, RotateType::HistoryCount);
    assert_eq!(s.rotate_count, 100);
    assert_eq!(s.rotate_time, 30);
    assert_eq!(s.rotate_size, 200);
    assert!(s.enable_region_block);
    assert_eq!(s.white_region_code_list, vec![String::from("SG")]);
}

#[test]
fn contains_region_is_exact_and_case_sensitive() {
    let mut s = Settings::new();
    s.white_region_code_list = vec![String::from("SG"), String::from("JP")];
    assert!(s.contains_region("SG"));
    assert!(s.contains_region("JP"));
    assert!(!s.contains_region("sg"));
    assert!(!s.contains_region("S"));
    assert!(!s.contains_region("SGP"));
    assert!(!s.contains_region(""));
}

#[test]
fn contains_region_empty_list() {
    let mut s = Settings::new();
    s.white_region_code_list = Vec::new();
    assert!(!s.contains_region("SG"));
}

#[test]
fn retention_policy_per_rotate_type() {
    let mut s = Settings::new();
    s.rotate_count = 7;
    s.rotate_time = 3;
    s.rotate_size = 2;
    s.rotate_type = RotateType::HistoryCount;
    assert_eq!(s.retention_policy(), Some(RetentionPolicy::Count(7)));
    s.rotate_type = RotateType::StoredTime;
    assert_eq!(s.retention_policy(), Some(RetentionPolicy::Age(3)));
    s.rotate_type = RotateType::TotalSize;
    assert_eq!(s.retention_policy(), Some(RetentionPolicy::Size(2 * 1024 * 1024)));
    s.rotate_type = RotateType::Reserved;
    assert_eq!(s.retention_policy(), None);
}

#[test]
fn size_bound_in_bytes_does_not_overflow() {
    let mut s = Settings::new();
    s.rotate_type = RotateType::TotalSize;
    s.rotate_size = u32::MAX;
    assert_eq!(s.retention_policy(), Some(RetentionPolicy::Size(u32::MAX as u64 * 1048576)));
}

#[test]
fn config_build_keeps_settings() {
    let mut s = Settings::new();
    s.rotate_count = 5;
    let c = Config::build(s);
    assert_eq!(c.settings.rotate_count, 5);
}
