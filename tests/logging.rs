use tabsync::logging::{LogLevel, PassThroughFilter};

#[test]
fn filter_accepts_band_in_either_order() {
    let f = PassThroughFilter::new(LogLevel::Trace, LogLevel::Debug);
    assert!(f.accepts(LogLevel::Trace));
    assert!(f.accepts(LogLevel::Debug));
    assert!(!f.accepts(LogLevel::Info));
    assert!(!f.accepts(LogLevel::Error));
    let g = PassThroughFilter::new(LogLevel::Warn, LogLevel::Error);
    assert!(g.accepts(LogLevel::Warn));
    assert!(g.accepts(LogLevel::Error));
    assert!(!g.accepts(LogLevel::Info));
}

#[test]
fn filter_single_level() {
    let f = PassThroughFilter::new(LogLevel::Info, LogLevel::Info);
    assert!(f.accepts(LogLevel::Info));
    assert!(!f.accepts(LogLevel::Warn));
    assert!(!f.accepts(LogLevel::Debug));
}
