use rust_crash_audit::cache::format_duration;
use std::time::Duration;

#[test]
fn test_format_duration() {
    assert_eq!(format_duration(Duration::from_secs(30)), "30 seconds");
    assert_eq!(format_duration(Duration::from_secs(1)), "1 second");
    assert_eq!(format_duration(Duration::from_secs(90)), "1 minute");
    assert_eq!(format_duration(Duration::from_secs(120)), "2 minutes");
    assert_eq!(format_duration(Duration::from_secs(3600)), "1 hour");
    assert_eq!(format_duration(Duration::from_secs(7200)), "2 hours");
    assert_eq!(format_duration(Duration::from_secs(86400)), "1 day");
    assert_eq!(format_duration(Duration::from_secs(172800)), "2 days");
}
