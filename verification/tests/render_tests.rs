use nm_remover::render::u64_to_string;
use nm_remover::scanner::NodeModulesEntry;

fn entry(size: u64, last_modified: Option<u64>) -> NodeModulesEntry {
    NodeModulesEntry { path: "/r/node_modules".to_owned(), size, last_modified }
}

#[test]
fn decimal_rendering() {
    assert_eq!(u64_to_string(0), "0");
    assert_eq!(u64_to_string(7), "7");
    assert_eq!(u64_to_string(10), "10");
    assert_eq!(u64_to_string(12345), "12345");
    assert_eq!(u64_to_string(u64::MAX), "18446744073709551615");
}

#[test]
fn size_human_uses_byte_units() {
    // below one KiB the rendering is the exact count with a byte unit
    assert_eq!(entry(600, None).size_human(), "600 B");
    assert_eq!(entry(0, None).size_human(), "0 B");
    // larger sizes carry a magnitude unit
    assert_eq!(entry(1024 * 1024, None).size_human(), "1.0 MiB");
}

#[test]
fn last_modified_buckets_by_age() {
    let now = 1_000_000u64;
    assert_eq!(entry(1, Some(now - 59)).last_modified_human(now), "59s ago");
    assert_eq!(entry(1, Some(now - 60)).last_modified_human(now), "1m ago");
    assert_eq!(entry(1, Some(now - 3599)).last_modified_human(now), "59m ago");
    assert_eq!(entry(1, Some(now - 3600)).last_modified_human(now), "1h ago");
    assert_eq!(entry(1, Some(now - 86399)).last_modified_human(now), "23h ago");
    assert_eq!(entry(1, Some(now - 86400)).last_modified_human(now), "1d ago");
    assert_eq!(entry(1, Some(now - 3 * 86400)).last_modified_human(now), "3d ago");
}

#[test]
fn last_modified_unknown_cases() {
    let now = 500u64;
    assert_eq!(entry(1, None).last_modified_human(now), "Unknown");
    // a timestamp in the future reads as unknown, not as a negative age
    assert_eq!(entry(1, Some(now + 10)).last_modified_human(now), "Unknown");
    assert_eq!(entry(1, Some(now)).last_modified_human(now), "0s ago");
}
