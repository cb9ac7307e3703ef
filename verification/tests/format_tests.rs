use streamdl::size_format::format_size;

#[test]
fn zero_bytes() {
    assert_eq!(format_size(0), "0 B");
}

#[test]
fn small_byte_counts_are_plain_integers() {
    assert_eq!(format_size(1), "1 B");
    assert_eq!(format_size(512), "512 B");
    assert_eq!(format_size(1023), "1023 B");
}

#[test]
fn byte_bucket_has_no_decimal_point() {
    for b in [0u64, 1, 9, 10, 99, 100, 512, 1000, 1023] {
        let s = format_size(b);
        assert!(!s.contains('.'), "{s} should have no decimal point");
        assert!(s.ends_with(" B"));
    }
}

#[test]
fn one_kilobyte() {
    assert_eq!(format_size(1024), "1.00 KB");
}

#[test]
fn one_and_a_half_kilobytes() {
    assert_eq!(format_size(1536), "1.50 KB");
}

#[test]
fn one_megabyte() {
    assert_eq!(format_size(1024 * 1024), "1.00 MB");
}

#[test]
fn one_and_a_half_megabytes() {
    assert_eq!(format_size(1024 * 1024 + 512 * 1024), "1.50 MB");
}

#[test]
fn one_gigabyte() {
    assert_eq!(format_size(1024 * 1024 * 1024), "1.00 GB");
}

#[test]
fn rounding_is_half_up_to_two_decimals() {
    // 1075 / 1024 = 1.0498...: rounds to 1.05
    assert_eq!(format_size(1075), "1.05 KB");
    // 1029 / 1024 = 1.0048...: rounds to 1.00
    assert_eq!(format_size(1029), "1.00 KB");
}

#[test]
fn exactly_one_bucket_at_each_threshold() {
    assert!(format_size(1023).ends_with(" B"));
    assert!(format_size(1024).ends_with(" KB"));
    assert!(format_size(1024 * 1024 - 1).ends_with(" KB"));
    assert!(format_size(1024 * 1024).ends_with(" MB"));
    assert!(format_size(1024 * 1024 * 1024 - 1).ends_with(" MB"));
    assert!(format_size(1024 * 1024 * 1024).ends_with(" GB"));
    assert!(format_size(u64::MAX).ends_with(" GB"));
}
