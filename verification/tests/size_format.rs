use serve::size::format_size;

#[test]
fn bytes_are_printed_bare() {
    assert_eq!(format_size(0), "0 B");
    assert_eq!(format_size(1), "1 B");
    assert_eq!(format_size(512), "512 B");
    assert_eq!(format_size(1023), "1023 B");
}

#[test]
fn scaled_sizes_carry_two_decimals() {
    assert_eq!(format_size(1024), "1.00 KB");
    assert_eq!(format_size(1536), "1.50 KB");
    assert_eq!(format_size(1126), "1.10 KB");
    assert_eq!(format_size(5632), "5.50 KB");
    assert_eq!(format_size(1073741824), "1.00 GB");
}

#[test]
fn unit_boundaries() {
    assert_eq!(format_size(1048575), "1024.00 KB");
    assert_eq!(format_size(1048576), "1.00 MB");
    assert_eq!(format_size(1099511627776), "1.00 TB");
    assert_eq!(format_size(2199023255552), "2.00 TB");
}

#[test]
fn largest_sizes_stay_in_terabytes() {
    assert_eq!(format_size(u64::MAX), "16777216.00 TB");
}
