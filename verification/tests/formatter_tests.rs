use qdirstat::filesystem_entry::filesystem_entry_extensions::{
    bytes_to_readable, divide, get, u64_to_string, ByteUnits, BytesExt,
};

#[test]
fn bytes_below_one_kilobyte() {
    assert_eq!(bytes_to_readable(0), "0 Bytes");
    assert_eq!(bytes_to_readable(1), "1 Bytes");
    assert_eq!(bytes_to_readable(500), "500 Bytes");
    assert_eq!(bytes_to_readable(1023), "1023 Bytes");
}

#[test]
fn threshold_of_each_unit() {
    assert_eq!(bytes_to_readable(1024), "1 KB");
    assert_eq!(bytes_to_readable(1024 * 1024), "1 MB");
    assert_eq!(bytes_to_readable(1024 * 1024 * 1024), "1 GB");
}

#[test]
fn just_below_each_threshold() {
    assert_eq!(bytes_to_readable(1024 * 1024 - 1), "1023 KB");
    assert_eq!(bytes_to_readable(1024 * 1024 * 1024 - 1), "1023 MB");
}

#[test]
fn truncating_division_selects_the_value() {
    assert_eq!(bytes_to_readable(2048), "2 KB");
    assert_eq!(bytes_to_readable(2560), "2 KB");
    assert_eq!(bytes_to_readable(3 * 1024 * 1024 * 1024 + 5), "3 GB");
    assert_eq!(bytes_to_readable(u64::MAX), format!("{} GB", u64::MAX / (1024 * 1024 * 1024)));
}

#[test]
fn readable_through_the_extension_trait() {
    assert_eq!(2048u64.bytes_to_readable(), "2 KB");
}

#[test]
fn divide_and_get() {
    assert_eq!(divide(0, 5), 5);
    assert_eq!(divide(1, 2048), 2);
    assert_eq!(divide(2, 1024 * 1024), 1);
    assert_eq!(divide(3, 1024 * 1024 * 1024 - 1), 0);
    assert_eq!(get(ByteUnits::Kilobytes, 4096), 4);
    assert_eq!(get(ByteUnits::Bytes, 77), 77);
    assert_eq!(get(ByteUnits::Gigabytes, 1024 * 1024), 0);
}

#[test]
fn decimal_rendering() {
    assert_eq!(u64_to_string(0), "0");
    assert_eq!(u64_to_string(7), "7");
    assert_eq!(u64_to_string(1023), "1023");
    assert_eq!(u64_to_string(u64::MAX), u64::MAX.to_string());
}
