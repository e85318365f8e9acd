use filebyte::records::format_unix_permissions;
use filebyte::types::SizeUnit;

#[test]
fn auto_format_bytes_boundaries() {
    assert_eq!(SizeUnit::auto_format_size(0), "0 B");
    assert_eq!(SizeUnit::auto_format_size(1023), "1023 B");
    assert_eq!(SizeUnit::auto_format_size(1024), "1.00 KB");
    assert_eq!(SizeUnit::auto_format_size(1048576), "1.00 MB");
}

#[test]
fn auto_format_larger_units() {
    assert_eq!(SizeUnit::auto_format_size(1073741824), "1.00 GB");
    assert_eq!(SizeUnit::auto_format_size(1099511627776), "1.00 TB");
    assert_eq!(SizeUnit::auto_format_size(1536), "1.50 KB");
    // 4.20 MB, the classic display example: 4404019 bytes / 1 MiB = 4.1999...
    assert_eq!(SizeUnit::auto_format_size(4404019), "4.20 MB");
}

#[test]
fn fixed_unit_format() {
    assert_eq!(SizeUnit::Bytes.format_size(500), "500 B");
    assert_eq!(SizeUnit::Kilobytes.format_size(2048), "2.00 KB");
    assert_eq!(SizeUnit::Megabytes.format_size(1048576), "1.00 MB");
    assert_eq!(SizeUnit::Kilobytes.format_size(512), "0.50 KB");
    assert_eq!(SizeUnit::Gigabytes.format_size(0), "0.00 GB");
}

#[test]
fn rounding_is_half_even() {
    // 1536 B = 1.5 KB exactly; displayed in MB it is 0.00146..., i.e. "0.00 MB".
    assert_eq!(SizeUnit::Megabytes.format_size(1536), "0.00 MB");
    // 128 B = 0.125 KB: 12.5 hundredths is a tie and rounds to even, 12.
    assert_eq!(SizeUnit::Kilobytes.format_size(128), "0.12 KB");
    // 0.375 KB = 384 B -> 37.5 hundredths, ties to even -> 38.
    assert_eq!(SizeUnit::Kilobytes.format_size(384), "0.38 KB");
}

#[test]
fn unit_from_str_accepts_names_case_insensitively() {
    assert!(matches!(SizeUnit::from_str("b"), Ok(SizeUnit::Bytes)));
    assert!(matches!(SizeUnit::from_str("BYTES"), Ok(SizeUnit::Bytes)));
    assert!(matches!(SizeUnit::from_str("KB"), Ok(SizeUnit::Kilobytes)));
    assert!(matches!(SizeUnit::from_str("kilobytes"), Ok(SizeUnit::Kilobytes)));
    assert!(matches!(SizeUnit::from_str("Mb"), Ok(SizeUnit::Megabytes)));
    assert!(matches!(SizeUnit::from_str("gb"), Ok(SizeUnit::Gigabytes)));
    assert!(matches!(SizeUnit::from_str("tb"), Ok(SizeUnit::Terabytes)));
    assert!(matches!(SizeUnit::from_str("auto"), Ok(SizeUnit::Bytes)));
}

#[test]
fn unit_from_str_rejects_unknown_names() {
    match SizeUnit::from_str("parsecs") {
        Err(e) => assert_eq!(e, "Invalid size unit: parsecs"),
        Ok(_) => panic!("an unknown unit name must be rejected"),
    }
}

#[test]
fn detailed_permissions_rendering() {
    assert_eq!(format_unix_permissions(0o755, false, false, true, true), "-rwxr-xr-x");
    assert_eq!(format_unix_permissions(0o644, false, false, true, true), "-rw-r--r--");
    assert_eq!(format_unix_permissions(0o755, true, false, true, true), "drwxr-xr-x");
    assert_eq!(format_unix_permissions(0o000, false, false, true, true), "----------");
}

#[test]
fn compact_permissions_rendering() {
    assert_eq!(format_unix_permissions(0, false, false, true, false), "rwx");
    assert_eq!(format_unix_permissions(0, false, false, false, false), "rw-");
    assert_eq!(format_unix_permissions(0, false, true, true, false), "r-x");
    assert_eq!(format_unix_permissions(0, false, true, false, false), "r--");
}
