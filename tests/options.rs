use c0_tester::options::{parse_size, SizeError};

#[test]
fn test_parse_size() {
    assert_eq!(parse_size("2GB"), Ok(2 * 1024 * 1024 * 1024));
    assert_eq!(parse_size("2 gb"), Ok(2 * 1024 * 1024 * 1024));
    assert_eq!(parse_size("0 mb"), Ok(0));
    assert_eq!(parse_size("  10 mb"), Ok(10 * 1024 * 1024));
    assert_eq!(parse_size("512  "), Ok(512));
}

#[test]
fn test_parse_size_errors() {
    assert!(parse_size("").is_err());
    assert!(parse_size("   mb").is_err());
    assert!(parse_size("   zmb").is_err());
    assert!(parse_size("-1").is_err());
    assert!(parse_size("-9999999999999999999999999999999999999999999999999999999999").is_err());
    assert!(parse_size("9999999999999999999999999999999999999999999999999999999999999").is_err());
}

#[test]
fn size_units() {
    assert_eq!(parse_size("3k"), Ok(3072));
    assert_eq!(parse_size("3KB"), Ok(3072));
    assert_eq!(parse_size("1 m"), Ok(1048576));
    assert_eq!(parse_size("4 GB"), Ok(4 * 1024 * 1024 * 1024));
    assert_eq!(parse_size("18446744073709551615"), Ok(u64::MAX));
    assert_eq!(parse_size("\u{3000}7\u{a0}kb\n"), Ok(7168));
}

#[test]
fn size_error_kinds() {
    assert_eq!(parse_size(""), Err(SizeError::NoNumber));
    assert_eq!(parse_size("   mb"), Err(SizeError::NoNumber));
    assert_eq!(parse_size("-1"), Err(SizeError::InvalidNumber));
    assert_eq!(parse_size("1.5 gb"), Err(SizeError::InvalidNumber));
    assert_eq!(parse_size("5 tb"), Err(SizeError::InvalidUnit));
    assert_eq!(parse_size("5 mbb"), Err(SizeError::InvalidUnit));
    assert_eq!(parse_size("18446744073709551616"), Err(SizeError::TooLarge));
    assert_eq!(parse_size("17179869184 gb"), Err(SizeError::TooLarge));
}
