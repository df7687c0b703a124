use nasm_rs::{parse_nasm_version, Build};

#[test]
fn test_parse_nasm_version() {
    let ver_str = "NASM version 2.14.02 compiled on Jan 22 2019";
    assert_eq!((2, 14, 2), parse_nasm_version(ver_str).unwrap());
    let ver_str = "NASM version 2.14.02";
    assert_eq!((2, 14, 2), parse_nasm_version(ver_str).unwrap());
    let ver_str = "NASM version 2.14 compiled on Jan 22 2019";
    assert_eq!((2, 14, 0), parse_nasm_version(ver_str).unwrap());
    let ver_str = "NASM version 2.14";
    assert_eq!((2, 14, 0), parse_nasm_version(ver_str).unwrap());
    let ver_str = "NASM version 2.14rc2";
    assert_eq!((2, 14, 0), parse_nasm_version(ver_str).unwrap());
}

#[test]
fn version_missing_word_is_error() {
    assert_eq!(
        parse_nasm_version("NASM version"),
        Err("Invalid nasm version 'NASM version'".to_string())
    );
    assert_eq!(parse_nasm_version(""), Err("Invalid nasm version ''".to_string()));
}

#[test]
fn version_without_numeric_major_is_error() {
    assert_eq!(
        parse_nasm_version("NASM version x.14"),
        Err("Invalid nasm version 'NASM version x.14'".to_string())
    );
    assert_eq!(
        parse_nasm_version("NASM version rc1"),
        Err("Invalid nasm version 'NASM version rc1'".to_string())
    );
}

#[test]
fn version_stops_at_first_non_numeric_part() {
    assert_eq!(parse_nasm_version("NASM version 2.x.5"), Ok((2, 0, 0)));
    assert_eq!(parse_nasm_version("NASM version 3.1.beta"), Ok((3, 1, 0)));
    assert_eq!(parse_nasm_version("NASM version 2.16.01.7"), Ok((2, 16, 1)));
    assert_eq!(parse_nasm_version("NASM version +2.+3"), Ok((2, 3, 0)));
}

#[test]
fn version_overflowing_major_is_error() {
    assert!(parse_nasm_version("NASM version 999999999999999999999999.1").is_err());
}

#[test]
fn version_check_accepts_new_enough() {
    let mut b = Build::new(None);
    b.min_version(2, 14, 2);
    assert_eq!(b.check_nasm_version("NASM version 2.14.02 compiled on Jan 22 2019"), Ok(()));
    assert_eq!(b.check_nasm_version("NASM version 2.15"), Ok(()));
    assert_eq!(b.check_nasm_version("NASM version 3.0.0"), Ok(()));
}

#[test]
fn version_check_default_minimum_is_one() {
    let b = Build::new(None);
    assert_eq!(b.check_nasm_version("NASM version 1.0"), Ok(()));
    assert_eq!(
        b.check_nasm_version("NASM version 0.98.39"),
        Err("This version of NASM is too old: NASM version 0.98.39. Required >= 1.0.0".to_string())
    );
}

#[test]
fn version_check_rejects_too_old() {
    let mut b = Build::new(None);
    b.min_version(2, 15, 10);
    assert_eq!(
        b.check_nasm_version("NASM version 2.14.02"),
        Err("This version of NASM is too old: NASM version 2.14.02. Required >= 2.15.10".to_string())
    );
    assert_eq!(
        b.check_nasm_version("NASM version 2.15.9"),
        Err("This version of NASM is too old: NASM version 2.15.9. Required >= 2.15.10".to_string())
    );
}

#[test]
fn version_check_reports_unreadable_banner() {
    let b = Build::new(None);
    assert_eq!(
        b.check_nasm_version("garbage"),
        Err("Invalid nasm version 'garbage'".to_string())
    );
}
