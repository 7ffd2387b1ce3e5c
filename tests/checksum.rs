use incr_ocr::checksum::{format_iban, format_nip, validate_iban, validate_nip, validate_regon};

#[test]
fn test_validate_nip_valid() {
    assert!(validate_nip("5261040828"));
    assert!(validate_nip("123-456-32-18"));
    assert!(validate_nip("123 456 32 18"));
}

#[test]
fn test_validate_nip_invalid() {
    assert!(!validate_nip("1234567890"));
    assert!(!validate_nip("123456789"));
    assert!(!validate_nip("12345678901"));
}

#[test]
fn test_format_nip() {
    assert_eq!(format_nip("5261040828"), "526-104-08-28");
    assert_eq!(format_nip("526-104-08-28"), "526-104-08-28");
}

#[test]
fn format_nip_keeps_input_without_ten_digits() {
    assert_eq!(format_nip("12-34"), "12-34");
    assert_eq!(format_nip(""), "");
}

#[test]
fn test_validate_regon_9_valid() {
    assert!(validate_regon("123456785"));
}

#[test]
fn test_validate_regon_invalid() {
    assert!(!validate_regon("123456789"));
    assert!(!validate_regon("12345678"));
    assert!(!validate_regon("1234567890"));
}

#[test]
fn regon_fourteen_digits() {
    // 9-digit base 123456785, then the 14-digit check digit.
    // weights 2,4,8,5,0,9,7,3,6,1,2,4,8 over 1234567850000 -> sum 2+8+24+20+0+54+49+24+30+0+0+0+0 = 211, 211 % 11 = 2
    assert!(validate_regon("12345678500002"));
    assert!(!validate_regon("12345678500003"));
}

#[test]
fn test_validate_iban_valid() {
    assert!(validate_iban("PL61109010140000071219812874"));
    assert!(validate_iban("PL 61 1090 1014 0000 0712 1981 2874"));
}

#[test]
fn test_validate_iban_invalid() {
    assert!(!validate_iban("PL00000000000000000000000000"));
    assert!(!validate_iban("PL123"));
}

#[test]
fn iban_lower_case_and_bad_characters() {
    assert!(validate_iban("pl61109010140000071219812874"));
    assert!(!validate_iban("PL61-1090-1014-0000-0712-1981-2874"));
    assert!(!validate_iban("1261109010140000071219812874"));
}

#[test]
fn test_format_iban() {
    let iban = "PL61109010140000071219812874";
    assert_eq!(format_iban(iban), "PL61 1090 1014 0000 0712 1981 2874");
}

#[test]
fn format_iban_regroups_spaced_input() {
    assert_eq!(format_iban("PL 6110 90"), "PL61 1090");
    assert_eq!(format_iban(""), "");
}
