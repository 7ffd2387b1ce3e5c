use incr_ocr::invoice::{Address, PaymentMethod, VatRate};

#[test]
fn test_vat_rate_parsing() {
    assert_eq!(VatRate::from_str("23%"), Some(VatRate::Standard23));
    assert_eq!(VatRate::from_str("23"), Some(VatRate::Standard23));
    assert_eq!(VatRate::from_str("8%"), Some(VatRate::Reduced8));
    assert_eq!(VatRate::from_str("zw"), Some(VatRate::Exempt));
    assert_eq!(VatRate::from_str("ZW."), Some(VatRate::Exempt));
    assert_eq!(VatRate::from_str("np"), Some(VatRate::NotApplicable));
}

#[test]
fn vat_rate_other_values() {
    assert_eq!(VatRate::from_str(" 7 % "), None);
    assert_eq!(VatRate::from_str(" 7%% "), Some(VatRate::Other(7)));
    assert_eq!(VatRate::from_str("+12"), Some(VatRate::Other(12)));
    assert_eq!(VatRate::from_str("256"), None);
    assert_eq!(VatRate::from_str("ODWROTNE OBCIĄŻENIE"), Some(VatRate::ReverseCharge));
    assert_eq!(VatRate::from_str("abc"), None);
}

#[test]
fn vat_rate_display() {
    assert_eq!(VatRate::Standard23.display(), "23%");
    assert_eq!(VatRate::Exempt.display(), "zw.");
    assert_eq!(VatRate::Other(17).display(), "17%");
}

#[test]
fn test_payment_method_parsing() {
    assert_eq!(PaymentMethod::from_str("przelew bankowy"), PaymentMethod::Transfer);
    assert_eq!(PaymentMethod::from_str("gotówka"), PaymentMethod::Cash);
    assert_eq!(PaymentMethod::from_str("karta płatnicza"), PaymentMethod::Card);
}

#[test]
fn payment_method_other_keeps_normalised_text() {
    assert_eq!(PaymentMethod::from_str("  Barter "), PaymentMethod::Compensation);
    assert_eq!(PaymentMethod::from_str(" Czek "), PaymentMethod::Other("czek".to_string()));
}

#[test]
fn test_address_format() {
    let addr = Address {
        street: Some("ul. Przykładowa 1".to_string()),
        postal_code: Some("00-001".to_string()),
        city: Some("Warszawa".to_string()),
        country: Some("Polska".to_string()),
        raw: None,
    };
    assert_eq!(addr.format(), "ul. Przykładowa 1, 00-001 Warszawa");
}

#[test]
fn address_raw_and_foreign_country() {
    let raw = Address { street: None, postal_code: None, city: None, country: None, raw: Some("somewhere".to_string()) };
    assert_eq!(raw.format(), "somewhere");
    assert!(!raw.is_empty());
    let foreign = Address {
        street: None,
        postal_code: None,
        city: Some("Berlin".to_string()),
        country: Some("Niemcy".to_string()),
        raw: None,
    };
    assert_eq!(foreign.format(), "Berlin, Niemcy");
    let empty = Address { street: None, postal_code: None, city: None, country: Some("PL".to_string()), raw: None };
    assert!(empty.is_empty());
    assert_eq!(empty.format(), "");
}

#[test]
fn lowered_forms() {
    assert_eq!(VatRate::from_lowered("zw.%"), Some(VatRate::Exempt));
    assert_eq!(VatRate::from_lowered("ZW"), None);
    assert_eq!(PaymentMethod::from_lowered("karta".to_string()), PaymentMethod::Card);
    assert_eq!(PaymentMethod::from_lowered("czek".to_string()), PaymentMethod::Other("czek".to_string()));
}

#[test]
fn whitespace_matches_std() {
    for u in 0u32..0x3100 {
        if let Some(c) = char::from_u32(u) {
            assert_eq!(incr_ocr::text::is_whitespace_char(c), c.is_whitespace(), "{:x}", u);
        }
    }
}
