use incr_ocr::dates::{extract_dates, parse_year, polish_month_to_number, Date, DateExtractor};

fn date(year: i32, month: u32, day: u32) -> Date {
    Date::from_ymd(year, month, day).unwrap()
}

#[test]
fn test_extract_date_dmy() {
    let extractor = DateExtractor::new();
    let result = extractor.extract("15.01.2024");
    assert!(result.is_some());
    assert_eq!(result.unwrap().value, date(2024, 1, 15));
}

#[test]
fn test_extract_date_ymd() {
    let extractor = DateExtractor::new();
    let result = extractor.extract("2024-01-15");
    assert!(result.is_some());
    assert_eq!(result.unwrap().value, date(2024, 1, 15));
}

#[test]
fn test_extract_date_polish_long() {
    let extractor = DateExtractor::new();
    let result = extractor.extract("15 stycznia 2024");
    assert!(result.is_some());
    assert_eq!(result.unwrap().value, date(2024, 1, 15));
}

#[test]
fn test_extract_labeled_dates() {
    let text = r#"
            Faktura VAT nr FV/001/2024
            Data wystawienia: 15.01.2024
            Data sprzedaży: 10.01.2024
            Termin płatności: 29.01.2024
        "#;
    let dates = extract_dates(text);
    assert!(dates.issue_date.is_some());
    assert_eq!(dates.issue_date.unwrap().value, date(2024, 1, 15));
    assert!(dates.sale_date.is_some());
    assert_eq!(dates.sale_date.unwrap().value, date(2024, 1, 10));
    assert!(dates.due_date.is_some());
    assert_eq!(dates.due_date.unwrap().value, date(2024, 1, 29));
}

#[test]
fn test_two_digit_year() {
    let extractor = DateExtractor::new();
    let result = extractor.extract("15.01.24");
    assert!(result.is_some());
    assert_eq!(result.unwrap().value, date(2024, 1, 15));
}

#[test]
fn calendar_rules() {
    assert!(Date::from_ymd(2024, 2, 29).is_some());
    assert!(Date::from_ymd(2023, 2, 29).is_none());
    assert!(Date::from_ymd(1900, 2, 29).is_none());
    assert!(Date::from_ymd(2000, 2, 29).is_some());
    assert!(Date::from_ymd(2024, 4, 31).is_none());
    assert!(Date::from_ymd(2024, 13, 1).is_none());
    assert!(Date::from_ymd(2024, 1, 0).is_none());
}

#[test]
fn years_and_months() {
    assert_eq!(parse_year("24"), 2024);
    assert_eq!(parse_year("51"), 1951);
    assert_eq!(parse_year("1999"), 1999);
    assert_eq!(parse_year("x"), 2000);
    assert_eq!(polish_month_to_number("Września"), 9);
    assert_eq!(polish_month_to_number("GRUDNIA"), 12);
    assert_eq!(polish_month_to_number("styczeń"), 0);
}

#[test]
fn dates_are_not_repeated_across_forms() {
    let all = DateExtractor::new().extract_all("15.01.2024 i 2024-01-15 oraz 16 stycznia 2024, 31.02.2024");
    let values: Vec<Date> = all.into_iter().map(|m| m.value).collect();
    assert_eq!(values, vec![date(2024, 1, 15), date(2024, 1, 16)]);
}

#[test]
fn issue_date_falls_back_to_first_date() {
    let dates = extract_dates("Zamówienie z 03.02.2023, dostawa 2023-02-05");
    assert_eq!(dates.issue_date.unwrap().value, date(2023, 2, 3));
    assert!(dates.sale_date.is_none());
    assert!(dates.due_date.is_none());
}

#[test]
fn dates_from_given_matches() {
    use_given();
}

fn use_given() {
    let c = incr_ocr::pattern::RegexCaptures {
        groups: vec![Some("1 marca 2024".to_string()), Some("1".to_string()), Some("marca".to_string()), Some("2024".to_string())],
        start: 0,
        end: 12,
    };
    let mut results = Vec::new();
    incr_ocr::dates::append_dates_from(&mut results, &vec![c], incr_ocr::dates::DateForm::PolishLong, true, 950);
    assert_eq!(results.len(), 1);
    assert_eq!(results[0].value, date(2024, 3, 1));
    assert_eq!(incr_ocr::dates::month_from_lowered("października"), 10);
    assert_eq!(incr_ocr::dates::month_from_lowered("Marca"), 0);
}
