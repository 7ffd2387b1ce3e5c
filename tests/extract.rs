use incr_ocr::extract::{
    extract_iban, extract_nip, extract_regon, AmountExtractor, IbanExtractor, NipExtractor, RegonExtractor,
    VatExtractor, Amount,
};
use incr_ocr::invoice::VatRate;

#[test]
fn test_extract_nip_labeled() {
    let text = "Sprzedawca: ABC Sp. z o.o.\nNIP: 526-104-08-28\nWarszawa";
    let nip = extract_nip(text);
    assert_eq!(nip, Some("5261040828".to_string()));
}

#[test]
fn test_extract_nip_standalone() {
    let text = "Firma ABC, 526-104-08-28, ul. Przykładowa 1";
    let extractor = NipExtractor::new();
    let results = extractor.extract_all(text);
    assert!(!results.is_empty());
}

#[test]
fn nip_labelled_and_standalone_are_not_repeated() {
    let text = "NIP: 526-104-08-28";
    let results = NipExtractor::new().extract_all(text);
    assert_eq!(results.len(), 1);
    assert_eq!(results[0].value, "5261040828");
    assert_eq!(results[0].confidence, 950);
    assert_eq!(results[0].position, Some((0, 18)));
    assert_eq!(results[0].source, "NIP: 526-104-08-28");
}

#[test]
fn nip_validation_filters_bad_checksums() {
    let text = "NIP 1234567890";
    assert_eq!(extract_nip(text), None);
    let results = NipExtractor::new().with_validation(false).extract_all(text);
    assert_eq!(results[0].value, "1234567890");
}

#[test]
fn test_extract_regon_labeled() {
    let text = "REGON: 123456785\nWarszawa";
    let regon = extract_regon(text);
    assert!(regon.is_some());
}

#[test]
fn test_extract_regon_case_insensitive() {
    let text = "regon 123456785";
    let extractor = RegonExtractor::new().with_validation(false);
    let results = extractor.extract_all(text);
    assert!(!results.is_empty());
}

#[test]
fn regon_value_and_confidence() {
    assert_eq!(extract_regon("REGON: 123456785"), Some("123456785".to_string()));
    let results = RegonExtractor::new().extract_all("numer 123456785 koniec");
    assert_eq!(results.len(), 1);
    assert_eq!(results[0].confidence, 600);
}

#[test]
fn test_extract_iban() {
    let text = "Numer konta: PL61 1090 1014 0000 0712 1981 2874";
    let iban = extract_iban(text);
    assert!(iban.is_some());
}

#[test]
fn iban_value_is_compact() {
    let text = "Numer konta: PL61 1090 1014 0000 0712 1981 2874";
    assert_eq!(extract_iban(text), Some("PL61109010140000071219812874".to_string()));
}

#[test]
fn test_extract_bank_account() {
    let text = "Rachunek bankowy: 61 1090 1014 0000 0712 1981 2874";
    let extractor = IbanExtractor::new().with_validation(false);
    let _results = extractor.extract_all(text);
}

#[test]
fn bank_account_without_country_becomes_polish_iban() {
    let text = "Rachunek bankowy: 61 1090 1014 0000 0712 1981 2874";
    let results = IbanExtractor::new().extract_all(text);
    assert_eq!(results[0].value, "PL61109010140000071219812874");
}

#[test]
fn test_extract_vat_rates() {
    let extractor = VatExtractor::new();
    let text = "VAT 23% i VAT 8% oraz zw.";
    let results = extractor.extract_all(text);
    assert_eq!(results.len(), 3);
    let rates: Vec<VatRate> = results.into_iter().map(|r| r.value).collect();
    assert!(rates.contains(&VatRate::Standard23));
    assert!(rates.contains(&VatRate::Reduced8));
    assert!(rates.contains(&VatRate::Exempt));
}

#[test]
fn vat_rates_are_listed_once() {
    let results = VatExtractor::new().extract_all("23% 23% 8%");
    let rates: Vec<VatRate> = results.into_iter().map(|r| r.value).collect();
    assert_eq!(rates, vec![VatRate::Standard23, VatRate::Reduced8]);
}

#[test]
fn test_extract_all_amounts() {
    let extractor = AmountExtractor::new();
    let text = "Cena: 100,00 zł, Razem: 1 234,56 zł";
    let results = extractor.extract_all(text);
    assert_eq!(results.len(), 2);
}

#[test]
fn amounts_keep_their_units() {
    let results = AmountExtractor::new().extract_all("Cena: 100,00 zł, Razem: 1 234,56 zł");
    assert_eq!(results[0].value, Amount { units: 10000, scale: 2 });
    assert_eq!(results[1].value, Amount { units: 123456, scale: 2 });
    assert_eq!(results[1].confidence, 800);
}

fn caps(groups: Vec<Option<&str>>) -> incr_ocr::pattern::RegexCaptures {
    incr_ocr::pattern::RegexCaptures {
        groups: groups.into_iter().map(|g| g.map(|s| s.to_string())).collect(),
        start: 0,
        end: 0,
    }
}

#[test]
fn nip_candidates_from_given_matches() {
    let given = vec![caps(vec![Some("x"), Some("526"), Some("104"), Some("08"), Some("28")]), caps(vec![Some("y"), Some("123"), Some("456"), Some("78"), Some("90")])];
    let (values, ok) = incr_ocr::extract::nip_candidates(&given, true);
    assert_eq!(values, vec!["5261040828".to_string(), "1234567890".to_string()]);
    assert_eq!(ok, vec![true, false]);
}

#[test]
fn append_kept_skips_repeats_when_asked() {
    let given = vec![caps(vec![Some("a")]), caps(vec![Some("b")]), caps(vec![Some("c")])];
    let values = vec!["1".to_string(), "1".to_string(), "2".to_string()];
    let mut results = Vec::new();
    incr_ocr::extract::append_kept(&mut results, &given, &values, &vec![true, true, false], true, 500);
    assert_eq!(results.len(), 1);
    assert_eq!(results[0].value, "1");
    assert_eq!(results[0].source, "a");
    assert_eq!(results[0].confidence, 500);
}

#[test]
fn regon_and_iban_candidates_from_given_matches() {
    let (v, ok) = incr_ocr::extract::regon_candidates(&vec![caps(vec![Some("x"), None, Some("12345678500002")])], true, true);
    assert_eq!(v, vec!["12345678500002".to_string()]);
    assert_eq!(ok, vec![true]);
    let g = caps(vec![Some("x"), None, Some("61"), Some("1090"), Some("1014"), Some("0000"), Some("0712"), Some("1981"), Some("2874")]);
    assert_eq!(incr_ocr::extract::iban_of(&g), "PL61109010140000071219812874");
    let (v, ok) = incr_ocr::extract::account_candidates(&vec![caps(vec![Some("x"), Some(" 61 1090 1014 0000 0712 1981 2874 ")])], true);
    assert_eq!(v, vec!["PL61109010140000071219812874".to_string()]);
    assert_eq!(ok, vec![true]);
}

#[test]
fn rates_and_amounts_from_given_matches() {
    let rates = incr_ocr::extract::vat_rates_from(&vec![caps(vec![Some("8%"), Some("8")]), caps(vec![Some("ZW"), Some("ZW")]), caps(vec![Some("8"), Some("8")])]);
    let rates: Vec<VatRate> = rates.into_iter().map(|r| r.value).collect();
    assert_eq!(rates, vec![VatRate::Reduced8, VatRate::Exempt]);
    let amounts = incr_ocr::extract::amounts_from(&vec![caps(vec![Some("1 234,56"), Some("1 234"), Some("56")]), caps(vec![Some("x"), Some("1\t234"), Some("56")])]);
    assert_eq!(amounts.len(), 1);
    assert_eq!(amounts[0].value, Amount { units: 123456, scale: 2 });
}
