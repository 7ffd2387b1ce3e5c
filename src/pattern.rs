//! Regular-expression matching through the `regex` crate, and the patterns
//! the field extractors use.
use vstd::prelude::*;

verus! {

/// One match of a pattern: its capture groups (group 0 is the whole match;
/// `None` for a group that did not take part) and the byte span of the
/// whole match.
pub struct RegexCaptures {
    pub groups: Vec<Option<String>>,
    pub start: usize,
    pub end: usize,
}

/// The capture groups of the successive non-overlapping matches of
/// `pattern` in `text`, as `regex::Regex::captures_iter` finds them (none
/// for a pattern the crate does not accept).
pub uninterp spec fn regex_captures(pattern: Seq<char>, text: Seq<char>) -> Seq<Seq<Option<Seq<char>>>>;

pub open spec fn group_views(c: RegexCaptures) -> Seq<Option<Seq<char>>> {
    c.groups@.map_values(|g: Option<String>| match g {
        Some(s) => Some(s@),
        None => None,
    })
}

/// Relies on `regex::Regex::new` and `Regex::captures_iter`: the matches
/// depend on the pattern and the text alone.
#[verifier::external_body]
pub fn find_captures(pattern: &str, text: &str) -> (r: Vec<RegexCaptures>)
    ensures
        r@.map_values(|c: RegexCaptures| group_views(c)) == regex_captures(pattern@, text@),
{
    match regex::Regex::new(pattern) {
        Ok(re) => re.captures_iter(text).map(|c| RegexCaptures {
            groups: c.iter().map(|g| g.map(|m| m.as_str().to_string())).collect(),
            start: c.get(0).map_or(0, |m| m.start()),
            end: c.get(0).map_or(0, |m| m.end()),
        }).collect(),
        Err(_) => Vec::new(),
    }
}

/// Group `i` of a match, empty where it did not take part.
pub open spec fn group(c: Seq<Option<Seq<char>>>, i: int) -> Seq<char> {
    if 0 <= i < c.len() {
        match c[i] {
            Some(s) => s,
            None => seq![],
        }
    } else {
        seq![]
    }
}

/// Group `i` of a match, empty where it did not take part.
pub fn group_text(c: &RegexCaptures, i: usize) -> (r: String)
    ensures
        r@ == group(group_views(*c), i as int),
{
    if i < c.groups.len() {
        match &c.groups[i] {
            Some(s) => s.clone(),
            None => String::new(),
        }
    } else {
        String::new()
    }
}

/// Labelled NIP: `NIP` or `N.I.P.` then ten digits in groups 3-3-2-2.
pub const NIP_PATTERN: &'static str = r"(?i)(?:NIP|N\.I\.P\.?)[\s:]*(\d{3})[- ]?(\d{3})[- ]?(\d{2})[- ]?(\d{2})";

/// Ten digits in groups 3-3-2-2 standing alone.
pub const NIP_STANDALONE: &'static str = r"\b(\d{3})[- ]?(\d{3})[- ]?(\d{2})[- ]?(\d{2})\b";

/// Labelled REGON of nine or fourteen digits.
pub const REGON_PATTERN: &'static str = r"(?i)(?:REGON|REG\.?)[\s:]*(\d{9}|\d{14})";

/// Nine or fourteen digits standing alone.
pub const REGON_STANDALONE: &'static str = r"\b(\d{9})\b|\b(\d{14})\b";

/// A Polish IBAN, the country code optional.
pub const IBAN_PATTERN: &'static str = r"(?i)(?:IBAN[\s:]*)?(PL)?[\s]?(\d{2})[\s]?(\d{4})[\s]?(\d{4})[\s]?(\d{4})[\s]?(\d{4})[\s]?(\d{4})[\s]?(\d{4})";

/// The rest of the line after a bank-account label.
pub const BANK_ACCOUNT: &'static str = r"(?i)(?:(?:nr|numer)\s+(?:konta|rachunku)|rachunek\s+bankowy|konto)[\s:]*(.+?)(?:\n|$)";

/// A VAT rate token.
pub const VAT_RATE: &'static str = r"(?i)(23|8|5|0|zw\.?|np\.?|oo)%?";

/// An amount with two decimals, thousands optionally separated by spaces.
pub const AMOUNT_PATTERN: &'static str = r"(\d{1,3}(?:[\s\u{00a0}]?\d{3})*)[,.](\d{2})\b";

/// Day, month and year (four or two digits) separated by `.`, `/` or `-`.
pub const DATE_DMY: &'static str = r"\b(\d{1,2})[./\-](\d{1,2})[./\-](\d{4}|\d{2})\b";

/// Year, month and day separated by `.`, `/` or `-`.
pub const DATE_YMD: &'static str = r"\b(\d{4})[./\-](\d{1,2})[./\-](\d{1,2})\b";

/// Day, Polish month name in the genitive, year.
pub const DATE_POLISH_LONG: &'static str = r"(\d{1,2})\s+(stycznia|lutego|marca|kwietnia|maja|czerwca|lipca|sierpnia|września|października|listopada|grudnia)\s+(\d{4})";

/// The rest of the line after an issue-date label.
pub const ISSUE_DATE: &'static str = r"(?i)(?:data\s+(?:wystawienia|faktury)|wystawion[ao]?\s+dnia?)[\s:]*(.+?)(?:\n|$)";

/// The rest of the line after a sale- or delivery-date label.
pub const SALE_DATE: &'static str = r"(?i)(?:data\s+sprzeda[żz]y|data\s+dostawy|data\s+wykonania)[\s:]*(.+?)(?:\n|$)";

/// The rest of the line after a payment-due label.
pub const DUE_DATE: &'static str = r"(?i)(?:termin\s+p[łl]atno[śs]ci|termin\s+zap[łl]aty|p[łl]atne?\s+do)[\s:]*(.+?)(?:\n|$)";

} // verus!
