//! Invoice value types read from the recognised text: VAT rates, payment
//! methods, parties and their addresses.
use vstd::prelude::*;
use crate::text::{
    chars_of, chars_eq, contains_seq, contains_str, decimal, decimal_chars, digit_value, is_digit_spec,
    lower_of, push_chars, push_str, string_of, to_lower, trim_chars, trimmed,
};

verus! {

/// Polish VAT rates.
#[derive(Clone, Copy, Debug, PartialEq, Eq, Structural)]
pub enum VatRate {
    Standard23,
    Reduced8,
    Reduced5,
    Zero,
    /// "zw": exempt.
    Exempt,
    /// "np": not subject to VAT.
    NotApplicable,
    /// "oo": reverse charge.
    ReverseCharge,
    /// Any other whole percentage.
    Other(u8),
}

#[derive(Clone, Copy, Debug, PartialEq, Eq, Structural)]
pub enum InvoiceType {
    Standard,
    Correction,
    Advance,
    Final,
    Proforma,
    Margin,
}

impl Default for InvoiceType {
    fn default() -> (r: Self)
        ensures
            r == InvoiceType::Standard,
    {
        InvoiceType::Standard
    }
}

/// Where the text of an invoice came from.
#[derive(Clone, Copy, Debug, PartialEq, Eq, Structural)]
pub enum SourceType {
    TextPdf,
    ImagePdf,
    HybridPdf,
    Image,
    ScannedWithLayout,
    Unknown,
}

impl Default for SourceType {
    fn default() -> (r: Self)
        ensures
            r == SourceType::Unknown,
    {
        SourceType::Unknown
    }
}

#[derive(Debug, PartialEq, Eq)]
pub enum PaymentMethod {
    Transfer,
    Cash,
    Card,
    Compensation,
    Other(String),
}

/// `s` without its trailing `%` signs.
pub open spec fn without_percent(s: Seq<char>) -> Seq<char>
    decreases s.len(),
{
    if s.len() > 0 && s.last() == '%' {
        without_percent(s.drop_last())
    } else {
        s
    }
}

/// The number spelt by decimal digits.
pub open spec fn digits_number(s: Seq<char>) -> int
    decreases s.len(),
{
    if s.len() == 0 {
        0
    } else {
        digits_number(s.drop_last()) * 10 + digit_value(s.last())
    }
}

pub open spec fn all_digits(s: Seq<char>) -> bool {
    forall|k: int| 0 <= k < s.len() ==> is_digit_spec(#[trigger] s[k])
}

/// An unsigned byte written in decimal, with an optional leading `+`.
pub open spec fn parse_u8_spec(s: Seq<char>) -> Option<u8> {
    let d = if s.len() > 0 && s[0] == '+' {
        s.drop_first()
    } else {
        s
    };
    if d.len() > 0 && all_digits(d) && digits_number(d) <= 255 {
        Some(digits_number(d) as u8)
    } else {
        None
    }
}

/// The VAT rate named by a normalised key.
pub open spec fn vat_rate_of(key: Seq<char>) -> Option<VatRate> {
    if key == "23"@ {
        Some(VatRate::Standard23)
    } else if key == "8"@ {
        Some(VatRate::Reduced8)
    } else if key == "5"@ {
        Some(VatRate::Reduced5)
    } else if key == "0"@ {
        Some(VatRate::Zero)
    } else if key == "zw"@ || key == "zw."@ || key == "zwolniony"@ || key == "zwolnione"@ {
        Some(VatRate::Exempt)
    } else if key == "np"@ || key == "np."@ || key == "nie podlega"@ {
        Some(VatRate::NotApplicable)
    } else if key == "oo"@ || key == "odwrotne obciążenie"@ {
        Some(VatRate::ReverseCharge)
    } else {
        match parse_u8_spec(key) {
            Some(v) => Some(VatRate::Other(v)),
            None => None,
        }
    }
}

pub open spec fn vat_display(r: VatRate) -> Seq<char> {
    match r {
        VatRate::Standard23 => "23%"@,
        VatRate::Reduced8 => "8%"@,
        VatRate::Reduced5 => "5%"@,
        VatRate::Zero => "0%"@,
        VatRate::Exempt => "zw."@,
        VatRate::NotApplicable => "np."@,
        VatRate::ReverseCharge => "oo"@,
        VatRate::Other(v) => decimal(v as nat) + "%"@,
    }
}

fn strip_percent(s: &Vec<char>) -> (r: Vec<char>)
    ensures
        r@ == without_percent(s@),
{
    let mut n = s.len();
    assert(s@.subrange(0, n as int) =~= s@);
    while n > 0 && s[n - 1] == '%'
        invariant
            n <= s.len(),
            without_percent(s@) == without_percent(s@.subrange(0, n as int)),
        decreases n,
    {
        assert(s@.subrange(0, n as int).drop_last() =~= s@.subrange(0, n - 1));
        n -= 1;
    }
    let mut r: Vec<char> = Vec::new();
    let mut i: usize = 0;
    while i < n
        invariant
            n <= s.len(),
            i <= n,
            r@ == s@.subrange(0, i as int),
        decreases n - i,
    {
        r.push(s[i]);
        i += 1;
        assert(r@ =~= s@.subrange(0, i as int));
    }
    r
}

/// Reads an unsigned byte: decimal digits with an optional leading `+`.
pub fn parse_u8(s: &Vec<char>) -> (r: Option<u8>)
    ensures
        r == parse_u8_spec(s@),
{
    let start: usize = if s.len() > 0 && s[0] == '+' {
        1
    } else {
        0
    };
    let ghost d = if s@.len() > 0 && s@[0] == '+' {
        s@.drop_first()
    } else {
        s@
    };
    assert(d =~= s@.subrange(start as int, s.len() as int));
    if start >= s.len() {
        return None;
    }
    let mut value: u32 = 0;
    let mut i: usize = start;
    while i < s.len()
        invariant
            start <= i <= s.len(),
            d == s@.subrange(start as int, s.len() as int),
            d == (if s@.len() > 0 && s@[0] == '+' {
                s@.drop_first()
            } else {
                s@
            }),
            all_digits(s@.subrange(start as int, i as int)),
            value as int == digits_number(s@.subrange(start as int, i as int)),
            value <= 255,
        decreases s.len() - i,
    {
        let c = s[i];
        assert(s@.subrange(start as int, i + 1).drop_last() =~= s@.subrange(start as int, i as int));
        if !('0' <= c && c <= '9') {
            assert(d[i - start] == c);
            assert(!is_digit_spec(d[i - start]));
            assert(!all_digits(d));
            return None;
        }
        let next = value * 10 + (c as u32 - '0' as u32);
        if next > 255 {
            proof {
                let pre = s@.subrange(start as int, i + 1);
                assert(pre.last() == c);
                assert(digits_number(pre) == digits_number(pre.drop_last()) * 10 + digit_value(c));
                assert(digits_number(pre) == next);
                assert(d.subrange(0, i + 1 - start) =~= pre);
                if all_digits(d) {
                    lemma_digits_number_prefix(d, (i + 1 - start) as nat);
                }
            }
            return None;
        }
        value = next;
        i += 1;
    }
    assert(s@.subrange(start as int, s.len() as int) == d);
    Some(value as u8)
}

pub proof fn lemma_digits_number_prefix(d: Seq<char>, n: nat)
    requires
        n <= d.len(),
        all_digits(d),
    ensures
        digits_number(d.subrange(0, n as int)) <= digits_number(d),
    decreases d.len(),
{
    if n < d.len() {
        let dl = d.drop_last();
        assert(all_digits(dl));
        lemma_digits_number_prefix(dl, n);
        assert(dl.subrange(0, n as int) =~= d.subrange(0, n as int));
        lemma_digits_number_nonneg(dl);
    } else {
        assert(d.subrange(0, n as int) =~= d);
    }
}

proof fn lemma_digits_number_nonneg(d: Seq<char>)
    requires
        all_digits(d),
    ensures
        digits_number(d) >= 0,
    decreases d.len(),
{
    if d.len() > 0 {
        assert(all_digits(d.drop_last()));
        lemma_digits_number_nonneg(d.drop_last());
    }
}

/// The rate named by a written rate: trimmed, lower-cased, trailing `%`
/// signs dropped.
pub open spec fn lower_of_trimmed_key(s: Seq<char>) -> Option<VatRate> {
    vat_rate_of(without_percent(lower_of(trimmed(s))))
}

impl VatRate {
    /// Reads a VAT rate: surrounding whitespace, letter case and trailing
    /// `%` signs are ignored; a plain number names `Other` unless it is one
    /// of the standard rates.
    pub fn from_str(s: &str) -> (r: Option<VatRate>)
        ensures
            r == vat_rate_of(without_percent(lower_of(trimmed(s@)))),
    {
        let t = trim_chars(&chars_of(s));
        let lowered = to_lower(string_of(&t).as_str());
        VatRate::from_lowered(lowered.as_str())
    }

    /// Reads a trimmed, lower-cased VAT rate; trailing `%` signs are
    /// ignored.
    pub fn from_lowered(lowered: &str) -> (r: Option<VatRate>)
        ensures
            r == vat_rate_of(without_percent(lowered@)),
    {
        let key = strip_percent(&chars_of(lowered));
        if chars_eq(&key, "23") {
            Some(VatRate::Standard23)
        } else if chars_eq(&key, "8") {
            Some(VatRate::Reduced8)
        } else if chars_eq(&key, "5") {
            Some(VatRate::Reduced5)
        } else if chars_eq(&key, "0") {
            Some(VatRate::Zero)
        } else if chars_eq(&key, "zw") || chars_eq(&key, "zw.") || chars_eq(&key, "zwolniony") || chars_eq(
            &key,
            "zwolnione",
        ) {
            Some(VatRate::Exempt)
        } else if chars_eq(&key, "np") || chars_eq(&key, "np.") || chars_eq(&key, "nie podlega") {
            Some(VatRate::NotApplicable)
        } else if chars_eq(&key, "oo") || chars_eq(&key, "odwrotne obciążenie") {
            Some(VatRate::ReverseCharge)
        } else {
            match parse_u8(&key) {
                Some(v) => Some(VatRate::Other(v)),
                None => None,
            }
        }
    }

    /// The usual written form: `23%`, `zw.`, `np.`, `oo`, ...
    pub fn display(&self) -> (r: String)
        ensures
            r@ == vat_display(*self),
    {
        match self {
            VatRate::Standard23 => String::from_str("23%"),
            VatRate::Reduced8 => String::from_str("8%"),
            VatRate::Reduced5 => String::from_str("5%"),
            VatRate::Zero => String::from_str("0%"),
            VatRate::Exempt => String::from_str("zw."),
            VatRate::NotApplicable => String::from_str("np."),
            VatRate::ReverseCharge => String::from_str("oo"),
            VatRate::Other(v) => {
                let mut out = decimal_chars(*v as usize);
                push_str(&mut out, "%");
                string_of(&out)
            },
        }
    }
}

/// Keyword test of a normalised payment description.
pub open spec fn is_transfer(s: Seq<char>) -> bool {
    contains_seq(s, "przelew"@) || contains_seq(s, "transfer"@) || contains_seq(s, "bank"@)
}

pub open spec fn is_cash(s: Seq<char>) -> bool {
    contains_seq(s, "gotówk"@) || contains_seq(s, "cash"@) || contains_seq(s, "gotowk"@)
}

pub open spec fn is_card(s: Seq<char>) -> bool {
    contains_seq(s, "kart"@) || contains_seq(s, "card"@)
}

pub open spec fn is_compensation(s: Seq<char>) -> bool {
    contains_seq(s, "kompensat"@) || contains_seq(s, "barter"@)
}

impl PaymentMethod {
    /// Classifies a payment description by keywords (Polish or English),
    /// after trimming and lower-casing it; the first matching kind among
    /// transfer, cash, card and compensation wins, else `Other` keeps the
    /// normalised text.
    pub fn from_str(s: &str) -> (r: PaymentMethod)
        ensures
            ({
                let k = lower_of(trimmed(s@));
                match r {
                    PaymentMethod::Transfer => is_transfer(k),
                    PaymentMethod::Cash => !is_transfer(k) && is_cash(k),
                    PaymentMethod::Card => !is_transfer(k) && !is_cash(k) && is_card(k),
                    PaymentMethod::Compensation => !is_transfer(k) && !is_cash(k) && !is_card(k)
                        && is_compensation(k),
                    PaymentMethod::Other(o) => !is_transfer(k) && !is_cash(k) && !is_card(k)
                        && !is_compensation(k) && o@ == k,
                }
            }),
    {
        let t = trim_chars(&chars_of(s));
        let lowered = to_lower(string_of(&t).as_str());
        PaymentMethod::from_lowered(lowered)
    }

    /// Classifies a trimmed, lower-cased payment description by keywords;
    /// `Other` keeps the text.
    pub fn from_lowered(lowered: String) -> (r: PaymentMethod)
        ensures
            ({
                let k = lowered@;
                match r {
                    PaymentMethod::Transfer => is_transfer(k),
                    PaymentMethod::Cash => !is_transfer(k) && is_cash(k),
                    PaymentMethod::Card => !is_transfer(k) && !is_cash(k) && is_card(k),
                    PaymentMethod::Compensation => !is_transfer(k) && !is_cash(k) && !is_card(k)
                        && is_compensation(k),
                    PaymentMethod::Other(o) => !is_transfer(k) && !is_cash(k) && !is_card(k)
                        && !is_compensation(k) && o@ == k,
                }
            }),
    {
        let k = chars_of(lowered.as_str());
        if contains_str(&k, "przelew") || contains_str(&k, "transfer") || contains_str(&k, "bank") {
            PaymentMethod::Transfer
        } else if contains_str(&k, "gotówk") || contains_str(&k, "cash") || contains_str(&k, "gotowk") {
            PaymentMethod::Cash
        } else if contains_str(&k, "kart") || contains_str(&k, "card") {
            PaymentMethod::Card
        } else if contains_str(&k, "kompensat") || contains_str(&k, "barter") {
            PaymentMethod::Compensation
        } else {
            PaymentMethod::Other(lowered)
        }
    }
}

pub struct Address {
    pub street: Option<String>,
    pub postal_code: Option<String>,
    pub city: Option<String>,
    pub country: Option<String>,
    /// The address as written, used as it stands when present.
    pub raw: Option<String>,
}

pub struct Party {
    pub name: String,
    pub nip: Option<String>,
    pub regon: Option<String>,
    pub address: Address,
    pub bank_account: Option<String>,
    pub bank_name: Option<String>,
    pub email: Option<String>,
    pub phone: Option<String>,
    pub website: Option<String>,
}

/// `parts` joined by `", "`.
pub open spec fn comma_joined(parts: Seq<Seq<char>>) -> Seq<char>
    decreases parts.len(),
{
    if parts.len() == 0 {
        seq![]
    } else if parts.len() == 1 {
        parts[0]
    } else {
        comma_joined(parts.drop_last()) + ", "@ + parts.last()
    }
}

/// A country other than Poland, which a Polish address names.
pub open spec fn foreign_country(c: Seq<char>) -> bool {
    c != "Polska"@ && c != "Poland"@ && c != "PL"@
}

/// The parts of a formatted address: the street; the postal code and city
/// (or the city alone); the country unless it is Poland.
pub open spec fn address_parts(a: Address) -> Seq<Seq<char>> {
    let p1: Seq<Seq<char>> = match a.street {
        Some(st) => seq![st@],
        None => seq![],
    };
    let p2: Seq<Seq<char>> = match (a.postal_code, a.city) {
        (Some(pc), Some(c)) => p1.push(pc@ + " "@ + c@),
        (None, Some(c)) => p1.push(c@),
        _ => p1,
    };
    match a.country {
        Some(c) => if foreign_country(c@) {
            p2.push(c@)
        } else {
            p2
        },
        None => p2,
    }
}

pub open spec fn address_text(a: Address) -> Seq<char> {
    match a.raw {
        Some(r) => r@,
        None => comma_joined(address_parts(a)),
    }
}

fn push_part(parts: &mut Vec<Vec<char>>, part: Vec<char>)
    ensures
        final(parts)@.map_values(|p: Vec<char>| p@) == old(parts)@.map_values(|p: Vec<char>| p@).push(part@),
{
    parts.push(part);
    assert(parts@.map_values(|p: Vec<char>| p@) =~= old(parts)@.map_values(|p: Vec<char>| p@).push(part@));
}

impl Address {
    /// No street, postal code, city or written form (the country alone does
    /// not count).
    pub fn is_empty(&self) -> (b: bool)
        ensures
            b == (self.street.is_none() && self.postal_code.is_none() && self.city.is_none()
                && self.raw.is_none()),
    {
        self.street.is_none() && self.postal_code.is_none() && self.city.is_none() && self.raw.is_none()
    }

    /// One line: the written form if present, else street, postal code and
    /// city, and a foreign country, separated by commas.
    pub fn format(&self) -> (r: String)
        ensures
            r@ == address_text(*self),
    {
        if let Some(raw) = &self.raw {
            return raw.clone();
        }
        let mut parts: Vec<Vec<char>> = Vec::new();
        if let Some(street) = &self.street {
            push_part(&mut parts, chars_of(street.as_str()));
        }
        match (&self.postal_code, &self.city) {
            (Some(pc), Some(c)) => {
                let mut v = chars_of(pc.as_str());
                push_str(&mut v, " ");
                push_chars(&mut v, &chars_of(c.as_str()));
                push_part(&mut parts, v);
            },
            (None, Some(c)) => {
                push_part(&mut parts, chars_of(c.as_str()));
            },
            _ => {},
        }
        if let Some(c) = &self.country {
            let cc = chars_of(c.as_str());
            if !chars_eq(&cc, "Polska") && !chars_eq(&cc, "Poland") && !chars_eq(&cc, "PL") {
                push_part(&mut parts, cc);
            }
        }
        assert(parts@.map_values(|p: Vec<char>| p@) =~= address_parts(*self));
        let ghost ps = parts@.map_values(|p: Vec<char>| p@);
        let mut out: Vec<char> = Vec::new();
        let mut i: usize = 0;
        while i < parts.len()
            invariant
                ps == parts@.map_values(|p: Vec<char>| p@),
                i <= parts.len(),
                out@ == comma_joined(ps.subrange(0, i as int)),
            decreases parts.len() - i,
        {
            assert(ps.subrange(0, i + 1).drop_last() =~= ps.subrange(0, i as int));
            if i > 0 {
                push_str(&mut out, ", ");
            }
            push_chars(&mut out, &parts[i]);
            i += 1;
            assert(out@ =~= comma_joined(ps.subrange(0, i as int)));
        }
        assert(ps.subrange(0, parts.len() as int) =~= ps);
        string_of(&out)
    }
}

} // verus!
