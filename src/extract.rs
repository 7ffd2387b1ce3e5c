//! Rule-based extraction of identifiers, VAT rates and amounts from
//! recognised invoice text.
use vstd::prelude::*;
use crate::checksum::{iban_valid, nip_digits_valid, regon_digits_valid, digit_values, validate_iban, validate_nip, validate_regon};
use crate::invoice::{all_digits, digits_number, lower_of_trimmed_key, VatRate};
use crate::pattern::{
    find_captures, group, group_text, group_views, regex_captures, RegexCaptures, AMOUNT_PATTERN,
    BANK_ACCOUNT, IBAN_PATTERN, NIP_PATTERN, NIP_STANDALONE, REGON_PATTERN, REGON_STANDALONE, VAT_RATE,
};
use crate::text::{chars_of, digit_chars, digits_only, push_chars, push_str, string_of, trim_chars, trimmed};

verus! {

/// An extracted value with its confidence (thousandths), the byte span of
/// the match in the text, and the matched text.
pub struct ExtractionMatch<T> {
    pub value: T,
    pub confidence: u32,
    pub position: Option<(usize, usize)>,
    pub source: String,
}

impl<T> ExtractionMatch<T> {
    pub fn new(value: T, confidence: u32, source: String) -> (r: Self)
        ensures
            r.value == value,
            r.confidence == confidence,
            r.position.is_none(),
            r.source == source,
    {
        ExtractionMatch { value, confidence, position: None, source }
    }

    pub fn with_position(self, start: usize, end: usize) -> (r: Self)
        ensures
            r.value == self.value,
            r.confidence == self.confidence,
            r.position == Some((start, end)),
            r.source == self.source,
    {
        ExtractionMatch { position: Some((start, end)), ..self }
    }
}

/// Failures of field extraction.
#[derive(Debug)]
pub enum ExtractionError {
    MissingField(String),
    Validation { field: String, reason: String },
    Parse { field: String, value: String },
    NoData,
}

/// Extractors of one kind of field from text.
pub trait FieldExtractor {
    type Output;

    /// The first occurrence of the field.
    fn extract(&self, text: &str) -> Option<Self::Output>;

    /// Every occurrence of the field, in the extractor's order.
    fn extract_all(&self, text: &str) -> Vec<Self::Output>;
}

pub open spec fn values_of(rs: Seq<ExtractionMatch<String>>) -> Seq<Seq<char>> {
    rs.map_values(|m: ExtractionMatch<String>| m.value@)
}

/// The candidates among the first `n` that are accepted and, where `dedup`
/// holds, equal neither a value in `before` nor an earlier kept one.
pub open spec fn kept_values(cands: Seq<Seq<char>>, ok: Seq<bool>, before: Seq<Seq<char>>, dedup: bool, n: nat) -> Seq<Seq<char>>
    decreases n,
{
    if n == 0 {
        seq![]
    } else {
        let acc = kept_values(cands, ok, before, dedup, (n - 1) as nat);
        if ok[n - 1] && !(dedup && (before + acc).contains(cands[n - 1])) {
            acc.push(cands[n - 1])
        } else {
            acc
        }
    }
}

fn contains_value(rs: &Vec<ExtractionMatch<String>>, v: &String) -> (b: bool)
    ensures
        b == values_of(rs@).contains(v@),
{
    let mut i: usize = 0;
    while i < rs.len()
        invariant
            i <= rs.len(),
            forall|k: int| 0 <= k < i ==> rs@[k].value@ != v@,
        decreases rs.len() - i,
    {
        if rs[i].value == *v {
            assert(values_of(rs@)[i as int] == v@);
            return true;
        }
        i += 1;
    }
    assert(!values_of(rs@).contains(v@)) by {
        if values_of(rs@).contains(v@) {
            let k = choose|k: int| 0 <= k < values_of(rs@).len() && values_of(rs@)[k] == v@;
            assert(rs@[k].value@ == v@);
        }
    }
    false
}

/// Appends, for each match whose candidate is kept, the candidate with the
/// given confidence, the match's span and its text.
pub fn append_kept(
    results: &mut Vec<ExtractionMatch<String>>,
    caps: &Vec<RegexCaptures>,
    cands: &Vec<String>,
    ok: &Vec<bool>,
    dedup: bool,
    confidence: u32,
)
    requires
        caps.len() == cands.len(),
        cands.len() == ok.len(),
    ensures
        values_of(final(results)@) == values_of(old(results)@) + kept_values(
            cands@.map_values(|s: String| s@),
            ok@,
            values_of(old(results)@),
            dedup,
            cands.len() as nat,
        ),
        forall|k: int| 0 <= k < old(results).len() ==> final(results)@[k] == old(results)@[k],
        forall|k: int|
            old(results).len() <= k < final(results).len() ==> (#[trigger] final(results)@[k]).confidence
                == confidence,
{
    let ghost before = values_of(results@);
    let ghost start = results@;
    let ghost cv = cands@.map_values(|s: String| s@);
    let mut i: usize = 0;
    while i < cands.len()
        invariant
            caps.len() == cands.len(),
            cands.len() == ok.len(),
            cv == cands@.map_values(|s: String| s@),
            i <= cands.len(),
            start.len() <= results.len(),
            forall|k: int| 0 <= k < start.len() ==> results@[k] == start[k],
            values_of(results@) == before + kept_values(cv, ok@, before, dedup, i as nat),
            forall|k: int| start.len() <= k < results.len() ==> (#[trigger] results@[k]).confidence == confidence,
        decreases cands.len() - i,
    {
        let ghost acc = kept_values(cv, ok@, before, dedup, i as nat);
        let dup = dedup && contains_value(results, &cands[i]);
        if ok[i] && !dup {
            let c = &caps[i];
            let m = ExtractionMatch::new(cands[i].clone(), confidence, group_text(c, 0)).with_position(
                c.start,
                c.end,
            );
            let ghost prev = results@;
            results.push(m);
            assert(results@ == prev.push(m));
            assert(values_of(prev.push(m)) =~= values_of(prev).push(cv[i as int]));
            assert(kept_values(cv, ok@, before, dedup, (i + 1) as nat) == acc.push(cv[i as int]));
        } else {
            assert(kept_values(cv, ok@, before, dedup, (i + 1) as nat) == acc);
        }
        i += 1;
        assert(values_of(results@) =~= before + kept_values(cv, ok@, before, dedup, i as nat));
    }
}

pub open spec fn caps_of(pattern: Seq<char>, text: Seq<char>) -> Seq<Seq<Option<Seq<char>>>> {
    regex_captures(pattern, text)
}

// ---- NIP ----

pub open spec fn nip_candidate(c: Seq<Option<Seq<char>>>) -> Seq<char> {
    group(c, 1) + group(c, 2) + group(c, 3) + group(c, 4)
}

pub open spec fn nip_ok(validate: bool, v: Seq<char>) -> bool {
    !validate || nip_digits_valid(digit_values(digit_chars(v)))
}

/// NIP values found in `text`: labelled ones first (confidence 950), then
/// standalone ones not found already (confidence 700); with validation only
/// checksum-valid ones.
pub open spec fn nip_values(validate: bool, text: Seq<char>) -> Seq<Seq<char>> {
    let c1 = caps_of(NIP_PATTERN@, text).map_values(|c: Seq<Option<Seq<char>>>| nip_candidate(c));
    let c2 = caps_of(NIP_STANDALONE@, text).map_values(|c: Seq<Option<Seq<char>>>| nip_candidate(c));
    let k1 = kept_values(c1, c1.map_values(|v: Seq<char>| nip_ok(validate, v)), seq![], false, c1.len());
    k1 + kept_values(c2, c2.map_values(|v: Seq<char>| nip_ok(validate, v)), k1, true, c2.len())
}

pub fn nip_candidates(caps: &Vec<RegexCaptures>, validate: bool) -> (r: (Vec<String>, Vec<bool>))
    ensures
        r.0@.map_values(|s: String| s@) == caps@.map_values(|c: RegexCaptures| nip_candidate(group_views(c))),
        r.1@ == r.0@.map_values(|s: String| s@).map_values(|v: Seq<char>| nip_ok(validate, v)),
{
    let mut vals: Vec<String> = Vec::new();
    let mut oks: Vec<bool> = Vec::new();
    let mut i: usize = 0;
    while i < caps.len()
        invariant
            i <= caps.len(),
            vals.len() == i,
            oks.len() == i,
            forall|k: int| 0 <= k < i ==> (#[trigger] vals@[k])@ == nip_candidate(group_views(caps@[k])),
            forall|k: int| 0 <= k < i ==> #[trigger] oks@[k] == nip_ok(validate, vals@[k]@),
        decreases caps.len() - i,
    {
        let c = &caps[i];
        let mut v = chars_of(group_text(c, 1).as_str());
        push_chars(&mut v, &chars_of(group_text(c, 2).as_str()));
        push_chars(&mut v, &chars_of(group_text(c, 3).as_str()));
        push_chars(&mut v, &chars_of(group_text(c, 4).as_str()));
        let s = string_of(&v);
        assert(s@ == nip_candidate(group_views(caps@[i as int])));
        let ok = !validate || validate_nip(s.as_str());
        vals.push(s);
        oks.push(ok);
        i += 1;
    }
    assert(vals@.map_values(|s: String| s@) =~= caps@.map_values(|c: RegexCaptures| nip_candidate(group_views(c))));
    assert(oks@ =~= vals@.map_values(|s: String| s@).map_values(|v: Seq<char>| nip_ok(validate, v)));
    (vals, oks)
}

pub struct NipExtractor {
    pub validate: bool,
}

impl NipExtractor {
    pub fn new() -> (r: Self)
        ensures
            r.validate,
    {
        NipExtractor { validate: true }
    }

    pub fn with_validation(self, validate: bool) -> (r: Self)
        ensures
            r.validate == validate,
    {
        NipExtractor { validate }
    }

    /// Every NIP in `text`: labelled matches first, then standalone ones not
    /// already found.
    pub fn extract_all(&self, text: &str) -> (r: Vec<ExtractionMatch<String>>)
        ensures
            values_of(r@) == nip_values(self.validate, text@),
    {
        let caps1 = find_captures(NIP_PATTERN, text);
        let (c1, o1) = nip_candidates(&caps1, self.validate);
        let mut results: Vec<ExtractionMatch<String>> = Vec::new();
        proof {
            assert(caps1@.map_values(|c: RegexCaptures| nip_candidate(group_views(c))) =~= caps_of(NIP_PATTERN@, text@).map_values(|c: Seq<Option<Seq<char>>>| nip_candidate(c)));
        }
        append_kept(&mut results, &caps1, &c1, &o1, false, 950);
        let caps2 = find_captures(NIP_STANDALONE, text);
        let (c2, o2) = nip_candidates(&caps2, self.validate);
        proof {
            assert(caps2@.map_values(|c: RegexCaptures| nip_candidate(group_views(c))) =~= caps_of(NIP_STANDALONE@, text@).map_values(|c: Seq<Option<Seq<char>>>| nip_candidate(c)));
            assert(values_of(Seq::<ExtractionMatch<String>>::empty()) =~= Seq::<Seq<char>>::empty());
        }
        append_kept(&mut results, &caps2, &c2, &o2, true, 700);
        results
    }

    /// The first NIP in `text`.
    pub fn extract(&self, text: &str) -> (r: Option<ExtractionMatch<String>>)
        ensures
            match r {
                Some(m) => nip_values(self.validate, text@).len() > 0 && m.value@ == nip_values(self.validate, text@)[0],
                None => nip_values(self.validate, text@).len() == 0,
            },
    {
        let mut all = self.extract_all(text);
        if all.len() == 0 {
            None
        } else {
            assert(values_of(all@)[0] == all@[0].value@);
            Some(all.remove(0))
        }
    }
}

/// The first NIP in `text`, checksum-valid.
pub fn extract_nip(text: &str) -> (r: Option<String>)
    ensures
        match r {
            Some(v) => nip_values(true, text@).len() > 0 && v@ == nip_values(true, text@)[0],
            None => nip_values(true, text@).len() == 0,
        },
{
    match NipExtractor::new().extract(text) {
        Some(m) => Some(m.value),
        None => None,
    }
}

// ---- REGON ----

pub open spec fn regon_ok(validate: bool, v: Seq<char>) -> bool {
    !validate || regon_digits_valid(digit_values(digit_chars(v)))
}

/// Group 1 of a standalone REGON match if it took part, else group 2.
pub open spec fn regon_standalone_candidate(c: Seq<Option<Seq<char>>>) -> Seq<char> {
    if 1 < c.len() && c[1] is Some {
        group(c, 1)
    } else {
        group(c, 2)
    }
}

/// REGON values in `text`: labelled ones first, then non-empty standalone
/// ones not found already; with validation only checksum-valid ones.
pub open spec fn regon_values(validate: bool, text: Seq<char>) -> Seq<Seq<char>> {
    let c1 = caps_of(REGON_PATTERN@, text).map_values(|c: Seq<Option<Seq<char>>>| group(c, 1));
    let c2 = caps_of(REGON_STANDALONE@, text).map_values(
        |c: Seq<Option<Seq<char>>>| regon_standalone_candidate(c),
    );
    let k1 = kept_values(c1, c1.map_values(|v: Seq<char>| regon_ok(validate, v)), seq![], false, c1.len());
    k1 + kept_values(
        c2,
        c2.map_values(|v: Seq<char>| v.len() > 0 && regon_ok(validate, v)),
        k1,
        true,
        c2.len(),
    )
}

pub fn regon_candidates(caps: &Vec<RegexCaptures>, validate: bool, standalone: bool) -> (r: (Vec<String>, Vec<bool>))
    ensures
        !standalone ==> r.0@.map_values(|s: String| s@) == caps@.map_values(
            |c: RegexCaptures| group(group_views(c), 1),
        ),
        !standalone ==> r.1@ == r.0@.map_values(|s: String| s@).map_values(|v: Seq<char>| regon_ok(validate, v)),
        standalone ==> r.0@.map_values(|s: String| s@) == caps@.map_values(
            |c: RegexCaptures| regon_standalone_candidate(group_views(c)),
        ),
        standalone ==> r.1@ == r.0@.map_values(|s: String| s@).map_values(
            |v: Seq<char>| v.len() > 0 && regon_ok(validate, v),
        ),
{
    let mut vals: Vec<String> = Vec::new();
    let mut oks: Vec<bool> = Vec::new();
    let mut i: usize = 0;
    while i < caps.len()
        invariant
            i <= caps.len(),
            vals.len() == i,
            oks.len() == i,
            forall|k: int|
                0 <= k < i ==> (#[trigger] vals@[k])@ == if standalone {
                    regon_standalone_candidate(group_views(caps@[k]))
                } else {
                    group(group_views(caps@[k]), 1)
                },
            forall|k: int|
                0 <= k < i ==> #[trigger] oks@[k] == if standalone {
                    vals@[k]@.len() > 0 && regon_ok(validate, vals@[k]@)
                } else {
                    regon_ok(validate, vals@[k]@)
                },
        decreases caps.len() - i,
    {
        let c = &caps[i];
        let v = if standalone && !(1 < c.groups.len() && c.groups[1].is_some()) {
            group_text(c, 2)
        } else {
            group_text(c, 1)
        };
        let nonempty = v.as_str().unicode_len() > 0;
        let ok = (!standalone || nonempty) && (!validate || validate_regon(v.as_str()));
        vals.push(v);
        oks.push(ok);
        i += 1;
    }
    assert(vals@.map_values(|s: String| s@) =~= caps@.map_values(|c: RegexCaptures| group(group_views(c), 1))
        || standalone);
    assert(vals@.map_values(|s: String| s@) =~= caps@.map_values(
        |c: RegexCaptures| regon_standalone_candidate(group_views(c)),
    ) || !standalone);
    assert(oks@ =~= vals@.map_values(|s: String| s@).map_values(|v: Seq<char>| regon_ok(validate, v))
        || standalone);
    assert(oks@ =~= vals@.map_values(|s: String| s@).map_values(
        |v: Seq<char>| v.len() > 0 && regon_ok(validate, v),
    ) || !standalone);
    (vals, oks)
}

pub struct RegonExtractor {
    pub validate: bool,
}

impl RegonExtractor {
    pub fn new() -> (r: Self)
        ensures
            r.validate,
    {
        RegonExtractor { validate: true }
    }

    pub fn with_validation(self, validate: bool) -> (r: Self)
        ensures
            r.validate == validate,
    {
        RegonExtractor { validate }
    }

    /// Every REGON in `text`: labelled matches first (confidence 950), then
    /// standalone ones not already found (confidence 600).
    pub fn extract_all(&self, text: &str) -> (r: Vec<ExtractionMatch<String>>)
        ensures
            values_of(r@) == regon_values(self.validate, text@),
    {
        let caps1 = find_captures(REGON_PATTERN, text);
        let (c1, o1) = regon_candidates(&caps1, self.validate, false);
        let mut results: Vec<ExtractionMatch<String>> = Vec::new();
        proof {
            assert(caps1@.map_values(|c: RegexCaptures| group(group_views(c), 1)) =~= caps_of(REGON_PATTERN@, text@).map_values(|c: Seq<Option<Seq<char>>>| group(c, 1)));
        }
        append_kept(&mut results, &caps1, &c1, &o1, false, 950);
        let caps2 = find_captures(REGON_STANDALONE, text);
        let (c2, o2) = regon_candidates(&caps2, self.validate, true);
        proof {
            assert(caps2@.map_values(|c: RegexCaptures| regon_standalone_candidate(group_views(c))) =~= caps_of(REGON_STANDALONE@, text@).map_values(|c: Seq<Option<Seq<char>>>| regon_standalone_candidate(c)));
            assert(values_of(Seq::<ExtractionMatch<String>>::empty()) =~= Seq::<Seq<char>>::empty());
        }
        append_kept(&mut results, &caps2, &c2, &o2, true, 600);
        results
    }

    /// The first REGON in `text`.
    pub fn extract(&self, text: &str) -> (r: Option<ExtractionMatch<String>>)
        ensures
            match r {
                Some(m) => regon_values(self.validate, text@).len() > 0 && m.value@ == regon_values(self.validate, text@)[0],
                None => regon_values(self.validate, text@).len() == 0,
            },
    {
        let mut all = self.extract_all(text);
        if all.len() == 0 {
            None
        } else {
            assert(values_of(all@)[0] == all@[0].value@);
            Some(all.remove(0))
        }
    }
}

/// The first REGON in `text`, checksum-valid.
pub fn extract_regon(text: &str) -> (r: Option<String>)
    ensures
        match r {
            Some(v) => regon_values(true, text@).len() > 0 && v@ == regon_values(true, text@)[0],
            None => regon_values(true, text@).len() == 0,
        },
{
    match RegonExtractor::new().extract(text) {
        Some(m) => Some(m.value),
        None => None,
    }
}

// ---- IBAN ----

pub open spec fn iban_ok(validate: bool, v: Seq<char>) -> bool {
    !validate || iban_valid(v)
}

/// The IBAN a match spells: the country code (`PL` when absent), the check
/// digits and the six four-digit groups.
pub open spec fn iban_candidate(c: Seq<Option<Seq<char>>>) -> Seq<char> {
    let country = if 1 < c.len() && c[1] is Some {
        group(c, 1)
    } else {
        "PL"@
    };
    country + group(c, 2) + group(c, 3) + group(c, 4) + group(c, 5) + group(c, 6) + group(c, 7) + group(c, 8)
}

/// The digits of a labelled account number.
pub open spec fn account_digits(c: Seq<Option<Seq<char>>>) -> Seq<char> {
    digit_chars(trimmed(group(c, 1)))
}

/// IBANs in `text`: IBAN-shaped matches first (confidence 950), then
/// 26-digit labelled account numbers, as `PL` IBANs, not found already
/// (confidence 900); with validation only checksum-valid ones.
pub open spec fn iban_values(validate: bool, text: Seq<char>) -> Seq<Seq<char>> {
    let c1 = caps_of(IBAN_PATTERN@, text).map_values(|c: Seq<Option<Seq<char>>>| iban_candidate(c));
    let d2 = caps_of(BANK_ACCOUNT@, text).map_values(|c: Seq<Option<Seq<char>>>| account_digits(c));
    let c2 = d2.map_values(|d: Seq<char>| "PL"@ + d);
    let k1 = kept_values(c1, c1.map_values(|v: Seq<char>| iban_ok(validate, v)), seq![], false, c1.len());
    k1 + kept_values(
        c2,
        d2.map_values(|d: Seq<char>| d.len() == 26 && iban_ok(validate, "PL"@ + d)),
        k1,
        true,
        c2.len(),
    )
}

pub fn iban_candidates(caps: &Vec<RegexCaptures>, validate: bool) -> (r: (Vec<String>, Vec<bool>))
    ensures
        r.0@.map_values(|s: String| s@) == caps@.map_values(|c: RegexCaptures| iban_candidate(group_views(c))),
        r.1@ == r.0@.map_values(|s: String| s@).map_values(|v: Seq<char>| iban_ok(validate, v)),
{
    let mut vals: Vec<String> = Vec::new();
    let mut oks: Vec<bool> = Vec::new();
    let mut i: usize = 0;
    while i < caps.len()
        invariant
            i <= caps.len(),
            vals.len() == i,
            oks.len() == i,
            forall|k: int| 0 <= k < i ==> (#[trigger] vals@[k])@ == iban_candidate(group_views(caps@[k])),
            forall|k: int| 0 <= k < i ==> #[trigger] oks@[k] == iban_ok(validate, vals@[k]@),
        decreases caps.len() - i,
    {
        let s = iban_of(&caps[i]);
        let ok = !validate || validate_iban(s.as_str());
        vals.push(s);
        oks.push(ok);
        i += 1;
    }
    assert(vals@.map_values(|s: String| s@) =~= caps@.map_values(|c: RegexCaptures| iban_candidate(group_views(c))));
    assert(oks@ =~= vals@.map_values(|s: String| s@).map_values(|v: Seq<char>| iban_ok(validate, v)));
    (vals, oks)
}

pub fn iban_of(c: &RegexCaptures) -> (r: String)
    ensures
        r@ == iban_candidate(group_views(*c)),
{
    let ghost cv = group_views(*c);
    let mut v: Vec<char> = if 1 < c.groups.len() && c.groups[1].is_some() {
        chars_of(group_text(c, 1).as_str())
    } else {
        chars_of("PL")
    };
    let ghost country = v@;
    push_chars(&mut v, &chars_of(group_text(c, 2).as_str()));
    push_chars(&mut v, &chars_of(group_text(c, 3).as_str()));
    push_chars(&mut v, &chars_of(group_text(c, 4).as_str()));
    push_chars(&mut v, &chars_of(group_text(c, 5).as_str()));
    push_chars(&mut v, &chars_of(group_text(c, 6).as_str()));
    push_chars(&mut v, &chars_of(group_text(c, 7).as_str()));
    push_chars(&mut v, &chars_of(group_text(c, 8).as_str()));
    assert(v@ == country + group(cv, 2) + group(cv, 3) + group(cv, 4) + group(cv, 5) + group(cv, 6) + group(cv, 7)
        + group(cv, 8));
    string_of(&v)
}

pub fn account_candidates(caps: &Vec<RegexCaptures>, validate: bool) -> (r: (Vec<String>, Vec<bool>))
    ensures
        r.0.len() == caps.len(),
        r.1.len() == caps.len(),
        r.0@.map_values(|s: String| s@) == caps@.map_values(|c: RegexCaptures| account_digits(group_views(c))).map_values(
            |d: Seq<char>| "PL"@ + d,
        ),
        r.1@ == caps@.map_values(|c: RegexCaptures| account_digits(group_views(c))).map_values(
            |d: Seq<char>| d.len() == 26 && iban_ok(validate, "PL"@ + d),
        ),
{
    let mut vals: Vec<String> = Vec::new();
    let mut oks: Vec<bool> = Vec::new();
    let mut i: usize = 0;
    while i < caps.len()
        invariant
            i <= caps.len(),
            vals.len() == i,
            oks.len() == i,
            forall|k: int| 0 <= k < i ==> (#[trigger] vals@[k])@ == "PL"@ + account_digits(group_views(caps@[k])),
            forall|k: int|
                0 <= k < i ==> #[trigger] oks@[k] == (account_digits(group_views(caps@[k])).len() == 26
                    && iban_ok(validate, "PL"@ + account_digits(group_views(caps@[k])))),
        decreases caps.len() - i,
    {
        let c = &caps[i];
        let account = trim_chars(&chars_of(group_text(c, 1).as_str()));
        let digits = digits_only(&account);
        let mut v = chars_of("PL");
        push_chars(&mut v, &digits);
        let s = string_of(&v);
        let ok = digits.len() == 26 && (!validate || validate_iban(s.as_str()));
        vals.push(s);
        oks.push(ok);
        i += 1;
    }
    assert(vals@.map_values(|s: String| s@) =~= caps@.map_values(|c: RegexCaptures| account_digits(group_views(c))).map_values(
        |d: Seq<char>| "PL"@ + d,
    ));
    assert(oks@ =~= caps@.map_values(|c: RegexCaptures| account_digits(group_views(c))).map_values(
        |d: Seq<char>| d.len() == 26 && iban_ok(validate, "PL"@ + d),
    ));
    (vals, oks)
}

pub struct IbanExtractor {
    pub validate: bool,
}

impl IbanExtractor {
    pub fn new() -> (r: Self)
        ensures
            r.validate,
    {
        IbanExtractor { validate: true }
    }

    pub fn with_validation(self, validate: bool) -> (r: Self)
        ensures
            r.validate == validate,
    {
        IbanExtractor { validate }
    }

    /// Every IBAN in `text`: IBAN-shaped matches first, then labelled
    /// 26-digit account numbers not already found.
    pub fn extract_all(&self, text: &str) -> (r: Vec<ExtractionMatch<String>>)
        ensures
            values_of(r@) == iban_values(self.validate, text@),
    {
        let caps1 = find_captures(IBAN_PATTERN, text);
        let (c1, o1) = iban_candidates(&caps1, self.validate);
        let mut results: Vec<ExtractionMatch<String>> = Vec::new();
        proof {
            assert(caps1@.map_values(|c: RegexCaptures| iban_candidate(group_views(c))) =~= caps_of(IBAN_PATTERN@, text@).map_values(|c: Seq<Option<Seq<char>>>| iban_candidate(c)));
        }
        append_kept(&mut results, &caps1, &c1, &o1, false, 950);
        let caps2 = find_captures(BANK_ACCOUNT, text);
        let (c2, o2) = account_candidates(&caps2, self.validate);
        proof {
            assert(caps2@.map_values(|c: RegexCaptures| account_digits(group_views(c))) =~= caps_of(BANK_ACCOUNT@, text@).map_values(|c: Seq<Option<Seq<char>>>| account_digits(c)));
            assert(values_of(Seq::<ExtractionMatch<String>>::empty()) =~= Seq::<Seq<char>>::empty());
        }
        append_kept(&mut results, &caps2, &c2, &o2, true, 900);
        results
    }

    /// The first IBAN in `text`.
    pub fn extract(&self, text: &str) -> (r: Option<ExtractionMatch<String>>)
        ensures
            match r {
                Some(m) => iban_values(self.validate, text@).len() > 0 && m.value@ == iban_values(self.validate, text@)[0],
                None => iban_values(self.validate, text@).len() == 0,
            },
    {
        let mut all = self.extract_all(text);
        if all.len() == 0 {
            None
        } else {
            assert(values_of(all@)[0] == all@[0].value@);
            Some(all.remove(0))
        }
    }
}

/// The first IBAN in `text`, checksum-valid.
pub fn extract_iban(text: &str) -> (r: Option<String>)
    ensures
        match r {
            Some(v) => iban_values(true, text@).len() > 0 && v@ == iban_values(true, text@)[0],
            None => iban_values(true, text@).len() == 0,
        },
{
    match IbanExtractor::new().extract(text) {
        Some(m) => Some(m.value),
        None => None,
    }
}

// ---- VAT rates ----

/// The rate named by each VAT-rate match of `text`.
pub open spec fn vat_candidates(text: Seq<char>) -> Seq<Option<VatRate>> {
    caps_of(VAT_RATE@, text).map_values(|c: Seq<Option<Seq<char>>>| lower_of_trimmed_key(group(c, 1)))
}

/// The distinct rates among the first `n` candidates, in order of first
/// appearance.
pub open spec fn distinct_rates(cands: Seq<Option<VatRate>>, n: nat) -> Seq<VatRate>
    decreases n,
{
    if n == 0 {
        seq![]
    } else {
        let acc = distinct_rates(cands, (n - 1) as nat);
        match cands[n - 1] {
            Some(r) => if acc.contains(r) {
                acc
            } else {
                acc.push(r)
            },
            None => acc,
        }
    }
}

pub open spec fn rates_of(rs: Seq<ExtractionMatch<VatRate>>) -> Seq<VatRate> {
    rs.map_values(|m: ExtractionMatch<VatRate>| m.value)
}

pub struct VatExtractor;

impl VatExtractor {
    pub fn new() -> (r: Self) {
        VatExtractor
    }

    /// Each VAT rate named in `text`, once, in order of first appearance
    /// (confidence 900).
    pub fn extract_all(&self, text: &str) -> (r: Vec<ExtractionMatch<VatRate>>)
        ensures
            rates_of(r@) == distinct_rates(vat_candidates(text@), vat_candidates(text@).len()),
    {
        let caps = find_captures(VAT_RATE, text);
        let r = vat_rates_from(&caps);
        assert(caps@.map_values(|c: RegexCaptures| lower_of_trimmed_key(group(group_views(c), 1))) =~= vat_candidates(text@)) by {
            assert(caps@.map_values(|c: RegexCaptures| group_views(c)).len() == caps.len());
            assert forall|i: int| 0 <= i < caps.len() implies group_views(#[trigger] caps@[i]) == regex_captures(VAT_RATE@, text@)[i] by {
                assert(caps@.map_values(|c: RegexCaptures| group_views(c))[i] == group_views(caps@[i]));
            }
        }
        r
    }
}

/// The rates named by VAT-rate matches, once each, in order of first
/// appearance (confidence 900).
pub fn vat_rates_from(caps: &Vec<RegexCaptures>) -> (r: Vec<ExtractionMatch<VatRate>>)
    ensures
        rates_of(r@) == distinct_rates(
            caps@.map_values(|c: RegexCaptures| lower_of_trimmed_key(group(group_views(c), 1))),
            caps.len() as nat,
        ),
{
    let ghost cands = caps@.map_values(|c: RegexCaptures| lower_of_trimmed_key(group(group_views(c), 1)));
    let mut results: Vec<ExtractionMatch<VatRate>> = Vec::new();
    let mut i: usize = 0;
    while i < caps.len()
        invariant
            i <= caps.len(),
            cands == caps@.map_values(|c: RegexCaptures| lower_of_trimmed_key(group(group_views(c), 1))),
            cands.len() == caps.len(),
            rates_of(results@) == distinct_rates(cands, i as nat),
        decreases caps.len() - i,
    {
        let c = &caps[i];
        let g = group_text(c, 1);
        let rate = VatRate::from_str(g.as_str());
        assert(rate == cands[i as int]);
        let ghost acc = rates_of(results@);
        if let Some(v) = rate {
            let mut seen = false;
            let mut k: usize = 0;
            while k < results.len()
                invariant
                    k <= results.len(),
                    acc == rates_of(results@),
                    seen == exists|j: int| 0 <= j < k && results@[j].value == v,
                decreases results.len() - k,
            {
                if results[k].value == v {
                    seen = true;
                }
                k += 1;
            }
            assert(seen == acc.contains(v)) by {
                if seen {
                    let j = choose|j: int| 0 <= j < k && results@[j].value == v;
                    assert(acc[j] == v);
                }
                if acc.contains(v) {
                    let j = choose|j: int| 0 <= j < acc.len() && acc[j] == v;
                    assert(results@[j].value == v);
                }
            }
            if !seen {
                let m = ExtractionMatch::new(v, 900, group_text(c, 0)).with_position(c.start, c.end);
                let ghost prev = results@;
                results.push(m);
                assert(rates_of(prev.push(m)) =~= rates_of(prev).push(v));
            }
        }
        i += 1;
    }
    results
}

// ---- amounts ----

/// A decimal amount `units / 10^scale`.
#[derive(Clone, Copy, Debug, PartialEq, Eq, Structural)]
pub struct Amount {
    pub units: u128,
    pub scale: u32,
}

/// Largest number of units an amount can hold (96 bits).
pub const MAX_UNITS: u128 = 0xffff_ffff_ffff_ffff_ffff_ffff;

/// `s` without spaces and no-break spaces.
pub open spec fn without_spaces(s: Seq<char>) -> Seq<char>
    decreases s.len(),
{
    if s.len() == 0 {
        seq![]
    } else if s.last() == ' ' || s.last() == '\u{a0}' {
        without_spaces(s.drop_last())
    } else {
        without_spaces(s.drop_last()).push(s.last())
    }
}

/// The amount written `int.frac`: digits only, some digit present, at most
/// 96 bits of units.
pub open spec fn decimal_amount(int_part: Seq<char>, frac: Seq<char>) -> Option<Amount> {
    let ds = int_part + frac;
    if ds.len() > 0 && all_digits(ds) && digits_number(ds) <= MAX_UNITS && frac.len() <= 28 {
        Some(Amount { units: digits_number(ds) as u128, scale: frac.len() as u32 })
    } else {
        None
    }
}

/// The amount of an amount match: group 1 with its spaces removed, then
/// group 2 as the decimals.
pub open spec fn amount_of(c: Seq<Option<Seq<char>>>) -> Option<Amount> {
    decimal_amount(without_spaces(group(c, 1)), group(c, 2))
}

pub open spec fn amounts_of(rs: Seq<ExtractionMatch<Amount>>) -> Seq<Amount> {
    rs.map_values(|m: ExtractionMatch<Amount>| m.value)
}

/// The amounts among the first `n` candidates.
pub open spec fn present_amounts(cands: Seq<Option<Amount>>, n: nat) -> Seq<Amount>
    decreases n,
{
    if n == 0 {
        seq![]
    } else {
        match cands[n - 1] {
            Some(a) => present_amounts(cands, (n - 1) as nat).push(a),
            None => present_amounts(cands, (n - 1) as nat),
        }
    }
}

fn remove_spaces(s: &Vec<char>) -> (r: Vec<char>)
    ensures
        r@ == without_spaces(s@),
{
    let mut r: Vec<char> = Vec::new();
    let mut i: usize = 0;
    while i < s.len()
        invariant
            i <= s.len(),
            r@ == without_spaces(s@.subrange(0, i as int)),
        decreases s.len() - i,
    {
        assert(s@.subrange(0, i + 1).drop_last() =~= s@.subrange(0, i as int));
        if s[i] != ' ' && s[i] != '\u{a0}' {
            r.push(s[i]);
        }
        i += 1;
    }
    assert(s@.subrange(0, s.len() as int) =~= s@);
    r
}

/// Reads `int_part.frac` as an amount.
pub fn parse_decimal(int_part: &Vec<char>, frac: &Vec<char>) -> (r: Option<Amount>)
    ensures
        r == decimal_amount(int_part@, frac@),
{
    let mut ds = int_part.clone();
    push_chars(&mut ds, frac);
    assert(ds@ == int_part@ + frac@);
    if ds.len() == 0 || frac.len() > 28 {
        return None;
    }
    let mut units: u128 = 0;
    let mut i: usize = 0;
    while i < ds.len()
        invariant
            i <= ds.len(),
            ds@ == int_part@ + frac@,
            ds.len() > 0,
            frac.len() <= 28,
            all_digits(ds@.subrange(0, i as int)),
            units as int == digits_number(ds@.subrange(0, i as int)),
            units <= MAX_UNITS,
        decreases ds.len() - i,
    {
        let c = ds[i];
        assert(ds@.subrange(0, i + 1).drop_last() =~= ds@.subrange(0, i as int));
        if !('0' <= c && c <= '9') {
            assert(!all_digits(ds@)) by {
                assert(!crate::text::is_digit_spec(ds@[i as int]));
            }
            return None;
        }
        let next = units * 10 + (c as u32 - '0' as u32) as u128;
        if next > MAX_UNITS {
            proof {
                assert(digits_number(ds@.subrange(0, i + 1)) == next);
                if all_digits(ds@) {
                    crate::invoice::lemma_digits_number_prefix(ds@, (i + 1) as nat);
                }
            }
            return None;
        }
        units = next;
        i += 1;
    }
    assert(ds@.subrange(0, ds.len() as int) =~= ds@);
    Some(Amount { units, scale: frac.len() as u32 })
}

pub struct AmountExtractor;

impl AmountExtractor {
    pub fn new() -> (r: Self) {
        AmountExtractor
    }

    /// Every amount written with two decimals in `text` (confidence 800).
    pub fn extract_all(&self, text: &str) -> (r: Vec<ExtractionMatch<Amount>>)
        ensures
            amounts_of(r@) == present_amounts(
                caps_of(AMOUNT_PATTERN@, text@).map_values(|c: Seq<Option<Seq<char>>>| amount_of(c)),
                caps_of(AMOUNT_PATTERN@, text@).len(),
            ),
    {
        let caps = find_captures(AMOUNT_PATTERN, text);
        let r = amounts_from(&caps);
        assert(caps@.map_values(|c: RegexCaptures| amount_of(group_views(c))) =~= caps_of(AMOUNT_PATTERN@, text@).map_values(|c: Seq<Option<Seq<char>>>| amount_of(c))) by {
            assert(caps@.map_values(|c: RegexCaptures| group_views(c)).len() == caps.len());
            assert forall|i: int| 0 <= i < caps.len() implies group_views(#[trigger] caps@[i]) == regex_captures(AMOUNT_PATTERN@, text@)[i] by {
                assert(caps@.map_values(|c: RegexCaptures| group_views(c))[i] == group_views(caps@[i]));
            }
        }
        r
    }
}

/// The amounts of amount matches, in order (confidence 800).
pub fn amounts_from(caps: &Vec<RegexCaptures>) -> (r: Vec<ExtractionMatch<Amount>>)
    ensures
        amounts_of(r@) == present_amounts(caps@.map_values(|c: RegexCaptures| amount_of(group_views(c))), caps.len() as nat),
{
    let ghost cands = caps@.map_values(|c: RegexCaptures| amount_of(group_views(c)));
    let mut results: Vec<ExtractionMatch<Amount>> = Vec::new();
    let mut i: usize = 0;
    while i < caps.len()
        invariant
            i <= caps.len(),
            cands == caps@.map_values(|c: RegexCaptures| amount_of(group_views(c))),
            cands.len() == caps.len(),
            amounts_of(results@) == present_amounts(cands, i as nat),
        decreases caps.len() - i,
    {
        let c = &caps[i];
        let int_part = remove_spaces(&chars_of(group_text(c, 1).as_str()));
        let frac = chars_of(group_text(c, 2).as_str());
        let amount = parse_decimal(&int_part, &frac);
        assert(amount == cands[i as int]);
        if let Some(a) = amount {
            let m = ExtractionMatch::new(a, 800, group_text(c, 0)).with_position(c.start, c.end);
            let ghost prev = results@;
            results.push(m);
            assert(amounts_of(prev.push(m)) =~= amounts_of(prev).push(a));
        }
        i += 1;
    }
    results
}

impl FieldExtractor for NipExtractor {
    type Output = ExtractionMatch<String>;

    fn extract(&self, text: &str) -> Option<ExtractionMatch<String>> {
        NipExtractor::extract(self, text)
    }

    fn extract_all(&self, text: &str) -> Vec<ExtractionMatch<String>> {
        NipExtractor::extract_all(self, text)
    }
}

impl FieldExtractor for RegonExtractor {
    type Output = ExtractionMatch<String>;

    fn extract(&self, text: &str) -> Option<ExtractionMatch<String>> {
        RegonExtractor::extract(self, text)
    }

    fn extract_all(&self, text: &str) -> Vec<ExtractionMatch<String>> {
        RegonExtractor::extract_all(self, text)
    }
}

impl FieldExtractor for IbanExtractor {
    type Output = ExtractionMatch<String>;

    fn extract(&self, text: &str) -> Option<ExtractionMatch<String>> {
        IbanExtractor::extract(self, text)
    }

    fn extract_all(&self, text: &str) -> Vec<ExtractionMatch<String>> {
        IbanExtractor::extract_all(self, text)
    }
}

} // verus!
