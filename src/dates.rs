//! Calendar dates in invoice text: numeric and Polish long forms, and the
//! issue, sale and due dates found by their labels.
use vstd::prelude::*;
use crate::extract::ExtractionMatch;
use crate::invoice::{all_digits, digits_number, lemma_digits_number_prefix};
use crate::pattern::{
    find_captures, group, group_text, group_views, regex_captures, RegexCaptures, DATE_DMY, DATE_POLISH_LONG,
    DATE_YMD, DUE_DATE, ISSUE_DATE, SALE_DATE,
};
use crate::text::{chars_eq, chars_of, lower_of, to_lower};

verus! {

/// A date of the proleptic Gregorian calendar.
#[derive(Clone, Copy, Debug, PartialEq, Eq, Structural)]
pub struct Date {
    pub year: i32,
    pub month: u32,
    pub day: u32,
}

pub open spec fn is_leap(y: int) -> bool {
    (y % 4 == 0 && y % 100 != 0) || y % 400 == 0
}

pub open spec fn days_in_month(y: int, m: int) -> int {
    if m == 2 {
        if is_leap(y) {
            29
        } else {
            28
        }
    } else if m == 4 || m == 6 || m == 9 || m == 11 {
        30
    } else {
        31
    }
}

/// The date `y-m-d`, where it exists.
pub open spec fn date_of(y: int, m: int, d: int) -> Option<Date> {
    if i32::MIN <= y <= i32::MAX && 1 <= m <= 12 && 1 <= d <= days_in_month(y, m) {
        Some(Date { year: y as i32, month: m as u32, day: d as u32 })
    } else {
        None
    }
}

impl Date {
    /// The date `year-month-day`, or `None` where the month or day does not
    /// exist.
    pub fn from_ymd(year: i32, month: u32, day: u32) -> (r: Option<Date>)
        ensures
            r == date_of(year as int, month as int, day as int),
    {
        if month < 1 || month > 12 || day < 1 {
            return None;
        }
        let a: u32 = if year < 0 {
            (-(year as i64)) as u32
        } else {
            year as u32
        };
        assert((year as int) % 4 == 0 <==> (a as int) % 4 == 0);
        assert((year as int) % 100 == 0 <==> (a as int) % 100 == 0);
        assert((year as int) % 400 == 0 <==> (a as int) % 400 == 0);
        let leap = (a % 4 == 0 && a % 100 != 0) || a % 400 == 0;
        let days: u32 = if month == 2 {
            if leap {
                29
            } else {
                28
            }
        } else if month == 4 || month == 6 || month == 9 || month == 11 {
            30
        } else {
            31
        };
        if day > days {
            None
        } else {
            Some(Date { year, month, day })
        }
    }
}

/// Decimal digits read as a number; 0 for anything else or a value past
/// `limit`.
pub open spec fn number_or_zero(s: Seq<char>, limit: int) -> int {
    if s.len() > 0 && all_digits(s) && digits_number(s) <= limit {
        digits_number(s)
    } else {
        0
    }
}

/// Reads decimal digits; 0 for anything else or a value past `limit`.
fn read_number(s: &Vec<char>, limit: u32) -> (r: u32)
    ensures
        r as int == number_or_zero(s@, limit as int),
{
    if s.len() == 0 {
        return 0;
    }
    let mut v: u64 = 0;
    let mut i: usize = 0;
    while i < s.len()
        invariant
            i <= s.len(),
            s.len() > 0,
            all_digits(s@.subrange(0, i as int)),
            v as int == digits_number(s@.subrange(0, i as int)),
            v <= limit,
        decreases s.len() - i,
    {
        let c = s[i];
        assert(s@.subrange(0, i + 1).drop_last() =~= s@.subrange(0, i as int));
        if !('0' <= c && c <= '9') {
            assert(!crate::text::is_digit_spec(s@[i as int]));
            return 0;
        }
        let next = v * 10 + (c as u32 - '0' as u32) as u64;
        if next > limit as u64 {
            proof {
                if all_digits(s@) {
                    lemma_digits_number_prefix(s@, (i + 1) as nat);
                }
            }
            return 0;
        }
        v = next;
        i += 1;
    }
    assert(s@.subrange(0, s.len() as int) =~= s@);
    v as u32
}

/// A year as written: two-digit years up to 50 are in the 2000s, the other
/// two-digit years in the 1900s.
pub open spec fn year_of(s: Seq<char>) -> int {
    let y = number_or_zero(s, i32::MAX as int);
    if y < 100 {
        if y <= 50 {
            2000 + y
        } else {
            1900 + y
        }
    } else {
        y
    }
}

/// Reads a year; two-digit years up to 50 are in the 2000s, the other
/// two-digit years in the 1900s.
pub fn parse_year(s: &str) -> (r: i32)
    ensures
        r as int == year_of(s@),
{
    let y = read_number(&chars_of(s), 0x7fff_ffff) as i32;
    if y < 100 {
        if y <= 50 {
            2000 + y
        } else {
            1900 + y
        }
    } else {
        y
    }
}

/// Month number of a Polish month name in the genitive (any case), 0 for
/// anything else.
pub open spec fn month_number(lowered: Seq<char>) -> int {
    if lowered == "stycznia"@ {
        1
    } else if lowered == "lutego"@ {
        2
    } else if lowered == "marca"@ {
        3
    } else if lowered == "kwietnia"@ {
        4
    } else if lowered == "maja"@ {
        5
    } else if lowered == "czerwca"@ {
        6
    } else if lowered == "lipca"@ {
        7
    } else if lowered == "sierpnia"@ {
        8
    } else if lowered == "września"@ {
        9
    } else if lowered == "października"@ {
        10
    } else if lowered == "listopada"@ {
        11
    } else if lowered == "grudnia"@ {
        12
    } else {
        0
    }
}

/// Month number of a Polish month name in the genitive, 0 for anything
/// else.
pub fn polish_month_to_number(month: &str) -> (r: u32)
    ensures
        r as int == month_number(lower_of(month@)),
{
    let lowered = to_lower(month);
    month_from_lowered(lowered.as_str())
}

/// Month number of a lower-case Polish month name in the genitive, 0 for
/// anything else.
pub fn month_from_lowered(lowered: &str) -> (r: u32)
    ensures
        r as int == month_number(lowered@),
{
    let l = chars_of(lowered);
    if chars_eq(&l, "stycznia") {
        1
    } else if chars_eq(&l, "lutego") {
        2
    } else if chars_eq(&l, "marca") {
        3
    } else if chars_eq(&l, "kwietnia") {
        4
    } else if chars_eq(&l, "maja") {
        5
    } else if chars_eq(&l, "czerwca") {
        6
    } else if chars_eq(&l, "lipca") {
        7
    } else if chars_eq(&l, "sierpnia") {
        8
    } else if chars_eq(&l, "września") {
        9
    } else if chars_eq(&l, "października") {
        10
    } else if chars_eq(&l, "listopada") {
        11
    } else if chars_eq(&l, "grudnia") {
        12
    } else {
        0
    }
}

pub open spec fn dmy_date(c: Seq<Option<Seq<char>>>) -> Option<Date> {
    date_of(year_of(group(c, 3)), number_or_zero(group(c, 2), u32::MAX as int), number_or_zero(group(c, 1), u32::MAX as int))
}

pub open spec fn ymd_date(c: Seq<Option<Seq<char>>>) -> Option<Date> {
    date_of(number_or_zero(group(c, 1), i32::MAX as int), number_or_zero(group(c, 2), u32::MAX as int), number_or_zero(group(c, 3), u32::MAX as int))
}

pub open spec fn long_date(c: Seq<Option<Seq<char>>>) -> Option<Date> {
    date_of(number_or_zero(group(c, 3), i32::MAX as int), month_number(lower_of(group(c, 2))), number_or_zero(group(c, 1), u32::MAX as int))
}

/// The dates among the first `n` candidates, each left out where `dedup`
/// holds and it equals one in `before` or one kept earlier.
pub open spec fn kept_dates(cands: Seq<Option<Date>>, before: Seq<Date>, dedup: bool, n: nat) -> Seq<Date>
    decreases n,
{
    if n == 0 {
        seq![]
    } else {
        let acc = kept_dates(cands, before, dedup, (n - 1) as nat);
        match cands[n - 1] {
            Some(d) => if dedup && (before + acc).contains(d) {
                acc
            } else {
                acc.push(d)
            },
            None => acc,
        }
    }
}

/// Dates in `text`: day-month-year ones, then year-month-day ones, then
/// Polish long ones, the latter two only where not found already.
pub open spec fn dates_in(text: Seq<char>) -> Seq<Date> {
    let c1 = regex_captures(DATE_DMY@, text).map_values(|c: Seq<Option<Seq<char>>>| dmy_date(c));
    let c2 = regex_captures(DATE_YMD@, text).map_values(|c: Seq<Option<Seq<char>>>| ymd_date(c));
    let c3 = regex_captures(DATE_POLISH_LONG@, text).map_values(|c: Seq<Option<Seq<char>>>| long_date(c));
    let k1 = kept_dates(c1, seq![], false, c1.len());
    let k2 = kept_dates(c2, k1, true, c2.len());
    k1 + k2 + kept_dates(c3, k1 + k2, true, c3.len())
}

pub open spec fn dates_of(rs: Seq<ExtractionMatch<Date>>) -> Seq<Date> {
    rs.map_values(|m: ExtractionMatch<Date>| m.value)
}

/// Which form a date match is read in.
#[derive(Clone, Copy, PartialEq, Eq, Structural)]
pub enum DateForm {
    DayMonthYear,
    YearMonthDay,
    PolishLong,
}

pub open spec fn form_date(form: DateForm, c: Seq<Option<Seq<char>>>) -> Option<Date> {
    match form {
        DateForm::DayMonthYear => dmy_date(c),
        DateForm::YearMonthDay => ymd_date(c),
        DateForm::PolishLong => long_date(c),
    }
}

pub fn read_date(form: DateForm, c: &RegexCaptures) -> (r: Option<Date>)
    ensures
        r == form_date(form, group_views(*c)),
{
    let g1 = chars_of(group_text(c, 1).as_str());
    let g3 = chars_of(group_text(c, 3).as_str());
    match form {
        DateForm::DayMonthYear => {
            let year = parse_year(group_text(c, 3).as_str());
            let month = read_number(&chars_of(group_text(c, 2).as_str()), 0xffff_ffff);
            let day = read_number(&g1, 0xffff_ffff);
            Date::from_ymd(year, month, day)
        },
        DateForm::YearMonthDay => {
            let year = read_number(&g1, 0x7fff_ffff) as i32;
            let month = read_number(&chars_of(group_text(c, 2).as_str()), 0xffff_ffff);
            let day = read_number(&g3, 0xffff_ffff);
            Date::from_ymd(year, month, day)
        },
        DateForm::PolishLong => {
            let year = read_number(&g3, 0x7fff_ffff) as i32;
            let month = polish_month_to_number(group_text(c, 2).as_str());
            let day = read_number(&g1, 0xffff_ffff);
            Date::from_ymd(year, month, day)
        },
    }
}

fn contains_date(rs: &Vec<ExtractionMatch<Date>>, d: Date) -> (b: bool)
    ensures
        b == dates_of(rs@).contains(d),
{
    let mut i: usize = 0;
    while i < rs.len()
        invariant
            i <= rs.len(),
            forall|k: int| 0 <= k < i ==> rs@[k].value != d,
        decreases rs.len() - i,
    {
        if rs[i].value == d {
            assert(dates_of(rs@)[i as int] == d);
            return true;
        }
        i += 1;
    }
    assert(!dates_of(rs@).contains(d)) by {
        if dates_of(rs@).contains(d) {
            let k = choose|k: int| 0 <= k < dates_of(rs@).len() && dates_of(rs@)[k] == d;
            assert(rs@[k].value == d);
        }
    }
    false
}

/// Appends the dates that the matches of `pattern` give, read in `form`.
fn append_dates(results: &mut Vec<ExtractionMatch<Date>>, pattern: &str, text: &str, form: DateForm, dedup: bool, confidence: u32)
    ensures
        dates_of(final(results)@) == dates_of(old(results)@) + kept_dates(
            regex_captures(pattern@, text@).map_values(|c: Seq<Option<Seq<char>>>| form_date(form, c)),
            dates_of(old(results)@),
            dedup,
            regex_captures(pattern@, text@).len(),
        ),
{
    let caps = find_captures(pattern, text);
    append_dates_from(results, &caps, form, dedup, confidence);
    assert(caps@.map_values(|c: RegexCaptures| form_date(form, group_views(c))) =~= regex_captures(pattern@, text@).map_values(
        |c: Seq<Option<Seq<char>>>| form_date(form, c),
    )) by {
        assert(caps@.map_values(|c: RegexCaptures| group_views(c)).len() == caps.len());
        assert forall|i: int| 0 <= i < caps.len() implies group_views(#[trigger] caps@[i]) == regex_captures(pattern@, text@)[i] by {
            assert(caps@.map_values(|c: RegexCaptures| group_views(c))[i] == group_views(caps@[i]));
        }
    }
}

/// Appends, in order, the dates that date matches give when read in
/// `form`, each with the given confidence; where `dedup` holds, a date
/// already present is left out.
pub fn append_dates_from(
    results: &mut Vec<ExtractionMatch<Date>>,
    caps: &Vec<RegexCaptures>,
    form: DateForm,
    dedup: bool,
    confidence: u32,
)
    ensures
        dates_of(final(results)@) == dates_of(old(results)@) + kept_dates(
            caps@.map_values(|c: RegexCaptures| form_date(form, group_views(c))),
            dates_of(old(results)@),
            dedup,
            caps.len() as nat,
        ),
{
    let ghost cands = caps@.map_values(|c: RegexCaptures| form_date(form, group_views(c)));
    let ghost before = dates_of(results@);
    let mut i: usize = 0;
    while i < caps.len()
        invariant
            i <= caps.len(),
            cands == caps@.map_values(|c: RegexCaptures| form_date(form, group_views(c))),
            cands.len() == caps.len(),
            dates_of(results@) == before + kept_dates(cands, before, dedup, i as nat),
        decreases caps.len() - i,
    {
        let c = &caps[i];
        let d = read_date(form, c);
        assert(d == cands[i as int]);
        let ghost acc = kept_dates(cands, before, dedup, i as nat);
        if let Some(v) = d {
            let dup = dedup && contains_date(results, v);
            if !dup {
                let m = ExtractionMatch::new(v, confidence, group_text(c, 0)).with_position(c.start, c.end);
                let ghost prev = results@;
                results.push(m);
                assert(dates_of(prev.push(m)) =~= dates_of(prev).push(v));
            }
        }
        i += 1;
    }
}

pub struct DateExtractor;

impl DateExtractor {
    pub fn new() -> (r: Self) {
        DateExtractor
    }

    /// Every date in `text`: day-month-year (confidence 900), year-month-day
    /// (900) and Polish long (950) forms, the latter two only where not
    /// found already.
    pub fn extract_all(&self, text: &str) -> (r: Vec<ExtractionMatch<Date>>)
        ensures
            dates_of(r@) == dates_in(text@),
    {
        let mut results: Vec<ExtractionMatch<Date>> = Vec::new();
        assert(dates_of(results@) =~= Seq::<Date>::empty());
        append_dates(&mut results, DATE_DMY, text, DateForm::DayMonthYear, false, 900);
        append_dates(&mut results, DATE_YMD, text, DateForm::YearMonthDay, true, 900);
        append_dates(&mut results, DATE_POLISH_LONG, text, DateForm::PolishLong, true, 950);
        proof {
            let c1 = regex_captures(DATE_DMY@, text@).map_values(|c: Seq<Option<Seq<char>>>| dmy_date(c));
            let c2 = regex_captures(DATE_YMD@, text@).map_values(|c: Seq<Option<Seq<char>>>| ymd_date(c));
            let c3 = regex_captures(DATE_POLISH_LONG@, text@).map_values(|c: Seq<Option<Seq<char>>>| long_date(c));
            assert(regex_captures(DATE_DMY@, text@).map_values(
                |c: Seq<Option<Seq<char>>>| form_date(DateForm::DayMonthYear, c),
            ) =~= c1);
            assert(regex_captures(DATE_YMD@, text@).map_values(
                |c: Seq<Option<Seq<char>>>| form_date(DateForm::YearMonthDay, c),
            ) =~= c2);
            assert(regex_captures(DATE_POLISH_LONG@, text@).map_values(
                |c: Seq<Option<Seq<char>>>| form_date(DateForm::PolishLong, c),
            ) =~= c3);
            assert(Seq::<Date>::empty() + kept_dates(c1, Seq::<Date>::empty(), false, c1.len()) =~= kept_dates(
                c1,
                seq![],
                false,
                c1.len(),
            ));
        }
        results
    }

    /// The first date in `text`.
    pub fn extract(&self, text: &str) -> (r: Option<ExtractionMatch<Date>>)
        ensures
            match r {
                Some(m) => dates_in(text@).len() > 0 && m.value == dates_in(text@)[0],
                None => dates_in(text@).len() == 0,
            },
    {
        let mut all = self.extract_all(text);
        if all.len() == 0 {
            None
        } else {
            assert(dates_of(all@)[0] == all@[0].value);
            Some(all.remove(0))
        }
    }
}

/// The labelled dates of an invoice.
pub struct InvoiceDates {
    pub issue_date: Option<ExtractionMatch<Date>>,
    pub sale_date: Option<ExtractionMatch<Date>>,
    pub due_date: Option<ExtractionMatch<Date>>,
}

/// The first date in the text after the first match of a label pattern.
pub open spec fn labelled_date(pattern: Seq<char>, text: Seq<char>) -> Option<Date> {
    let caps = regex_captures(pattern, text);
    if caps.len() > 0 && dates_in(group(caps[0], 1)).len() > 0 {
        Some(dates_in(group(caps[0], 1))[0])
    } else {
        None
    }
}

pub open spec fn match_date(m: Option<ExtractionMatch<Date>>) -> Option<Date> {
    match m {
        Some(x) => Some(x.value),
        None => None,
    }
}

fn find_labelled(pattern: &str, text: &str) -> (r: Option<ExtractionMatch<Date>>)
    ensures
        match_date(r) == labelled_date(pattern@, text@),
{
    let caps = find_captures(pattern, text);
    proof {
        assert(caps@.map_values(|c: RegexCaptures| group_views(c)).len() == caps.len());
    }
    if caps.len() == 0 {
        return None;
    }
    assert(group_views(caps@[0]) == regex_captures(pattern@, text@)[0]);
    let date_text = group_text(&caps[0], 1);
    match DateExtractor::new().extract(date_text.as_str()) {
        Some(m) => Some(ExtractionMatch::new(m.value, 950, date_text)),
        None => None,
    }
}

/// The issue, sale and due dates by their labels (confidence 950); without
/// a labelled issue date, the first date anywhere in the text.
pub fn extract_dates(text: &str) -> (r: InvoiceDates)
    ensures
        match_date(r.sale_date) == labelled_date(SALE_DATE@, text@),
        match_date(r.due_date) == labelled_date(DUE_DATE@, text@),
        labelled_date(ISSUE_DATE@, text@) is Some ==> match_date(r.issue_date) == labelled_date(ISSUE_DATE@, text@),
        labelled_date(ISSUE_DATE@, text@) is None ==> match_date(r.issue_date) == (if dates_in(text@).len() > 0 {
            Some(dates_in(text@)[0])
        } else {
            None
        }),
{
    let mut issue = find_labelled(ISSUE_DATE, text);
    let sale = find_labelled(SALE_DATE, text);
    let due = find_labelled(DUE_DATE, text);
    if issue.is_none() {
        issue = DateExtractor::new().extract(text);
    }
    InvoiceDates { issue_date: issue, sale_date: sale, due_date: due }
}

} // verus!
