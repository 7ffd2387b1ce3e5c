//! Check-digit rules of Polish tax (NIP), statistical (REGON) and bank
//! account (IBAN) numbers, and their display formats.
use vstd::prelude::*;
use crate::text::{is_ascii_alpha, strip_whitespace, without_whitespace, chars_of, digit_char, digit_chars, digit_value, digits_only, is_digit_spec, lemma_digit_chars_are_digits, string_of};

verus! {

/// `sum(d[k] * w[k] for k < n)`.
pub open spec fn weighted_sum(d: Seq<int>, w: Seq<int>, n: nat) -> int
    decreases n,
{
    if n == 0 {
        0
    } else {
        weighted_sum(d, w, (n - 1) as nat) + d[n - 1] * w[n - 1]
    }
}

/// The numeric values of a sequence of digit characters.
pub open spec fn digit_values(s: Seq<char>) -> Seq<int> {
    s.map_values(|c: char| digit_value(c))
}

pub open spec fn nip_weights() -> Seq<int> {
    seq![6, 5, 7, 2, 3, 4, 5, 6, 7]
}

pub open spec fn regon9_weights() -> Seq<int> {
    seq![8, 9, 2, 3, 4, 5, 6, 7]
}

pub open spec fn regon14_weights() -> Seq<int> {
    seq![2, 4, 8, 5, 0, 9, 7, 3, 6, 1, 2, 4, 8]
}

/// Ten digits whose weighted sum modulo 11 is the last digit (a remainder
/// of 10 is never valid).
pub open spec fn nip_digits_valid(d: Seq<int>) -> bool {
    &&& d.len() == 10
    &&& weighted_sum(d, nip_weights(), 9) % 11 != 10
    &&& weighted_sum(d, nip_weights(), 9) % 11 == d[9]
}

/// The check digit over the first `n` digits: the weighted sum modulo 11,
/// with a remainder of 10 read as 0.
pub open spec fn mod11_check(d: Seq<int>, w: Seq<int>, n: nat) -> int {
    if weighted_sum(d, w, n) % 11 == 10 {
        0
    } else {
        weighted_sum(d, w, n) % 11
    }
}

pub open spec fn regon9_valid(d: Seq<int>) -> bool {
    d.len() >= 9 && mod11_check(d, regon9_weights(), 8) == d[8]
}

pub open spec fn regon_digits_valid(d: Seq<int>) -> bool {
    if d.len() == 9 {
        regon9_valid(d)
    } else if d.len() == 14 {
        regon9_valid(d) && mod11_check(d, regon14_weights(), 13) == d[13]
    } else {
        false
    }
}

/// The `XXX-XXX-XX-XX` form of a NIP, or the input when it does not hold
/// exactly ten digits.
pub open spec fn nip_formatted(s: Seq<char>) -> Seq<char> {
    let d = digit_chars(s);
    if d.len() == 10 {
        d.subrange(0, 3) + seq!['-'] + d.subrange(3, 6) + seq!['-'] + d.subrange(6, 8) + seq!['-']
            + d.subrange(8, 10)
    } else {
        s
    }
}

/// Weighted sum of the first `n` digits, for digits and weights below ten.
fn weighted_sum_exec(d: &Vec<u32>, w: &Vec<u32>, n: usize) -> (r: u32)
    requires
        n <= d.len(),
        n <= w.len(),
        n <= 13,
        forall|k: int| 0 <= k < d.len() ==> d[k] <= 9,
        forall|k: int| 0 <= k < w.len() ==> w[k] <= 9,
    ensures
        r as int == weighted_sum(d@.map_values(|x: u32| x as int), w@.map_values(|x: u32| x as int), n as nat),
        r <= 81 * n,
{
    let ghost di = d@.map_values(|x: u32| x as int);
    let ghost wi = w@.map_values(|x: u32| x as int);
    let mut sum: u32 = 0;
    let mut i: usize = 0;
    while i < n
        invariant
            i <= n,
            n <= d.len(),
            n <= w.len(),
            n <= 13,
            di == d@.map_values(|x: u32| x as int),
            wi == w@.map_values(|x: u32| x as int),
            forall|k: int| 0 <= k < d.len() ==> d[k] <= 9,
            forall|k: int| 0 <= k < w.len() ==> w[k] <= 9,
            sum as int == weighted_sum(di, wi, i as nat),
            sum <= 81 * i,
        decreases n - i,
    {
        let a = d[i];
        let b = w[i];
        assert(a * b <= 81) by (nonlinear_arith)
            requires
                a <= 9,
                b <= 9,
        ;
        let p = a * b;
        sum = sum + p;
        i += 1;
    }
    sum
}

/// The digit characters of `s` as numbers.
fn digit_numbers(s: &str) -> (r: Vec<u32>)
    ensures
        r@.map_values(|x: u32| x as int) == digit_values(digit_chars(s@)),
        forall|k: int| 0 <= k < r.len() ==> r[k] <= 9,
{
    let chars = chars_of(s);
    let dc = digits_only(&chars);
    proof {
        lemma_digit_chars_are_digits(s@);
    }
    let mut r: Vec<u32> = Vec::new();
    let mut i: usize = 0;
    while i < dc.len()
        invariant
            i <= dc.len(),
            dc@ == digit_chars(s@),
            forall|k: int| 0 <= k < dc.len() ==> is_digit_spec(#[trigger] dc@[k]),
            r.len() == i,
            forall|k: int| 0 <= k < i ==> r[k] as int == digit_value(#[trigger] dc@[k]),
            forall|k: int| 0 <= k < r.len() ==> r[k] <= 9,
        decreases dc.len() - i,
    {
        let c = dc[i];
        assert(is_digit_spec(dc@[i as int]));
        r.push((c as u32) - ('0' as u32));
        i += 1;
    }
    assert(r@.map_values(|x: u32| x as int) =~= digit_values(digit_chars(s@)));
    r
}

/// Checks a Polish NIP: ten digits (other characters are ignored) whose
/// last digit is the weighted check digit.
pub fn validate_nip(nip: &str) -> (r: bool)
    ensures
        r == nip_digits_valid(digit_values(digit_chars(nip@))),
{
    let digits = digit_numbers(nip);
    if digits.len() != 10 {
        return false;
    }
    let weights: Vec<u32> = vec![6, 5, 7, 2, 3, 4, 5, 6, 7];
    assert(weights@.map_values(|x: u32| x as int) =~= nip_weights());
    let sum = weighted_sum_exec(&digits, &weights, 9);
    let checksum = sum % 11;
    if checksum == 10 {
        return false;
    }
    checksum == digits[9]
}

/// Writes a NIP as `XXX-XXX-XX-XX`; input without exactly ten digits is
/// returned as it stands.
pub fn format_nip(nip: &str) -> (r: String)
    ensures
        r@ == nip_formatted(nip@),
{
    let chars = chars_of(nip);
    let d = digits_only(&chars);
    if d.len() != 10 {
        return string_of(&chars);
    }
    let mut out: Vec<char> = Vec::new();
    let mut i: usize = 0;
    while i < 10
        invariant
            d.len() == 10,
            i <= 10,
            out.len() == i + (if i > 8 { 3int } else if i > 6 { 2int } else if i > 3 { 1int } else { 0int }),
            forall|k: int| 0 <= k < i && k < 3 ==> out@[k] == d@[k],
            forall|k: int| 3 <= k < i && k < 6 ==> out@[k + 1] == d@[k],
            forall|k: int| 6 <= k < i && k < 8 ==> out@[k + 2] == d@[k],
            forall|k: int| 8 <= k < i ==> out@[k + 3] == d@[k],
            i > 3 ==> out@[3] == '-',
            i > 6 ==> out@[7] == '-',
            i > 8 ==> out@[10] == '-',
        decreases 10 - i,
    {
        if i == 3 || i == 6 || i == 8 {
            out.push('-');
        }
        out.push(d[i]);
        i += 1;
    }
    assert(out@ =~= nip_formatted(nip@));
    string_of(&out)
}

/// Checks a Polish REGON: nine or fourteen digits (other characters are
/// ignored) carrying their check digits.
pub fn validate_regon(regon: &str) -> (r: bool)
    ensures
        r == regon_digits_valid(digit_values(digit_chars(regon@))),
{
    let digits = digit_numbers(regon);
    if digits.len() == 9 {
        validate_regon_9(&digits)
    } else if digits.len() == 14 {
        validate_regon_14(&digits)
    } else {
        false
    }
}

fn validate_regon_9(digits: &Vec<u32>) -> (r: bool)
    requires
        digits.len() >= 9,
        forall|k: int| 0 <= k < digits.len() ==> digits[k] <= 9,
    ensures
        r == regon9_valid(digits@.map_values(|x: u32| x as int)),
{
    let weights: Vec<u32> = vec![8, 9, 2, 3, 4, 5, 6, 7];
    assert(weights@.map_values(|x: u32| x as int) =~= regon9_weights());
    let sum = weighted_sum_exec(digits, &weights, 8);
    let checksum = sum % 11;
    let expected = if checksum == 10 {
        0
    } else {
        checksum
    };
    expected == digits[8]
}

fn validate_regon_14(digits: &Vec<u32>) -> (r: bool)
    requires
        digits.len() == 14,
        forall|k: int| 0 <= k < digits.len() ==> digits[k] <= 9,
    ensures
        r == (regon9_valid(digits@.map_values(|x: u32| x as int)) && mod11_check(
            digits@.map_values(|x: u32| x as int),
            regon14_weights(),
            13,
        ) == digits[13] as int),
{
    if !validate_regon_9(digits) {
        return false;
    }
    let weights: Vec<u32> = vec![2, 4, 8, 5, 0, 9, 7, 3, 6, 1, 2, 4, 8];
    assert(weights@.map_values(|x: u32| x as int) =~= regon14_weights());
    let sum = weighted_sum_exec(digits, &weights, 13);
    let checksum = sum % 11;
    let expected = if checksum == 10 {
        0
    } else {
        checksum
    };
    expected == digits[13]
}

/// The value of an IBAN letter: `A`/`a` is 10, ..., `Z`/`z` is 35.
pub open spec fn letter_value(c: char) -> int {
    if 'a' <= c && c <= 'z' {
        c as int - 'a' as int + 10
    } else {
        c as int - 'A' as int + 10
    }
}

/// The decimal digits of the number that an IBAN's characters spell: a
/// digit stands for itself, a letter for the two digits of its value.
pub open spec fn iban_number(t: Seq<char>) -> Seq<int>
    decreases t.len(),
{
    if t.len() == 0 {
        seq![]
    } else if is_digit_spec(t.last()) {
        iban_number(t.drop_last()).push(digit_value(t.last()))
    } else {
        let v = letter_value(t.last());
        iban_number(t.drop_last()).push(v / 10).push(v % 10)
    }
}

/// The number spelt by a sequence of decimal digits, modulo 97.
pub open spec fn mod97_of(d: Seq<int>) -> int
    decreases d.len(),
{
    if d.len() == 0 {
        0
    } else {
        (mod97_of(d.drop_last()) * 10 + d.last()) % 97
    }
}

/// An IBAN, whitespace ignored and letters in either case: at least five
/// ASCII letters and digits, two letters then two digits in front, and the
/// number spelt with the first four characters moved to the end is 1
/// modulo 97.
pub open spec fn iban_valid(s: Seq<char>) -> bool {
    let t = strip_whitespace(s);
    &&& t.len() >= 5
    &&& is_ascii_alpha(t[0]) && is_ascii_alpha(t[1])
    &&& is_digit_spec(t[2]) && is_digit_spec(t[3])
    &&& forall|k: int| 0 <= k < t.len() ==> is_digit_spec(#[trigger] t[k]) || is_ascii_alpha(t[k])
    &&& mod97_of(iban_number(t.subrange(4, t.len() as int) + t.subrange(0, 4))) == 1
}

/// `t` with a space before every character whose position is a positive
/// multiple of four.
pub open spec fn grouped_by_four(t: Seq<char>) -> Seq<char>
    decreases t.len(),
{
    if t.len() == 0 {
        seq![]
    } else if t.len() > 1 && (t.len() - 1) % 4 == 0 {
        grouped_by_four(t.drop_last()).push(' ').push(t.last())
    } else {
        grouped_by_four(t.drop_last()).push(t.last())
    }
}

/// Checks an IBAN by its mod-97 check digits; whitespace is ignored and
/// letters may be of either case.
pub fn validate_iban(iban: &str) -> (r: bool)
    ensures
        r == iban_valid(iban@),
{
    let chars = chars_of(iban);
    let t = without_whitespace(&chars);
    let n = t.len();
    if n < 5 {
        return false;
    }
    if !(is_ascii_letter(t[0]) && is_ascii_letter(t[1])) {
        return false;
    }
    if !(is_ascii_digit(t[2]) && is_ascii_digit(t[3])) {
        return false;
    }
    let mut k: usize = 0;
    while k < n
        invariant
            n == t.len(),
            t@ == strip_whitespace(iban@),
            k <= n,
            forall|j: int| 0 <= j < k ==> is_digit_spec(#[trigger] t@[j]) || is_ascii_alpha(t@[j]),
        decreases n - k,
    {
        if !(is_ascii_digit(t[k]) || is_ascii_letter(t[k])) {
            assert(!(is_digit_spec(t@[k as int]) || is_ascii_alpha(t@[k as int])));
            return false;
        }
        k += 1;
    }
    let mut rearranged: Vec<char> = Vec::new();
    let mut i: usize = 4;
    while i < n
        invariant
            n == t.len(),
            4 <= i <= n,
            rearranged@ == t@.subrange(4, i as int),
        decreases n - i,
    {
        rearranged.push(t[i]);
        i += 1;
        assert(rearranged@ =~= t@.subrange(4, i as int));
    }
    let mut i: usize = 0;
    while i < 4
        invariant
            n == t.len(),
            n >= 5,
            i <= 4,
            rearranged@ == t@.subrange(4, n as int) + t@.subrange(0, i as int),
        decreases 4 - i,
    {
        rearranged.push(t[i]);
        i += 1;
        assert(rearranged@ =~= t@.subrange(4, n as int) + t@.subrange(0, i as int));
    }
    let ghost re = rearranged@;
    assert(forall|j: int| 0 <= j < re.len() ==> is_digit_spec(#[trigger] re[j]) || is_ascii_alpha(re[j]));
    let mut number: Vec<u32> = Vec::new();
    let mut i: usize = 0;
    while i < rearranged.len()
        invariant
            re == rearranged@,
            i <= re.len(),
            forall|j: int| 0 <= j < re.len() ==> is_digit_spec(#[trigger] re[j]) || is_ascii_alpha(re[j]),
            number@.map_values(|x: u32| x as int) == iban_number(re.subrange(0, i as int)),
            forall|j: int| 0 <= j < number.len() ==> number[j] <= 9,
        decreases re.len() - i,
    {
        let c = rearranged[i];
        assert(re.subrange(0, i + 1).drop_last() =~= re.subrange(0, i as int));
        assert(is_digit_spec(re[i as int]) || is_ascii_alpha(re[i as int]));
        if is_ascii_digit(c) {
            number.push((c as u32) - ('0' as u32));
        } else {
            let v: u32 = if 'a' <= c && c <= 'z' {
                (c as u32) - ('a' as u32) + 10
            } else {
                (c as u32) - ('A' as u32) + 10
            };
            number.push(v / 10);
            number.push(v % 10);
        }
        i += 1;
        assert(number@.map_values(|x: u32| x as int) =~= iban_number(re.subrange(0, i as int)));
    }
    assert(re.subrange(0, re.len() as int) =~= re);
    mod97(&number) == 1
}

fn is_ascii_letter(c: char) -> (r: bool)
    ensures
        r == is_ascii_alpha(c),
{
    ('A' <= c && c <= 'Z') || ('a' <= c && c <= 'z')
}

fn is_ascii_digit(c: char) -> (r: bool)
    ensures
        r == is_digit_spec(c),
{
    '0' <= c && c <= '9'
}

/// The number spelt by `digits`, modulo 97, computed digit by digit.
fn mod97(digits: &Vec<u32>) -> (r: u32)
    requires
        forall|j: int| 0 <= j < digits.len() ==> digits[j] <= 9,
    ensures
        r as int == mod97_of(digits@.map_values(|x: u32| x as int)),
{
    let ghost d = digits@.map_values(|x: u32| x as int);
    let mut remainder: u32 = 0;
    let mut i: usize = 0;
    while i < digits.len()
        invariant
            d == digits@.map_values(|x: u32| x as int),
            i <= digits.len(),
            forall|j: int| 0 <= j < digits.len() ==> digits[j] <= 9,
            remainder < 97,
            remainder as int == mod97_of(d.subrange(0, i as int)),
        decreases digits.len() - i,
    {
        assert(d.subrange(0, i + 1).drop_last() =~= d.subrange(0, i as int));
        remainder = (remainder * 10 + digits[i]) % 97;
        i += 1;
    }
    assert(d.subrange(0, d.len() as int) =~= d);
    remainder
}

/// Writes an IBAN in groups of four characters separated by single spaces,
/// after removing its whitespace.
pub fn format_iban(iban: &str) -> (r: String)
    ensures
        r@ == grouped_by_four(strip_whitespace(iban@)),
{
    let chars = chars_of(iban);
    let t = without_whitespace(&chars);
    let mut out: Vec<char> = Vec::new();
    let mut i: usize = 0;
    while i < t.len()
        invariant
            i <= t.len(),
            out@ == grouped_by_four(t@.subrange(0, i as int)),
        decreases t.len() - i,
    {
        assert(t@.subrange(0, i + 1).drop_last() =~= t@.subrange(0, i as int));
        if i > 0 && i % 4 == 0 {
            out.push(' ');
        }
        out.push(t[i]);
        i += 1;
    }
    assert(t@.subrange(0, t.len() as int) =~= t@);
    string_of(&out)
}

} // verus!
