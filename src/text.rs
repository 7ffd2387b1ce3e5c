//! Character-level helpers shared by the parsers and serialisers.
use vstd::prelude::*;

verus! {

/// `String::push` appends one character.
pub assume_specification[ String::push ](s: &mut String, ch: char)
    ensures
        final(s)@ == old(s)@.push(ch),
;

/// The Unicode `White_Space` property.
pub open spec fn is_whitespace_spec(c: char) -> bool {
    let u = c as u32;
    (0x9 <= u && u <= 0xD) || u == 0x20 || u == 0x85 || u == 0xA0 || u == 0x1680 || (0x2000 <= u
        && u <= 0x200A) || u == 0x2028 || u == 0x2029 || u == 0x202F || u == 0x205F || u == 0x3000
}

/// Whether `c` has the Unicode `White_Space` property.
pub fn is_whitespace_char(c: char) -> (r: bool)
    ensures
        r == is_whitespace_spec(c),
{
    let u = c as u32;
    (0x9 <= u && u <= 0xD) || u == 0x20 || u == 0x85 || u == 0xA0 || u == 0x1680 || (0x2000 <= u && u
        <= 0x200A) || u == 0x2028 || u == 0x2029 || u == 0x202F || u == 0x205F || u == 0x3000
}

/// `s` with every whitespace character removed.
pub open spec fn strip_whitespace(s: Seq<char>) -> Seq<char>
    decreases s.len(),
{
    if s.len() == 0 {
        seq![]
    } else if is_whitespace_spec(s.last()) {
        strip_whitespace(s.drop_last())
    } else {
        strip_whitespace(s.drop_last()).push(s.last())
    }
}

/// Removes every whitespace character.
pub fn without_whitespace(s: &Vec<char>) -> (r: Vec<char>)
    ensures
        r@ == strip_whitespace(s@),
{
    let mut r: Vec<char> = Vec::new();
    let mut i: usize = 0;
    while i < s.len()
        invariant
            i <= s.len(),
            r@ == strip_whitespace(s@.subrange(0, i as int)),
        decreases s.len() - i,
    {
        let c = s[i];
        assert(s@.subrange(0, i + 1).drop_last() =~= s@.subrange(0, i as int));
        if !is_whitespace_char(c) {
            r.push(c);
        }
        i += 1;
    }
    assert(s@.subrange(0, s@.len() as int) =~= s@);
    r
}

pub open spec fn is_ascii_alpha(c: char) -> bool {
    ('A' <= c && c <= 'Z') || ('a' <= c && c <= 'z')
}

pub open spec fn is_digit_spec(c: char) -> bool {
    '0' <= c && c <= '9'
}

pub open spec fn digit_value(c: char) -> int {
    c as int - '0' as int
}

/// The decimal digit character for `d < 10`.
pub open spec fn digit_char_spec(d: int) -> char {
    if d == 0 {
        '0'
    } else if d == 1 {
        '1'
    } else if d == 2 {
        '2'
    } else if d == 3 {
        '3'
    } else if d == 4 {
        '4'
    } else if d == 5 {
        '5'
    } else if d == 6 {
        '6'
    } else if d == 7 {
        '7'
    } else if d == 8 {
        '8'
    } else {
        '9'
    }
}

/// The decimal digits of `n`, most significant first, without leading zeros.
pub open spec fn decimal(n: nat) -> Seq<char>
    decreases n,
{
    if n < 10 {
        seq![digit_char_spec(n as int)]
    } else {
        decimal(n / 10).push(digit_char_spec((n % 10) as int))
    }
}

/// Decimal representation of `n`.
pub fn decimal_chars(n: usize) -> (r: Vec<char>)
    ensures
        r@ == decimal(n as nat),
    decreases n,
{
    if n < 10 {
        let mut v: Vec<char> = Vec::new();
        v.push(digit_char(n as u32));
        v
    } else {
        let mut v = decimal_chars(n / 10);
        v.push(digit_char((n % 10) as u32));
        v
    }
}

/// Appends the characters of `s`.
pub fn push_str(out: &mut Vec<char>, s: &str)
    ensures
        final(out)@ == old(out)@ + s@,
{
    let n = s.unicode_len();
    let mut i: usize = 0;
    while i < n
        invariant
            n == s@.len(),
            i <= n,
            out@ == old(out)@ + s@.subrange(0, i as int),
        decreases n - i,
    {
        out.push(s.get_char(i));
        i += 1;
        assert(out@ =~= old(out)@ + s@.subrange(0, i as int));
    }
    assert(s@.subrange(0, n as int) =~= s@);
}

/// Appends the characters held by `v`.
pub fn push_chars(out: &mut Vec<char>, v: &Vec<char>)
    ensures
        final(out)@ == old(out)@ + v@,
{
    let mut i: usize = 0;
    while i < v.len()
        invariant
            i <= v.len(),
            out@ == old(out)@ + v@.subrange(0, i as int),
        decreases v.len() - i,
    {
        out.push(v[i]);
        i += 1;
        assert(out@ =~= old(out)@ + v@.subrange(0, i as int));
    }
    assert(v@.subrange(0, v.len() as int) =~= v@);
}

/// The decimal digit character for `d`.
pub fn digit_char(d: u32) -> (c: char)
    requires
        d < 10,
    ensures
        is_digit_spec(c),
        digit_value(c) == d,
        c == digit_char_spec(d as int),
{
    match d {
        0 => '0',
        1 => '1',
        2 => '2',
        3 => '3',
        4 => '4',
        5 => '5',
        6 => '6',
        7 => '7',
        8 => '8',
        _ => '9',
    }
}

/// The characters of `s` that are ASCII decimal digits, in order.
pub open spec fn digit_chars(s: Seq<char>) -> Seq<char>
    decreases s.len(),
{
    if s.len() == 0 {
        seq![]
    } else if is_digit_spec(s.last()) {
        digit_chars(s.drop_last()).push(s.last())
    } else {
        digit_chars(s.drop_last())
    }
}

pub proof fn lemma_digit_chars_are_digits(s: Seq<char>)
    ensures
        forall|k: int| 0 <= k < digit_chars(s).len() ==> is_digit_spec(#[trigger] digit_chars(s)[k]),
        digit_chars(s).len() <= s.len(),
    decreases s.len(),
{
    if s.len() > 0 {
        lemma_digit_chars_are_digits(s.drop_last());
    }
}

/// Keeps the ASCII decimal digits of `s`.
pub fn digits_only(s: &Vec<char>) -> (r: Vec<char>)
    ensures
        r@ == digit_chars(s@),
{
    let mut r: Vec<char> = Vec::new();
    let mut i: usize = 0;
    while i < s.len()
        invariant
            i <= s.len(),
            r@ == digit_chars(s@.subrange(0, i as int)),
        decreases s.len() - i,
    {
        let c = s[i];
        assert(s@.subrange(0, i + 1).drop_last() =~= s@.subrange(0, i as int));
        if '0' <= c && c <= '9' {
            r.push(c);
        }
        i += 1;
    }
    assert(s@.subrange(0, s@.len() as int) =~= s@);
    r
}

/// Characters of a string, in order.
pub fn chars_of(s: &str) -> (r: Vec<char>)
    ensures
        r@ == s@,
{
    let n = s.unicode_len();
    let mut r: Vec<char> = Vec::new();
    let mut i: usize = 0;
    while i < n
        invariant
            n == s@.len(),
            i <= n,
            r@ == s@.subrange(0, i as int),
        decreases n - i,
    {
        let c = s.get_char(i);
        r.push(c);
        i += 1;
        assert(r@ =~= s@.subrange(0, i as int));
    }
    assert(r@ =~= s@);
    r
}

/// A string holding the given characters.
pub fn string_of(v: &Vec<char>) -> (r: String)
    ensures
        r@ == v@,
{
    let mut r = String::new();
    let mut i: usize = 0;
    while i < v.len()
        invariant
            i <= v.len(),
            r@ == v@.subrange(0, i as int),
        decreases v.len() - i,
    {
        r.push(v[i]);
        i += 1;
        assert(r@ =~= v@.subrange(0, i as int));
    }
    assert(r@ =~= v@);
    r
}

/// Lower-case form of a string as `str::to_lowercase` gives it.
pub uninterp spec fn lower_of(s: Seq<char>) -> Seq<char>;

/// Relies on `str::to_lowercase`: a function of the characters alone,
/// empty for an empty string.
#[verifier::external_body]
pub fn to_lower(s: &str) -> (r: String)
    ensures
        r@ == lower_of(s@),
        s@.len() == 0 ==> r@.len() == 0,
{
    s.to_lowercase()
}

/// `s` without leading and trailing whitespace.
pub open spec fn trimmed(s: Seq<char>) -> Seq<char> {
    if lead_ws(s, 0) < trail_end(s, s.len()) {
        s.subrange(lead_ws(s, 0) as int, trail_end(s, s.len()) as int)
    } else {
        seq![]
    }
}

/// Index of the first non-whitespace character at or after `i`, or the end.
pub open spec fn lead_ws(s: Seq<char>, i: nat) -> nat
    decreases s.len() - i,
{
    if i >= s.len() {
        s.len()
    } else if is_whitespace_spec(s[i as int]) {
        lead_ws(s, i + 1)
    } else {
        i
    }
}

/// One past the last non-whitespace character before `j`, or 0.
pub open spec fn trail_end(s: Seq<char>, j: nat) -> nat
    decreases j,
{
    if j == 0 {
        0
    } else if is_whitespace_spec(s[j - 1]) {
        trail_end(s, (j - 1) as nat)
    } else {
        j
    }
}

proof fn lemma_trim_bounds(s: Seq<char>)
    ensures
        lead_ws(s, 0) <= s.len(),
        trail_end(s, s.len()) <= s.len(),
        lead_ws(s, 0) < trail_end(s, s.len()) || trail_end(s, s.len()) == 0 || lead_ws(s, 0) == s.len(),
{
    lemma_lead(s, 0);
    lemma_trail(s, s.len());
    if lead_ws(s, 0) < s.len() {
        lemma_trail_ge(s, s.len(), lead_ws(s, 0));
    }
}

proof fn lemma_lead(s: Seq<char>, i: nat)
    ensures
        lead_ws(s, i) <= s.len(),
        i <= s.len() ==> i <= lead_ws(s, i),
        lead_ws(s, i) < s.len() ==> !is_whitespace_spec(s[lead_ws(s, i) as int]),
        forall|k: int| i <= k < lead_ws(s, i) ==> is_whitespace_spec(s[k]),
    decreases s.len() - i,
{
    if i < s.len() && is_whitespace_spec(s[i as int]) {
        lemma_lead(s, i + 1);
    }
}

proof fn lemma_trail(s: Seq<char>, j: nat)
    requires
        j <= s.len(),
    ensures
        trail_end(s, j) <= j,
    decreases j,
{
    if j > 0 && is_whitespace_spec(s[j - 1]) {
        lemma_trail(s, (j - 1) as nat);
    }
}

proof fn lemma_trail_ge(s: Seq<char>, j: nat, k: nat)
    requires
        j <= s.len(),
        k < j,
        !is_whitespace_spec(s[k as int]),
    ensures
        trail_end(s, j) > k,
    decreases j,
{
    if is_whitespace_spec(s[j - 1]) {
        lemma_trail_ge(s, (j - 1) as nat, k);
    }
}

/// `s` without leading and trailing whitespace.
pub fn trim_chars(s: &Vec<char>) -> (r: Vec<char>)
    ensures
        r@ == trimmed(s@),
{
    proof {
        lemma_trim_bounds(s@);
        lemma_lead(s@, 0);
    }
    let mut a: usize = 0;
    while a < s.len() && is_whitespace_char(s[a])
        invariant
            a <= s.len(),
            lead_ws(s@, 0) == lead_ws(s@, a as nat),
        decreases s.len() - a,
    {
        a += 1;
    }
    let mut b: usize = s.len();
    while b > 0 && is_whitespace_char(s[b - 1])
        invariant
            b <= s.len(),
            trail_end(s@, s.len() as nat) == trail_end(s@, b as nat),
        decreases b,
    {
        b -= 1;
    }
    assert(lead_ws(s@, a as nat) == a);
    assert(trail_end(s@, b as nat) == b);
    let mut r: Vec<char> = Vec::new();
    if a < b {
        let mut i: usize = a;
        while i < b
            invariant
                a <= i <= b <= s.len(),
                r@ == s@.subrange(a as int, i as int),
            decreases b - i,
        {
            r.push(s[i]);
            i += 1;
            assert(r@ =~= s@.subrange(a as int, i as int));
        }
    }
    r
}

/// `s` and `t` hold the same characters.
pub fn chars_eq(s: &Vec<char>, t: &str) -> (b: bool)
    ensures
        b == (s@ == t@),
{
    let n = t.unicode_len();
    if s.len() != n {
        return false;
    }
    let mut i: usize = 0;
    while i < n
        invariant
            n == t@.len(),
            s.len() == n,
            i <= n,
            forall|k: int| 0 <= k < i ==> s@[k] == t@[k],
        decreases n - i,
    {
        if s[i] != t.get_char(i) {
            return false;
        }
        i += 1;
    }
    assert(s@ =~= t@);
    true
}

/// `pat` occurs in `s` starting at `i`.
pub open spec fn occurs_at(s: Seq<char>, pat: Seq<char>, i: int) -> bool {
    0 <= i && i + pat.len() <= s.len() && s.subrange(i, i + pat.len()) == pat
}

pub open spec fn contains_seq(s: Seq<char>, pat: Seq<char>) -> bool {
    exists|i: int| occurs_at(s, pat, i)
}

/// Whether `pat` occurs in `s`.
pub fn contains_str(s: &Vec<char>, pat: &str) -> (b: bool)
    ensures
        b == contains_seq(s@, pat@),
{
    let p = chars_of(pat);
    let m = p.len();
    if m > s.len() {
        assert forall|i: int| !occurs_at(s@, pat@, i) by {}
        return false;
    }
    let mut i: usize = 0;
    while i <= s.len() - m
        invariant
            p@ == pat@,
            m == p.len(),
            m <= s.len(),
            i <= s.len() - m + 1,
            forall|k: int| 0 <= k < i ==> !occurs_at(s@, pat@, k),
        decreases s.len() - i,
    {
        let mut j: usize = 0;
        let mut same = true;
        while j < m
            invariant
                m == p.len(),
                i + m <= s.len(),
                j <= m,
                same == (forall|k: int| 0 <= k < j ==> s@[i + k] == p@[k]),
            decreases m - j,
        {
            if s[i + j] != p[j] {
                same = false;
            }
            j += 1;
        }
        if same {
            assert(s@.subrange(i as int, i + m) =~= pat@);
            assert(occurs_at(s@, pat@, i as int));
            return true;
        }
        assert(!occurs_at(s@, pat@, i as int)) by {
            if occurs_at(s@, pat@, i as int) {
                assert forall|k: int| 0 <= k < m implies s@[i + k] == p@[k] by {
                    assert(s@.subrange(i as int, i + m)[k] == s@[i + k]);
                }
            }
        }
        i += 1;
    }
    assert forall|k: int| !occurs_at(s@, pat@, k) by {
        if 0 <= k < i {
        }
    }
    false
}

} // verus!
