//! Greedy CTC decoding of per-timestep class predictions into text.
use vstd::prelude::*;
use crate::text::{chars_of, string_of};

verus! {

/// Class index reserved for the CTC blank.
pub const BLANK: usize = 0;

/// Timestep `t` emits a character: its class is neither the blank nor the
/// class of the timestep before (the blank before the first one), and the
/// dictionary has an entry for it.
pub open spec fn ctc_emits(classes: Seq<usize>, dict_len: nat, t: int) -> bool {
    let c = classes[t];
    let prev = if t == 0 {
        BLANK
    } else {
        classes[t - 1]
    };
    c != BLANK && c != prev && c < dict_len
}

/// The text decoded from the first `n` timesteps.
pub open spec fn ctc_text(classes: Seq<usize>, dict: Seq<char>, n: nat) -> Seq<char>
    decreases n,
{
    if n == 0 {
        seq![]
    } else if ctc_emits(classes, dict.len(), n - 1) {
        ctc_text(classes, dict, (n - 1) as nat).push(dict[classes[n - 1] as int])
    } else {
        ctc_text(classes, dict, (n - 1) as nat)
    }
}

/// The confidences of the timesteps among the first `n` that emit.
pub open spec fn ctc_scores(classes: Seq<usize>, scores: Seq<u32>, dict_len: nat, n: nat) -> Seq<u32>
    decreases n,
{
    if n == 0 {
        seq![]
    } else if ctc_emits(classes, dict_len, n - 1) {
        ctc_scores(classes, scores, dict_len, (n - 1) as nat).push(scores[n - 1])
    } else {
        ctc_scores(classes, scores, dict_len, (n - 1) as nat)
    }
}

pub open spec fn sum_u32(s: Seq<u32>) -> int
    decreases s.len(),
{
    if s.len() == 0 {
        0
    } else {
        sum_u32(s.drop_last()) + s.last()
    }
}

/// Mean of the values, rounded down; 0 for none.
pub open spec fn mean_u32(s: Seq<u32>) -> int {
    if s.len() == 0 {
        0
    } else {
        sum_u32(s) / (s.len() as int)
    }
}

/// Decoded text with its confidences, in thousandths.
pub struct RecognitionResult {
    pub text: String,
    /// Mean of `char_scores`, 0 when nothing was decoded.
    pub confidence: u32,
    pub char_scores: Vec<u32>,
}

/// Recognition settings: the character dictionary (index 0 is the blank)
/// and the minimum confidence, in thousandths, a caller keeps.
pub struct TextRecognizer {
    pub dictionary: Vec<char>,
    pub threshold: u32,
}

proof fn lemma_sum_bound(s: Seq<u32>)
    ensures
        0 <= sum_u32(s) <= s.len() * 0xffff_ffff,
    decreases s.len(),
{
    if s.len() > 0 {
        lemma_sum_bound(s.drop_last());
    }
}

/// The built-in dictionary: the blank, digits, ASCII letters, Polish
/// letters, punctuation and currency and other common signs.
pub open spec fn latin_dictionary() -> Seq<char> {
    seq![' ', '0', '1', '2', '3', '4', '5', '6', '7', '8', '9']
        + seq!['A', 'B', 'C', 'D', 'E', 'F', 'G', 'H', 'I', 'J', 'K', 'L', 'M', 'N', 'O', 'P', 'Q', 'R', 'S', 'T', 'U', 'V', 'W', 'X', 'Y', 'Z']
        + seq!['a', 'b', 'c', 'd', 'e', 'f', 'g', 'h', 'i', 'j', 'k', 'l', 'm', 'n', 'o', 'p', 'q', 'r', 's', 't', 'u', 'v', 'w', 'x', 'y', 'z']
        + seq!['Ą', 'ą', 'Ć', 'ć', 'Ę', 'ę', 'Ł', 'ł', 'Ń', 'ń', 'Ó', 'ó', 'Ś', 'ś', 'Ź', 'ź', 'Ż', 'ż']
        + seq!['.', ',', ';', ':', '!', '?', '-', '_', '/', '\\', '(', ')', '[', ']', '{', '}', '<', '>', '@', '#', '$', '%', '^', '&', '*', '+', '=', '|', '~', '`', '\'', '"', ' ']
        + seq!['€', '£', '¥', '§', '©', '®', '°', '²', '³', '½', '¼', '¾']
}

/// Position `p` starts a line of `s`.
pub open spec fn line_start(s: Seq<char>, p: int) -> bool {
    p == 0 || s[p - 1] == '\n'
}

/// Position `p` holds the first character of a non-empty line (a line's
/// final carriage return belongs to its end).
pub open spec fn line_initial(s: Seq<char>, p: int) -> bool {
    &&& 0 <= p < s.len()
    &&& line_start(s, p)
    &&& s[p] != '\n'
    &&& !(s[p] == '\r' && (p + 1 == s.len() || s[p + 1] == '\n'))
}

/// The first characters of the lines that start among the first `n`
/// positions.
pub open spec fn line_initials(s: Seq<char>, n: nat) -> Seq<char>
    decreases n,
{
    if n == 0 {
        seq![]
    } else if line_initial(s, n - 1) {
        line_initials(s, (n - 1) as nat).push(s[n - 1])
    } else {
        line_initials(s, (n - 1) as nat)
    }
}

/// A dictionary file: the blank, then the first character of each
/// non-empty line.
pub fn dictionary_from_text(content: &str) -> (r: Vec<char>)
    ensures
        r@ == seq![' '] + line_initials(content@, content@.len()),
{
    let s = chars_of(content);
    let mut r: Vec<char> = Vec::new();
    r.push(' ');
    let mut p: usize = 0;
    while p < s.len()
        invariant
            s@ == content@,
            p <= s.len(),
            r@ == seq![' '] + line_initials(s@, p as nat),
        decreases s.len() - p,
    {
        let start = p == 0 || s[p - 1] == '\n';
        let c = s[p];
        let cr_end = c == '\r' && (p + 1 == s.len() || s[p + 1] == '\n');
        if start && c != '\n' && !cr_end {
            r.push(c);
        }
        p += 1;
        assert(r@ =~= seq![' '] + line_initials(s@, p as nat));
    }
    r
}

impl TextRecognizer {
    /// The built-in dictionary.
    pub fn default_latin_dictionary() -> (r: Vec<char>)
        ensures
            r@ == latin_dictionary(),
    {
        let v: Vec<char> = vec![
            ' ', '0', '1', '2', '3', '4', '5', '6', '7', '8', '9',
            'A', 'B', 'C', 'D', 'E', 'F', 'G', 'H', 'I', 'J', 'K', 'L', 'M', 'N', 'O', 'P', 'Q', 'R', 'S', 'T', 'U', 'V', 'W', 'X', 'Y', 'Z',
            'a', 'b', 'c', 'd', 'e', 'f', 'g', 'h', 'i', 'j', 'k', 'l', 'm', 'n', 'o', 'p', 'q', 'r', 's', 't', 'u', 'v', 'w', 'x', 'y', 'z',
            'Ą', 'ą', 'Ć', 'ć', 'Ę', 'ę', 'Ł', 'ł', 'Ń', 'ń', 'Ó', 'ó', 'Ś', 'ś', 'Ź', 'ź', 'Ż', 'ż',
            '.', ',', ';', ':', '!', '?', '-', '_', '/', '\\', '(', ')', '[', ']', '{', '}', '<', '>', '@', '#', '$', '%', '^', '&', '*', '+', '=', '|', '~', '`', '\'', '"', ' ',
            '€', '£', '¥', '§', '©', '®', '°', '²', '³', '½', '¼', '¾',
        ];
        assert(v@ =~= latin_dictionary());
        v
    }

    pub fn new(dictionary: Vec<char>) -> (r: Self)
        ensures
            r.dictionary@ == dictionary@,
            r.threshold == 500,
    {
        TextRecognizer { dictionary, threshold: 500 }
    }

    pub fn with_threshold(self, threshold: u32) -> (r: Self)
        ensures
            r.dictionary@ == self.dictionary@,
            r.threshold == threshold,
    {
        TextRecognizer { dictionary: self.dictionary, threshold }
    }

    /// Greedy CTC decoding: `classes[t]` is the best class of timestep `t`
    /// and `scores[t]` its confidence. A character is emitted where the class
    /// is not the blank and differs from the class just before it, so a blank
    /// between two equal classes lets both through.
    pub fn decode(&self, classes: &Vec<usize>, scores: &Vec<u32>) -> (r: RecognitionResult)
        requires
            classes.len() == scores.len(),
        ensures
            r.text@ == ctc_text(classes@, self.dictionary@, classes.len() as nat),
            r.char_scores@ == ctc_scores(classes@, scores@, self.dictionary.len() as nat, classes.len() as nat),
            r.confidence as int == mean_u32(r.char_scores@),
    {
        let ghost dict = self.dictionary@;
        let mut text: Vec<char> = Vec::new();
        let mut char_scores: Vec<u32> = Vec::new();
        let mut sum: u128 = 0;
        let mut prev: usize = BLANK;
        let mut t: usize = 0;
        while t < classes.len()
            invariant
                classes.len() == scores.len(),
                dict == self.dictionary@,
                t <= classes.len(),
                prev == (if t == 0 { BLANK } else { classes@[t - 1] }),
                text@ == ctc_text(classes@, dict, t as nat),
                char_scores@ == ctc_scores(classes@, scores@, dict.len(), t as nat),
                sum as int == sum_u32(char_scores@),
                char_scores.len() <= t,
            decreases classes.len() - t,
        {
            let c = classes[t];
            if c != BLANK && c != prev && c < self.dictionary.len() {
                text.push(self.dictionary[c]);
                proof {
                    lemma_sum_bound(char_scores@);
                    assert(char_scores@.push(scores@[t as int]).drop_last() =~= char_scores@);
                }
                sum = sum + scores[t] as u128;
                char_scores.push(scores[t]);
            }
            prev = c;
            t += 1;
        }
        let confidence: u32 = if char_scores.len() == 0 {
            0
        } else {
            proof {
                lemma_sum_bound(char_scores@);
                assert(sum / (char_scores.len() as u128) <= 0xffff_ffff) by (nonlinear_arith)
                    requires
                        sum <= char_scores.len() * 0xffff_ffff,
                        char_scores.len() > 0,
                ;
            }
            (sum / (char_scores.len() as u128)) as u32
        };
        RecognitionResult { text: string_of(&text), confidence, char_scores }
    }
}

} // verus!
