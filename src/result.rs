//! Recognised text boxes, the page result, and its reading order.
use vstd::prelude::*;
use crate::order::{
    distinct_indices, lemma_stable_order_permutes,
    ascending, keys_ascending, lemma_stable_order_ascending, lemma_stable_order_of_ascending,
    stable_order, stable_sort_indices,
};
use crate::text::{push_chars, chars_of, string_of};

verus! {

/// Largest coordinate a box may have, in thousandths of a pixel.
pub const MAX_COORD: i64 = 1_000_000_000_000;

/// Height of a reading-order band: 20 pixels, in thousandths.
pub const LINE_BAND: i64 = 20_000;

/// One recognised region. `bbox` holds the corners `(x, y)` top-left,
/// top-right, bottom-right, bottom-left, in thousandths of a pixel; scores
/// are in thousandths.
pub struct TextBox {
    pub bbox: [i64; 8],
    pub text: String,
    pub detection_score: u32,
    pub recognition_score: u32,
    /// 0 or 180.
    pub angle: i32,
}

/// A layout region attached to a result: `bbox` is `[x1, y1, x2, y2]` in
/// thousandths of a pixel.
pub struct RegionBox {
    pub region_type: String,
    pub bbox: [i64; 4],
    pub confidence: u32,
}

pub struct LayoutInfo {
    pub tables: Vec<RegionBox>,
    pub text_regions: Vec<RegionBox>,
    pub figures: Vec<RegionBox>,
}

pub struct OcrResult {
    pub boxes: Vec<TextBox>,
    /// The boxes' texts joined by newlines.
    pub text: String,
    pub processing_time_ms: u64,
    pub image_size: (u32, u32),
    pub layout: Option<LayoutInfo>,
}

pub open spec fn min4(a: i64, b: i64, c: i64, d: i64) -> i64 {
    let m1 = if a <= b { a } else { b };
    let m2 = if c <= d { c } else { d };
    if m1 <= m2 { m1 } else { m2 }
}

pub open spec fn max4(a: i64, b: i64, c: i64, d: i64) -> i64 {
    let m1 = if a >= b { a } else { b };
    let m2 = if c >= d { c } else { d };
    if m1 >= m2 { m1 } else { m2 }
}

/// Every coordinate of the box lies in `[0, MAX_COORD]`.
pub open spec fn bbox_in_range(b: [i64; 8]) -> bool {
    forall|i: int| 0 <= i < 8 ==> 0 <= #[trigger] b[i] <= MAX_COORD
}

pub open spec fn rect_left(b: [i64; 8]) -> i64 {
    min4(b[0], b[2], b[4], b[6])
}

pub open spec fn rect_top(b: [i64; 8]) -> i64 {
    min4(b[1], b[3], b[5], b[7])
}

/// Reading-order key: the 20-pixel band of the top edge first, then the
/// left edge.
pub open spec fn reading_key(b: TextBox) -> i128 {
    ((rect_top(b.bbox) / LINE_BAND) * 0x1_0000_0000_0000_0000 + rect_left(b.bbox)) as i128
}

pub open spec fn reading_keys(boxes: Seq<TextBox>) -> Seq<i128> {
    boxes.map_values(|b: TextBox| reading_key(b))
}

/// `boxes` in reading order: by band, then left to right, ties kept in
/// their order.
pub open spec fn reading_order(boxes: Seq<TextBox>) -> Seq<TextBox> {
    stable_order(reading_keys(boxes), boxes.len()).map_values(|i: usize| boxes[i as int])
}

/// The texts of `boxes` joined by newlines.
pub open spec fn joined_text(boxes: Seq<TextBox>) -> Seq<char>
    decreases boxes.len(),
{
    if boxes.len() == 0 {
        seq![]
    } else if boxes.len() == 1 {
        boxes[0].text@
    } else {
        joined_text(boxes.drop_last()) + seq!['\n'] + boxes.last().text@
    }
}

pub open spec fn boxes_in_range(boxes: Seq<TextBox>) -> bool {
    forall|i: int| 0 <= i < boxes.len() ==> bbox_in_range(#[trigger] boxes[i].bbox)
}

/// Reading order leaves boxes that are already in reading order as they
/// are, so ordering twice gives the order (and text) of ordering once.
pub proof fn lemma_reading_order_idempotent(boxes: Seq<TextBox>)
    requires
        boxes.len() <= usize::MAX,
    ensures
        reading_order(reading_order(boxes)) == reading_order(boxes),
        joined_text(reading_order(reading_order(boxes))) == joined_text(reading_order(boxes)),
{
    let keys = reading_keys(boxes);
    let n = boxes.len();
    lemma_stable_order_ascending(keys, n);
    let p = stable_order(keys, n);
    let once = reading_order(boxes);
    let keys1 = reading_keys(once);
    assert(forall|k: int| 0 <= k < n ==> keys1[k] == keys[p[k] as int]);
    assert(ascending(keys1)) by {
        assert forall|a: int, b: int| 0 <= a < b < keys1.len() implies keys1[a] <= keys1[b] by {
            assert(keys_ascending(p, keys));
        }
    }
    lemma_stable_order_of_ascending(keys1, n);
    assert(reading_order(once) =~= once);
}

/// Reading order only rearranges: each box lands at one place, taken from
/// one distinct place of the input.
pub proof fn lemma_reading_order_permutes(boxes: Seq<TextBox>)
    requires
        boxes.len() <= usize::MAX,
    ensures
        reading_order(boxes).len() == boxes.len(),
        exists|p: Seq<usize>|
            p.len() == boxes.len() && distinct_indices(p) && (forall|k: int| 0 <= k < p.len() ==> #[trigger] p[k] < boxes.len())
                && forall|k: int| 0 <= k < p.len() ==> #[trigger] reading_order(boxes)[k] == boxes[p[k] as int],
{
    let p = stable_order(reading_keys(boxes), boxes.len());
    lemma_stable_order_permutes(reading_keys(boxes), boxes.len());
    assert forall|k: int| 0 <= k < p.len() implies #[trigger] reading_order(boxes)[k] == boxes[p[k] as int] by {}
}

fn min_of(a: i64, b: i64) -> (r: i64)
    ensures
        r == (if a <= b { a } else { b }),
{
    if a <= b {
        a
    } else {
        b
    }
}

fn max_of(a: i64, b: i64) -> (r: i64)
    ensures
        r == (if a >= b { a } else { b }),
{
    if a >= b {
        a
    } else {
        b
    }
}

/// The integer square root: the largest `r` with `r * r <= s`.
pub fn isqrt(s: u128) -> (r: u128)
    ensures
        r * r <= s < (r + 1) * (r + 1),
{
    let mut lo: u128 = 0;
    let mut hi: u128 = 0x1_0000_0000_0000_0000;
    assert(s < hi * hi) by (nonlinear_arith)
        requires
            s <= 0xffff_ffff_ffff_ffff_ffff_ffff_ffff_ffff,
            hi == 0x1_0000_0000_0000_0000,
    ;
    while hi - lo > 1
        invariant
            lo < hi <= 0x1_0000_0000_0000_0000,
            lo * lo <= s,
            s < hi * hi,
        decreases hi - lo,
    {
        let mid = lo + (hi - lo) / 2;
        assert(mid * mid <= 0xffff_ffff_ffff_ffff * 0xffff_ffff_ffff_ffff) by (nonlinear_arith)
            requires
                mid < 0x1_0000_0000_0000_0000,
        ;
        if mid * mid <= s {
            lo = mid;
        } else {
            hi = mid;
        }
    }
    assert(hi == lo + 1);
    lo
}

/// Length of the side from corner `a` to corner `b`, rounded down.
pub open spec fn side_length(b: [i64; 8], a: int, c: int, r: int) -> bool {
    let dx = b[c] - b[a];
    let dy = b[c + 1] - b[a + 1];
    r * r <= dx * dx + dy * dy < (r + 1) * (r + 1) && r >= 0
}

fn copy_box(b: &TextBox) -> (r: TextBox)
    ensures
        r == *b,
{
    TextBox {
        bbox: b.bbox,
        text: b.text.clone(),
        detection_score: b.detection_score,
        recognition_score: b.recognition_score,
        angle: b.angle,
    }
}

impl TextBox {
    /// Centre of the four corners, rounded down.
    pub fn center(&self) -> (r: (i64, i64))
        requires
            bbox_in_range(self.bbox),
        ensures
            r.0 == (self.bbox[0] + self.bbox[2] + self.bbox[4] + self.bbox[6]) / 4,
            r.1 == (self.bbox[1] + self.bbox[3] + self.bbox[5] + self.bbox[7]) / 4,
    {
        let b = self.bbox;
        assert(bbox_in_range(b));
        assert(0 <= b[0] <= MAX_COORD && 0 <= b[1] <= MAX_COORD && 0 <= b[2] <= MAX_COORD && 0 <= b[3]
            <= MAX_COORD && 0 <= b[4] <= MAX_COORD && 0 <= b[5] <= MAX_COORD && 0 <= b[6] <= MAX_COORD
            && 0 <= b[7] <= MAX_COORD);
        ((b[0] + b[2] + b[4] + b[6]) / 4, (b[1] + b[3] + b[5] + b[7]) / 4)
    }

    fn side(&self, a: usize, c: usize) -> (r: i64)
        requires
            bbox_in_range(self.bbox),
            a == 0 || a == 6 || a == 4,
            c == a + 2 || (a == 0 && c == 6),
            c + 1 < 8,
        ensures
            side_length(self.bbox, a as int, c as int, r as int),
    {
        let b = self.bbox;
        assert(0 <= b[a as int] <= MAX_COORD && 0 <= b[a + 1] <= MAX_COORD && 0 <= b[c as int] <= MAX_COORD
            && 0 <= b[c + 1] <= MAX_COORD);
        let dx = (b[c] - b[a]) as i128;
        let dy = (b[c + 1] - b[a + 1]) as i128;
        assert(0 <= dx * dx <= MAX_COORD * MAX_COORD) by (nonlinear_arith)
            requires
                -MAX_COORD <= dx <= MAX_COORD,
        ;
        assert(0 <= dy * dy <= MAX_COORD * MAX_COORD) by (nonlinear_arith)
            requires
                -MAX_COORD <= dy <= MAX_COORD,
        ;
        let s = (dx * dx + dy * dy) as u128;
        let r = isqrt(s);
        assert(r <= 2 * MAX_COORD) by (nonlinear_arith)
            requires
                r * r <= s,
                s <= 2 * MAX_COORD * MAX_COORD,
        ;
        r as i64
    }

    /// Length of the top side (first corner to second), rounded down.
    pub fn width(&self) -> (r: i64)
        requires
            bbox_in_range(self.bbox),
        ensures
            side_length(self.bbox, 0, 2, r as int),
    {
        self.side(0, 2)
    }

    /// Length of the left side (first corner to fourth), rounded down.
    pub fn height(&self) -> (r: i64)
        requires
            bbox_in_range(self.bbox),
        ensures
            side_length(self.bbox, 0, 6, r as int),
    {
        self.side(0, 6)
    }

    /// Axis-aligned rectangle `(min_x, min_y, max_x, max_y)` of the corners.
    pub fn rect(&self) -> (r: (i64, i64, i64, i64))
        ensures
            r.0 == rect_left(self.bbox),
            r.1 == rect_top(self.bbox),
            r.2 == max4(self.bbox[0], self.bbox[2], self.bbox[4], self.bbox[6]),
            r.3 == max4(self.bbox[1], self.bbox[3], self.bbox[5], self.bbox[7]),
    {
        let b = self.bbox;
        (
            min_of(min_of(b[0], b[2]), min_of(b[4], b[6])),
            min_of(min_of(b[1], b[3]), min_of(b[5], b[7])),
            max_of(max_of(b[0], b[2]), max_of(b[4], b[6])),
            max_of(max_of(b[1], b[3]), max_of(b[5], b[7])),
        )
    }

    fn reading_key_exec(&self) -> (k: i128)
        ensures
            k == reading_key(*self),
    {
        let (left, top, _, _) = self.rect();
        let band: i128 = if top >= 0 {
            let b = (top as i128) / (LINE_BAND as i128);
            proof {
                vstd::arithmetic::div_mod::lemma_fundamental_div_mod(top as int, 20_000);
                vstd::arithmetic::div_mod::lemma_mod_pos_bound(top as int, 20_000);
            }
            assert(0 <= b <= 0x4_0000_0000_0000);
            b
        } else {
            let m = -(top as i128) - 1;
            let q = m / (LINE_BAND as i128);
            assert((top as int) / (LINE_BAND as int) == -q - 1) by (nonlinear_arith)
                requires
                    m == -(top as int) - 1,
                    q == m / 20_000,
                    m >= 0,
                    LINE_BAND == 20_000,
            ;
            proof {
                vstd::arithmetic::div_mod::lemma_fundamental_div_mod(m as int, 20_000);
                vstd::arithmetic::div_mod::lemma_mod_pos_bound(m as int, 20_000);
            }
            assert(0 <= q <= 0x4_0000_0000_0000);
            -q - 1
        };
        band * 0x1_0000_0000_0000_0000 + left as i128
    }
}

/// Whether every coordinate lies in `[0, MAX_COORD]`.
pub fn bbox_ok(b: &[i64; 8]) -> (r: bool)
    ensures
        r == bbox_in_range(*b),
{
    let mut i: usize = 0;
    while i < 8
        invariant
            i <= 8,
            forall|k: int| 0 <= k < i ==> 0 <= #[trigger] b[k] <= MAX_COORD,
        decreases 8 - i,
    {
        if b[i] < 0 || b[i] > MAX_COORD {
            return false;
        }
        i += 1;
    }
    true
}

/// The texts of `boxes` joined by newlines.
pub fn join_texts(boxes: &Vec<TextBox>) -> (r: String)
    ensures
        r@ == joined_text(boxes@),
{
    let mut out: Vec<char> = Vec::new();
    let mut i: usize = 0;
    while i < boxes.len()
        invariant
            i <= boxes.len(),
            out@ == joined_text(boxes@.subrange(0, i as int)),
        decreases boxes.len() - i,
    {
        assert(boxes@.subrange(0, i + 1).drop_last() =~= boxes@.subrange(0, i as int));
        if i > 0 {
            out.push('\n');
        }
        let t = chars_of(boxes[i].text.as_str());
        push_chars(&mut out, &t);
        i += 1;
        assert(boxes@.subrange(0, i as int).last() == boxes@[i - 1]);
        assert(out@ =~= joined_text(boxes@.subrange(0, i as int)));
    }
    assert(boxes@.subrange(0, boxes.len() as int) =~= boxes@);
    string_of(&out)
}

impl OcrResult {
    pub fn empty(width: u32, height: u32) -> (r: Self)
        ensures
            r.boxes.len() == 0,
            r.text@.len() == 0,
            r.processing_time_ms == 0,
            r.image_size == (width, height),
            r.layout.is_none(),
    {
        OcrResult {
            boxes: Vec::new(),
            text: String::new(),
            processing_time_ms: 0,
            image_size: (width, height),
            layout: None,
        }
    }

    /// Puts the boxes in reading order (20-pixel bands of the top edge, then
    /// left to right, ties in their former order) and rebuilds the text.
    pub fn sort_by_reading_order(&mut self)
        ensures
            final(self).boxes@ == reading_order(old(self).boxes@),
            final(self).text@ == joined_text(final(self).boxes@),
            boxes_in_range(old(self).boxes@) ==> boxes_in_range(final(self).boxes@),
            final(self).processing_time_ms == old(self).processing_time_ms,
            final(self).image_size == old(self).image_size,
            final(self).layout == old(self).layout,
    {
        let n = self.boxes.len();
        let mut keys: Vec<i128> = Vec::new();
        let mut i: usize = 0;
        while i < n
            invariant
                n == self.boxes.len(),
                i <= n,
                keys@ == reading_keys(self.boxes@).subrange(0, i as int),
            decreases n - i,
        {
            let k = self.boxes[i].reading_key_exec();
            keys.push(k);
            i += 1;
            assert(keys@ =~= reading_keys(self.boxes@).subrange(0, i as int));
        }
        assert(keys@ =~= reading_keys(self.boxes@));
        let order = stable_sort_indices(&keys);
        let mut sorted: Vec<TextBox> = Vec::new();
        let mut j: usize = 0;
        while j < n
            invariant
                n == self.boxes.len(),
                order.len() == n,
                order@ == stable_order(reading_keys(self.boxes@), n as nat),
                forall|k: int| 0 <= k < n ==> order[k] < n,
                j <= n,
                sorted@ == reading_order(self.boxes@).subrange(0, j as int),
            decreases n - j,
        {
            let b = copy_box(&self.boxes[order[j]]);
            sorted.push(b);
            j += 1;
            assert(sorted@ =~= reading_order(self.boxes@).subrange(0, j as int));
        }
        assert(sorted@ =~= reading_order(old(self).boxes@));
        proof {
            if boxes_in_range(old(self).boxes@) {
                assert forall|k: int| 0 <= k < sorted.len() implies bbox_in_range(#[trigger] sorted@[k].bbox) by {
                    assert(sorted@[k] == old(self).boxes@[order[k] as int]);
                }
            }
        }
        self.text = join_texts(&sorted);
        self.boxes = sorted;
    }
}

} // verus!
