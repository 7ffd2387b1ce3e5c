//! Document layout regions: class mapping, per-type non-maximum
//! suppression, and reading order.
use vstd::prelude::*;
use crate::order::{stable_order, stable_sort_indices};
use crate::result::{bbox_in_range, TextBox, MAX_COORD};

verus! {

#[derive(Clone, Copy, Debug, PartialEq, Eq, Hash, Structural)]
pub enum LayoutType {
    Text,
    Title,
    List,
    Table,
    Figure,
    Unknown,
}

/// Class scheme of a layout model.
#[derive(Clone, Copy, Debug, PartialEq, Eq, Structural)]
pub enum LayoutModelType {
    /// Five classes: text, title, list, table, figure.
    PubLayNet,
    /// Nine classes, captions, headers, footers, references and equations
    /// folded into the five types.
    Cdla,
}

pub open spec fn publaynet_type(class: usize) -> LayoutType {
    if class == 0 {
        LayoutType::Text
    } else if class == 1 {
        LayoutType::Title
    } else if class == 2 {
        LayoutType::List
    } else if class == 3 {
        LayoutType::Table
    } else if class == 4 {
        LayoutType::Figure
    } else {
        LayoutType::Unknown
    }
}

pub open spec fn cdla_type(class: usize) -> LayoutType {
    if class == 1 {
        LayoutType::Figure
    } else if class == 3 {
        LayoutType::Table
    } else if class == 5 {
        LayoutType::Title
    } else if class <= 8 {
        LayoutType::Text
    } else {
        LayoutType::Unknown
    }
}

/// Lower-case name of a region type.
pub open spec fn region_type_name(t: LayoutType) -> Seq<char> {
    match t {
        LayoutType::Text => "text"@,
        LayoutType::Title => "title"@,
        LayoutType::List => "list"@,
        LayoutType::Table => "table"@,
        LayoutType::Figure => "figure"@,
        LayoutType::Unknown => "unknown"@,
    }
}

impl LayoutType {
    /// Lower-case name of the type.
    pub fn name(&self) -> (r: String)
        ensures
            r@ == region_type_name(*self),
    {
        match self {
            LayoutType::Text => String::from_str("text"),
            LayoutType::Title => String::from_str("title"),
            LayoutType::List => String::from_str("list"),
            LayoutType::Table => String::from_str("table"),
            LayoutType::Figure => String::from_str("figure"),
            LayoutType::Unknown => String::from_str("unknown"),
        }
    }

    pub fn from_publaynet_class(class: usize) -> (r: Self)
        ensures
            r == publaynet_type(class),
    {
        match class {
            0 => LayoutType::Text,
            1 => LayoutType::Title,
            2 => LayoutType::List,
            3 => LayoutType::Table,
            4 => LayoutType::Figure,
            _ => LayoutType::Unknown,
        }
    }

    pub fn from_cdla_class(class: usize) -> (r: Self)
        ensures
            r == cdla_type(class),
    {
        match class {
            0 => LayoutType::Text,
            1 => LayoutType::Figure,
            2 => LayoutType::Text,
            3 => LayoutType::Table,
            4 => LayoutType::Text,
            5 => LayoutType::Title,
            6 => LayoutType::Text,
            7 => LayoutType::Text,
            8 => LayoutType::Text,
            _ => LayoutType::Unknown,
        }
    }

    pub fn is_table(&self) -> (b: bool)
        ensures
            b == (*self == LayoutType::Table),
    {
        matches!(self, LayoutType::Table)
    }

    pub fn is_text(&self) -> (b: bool)
        ensures
            b == (*self == LayoutType::Text || *self == LayoutType::Title || *self == LayoutType::List),
    {
        matches!(self, LayoutType::Text | LayoutType::Title | LayoutType::List)
    }
}

/// A layout region: `bbox` is `[x1, y1, x2, y2]` in thousandths of a pixel,
/// `confidence` in thousandths.
#[derive(Clone, Copy)]
pub struct LayoutRegion {
    pub region_type: LayoutType,
    pub bbox: [i64; 4],
    pub confidence: u32,
}

pub open spec fn box_in_range(b: [i64; 4]) -> bool {
    forall|i: int| 0 <= i < 4 ==> 0 <= #[trigger] b[i] <= MAX_COORD
}

pub open spec fn regions_in_range(rs: Seq<LayoutRegion>) -> bool {
    forall|i: int| 0 <= i < rs.len() ==> box_in_range(#[trigger] rs[i].bbox)
}

pub open spec fn area_of(b: [i64; 4]) -> int {
    (b[2] - b[0]) * (b[3] - b[1])
}

pub open spec fn imax(a: int, b: int) -> int {
    if a >= b {
        a
    } else {
        b
    }
}

pub open spec fn imin(a: int, b: int) -> int {
    if a <= b {
        a
    } else {
        b
    }
}

pub open spec fn intersection_of(a: [i64; 4], b: [i64; 4]) -> int {
    let x1 = imax(a[0] as int, b[0] as int);
    let y1 = imax(a[1] as int, b[1] as int);
    let x2 = imin(a[2] as int, b[2] as int);
    let y2 = imin(a[3] as int, b[3] as int);
    if x2 < x1 || y2 < y1 {
        0
    } else {
        (x2 - x1) * (y2 - y1)
    }
}

/// Intersection over union of `a` and `b` exceeds `t` thousandths (an
/// empty union counts as no overlap).
pub open spec fn iou_exceeds(a: [i64; 4], b: [i64; 4], t: int) -> bool {
    let inter = intersection_of(a, b);
    let union = area_of(a) + area_of(b) - inter;
    union > 0 && inter * 1000 > t * union
}

/// `x` overlaps a region of its own type in `kept` by more than `t`.
pub open spec fn suppressed(x: LayoutRegion, kept: Seq<LayoutRegion>, t: int) -> bool {
    exists|k: int|
        0 <= k < kept.len() && (#[trigger] kept[k]).region_type == x.region_type && iou_exceeds(
            x.bbox,
            kept[k].bbox,
            t,
        )
}

/// Greedy suppression over the first `n` of `s`: each region is kept unless
/// a region of the same type kept before it overlaps it by more than `t`.
pub open spec fn greedy_keep(s: Seq<LayoutRegion>, t: int, n: nat) -> Seq<LayoutRegion>
    decreases n,
{
    if n == 0 {
        seq![]
    } else {
        let kept = greedy_keep(s, t, (n - 1) as nat);
        if suppressed(s[n - 1], kept, t) {
            kept
        } else {
            kept.push(s[n - 1])
        }
    }
}

pub open spec fn confidence_keys(rs: Seq<LayoutRegion>) -> Seq<i128> {
    rs.map_values(|r: LayoutRegion| (-(r.confidence as int)) as i128)
}

/// `rs` by descending confidence, ties in their order.
pub open spec fn by_confidence(rs: Seq<LayoutRegion>) -> Seq<LayoutRegion> {
    stable_order(confidence_keys(rs), rs.len()).map_values(|i: usize| rs[i as int])
}

/// Per-type non-maximum suppression of `rs` at threshold `t`.
pub open spec fn nms_spec(rs: Seq<LayoutRegion>, t: int) -> Seq<LayoutRegion> {
    let s = by_confidence(rs);
    greedy_keep(s, t, s.len())
}

proof fn lemma_two_ordered(a: LayoutRegion, b: LayoutRegion)
    requires
        a.confidence > b.confidence,
    ensures
        by_confidence(seq![a, b]) == seq![a, b],
        by_confidence(seq![b, a]) == seq![a, b],
{
    let k1 = confidence_keys(seq![a, b]);
    assert(stable_order(k1, 0) == Seq::<usize>::empty());
    assert(crate::order::insert_by_key(Seq::<usize>::empty(), k1, 0usize) == seq![0usize]);
    assert(stable_order(k1, 1) =~= seq![0usize]);
    assert(stable_order(k1, 2) =~= seq![0usize, 1usize]);
    assert(by_confidence(seq![a, b]) =~= seq![a, b]);
    let k2 = confidence_keys(seq![b, a]);
    assert(stable_order(k2, 0) == Seq::<usize>::empty());
    assert(crate::order::insert_by_key(Seq::<usize>::empty(), k2, 0usize) == seq![0usize]);
    assert(stable_order(k2, 1) =~= seq![0usize]);
    assert(seq![0usize].drop_last() =~= Seq::<usize>::empty());
    assert(k2[0] > k2[1]);
    assert(crate::order::insert_by_key(Seq::<usize>::empty(), k2, 1usize) == seq![1usize]);
    assert(crate::order::insert_by_key(seq![0usize], k2, 1usize) =~= seq![1usize, 0usize]);
    assert(stable_order(k2, 2) =~= seq![1usize, 0usize]);
    assert(by_confidence(seq![b, a]) =~= seq![a, b]);
}

/// Two regions of one type that overlap by more than the threshold leave
/// only the more confident one, whatever their order.
pub proof fn lemma_nms_same_type_keeps_stronger(a: LayoutRegion, b: LayoutRegion, t: int)
    requires
        a.region_type == b.region_type,
        a.confidence > b.confidence,
        iou_exceeds(a.bbox, b.bbox, t),
    ensures
        nms_spec(seq![a, b], t) == seq![a],
        nms_spec(seq![b, a], t) == seq![a],
{
    lemma_two_ordered(a, b);
    let s = seq![a, b];
    assert(greedy_keep(s, t, 0) == Seq::<LayoutRegion>::empty());
    assert(!suppressed(a, Seq::<LayoutRegion>::empty(), t));
    assert(greedy_keep(s, t, 1) =~= seq![a]);
    assert(iou_exceeds(b.bbox, a.bbox, t));
    assert(seq![a][0] == a);
    assert(suppressed(b, seq![a], t));
    assert(greedy_keep(s, t, 2) == seq![a]);
}

/// Regions of different types never suppress each other: both remain,
/// most confident first.
pub proof fn lemma_nms_types_independent(a: LayoutRegion, b: LayoutRegion, t: int)
    requires
        a.region_type != b.region_type,
        a.confidence > b.confidence,
    ensures
        nms_spec(seq![a, b], t) == seq![a, b],
        nms_spec(seq![b, a], t) == seq![a, b],
{
    lemma_two_ordered(a, b);
    let s = seq![a, b];
    assert(greedy_keep(s, t, 0) == Seq::<LayoutRegion>::empty());
    assert(!suppressed(a, Seq::<LayoutRegion>::empty(), t));
    assert(greedy_keep(s, t, 1) =~= seq![a]);
    assert(!suppressed(b, seq![a], t));
    assert(greedy_keep(s, t, 2) =~= seq![a, b]);
}

fn area_exec(b: &[i64; 4]) -> (r: i128)
    requires
        box_in_range(*b),
    ensures
        r == area_of(*b),
        -MAX_COORD * MAX_COORD <= r <= MAX_COORD * MAX_COORD,
{
    assert(0 <= b[0] <= MAX_COORD && 0 <= b[1] <= MAX_COORD && 0 <= b[2] <= MAX_COORD && 0 <= b[3]
        <= MAX_COORD);
    let w = b[2] as i128 - b[0] as i128;
    let h = b[3] as i128 - b[1] as i128;
    assert(-MAX_COORD <= w <= MAX_COORD && -MAX_COORD <= h <= MAX_COORD);
    assert(-MAX_COORD * MAX_COORD <= w * h <= MAX_COORD * MAX_COORD) by (nonlinear_arith)
        requires
            -MAX_COORD <= w <= MAX_COORD,
            -MAX_COORD <= h <= MAX_COORD,
    ;
    w * h
}

impl LayoutRegion {
    pub fn width(&self) -> (r: i64)
        requires
            box_in_range(self.bbox),
        ensures
            r == self.bbox[2] - self.bbox[0],
    {
        assert(0 <= self.bbox[0] && self.bbox[2] <= MAX_COORD);
        self.bbox[2] - self.bbox[0]
    }

    pub fn height(&self) -> (r: i64)
        requires
            box_in_range(self.bbox),
        ensures
            r == self.bbox[3] - self.bbox[1],
    {
        assert(0 <= self.bbox[1] && self.bbox[3] <= MAX_COORD);
        self.bbox[3] - self.bbox[1]
    }

    pub fn area(&self) -> (r: i128)
        requires
            box_in_range(self.bbox),
        ensures
            r == area_of(self.bbox),
    {
        area_exec(&self.bbox)
    }

    pub fn contains_point(&self, x: i64, y: i64) -> (b: bool)
        ensures
            b == (self.bbox[0] <= x <= self.bbox[2] && self.bbox[1] <= y <= self.bbox[3]),
    {
        x >= self.bbox[0] && x <= self.bbox[2] && y >= self.bbox[1] && y <= self.bbox[3]
    }

    pub fn overlaps(&self, other: &LayoutRegion) -> (b: bool)
        ensures
            b == (self.bbox[0] < other.bbox[2] && self.bbox[2] > other.bbox[0] && self.bbox[1]
                < other.bbox[3] && self.bbox[3] > other.bbox[1]),
    {
        self.bbox[0] < other.bbox[2] && self.bbox[2] > other.bbox[0] && self.bbox[1] < other.bbox[3]
            && self.bbox[3] > other.bbox[1]
    }

    /// A text box is inside the region when its centre is.
    pub fn contains_box(&self, b: &TextBox) -> (r: bool)
        requires
            bbox_in_range(b.bbox),
        ensures
            r == ({
                let cx = (b.bbox[0] + b.bbox[2] + b.bbox[4] + b.bbox[6]) / 4;
                let cy = (b.bbox[1] + b.bbox[3] + b.bbox[5] + b.bbox[7]) / 4;
                self.bbox[0] <= cx <= self.bbox[2] && self.bbox[1] <= cy <= self.bbox[3]
            }),
    {
        let (cx, cy) = b.center();
        self.contains_point(cx, cy)
    }

    /// Whether the intersection over union with `other` exceeds
    /// `threshold` thousandths.
    pub fn iou_exceeds(&self, other: &LayoutRegion, threshold: u32) -> (b: bool)
        requires
            box_in_range(self.bbox),
            box_in_range(other.bbox),
        ensures
            b == iou_exceeds(self.bbox, other.bbox, threshold as int),
    {
        let a = &self.bbox;
        let o = &other.bbox;
        assert(0 <= a[0] <= MAX_COORD && 0 <= a[1] <= MAX_COORD && 0 <= a[2] <= MAX_COORD && 0 <= a[3]
            <= MAX_COORD);
        assert(0 <= o[0] <= MAX_COORD && 0 <= o[1] <= MAX_COORD && 0 <= o[2] <= MAX_COORD && 0 <= o[3]
            <= MAX_COORD);
        let x1 = if a[0] >= o[0] { a[0] } else { o[0] } as i128;
        let y1 = if a[1] >= o[1] { a[1] } else { o[1] } as i128;
        let x2 = if a[2] <= o[2] { a[2] } else { o[2] } as i128;
        let y2 = if a[3] <= o[3] { a[3] } else { o[3] } as i128;
        let inter: i128 = if x2 < x1 || y2 < y1 {
            0
        } else {
            assert(0 <= (x2 - x1) * (y2 - y1) <= MAX_COORD * MAX_COORD) by (nonlinear_arith)
                requires
                    0 <= x2 - x1 <= MAX_COORD,
                    0 <= y2 - y1 <= MAX_COORD,
            ;
            (x2 - x1) * (y2 - y1)
        };
        let union = area_exec(a) + area_exec(o) - inter;
        if union <= 0 {
            return false;
        }
        assert(inter * 1000 <= MAX_COORD * MAX_COORD * 1000);
        assert(threshold as i128 * union <= 0xffff_ffff * (3 * MAX_COORD * MAX_COORD)) by (nonlinear_arith)
            requires
                0 <= threshold <= 0xffff_ffff,
                0 < union <= 3 * MAX_COORD * MAX_COORD,
        ;
        inter * 1000 > threshold as i128 * union
    }
}

/// Keeps, most confident first, each region that no kept region of its
/// own type overlaps by more than `threshold` thousandths.
pub fn nms(regions: Vec<LayoutRegion>, threshold: u32) -> (r: Vec<LayoutRegion>)
    requires
        regions_in_range(regions@),
    ensures
        r@ == nms_spec(regions@, threshold as int),
        regions_in_range(r@),
{
    let n = regions.len();
    let mut keys: Vec<i128> = Vec::new();
    let mut i: usize = 0;
    while i < n
        invariant
            n == regions.len(),
            i <= n,
            keys@ == confidence_keys(regions@).subrange(0, i as int),
        decreases n - i,
    {
        keys.push(-(regions[i].confidence as i128));
        i += 1;
        assert(keys@ =~= confidence_keys(regions@).subrange(0, i as int));
    }
    assert(keys@ =~= confidence_keys(regions@));
    let order = stable_sort_indices(&keys);
    let ghost sorted = by_confidence(regions@);
    let mut kept: Vec<LayoutRegion> = Vec::new();
    let mut j: usize = 0;
    while j < n
        invariant
            n == regions.len(),
            regions_in_range(regions@),
            order.len() == n,
            order@ == stable_order(confidence_keys(regions@), n as nat),
            forall|k: int| 0 <= k < n ==> order[k] < n,
            sorted == by_confidence(regions@),
            j <= n,
            kept@ == greedy_keep(sorted, threshold as int, j as nat),
            regions_in_range(kept@),
        decreases n - j,
    {
        let cand = regions[order[j]];
        assert(cand == sorted[j as int]);
        assert(box_in_range(cand.bbox));
        let mut dominated = false;
        let mut k: usize = 0;
        while k < kept.len()
            invariant
                k <= kept.len(),
                box_in_range(cand.bbox),
                regions_in_range(kept@),
                dominated == exists|m: int|
                    0 <= m < k && (#[trigger] kept@[m]).region_type == cand.region_type && iou_exceeds(
                        cand.bbox,
                        kept@[m].bbox,
                        threshold as int,
                    ),
            decreases kept.len() - k,
        {
            assert(box_in_range(kept@[k as int].bbox));
            if kept[k].region_type == cand.region_type && cand.iou_exceeds(&kept[k], threshold) {
                dominated = true;
            }
            k += 1;
        }
        if !dominated {
            kept.push(cand);
        }
        j += 1;
    }
    kept
}

/// Layout regions of a page.
pub struct LayoutResult {
    pub regions: Vec<LayoutRegion>,
    pub image_size: (u32, u32),
}

/// Height of a layout reading-order band: 50 pixels, in thousandths.
pub const LAYOUT_BAND: i64 = 50_000;

pub open spec fn layout_key(r: LayoutRegion) -> i128 {
    ((r.bbox[1] / LAYOUT_BAND) * 0x1_0000_0000_0000_0000 + r.bbox[0]) as i128
}

pub open spec fn layout_keys(rs: Seq<LayoutRegion>) -> Seq<i128> {
    rs.map_values(|r: LayoutRegion| layout_key(r))
}

/// The regions whose type satisfies `is_table` / `is_text`, in order.
pub open spec fn regions_where(rs: Seq<LayoutRegion>, tables: bool, n: nat) -> Seq<LayoutRegion>
    decreases n,
{
    if n == 0 {
        seq![]
    } else {
        let acc = regions_where(rs, tables, (n - 1) as nat);
        let t = rs[n - 1].region_type;
        let hit = if tables {
            t == LayoutType::Table
        } else {
            t == LayoutType::Text || t == LayoutType::Title || t == LayoutType::List
        };
        if hit {
            acc.push(rs[n - 1])
        } else {
            acc
        }
    }
}

impl LayoutResult {
    fn select(&self, tables: bool) -> (r: Vec<LayoutRegion>)
        ensures
            r@ == regions_where(self.regions@, tables, self.regions.len() as nat),
    {
        let mut out: Vec<LayoutRegion> = Vec::new();
        let mut i: usize = 0;
        while i < self.regions.len()
            invariant
                i <= self.regions.len(),
                out@ == regions_where(self.regions@, tables, i as nat),
            decreases self.regions.len() - i,
        {
            let r = self.regions[i];
            let hit = if tables {
                r.region_type.is_table()
            } else {
                r.region_type.is_text()
            };
            if hit {
                out.push(r);
            }
            i += 1;
        }
        out
    }

    /// The table regions, in order.
    pub fn tables(&self) -> (r: Vec<LayoutRegion>)
        ensures
            r@ == regions_where(self.regions@, true, self.regions.len() as nat),
    {
        self.select(true)
    }

    /// The text, title and list regions, in order.
    pub fn text_regions(&self) -> (r: Vec<LayoutRegion>)
        ensures
            r@ == regions_where(self.regions@, false, self.regions.len() as nat),
    {
        self.select(false)
    }

    /// The regions by 50-pixel bands of their top edge, then left to right,
    /// ties in their order.
    pub fn sorted_by_reading_order(&self) -> (r: Vec<LayoutRegion>)
        requires
            regions_in_range(self.regions@),
        ensures
            r@ == stable_order(layout_keys(self.regions@), self.regions.len() as nat).map_values(
                |i: usize| self.regions@[i as int],
            ),
    {
        let n = self.regions.len();
        let mut keys: Vec<i128> = Vec::new();
        let mut i: usize = 0;
        while i < n
            invariant
                n == self.regions.len(),
                regions_in_range(self.regions@),
                i <= n,
                keys@ == layout_keys(self.regions@).subrange(0, i as int),
            decreases n - i,
        {
            let b = self.regions[i].bbox;
            assert(box_in_range(self.regions@[i as int].bbox));
            assert(0 <= b[0] <= MAX_COORD && 0 <= b[1] <= MAX_COORD);
            keys.push((b[1] / LAYOUT_BAND) as i128 * 0x1_0000_0000_0000_0000 + b[0] as i128);
            i += 1;
            assert(keys@ =~= layout_keys(self.regions@).subrange(0, i as int));
        }
        assert(keys@ =~= layout_keys(self.regions@));
        let order = stable_sort_indices(&keys);
        let mut out: Vec<LayoutRegion> = Vec::new();
        let mut j: usize = 0;
        while j < n
            invariant
                n == self.regions.len(),
                order@ == stable_order(layout_keys(self.regions@), n as nat),
                order.len() == n,
                forall|k: int| 0 <= k < n ==> order[k] < n,
                j <= n,
                out@ == stable_order(layout_keys(self.regions@), n as nat).map_values(
                    |i: usize| self.regions@[i as int],
                ).subrange(0, j as int),
            decreases n - j,
        {
            out.push(self.regions[order[j]]);
            j += 1;
            assert(out@ =~= stable_order(layout_keys(self.regions@), n as nat).map_values(
                |i: usize| self.regions@[i as int],
            ).subrange(0, j as int));
        }
        assert(out@ =~= stable_order(layout_keys(self.regions@), n as nat).map_values(
            |i: usize| self.regions@[i as int],
        ));
        out
    }
}

/// Layout settings: the model input size in pixels, thresholds in
/// thousandths, and the class scheme.
pub struct LayoutDetector {
    pub input_size: (u32, u32),
    pub confidence_threshold: u32,
    pub nms_threshold: u32,
    pub model_type: LayoutModelType,
}

/// One raw detection: class id, score (thousandths) and `[x1, y1, x2, y2]`
/// in thousandths of a pixel of the model input.
#[derive(Clone, Copy)]
pub struct RawDetection {
    pub class_id: usize,
    pub score: u32,
    pub bbox: [i64; 4],
}

pub open spec fn to_original(v: int, orig: int, input: int) -> int {
    let s = v * orig / input;
    if s < 0 {
        0
    } else if s > orig * 1000 {
        orig * 1000
    } else {
        s
    }
}

/// The region of a raw detection: its type under the scheme, its box mapped
/// back to the original image and clipped to it.
pub open spec fn region_of(d: RawDetection, scheme: LayoutModelType, orig: (u32, u32), input: (u32, u32)) -> LayoutRegion {
    LayoutRegion {
        region_type: match scheme {
            LayoutModelType::PubLayNet => publaynet_type(d.class_id),
            LayoutModelType::Cdla => cdla_type(d.class_id),
        },
        bbox: [
            to_original(d.bbox[0] as int, orig.0 as int, input.0 as int) as i64,
            to_original(d.bbox[1] as int, orig.1 as int, input.1 as int) as i64,
            to_original(d.bbox[2] as int, orig.0 as int, input.0 as int) as i64,
            to_original(d.bbox[3] as int, orig.1 as int, input.1 as int) as i64,
        ],
        confidence: d.score,
    }
}

/// The regions of the detections scoring at least `threshold`, in order.
pub open spec fn candidate_regions(
    ds: Seq<RawDetection>,
    threshold: int,
    scheme: LayoutModelType,
    orig: (u32, u32),
    input: (u32, u32),
    n: nat,
) -> Seq<LayoutRegion>
    decreases n,
{
    if n == 0 {
        seq![]
    } else {
        let acc = candidate_regions(ds, threshold, scheme, orig, input, (n - 1) as nat);
        if ds[n - 1].score >= threshold {
            acc.push(region_of(ds[n - 1], scheme, orig, input))
        } else {
            acc
        }
    }
}

fn to_original_exec(v: i64, orig: u32, input: u32) -> (r: i64)
    requires
        0 < orig <= 100_000,
        0 < input,
    ensures
        r == to_original(v as int, orig as int, input as int),
        0 <= r <= orig * 1000,
{
    assert(-0x8000_0000_0000_0000 * 100_000 <= v * orig <= 0x7fff_ffff_ffff_ffff * 100_000) by (nonlinear_arith)
        requires
            -0x8000_0000_0000_0000 <= v <= 0x7fff_ffff_ffff_ffff,
            0 < orig <= 100_000,
    ;
    let p = v as i128 * orig as i128;
    let hi = orig as i128 * 1000;
    if p < 0 {
        assert((p as int) / (input as int) < 0) by (nonlinear_arith)
            requires
                p < 0,
                input > 0,
        ;
        return 0;
    }
    let s = p / input as i128;
    if s > hi {
        hi as i64
    } else {
        s as i64
    }
}

impl LayoutDetector {
    pub fn new() -> (r: Self)
        ensures
            r.input_size == (800u32, 608u32),
            r.confidence_threshold == 500,
            r.nms_threshold == 500,
            r.model_type == LayoutModelType::PubLayNet,
    {
        LayoutDetector {
            input_size: (800, 608),
            confidence_threshold: 500,
            nms_threshold: 500,
            model_type: LayoutModelType::PubLayNet,
        }
    }

    pub fn with_model_type(self, model_type: LayoutModelType) -> (r: Self)
        ensures
            r.model_type == model_type,
            r.input_size == self.input_size,
            r.confidence_threshold == self.confidence_threshold,
            r.nms_threshold == self.nms_threshold,
    {
        LayoutDetector { model_type, ..self }
    }

    pub fn with_input_size(self, width: u32, height: u32) -> (r: Self)
        ensures
            r.input_size == (width, height),
            r.model_type == self.model_type,
            r.confidence_threshold == self.confidence_threshold,
            r.nms_threshold == self.nms_threshold,
    {
        LayoutDetector { input_size: (width, height), ..self }
    }

    pub fn with_confidence_threshold(self, threshold: u32) -> (r: Self)
        ensures
            r.confidence_threshold == threshold,
            r.input_size == self.input_size,
            r.model_type == self.model_type,
            r.nms_threshold == self.nms_threshold,
    {
        LayoutDetector { confidence_threshold: threshold, ..self }
    }

    pub fn with_nms_threshold(self, threshold: u32) -> (r: Self)
        ensures
            r.nms_threshold == threshold,
            r.input_size == self.input_size,
            r.model_type == self.model_type,
            r.confidence_threshold == self.confidence_threshold,
    {
        LayoutDetector { nms_threshold: threshold, ..self }
    }

    /// Layout regions of a `orig` sized page from the model's detections:
    /// those scoring at least the confidence threshold, typed by the class
    /// scheme, mapped back to the page and clipped, then suppressed per type.
    pub fn post_process(&self, detections: &Vec<RawDetection>, orig: (u32, u32)) -> (r: Vec<LayoutRegion>)
        requires
            0 < orig.0 <= 100_000,
            0 < orig.1 <= 100_000,
            self.input_size.0 > 0,
            self.input_size.1 > 0,
        ensures
            r@ == nms_spec(
                candidate_regions(
                    detections@,
                    self.confidence_threshold as int,
                    self.model_type,
                    orig,
                    self.input_size,
                    detections.len() as nat,
                ),
                self.nms_threshold as int,
            ),
    {
        let ghost cands = candidate_regions(
            detections@,
            self.confidence_threshold as int,
            self.model_type,
            orig,
            self.input_size,
            detections.len() as nat,
        );
        let mut regions: Vec<LayoutRegion> = Vec::new();
        let mut i: usize = 0;
        while i < detections.len()
            invariant
                0 < orig.0 <= 100_000,
                0 < orig.1 <= 100_000,
                self.input_size.0 > 0,
                self.input_size.1 > 0,
                i <= detections.len(),
                regions@ == candidate_regions(
                    detections@,
                    self.confidence_threshold as int,
                    self.model_type,
                    orig,
                    self.input_size,
                    i as nat,
                ),
                regions_in_range(regions@),
            decreases detections.len() - i,
        {
            let d = detections[i];
            if d.score >= self.confidence_threshold {
                let t = match self.model_type {
                    LayoutModelType::PubLayNet => LayoutType::from_publaynet_class(d.class_id),
                    LayoutModelType::Cdla => LayoutType::from_cdla_class(d.class_id),
                };
                let (iw, ih) = self.input_size;
                let b: [i64; 4] = [
                    to_original_exec(d.bbox[0], orig.0, iw),
                    to_original_exec(d.bbox[1], orig.1, ih),
                    to_original_exec(d.bbox[2], orig.0, iw),
                    to_original_exec(d.bbox[3], orig.1, ih),
                ];
                let region = LayoutRegion { region_type: t, bbox: b, confidence: d.score };
                assert(region == region_of(d, self.model_type, orig, self.input_size));
                let ghost prev = regions@;
                regions.push(region);
                assert(box_in_range(region.bbox));
                assert(forall|k: int| 0 <= k < prev.len() ==> regions@[k] == prev[k]);
            }
            i += 1;
        }
        nms(regions, self.nms_threshold)
    }
}

} // verus!
