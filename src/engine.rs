//! Decisions of the OCR pipeline: where regions come from, which recognised
//! regions are kept, and how the page result is assembled.
use vstd::prelude::*;
use crate::detector::DetectionResult;
use crate::order::{distinct_indices, lemma_stable_order_ascending, lemma_stable_order_permutes};
use crate::result::{
    boxes_in_range, join_texts, joined_text, reading_keys, reading_order, LayoutInfo, OcrResult,
    TextBox, MAX_COORD,
};
use crate::order::stable_order;
use crate::layout::{regions_where, region_type_name, LayoutRegion, LayoutResult, LayoutType};
use crate::result::RegionBox;

verus! {

/// Pipeline settings; thresholds in thousandths.
pub struct OcrConfig {
    pub enable_detection: bool,
    pub enable_classification: bool,
    pub enable_recognition: bool,
    pub detection_threshold: u32,
    /// Recognised regions below this confidence are dropped.
    pub recognition_threshold: u32,
    pub max_image_size: u32,
    pub recognition_batch_size: usize,
    pub use_gpu: bool,
    pub num_threads: usize,
}

impl OcrConfig {
    pub fn new() -> (r: Self)
        ensures
            r.enable_detection && r.enable_classification && r.enable_recognition,
            r.detection_threshold == 300,
            r.recognition_threshold == 0,
            r.max_image_size == 2048,
            r.recognition_batch_size == 8,
            !r.use_gpu,
            r.num_threads == 4,
    {
        OcrConfig {
            enable_detection: true,
            enable_classification: true,
            enable_recognition: true,
            detection_threshold: 300,
            recognition_threshold: 0,
            max_image_size: 2048,
            recognition_batch_size: 8,
            use_gpu: false,
            num_threads: 4,
        }
    }
}

/// Failures of the pipeline, each with its message.
pub enum OcrError {
    ModelLoad(String),
    Detection(String),
    Recognition(String),
    Preprocessing(String),
    InvalidImage(String),
}

/// Where the regions of a page come from.
#[derive(Clone, Copy, Debug, PartialEq, Eq, Structural)]
pub enum RegionSource {
    /// Run the text detector.
    Detect,
    /// Detection is switched off: the whole image is one region.
    WholeImage,
}

/// Without a detector no text can be produced, which is fatal; with one,
/// detection runs unless the configuration switches it off.
pub fn region_source(config: &OcrConfig, has_detector: bool) -> (r: Result<RegionSource, OcrError>)
    ensures
        !has_detector <==> r matches Err(OcrError::Detection(_)),
        has_detector && config.enable_detection ==> r == Ok::<RegionSource, OcrError>(RegionSource::Detect),
        has_detector && !config.enable_detection ==> r == Ok::<RegionSource, OcrError>(RegionSource::WholeImage),
{
    if !has_detector {
        Err(OcrError::Detection(String::from_str("No detector configured")))
    } else if config.enable_detection {
        Ok(RegionSource::Detect)
    } else {
        Ok(RegionSource::WholeImage)
    }
}

/// The single region covering a `width` by `height` image, with score 1.
pub fn whole_image_region(width: u32, height: u32) -> (r: DetectionResult)
    ensures
        r.boxes.len() == 1,
        r.scores@ == seq![1000u32],
        r.boxes[0]@ == seq![0i64, 0, (width * 1000) as i64, 0, (width * 1000) as i64, (height * 1000) as i64, 0,
            (height * 1000) as i64],
        r.image_size == (width, height),
{
    let w = width as i64 * 1000;
    let h = height as i64 * 1000;
    let b: [i64; 8] = [0, 0, w, 0, w, h, 0, h];
    let mut boxes: Vec<[i64; 8]> = Vec::new();
    boxes.push(b);
    let mut scores: Vec<u32> = Vec::new();
    scores.push(1000);
    assert(scores@ =~= seq![1000u32]);
    assert(b@ =~= seq![0i64, 0, w, 0, w, h, 0, h]);
    DetectionResult { boxes, scores, image_size: (width, height) }
}

/// What became of one region: its box and detection score, the angle it was
/// read at, and the recognised text with its confidence (empty and 0 where
/// recognition did not run).
pub struct RegionReading {
    pub bbox: [i64; 8],
    pub detection_score: u32,
    pub angle: i32,
    pub text: String,
    pub recognition_score: u32,
}

/// A region is kept when recognition is off, or its confidence reaches the
/// threshold.
pub open spec fn region_kept(config: OcrConfig, r: RegionReading) -> bool {
    !config.enable_recognition || r.recognition_score >= config.recognition_threshold
}

/// The kept ones among the first `n` readings.
pub open spec fn kept_readings(config: OcrConfig, rs: Seq<RegionReading>, n: nat) -> Seq<RegionReading>
    decreases n,
{
    if n == 0 {
        seq![]
    } else if region_kept(config, rs[n - 1]) {
        kept_readings(config, rs, (n - 1) as nat).push(rs[n - 1])
    } else {
        kept_readings(config, rs, (n - 1) as nat)
    }
}

/// `b` is the text box of reading `r`: the recognised text only where
/// recognition ran.
pub open spec fn box_of_reading(config: OcrConfig, r: RegionReading, b: TextBox) -> bool {
    &&& b.bbox == r.bbox
    &&& b.detection_score == r.detection_score
    &&& b.angle == r.angle
    &&& b.recognition_score == (if config.enable_recognition { r.recognition_score } else { 0 })
    &&& b.text@ == (if config.enable_recognition { r.text@ } else { Seq::<char>::empty() })
}

proof fn lemma_kept_len(config: OcrConfig, rs: Seq<RegionReading>, n: nat)
    requires
        !config.enable_recognition,
        n <= rs.len(),
    ensures
        kept_readings(config, rs, n) =~= rs.subrange(0, n as int),
    decreases n,
{
    if n > 0 {
        lemma_kept_len(config, rs, (n - 1) as nat);
        assert(rs.subrange(0, n as int) =~= rs.subrange(0, n - 1).push(rs[n - 1]));
    }
}

/// The text boxes of the kept readings, in the readings' order.
pub fn region_boxes(config: &OcrConfig, readings: &Vec<RegionReading>) -> (r: Vec<TextBox>)
    ensures
        r.len() == kept_readings(*config, readings@, readings.len() as nat).len(),
        forall|i: int|
            0 <= i < r.len() ==> box_of_reading(
                *config,
                #[trigger] kept_readings(*config, readings@, readings.len() as nat)[i],
                r[i],
            ),
        !config.enable_recognition ==> r.len() == readings.len(),
        !config.enable_recognition ==> forall|i: int|
            0 <= i < r.len() ==> (#[trigger] r[i]).text@.len() == 0 && r[i].detection_score
                == readings[i].detection_score,
{
    let mut out: Vec<TextBox> = Vec::new();
    let mut i: usize = 0;
    while i < readings.len()
        invariant
            i <= readings.len(),
            out.len() == kept_readings(*config, readings@, i as nat).len(),
            forall|k: int|
                0 <= k < out.len() ==> box_of_reading(
                    *config,
                    #[trigger] kept_readings(*config, readings@, i as nat)[k],
                    out[k],
                ),
        decreases readings.len() - i,
    {
        let r = &readings[i];
        let ghost prev = kept_readings(*config, readings@, i as nat);
        if !config.enable_recognition || r.recognition_score >= config.recognition_threshold {
            let text = if config.enable_recognition {
                r.text.clone()
            } else {
                String::new()
            };
            let score = if config.enable_recognition {
                r.recognition_score
            } else {
                0
            };
            out.push(
                TextBox {
                    bbox: r.bbox,
                    text,
                    detection_score: r.detection_score,
                    recognition_score: score,
                    angle: r.angle,
                },
            );
        }
        i += 1;
        assert(forall|k: int| 0 <= k < prev.len() ==> kept_readings(*config, readings@, i as nat)[k] == prev[k]);
    }
    proof {
        if !config.enable_recognition {
            lemma_kept_len(*config, readings@, readings.len() as nat);
            assert(readings@.subrange(0, readings.len() as int) =~= readings@);
            let kept = kept_readings(*config, readings@, readings.len() as nat);
            assert forall|i: int| 0 <= i < out.len() implies (#[trigger] out@[i]).text@.len() == 0
                && out@[i].detection_score == readings@[i].detection_score by {
                assert(box_of_reading(*config, kept[i], out@[i]));
            }
        }
    }
    out
}

/// The page result: the kept readings' boxes in reading order, their joined
/// text, and the layout found on the page.
pub fn assemble_result(
    config: &OcrConfig,
    readings: &Vec<RegionReading>,
    layout: Option<LayoutInfo>,
    image_size: (u32, u32),
    processing_time_ms: u64,
) -> (r: OcrResult)
    ensures
        ({
            let kept = kept_readings(*config, readings@, readings.len() as nat);
            exists|boxes: Seq<TextBox>|
                boxes.len() == kept.len() && (forall|i: int|
                    0 <= i < boxes.len() ==> box_of_reading(*config, #[trigger] kept[i], boxes[i]))
                    && r.boxes@ == reading_order(boxes)
        }),
        r.text@ == joined_text(r.boxes@),
        r.image_size == image_size,
        r.processing_time_ms == processing_time_ms,
        r.layout == layout,
        !config.enable_recognition ==> r.boxes.len() == readings.len() && forall|i: int|
            0 <= i < r.boxes.len() ==> (#[trigger] r.boxes[i]).text@.len() == 0,
        !config.enable_recognition ==> exists|p: Seq<usize>|
            p.len() == readings.len() && distinct_indices(p) && (forall|k: int|
                0 <= k < p.len() ==> #[trigger] p[k] < readings.len()) && forall|k: int|
                0 <= k < p.len() ==> box_of_reading(*config, readings@[#[trigger] p[k] as int], r.boxes@[k]),
{
    let boxes = region_boxes(config, readings);
    let ghost unsorted = boxes@;
    let mut result = OcrResult { boxes, text: String::new(), processing_time_ms, image_size, layout };
    result.sort_by_reading_order();
    proof {
        let n = unsorted.len();
        lemma_stable_order_ascending(reading_keys(unsorted), n);
        lemma_stable_order_permutes(reading_keys(unsorted), n);
        if !config.enable_recognition {
            let p = stable_order(reading_keys(unsorted), n);
            lemma_kept_len(*config, readings@, readings.len() as nat);
            assert(readings@.subrange(0, readings.len() as int) =~= readings@);
            let kept = kept_readings(*config, readings@, readings.len() as nat);
            assert forall|k: int| 0 <= k < p.len() implies box_of_reading(
                *config,
                readings@[#[trigger] p[k] as int],
                result.boxes@[k],
            ) by {
                assert(result.boxes@[k] == unsorted[p[k] as int]);
                assert(box_of_reading(*config, kept[p[k] as int], unsorted[p[k] as int]));
            }
            assert forall|i: int| 0 <= i < result.boxes.len() implies (#[trigger] result.boxes@[i]).text@.len()
                == 0 by {
                let p = stable_order(reading_keys(unsorted), n);
                assert(result.boxes@[i] == unsorted[p[i] as int]);
            }
        }
    }
    result
}

/// `b` describes region `r` under the name of its type.
pub open spec fn region_box_of(r: LayoutRegion, b: RegionBox) -> bool {
    b.region_type@ == region_type_name(r.region_type) && b.bbox == r.bbox && b.confidence == r.confidence
}

pub open spec fn figures_of(rs: Seq<LayoutRegion>, n: nat) -> Seq<LayoutRegion>
    decreases n,
{
    if n == 0 {
        seq![]
    } else if rs[n - 1].region_type == LayoutType::Figure {
        figures_of(rs, (n - 1) as nat).push(rs[n - 1])
    } else {
        figures_of(rs, (n - 1) as nat)
    }
}

fn region_boxes_of(rs: &Vec<LayoutRegion>) -> (r: Vec<RegionBox>)
    ensures
        r.len() == rs.len(),
        forall|i: int| 0 <= i < r.len() ==> region_box_of(rs@[i], #[trigger] r@[i]),
{
    let mut out: Vec<RegionBox> = Vec::new();
    let mut i: usize = 0;
    while i < rs.len()
        invariant
            i <= rs.len(),
            out.len() == i,
            forall|k: int| 0 <= k < i ==> region_box_of(rs@[k], #[trigger] out@[k]),
        decreases rs.len() - i,
    {
        let r = rs[i];
        out.push(RegionBox { region_type: r.region_type.name(), bbox: r.bbox, confidence: r.confidence });
        i += 1;
    }
    out
}

/// The layout attached to a page result: its tables, its text-bearing
/// regions and its figures, in their order.
pub fn layout_info(layout: &LayoutResult) -> (r: LayoutInfo)
    ensures
        ({
            let rs = layout.regions@;
            let n = layout.regions.len() as nat;
            &&& r.tables.len() == regions_where(rs, true, n).len()
            &&& forall|i: int| 0 <= i < r.tables.len() ==> region_box_of(regions_where(rs, true, n)[i], #[trigger] r.tables@[i])
            &&& r.text_regions.len() == regions_where(rs, false, n).len()
            &&& forall|i: int|
                0 <= i < r.text_regions.len() ==> region_box_of(regions_where(rs, false, n)[i], #[trigger] r.text_regions@[i])
            &&& r.figures.len() == figures_of(rs, n).len()
            &&& forall|i: int| 0 <= i < r.figures.len() ==> region_box_of(figures_of(rs, n)[i], #[trigger] r.figures@[i])
        }),
{
    let tables = region_boxes_of(&layout.tables());
    let texts = region_boxes_of(&layout.text_regions());
    let mut figures: Vec<LayoutRegion> = Vec::new();
    let mut i: usize = 0;
    while i < layout.regions.len()
        invariant
            i <= layout.regions.len(),
            figures@ == figures_of(layout.regions@, i as nat),
        decreases layout.regions.len() - i,
    {
        let r = layout.regions[i];
        if r.region_type == LayoutType::Figure {
            figures.push(r);
        }
        i += 1;
    }
    LayoutInfo { tables, text_regions: texts, figures: region_boxes_of(&figures) }
}

} // verus!
