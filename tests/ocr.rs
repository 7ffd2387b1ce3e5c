use incr_ocr::classifier::AngleClassifier;
use incr_ocr::detector::{ProbabilityMap, TextDetector};
use incr_ocr::engine::{assemble_result, region_boxes, region_source, whole_image_region, OcrConfig, OcrError, RegionReading, RegionSource};
use incr_ocr::layout::{nms, LayoutDetector, LayoutModelType, LayoutRegion, LayoutResult, LayoutType, RawDetection};
use incr_ocr::preprocess::{adaptive_threshold, GrayPlane, ImagePreprocessor};
use incr_ocr::recognizer::{dictionary_from_text, TextRecognizer};
use incr_ocr::result::{OcrResult, TextBox};
use incr_ocr::table::{decode_tokens, TableCell, TableClassifier, TableRecognizer, TableStructure, TableType};

fn rect_map(width: usize, height: usize, x0: usize, y0: usize, x1: usize, y1: usize, p: u32) -> ProbabilityMap {
    let mut values = vec![0u32; width * height];
    for y in y0..y1 {
        for x in x0..x1 {
            values[y * width + x] = p;
        }
    }
    ProbabilityMap { width, height, values }
}

#[test]
fn detection_single_rectangle_without_unclip() {
    let map = rect_map(100, 50, 10, 10, 40, 20, 900);
    let det = TextDetector::new().with_threshold(300).with_unclip_ratio(1000);
    let r = det.post_process(&map, (100, 50), (100, 50));
    assert_eq!(r.boxes.len(), 1);
    assert_eq!(r.boxes[0], [10000, 10000, 40000, 10000, 40000, 20000, 10000, 20000]);
    assert_eq!(r.scores, vec![900]);
    assert_eq!(r.image_size, (100, 50));
}

#[test]
fn detection_single_rectangle_unclipped() {
    let map = rect_map(100, 50, 10, 10, 40, 20, 900);
    let det = TextDetector::new().with_threshold(300);
    let r = det.post_process(&map, (100, 50), (100, 50));
    assert_eq!(r.boxes.len(), 1);
    // width 30 px, height 10 px: each side moves by a quarter of them
    assert_eq!(r.boxes[0], [2500, 7500, 47500, 7500, 47500, 22500, 2500, 22500]);
}

#[test]
fn detection_clips_to_image() {
    let map = rect_map(100, 50, 0, 0, 100, 10, 900);
    let det = TextDetector::new().with_threshold(300).with_unclip_ratio(3000);
    let r = det.post_process(&map, (100, 50), (100, 50));
    assert_eq!(r.boxes.len(), 1);
    for (k, v) in r.boxes[0].iter().enumerate() {
        assert!(*v >= 0);
        if k % 2 == 0 {
            assert!(*v <= 100_000);
        } else {
            assert!(*v <= 50_000);
        }
    }
    assert_eq!(r.boxes[0][2], 100_000);
}

#[test]
fn detection_rescales_to_original() {
    let map = rect_map(100, 50, 10, 10, 40, 20, 900);
    let det = TextDetector::new().with_unclip_ratio(1000);
    let r = det.post_process(&map, (200, 100), (100, 50));
    assert_eq!(r.boxes[0], [20000, 20000, 80000, 20000, 80000, 40000, 20000, 40000]);
}

#[test]
fn detection_drops_weak_and_small_components() {
    let weak = rect_map(100, 50, 10, 10, 40, 20, 500);
    assert_eq!(TextDetector::new().post_process(&weak, (100, 50), (100, 50)).boxes.len(), 0);
    let small = rect_map(100, 50, 10, 10, 13, 13, 900);
    assert_eq!(TextDetector::new().post_process(&small, (100, 50), (100, 50)).boxes.len(), 0);
    let empty = rect_map(10, 10, 0, 0, 0, 0, 0);
    assert_eq!(TextDetector::new().post_process(&empty, (10, 10), (10, 10)).boxes.len(), 0);
}

#[test]
fn detection_separates_components() {
    let mut map = rect_map(60, 20, 0, 0, 10, 5, 900);
    for y in 10..15 {
        for x in 30..40 {
            map.values[y * 60 + x] = 800;
        }
    }
    let r = TextDetector::new().with_unclip_ratio(1000).post_process(&map, (60, 20), (60, 20));
    assert_eq!(r.boxes.len(), 2);
    assert_eq!(r.scores, vec![900, 800]);
}

#[test]
fn ctc_blank_between_repeats_keeps_both() {
    let rec = TextRecognizer::new(vec![' ', 'a', 'b', 'c', 'd', 'e']);
    let r = rec.decode(&vec![5, 5, 0, 5], &vec![800, 900, 700, 600]);
    assert_eq!(r.text, "ee");
    assert_eq!(r.char_scores, vec![800, 600]);
    assert_eq!(r.confidence, 700);
}

#[test]
fn ctc_repeats_without_blank_collapse() {
    let rec = TextRecognizer::new(vec![' ', 'a', 'b', 'c', 'd', 'e']);
    let r = rec.decode(&vec![5, 5, 5], &vec![900, 900, 900]);
    assert_eq!(r.text, "e");
    assert_eq!(r.char_scores, vec![900]);
}

#[test]
fn ctc_nothing_decoded_has_zero_confidence() {
    let rec = TextRecognizer::new(vec![' ', 'a']);
    let r = rec.decode(&vec![0, 0, 7], &vec![100, 100, 100]);
    assert_eq!(r.text, "");
    assert_eq!(r.confidence, 0);
}

#[test]
fn test_default_dictionary() {
    let dict = TextRecognizer::default_latin_dictionary();
    assert!(dict.contains(&'ą'));
    assert!(dict.contains(&'ę'));
    assert!(dict.contains(&'ł'));
    assert!(dict.contains(&'ż'));
    assert!(dict.contains(&'0'));
    assert!(dict.contains(&'9'));
    assert!(dict.contains(&'.'));
    assert!(dict.contains(&','));
}

#[test]
fn dictionary_file_takes_first_character_of_each_line() {
    assert_eq!(dictionary_from_text("ab\nc\n\n\r\nd\r\n"), vec![' ', 'a', 'c', 'd']);
    assert_eq!(dictionary_from_text(""), vec![' ']);
}

fn region(t: LayoutType, b: [i64; 4], c: u32) -> LayoutRegion {
    LayoutRegion { region_type: t, bbox: b, confidence: c }
}

#[test]
fn nms_keeps_stronger_of_same_type() {
    let a = region(LayoutType::Text, [0, 0, 100_000, 100_000], 900);
    let b = region(LayoutType::Text, [10_000, 0, 110_000, 100_000], 800);
    let kept = nms(vec![b, a], 500);
    assert_eq!(kept.len(), 1);
    assert_eq!(kept[0].confidence, 900);
}

#[test]
fn nms_keeps_different_types() {
    let a = region(LayoutType::Text, [0, 0, 100_000, 100_000], 900);
    let b = region(LayoutType::Table, [10_000, 0, 110_000, 100_000], 800);
    let kept = nms(vec![b, a], 500);
    assert_eq!(kept.len(), 2);
    assert_eq!(kept[0].region_type, LayoutType::Text);
    assert_eq!(kept[1].region_type, LayoutType::Table);
}

#[test]
fn nms_keeps_light_overlap() {
    let a = region(LayoutType::Text, [0, 0, 100_000, 100_000], 900);
    let b = region(LayoutType::Text, [60_000, 0, 160_000, 100_000], 800);
    assert_eq!(nms(vec![a, b], 500).len(), 2);
}

#[test]
fn layout_classes() {
    assert_eq!(LayoutType::from_publaynet_class(3), LayoutType::Table);
    assert_eq!(LayoutType::from_publaynet_class(9), LayoutType::Unknown);
    assert_eq!(LayoutType::from_cdla_class(1), LayoutType::Figure);
    assert_eq!(LayoutType::from_cdla_class(5), LayoutType::Title);
    assert_eq!(LayoutType::from_cdla_class(8), LayoutType::Text);
    assert!(LayoutType::List.is_text());
    assert!(!LayoutType::Figure.is_text());
    assert!(LayoutType::Table.is_table());
}

#[test]
fn layout_post_process_filters_maps_and_scales() {
    let det = LayoutDetector::new().with_model_type(LayoutModelType::Cdla).with_input_size(100, 100);
    let rows = vec![
        RawDetection { class_id: 3, score: 900, bbox: [10_000, 10_000, 50_000, 50_000] },
        RawDetection { class_id: 0, score: 400, bbox: [0, 0, 10_000, 10_000] },
        RawDetection { class_id: 1, score: 700, bbox: [60_000, 60_000, 120_000, 90_000] },
    ];
    let regions = det.post_process(&rows, (200, 100));
    assert_eq!(regions.len(), 2);
    assert_eq!(regions[0].region_type, LayoutType::Table);
    assert_eq!(regions[0].bbox, [20_000, 10_000, 100_000, 50_000]);
    assert_eq!(regions[1].region_type, LayoutType::Figure);
    assert_eq!(regions[1].bbox, [120_000, 60_000, 200_000, 90_000]);
}

#[test]
fn layout_result_queries() {
    let res = LayoutResult {
        regions: vec![
            region(LayoutType::Table, [0, 60_000, 10_000, 70_000], 900),
            region(LayoutType::Title, [50_000, 0, 60_000, 10_000], 900),
            region(LayoutType::Text, [0, 10_000, 10_000, 20_000], 900),
        ],
        image_size: (100, 100),
    };
    assert_eq!(res.tables().len(), 1);
    assert_eq!(res.text_regions().len(), 2);
    let sorted = res.sorted_by_reading_order();
    assert_eq!(sorted[0].region_type, LayoutType::Text);
    assert_eq!(sorted[1].region_type, LayoutType::Title);
    assert_eq!(sorted[2].region_type, LayoutType::Table);
    let r = &res.regions[0];
    assert_eq!(r.width(), 10_000);
    assert_eq!(r.area(), 100_000_000);
    assert!(r.contains_point(5_000, 65_000));
    assert!(!r.overlaps(&res.regions[1]));
}

fn cell(row: usize, col: usize, rs: usize, cs: usize, content: &str) -> TableCell {
    TableCell { row, col, row_span: rs, col_span: cs, bbox: [0; 4], content: content.to_string(), confidence: 1000 }
}

#[test]
fn table_grid_marks_spanned_positions() {
    let t = TableStructure {
        num_rows: 2,
        num_cols: 2,
        cells: vec![cell(0, 0, 1, 2, "h"), cell(1, 0, 1, 1, "a"), cell(1, 1, 1, 1, "b")],
        html: String::new(),
        bbox: [0; 4],
        confidence: 1000,
    };
    let g = t.as_grid();
    assert_eq!(g.len(), 2);
    assert_eq!(g[0][0].unwrap().content, "h");
    assert_eq!(g[0][1].unwrap().content, "h");
    assert_eq!(g[1][1].unwrap().content, "b");
    assert_eq!(t.cell_at(0, 1).unwrap().content, "h");
    assert!(t.cell_at(5, 5).is_none());
    assert!(t.cells[0].is_col_spanning());
    assert!(!t.cells[0].is_row_spanning());
}

#[test]
fn table_html_has_one_row_block_per_row() {
    let t = TableStructure {
        num_rows: 2,
        num_cols: 2,
        cells: vec![cell(0, 0, 1, 2, "h"), cell(1, 0, 1, 1, "a"), cell(1, 1, 1, 1, "b")],
        html: String::new(),
        bbox: [0; 4],
        confidence: 1000,
    };
    let html = t.to_html();
    assert_eq!(
        html,
        "<table>\n  <tr>\n    <th colspan=\"2\">h</th>\n  </tr>\n  <tr>\n    <td>a</td>\n    <td>b</td>\n  </tr>\n</table>"
    );
    assert_eq!(html.matches("<tr>").count(), 2);
}

#[test]
fn table_tokens_decode_into_cells() {
    // <tr> <td> </td> <td colspan=2> </td> </tr> <tr> <td rowspan=3> </td> </tr> <eos> <tr>
    let tokens = vec![5, 3, 4, 3, 9, 4, 6, 5, 3, 23, 4, 6, 2, 5];
    let boxes = vec![[1, 2, 3, 4]];
    let (cells, rows, cols) = decode_tokens(&tokens, &boxes);
    // two rows closed, but the last cell spans three rows from row 1
    assert_eq!(rows, 4);
    assert_eq!(cols, 3);
    assert_eq!(cells.len(), 3);
    assert_eq!((cells[0].row, cells[0].col, cells[0].bbox), (0, 0, [1, 2, 3, 4]));
    assert_eq!((cells[1].row, cells[1].col, cells[1].col_span, cells[1].bbox), (0, 1, 2, [0, 0, 0, 0]));
    assert_eq!((cells[2].row, cells[2].col, cells[2].row_span), (1, 0, 3));
}

#[test]
fn table_spans_are_clamped() {
    let tokens = vec![5, 3, 7, 32, 4, 6];
    let (cells, _, cols) = decode_tokens(&tokens, &vec![]);
    assert_eq!(cells[0].col_span, 1);
    assert_eq!(cells[0].row_span, 10);
    assert_eq!(cols, 1);
}

#[test]
fn table_structure_from_tokens() {
    let t = TableRecognizer::new().structure_from_tokens(&vec![5, 3, 4, 6], &vec![], 10, 20);
    assert_eq!((t.num_rows, t.num_cols), (1, 1));
    assert_eq!(t.html, "<table>\n  <tr>\n    <th></th>\n  </tr>\n</table>");
    assert_eq!(t.bbox, [0, 0, 10_000, 20_000]);
}

fn tb(x: i64, y: i64, text: &str) -> TextBox {
    TextBox {
        bbox: [x, y, x + 5_000, y, x + 5_000, y + 5_000, x, y + 5_000],
        text: text.to_string(),
        detection_score: 900,
        recognition_score: 900,
        angle: 0,
    }
}

#[test]
fn reading_order_bands_then_left_to_right() {
    let mut r = OcrResult::empty(100, 100);
    r.boxes = vec![tb(50_000, 45_000, "d"), tb(30_000, 5_000, "b"), tb(10_000, 12_000, "a"), tb(5_000, 25_000, "c")];
    r.sort_by_reading_order();
    assert_eq!(r.text, "a\nb\nc\nd");
    let once = r.text.clone();
    r.sort_by_reading_order();
    assert_eq!(r.text, once);
}

#[test]
fn text_box_geometry() {
    let b = tb(10_000, 20_000, "x");
    assert_eq!(b.rect(), (10_000, 20_000, 15_000, 25_000));
    assert_eq!(b.center(), (12_500, 22_500));
}

fn reading(x: i64, text: &str, score: u32) -> RegionReading {
    RegionReading {
        bbox: [x, 0, x + 1_000, 0, x + 1_000, 1_000, x, 1_000],
        detection_score: 800,
        angle: 0,
        text: text.to_string(),
        recognition_score: score,
    }
}

#[test]
fn recognition_disabled_keeps_every_region_with_empty_text() {
    let mut config = OcrConfig::new();
    config.enable_recognition = false;
    config.recognition_threshold = 500;
    let readings = vec![reading(5_000, "x", 100), reading(1_000, "y", 900)];
    let r = assemble_result(&config, &readings, None, (10, 10), 7);
    assert_eq!(r.boxes.len(), 2);
    assert!(r.boxes.iter().all(|b| b.text.is_empty() && b.detection_score == 800));
    assert_eq!(r.text, "\n");
}

#[test]
fn recognition_threshold_drops_weak_regions() {
    let mut config = OcrConfig::new();
    config.recognition_threshold = 500;
    let readings = vec![reading(5_000, "x", 100), reading(3_000, "y", 900), reading(1_000, "z", 500)];
    let boxes = region_boxes(&config, &readings);
    assert_eq!(boxes.len(), 2);
    let r = assemble_result(&config, &readings, None, (10, 10), 7);
    assert_eq!(r.text, "z\ny");
    assert_eq!(r.processing_time_ms, 7);
}

#[test]
fn region_source_decisions() {
    let mut config = OcrConfig::new();
    assert!(matches!(region_source(&config, false), Err(OcrError::Detection(_))));
    assert_eq!(region_source(&config, true).ok(), Some(RegionSource::Detect));
    config.enable_detection = false;
    assert_eq!(region_source(&config, true).ok(), Some(RegionSource::WholeImage));
    let whole = whole_image_region(30, 20);
    assert_eq!(whole.boxes, vec![[0, 0, 30_000, 0, 30_000, 20_000, 0, 20_000]]);
    assert_eq!(whole.scores, vec![1000]);
}

#[test]
fn test_resize_dimensions() {
    let preprocessor = ImagePreprocessor::new();
    let (w, h) = preprocessor.calculate_resize_dimensions(500, 300, 960);
    assert_eq!((w, h), (500, 300));
    let (w, h) = preprocessor.calculate_resize_dimensions(1920, 1080, 960);
    assert_eq!(w, 960);
    assert!(h < 960);
}

#[test]
fn detection_input_is_padded_to_stride() {
    let p = ImagePreprocessor::new().with_max_size(4000);
    assert_eq!(p.max_size, 4000);
    assert_eq!(p.detection_input_size(1920, 1080), (960, 540, 960, 544));
    assert_eq!(p.recognition_width(100, 48), 100);
    assert_eq!(p.recognition_width(10_000, 48), 320);
    assert_eq!(p.recognition_width(1, 1000), 1);
}

#[test]
fn crop_rectangle_is_clamped_and_nonempty() {
    let p = ImagePreprocessor::new();
    assert_eq!(p.crop_rectangle(&[-5_000, 2_500, 30_000, 2_500, 30_000, 9_000, -5_000, 9_000], 20, 20), (0, 2, 20, 7));
    assert_eq!(p.crop_rectangle(&[5_000, 5_000, 5_000, 5_000, 5_000, 5_000, 5_000, 5_000], 20, 20), (5, 5, 1, 1));
}

#[test]
fn orientation_decisions() {
    let c = AngleClassifier::new();
    assert_eq!(c.decide(300, 700), (180, 700));
    assert_eq!(c.decide(700, 300), (0, 700));
    assert!(!c.needs_rotation(180, 850));
    assert!(c.needs_rotation(180, 950));
    assert!(!c.with_threshold(500).needs_rotation(0, 950));
}

#[test]
fn layout_info_names_regions() {
    let res = LayoutResult {
        regions: vec![
            region(LayoutType::Table, [0, 0, 1, 1], 900),
            region(LayoutType::Figure, [0, 0, 2, 2], 800),
            region(LayoutType::Title, [0, 0, 3, 3], 700),
        ],
        image_size: (10, 10),
    };
    let info = incr_ocr::engine::layout_info(&res);
    assert_eq!(info.tables.len(), 1);
    assert_eq!(info.tables[0].region_type, "table");
    assert_eq!(info.text_regions[0].region_type, "title");
    assert_eq!(info.figures[0].region_type, "figure");
    assert_eq!(info.figures[0].bbox, [0, 0, 2, 2]);
}

#[test]
fn bbox_range_check() {
    assert!(incr_ocr::result::bbox_ok(&[0, 0, 1, 1, 1, 1, 0, 1]));
    assert!(!incr_ocr::result::bbox_ok(&[0, -1, 1, 1, 1, 1, 0, 1]));
}

#[test]
fn adaptive_threshold_against_local_mean() {
    // 3x1 image, window 3: means are (10+40)/2=25, (10+40+100)/3=50, (40+100)/2=70
    let g = GrayPlane { width: 3, height: 1, pixels: vec![10, 40, 100] };
    let r = adaptive_threshold(&g, 3, 5);
    assert_eq!(r.pixels, vec![0, 0, 255]);
    let r = adaptive_threshold(&g, 3, -100);
    assert_eq!(r.pixels, vec![0, 0, 0]);
    let e = ImagePreprocessor::new().enhance(&GrayPlane { width: 2, height: 2, pixels: vec![0, 0, 0, 200] });
    assert_eq!(e.pixels, vec![0, 0, 0, 255]);
}

#[test]
fn table_classifier_and_fallback() {
    let c = TableClassifier::new();
    assert_eq!(c.input_size, (224, 224));
    assert_eq!(c.decide(2_000, -1_000), TableType::Wired);
    assert_eq!(c.decide(-1_000, -1_000), TableType::Lineless);
    let t = TableRecognizer::new().whole_table(4, 3);
    assert_eq!(t.cells.len(), 1);
    assert_eq!(t.cells[0].bbox, [0, 0, 4_000, 3_000]);
    assert_eq!(t.html, "<table>\n  <tr>\n    <th></th>\n  </tr>\n</table>");
}

#[test]
fn region_contains_box_by_centre() {
    let r = region(LayoutType::Table, [0, 0, 20_000, 20_000], 900);
    assert!(r.contains_box(&tb(10_000, 10_000, "in")));
    assert!(!r.contains_box(&tb(18_000, 18_000, "out")));
}

#[test]
fn text_box_side_lengths() {
    let b = TextBox {
        bbox: [0, 0, 3_000, 4_000, 3_000, 9_000, 0, 5_000],
        text: String::new(),
        detection_score: 0,
        recognition_score: 0,
        angle: 0,
    };
    assert_eq!(b.width(), 5_000);
    assert_eq!(b.height(), 5_000);
    assert_eq!(incr_ocr::result::isqrt(99), 9);
    assert_eq!(incr_ocr::result::isqrt(100), 10);
}

#[test]
fn table_grows_to_hold_row_spans() {
    // <tr> <td rowspan=2> </td> </tr>
    let t = TableRecognizer::new().structure_from_tokens(&vec![5, 3, 22, 4, 6], &vec![[1, 1, 2, 2]], 10, 10);
    assert_eq!(t.cells.len(), 1);
    assert_eq!((t.cells[0].row, t.cells[0].row_span), (0, 2));
    assert_eq!((t.num_rows, t.num_cols), (2, 1));
    assert_eq!(t.cells[0].bbox, [1, 1, 2, 2]);
    assert_eq!(t.html.matches("<tr>").count(), 2);
}
