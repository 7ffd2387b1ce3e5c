//! Text orientation (0 or 180 degrees) from the two-class classifier output.
use vstd::prelude::*;

verus! {

/// Orientation settings: a 180-degree call is acted on only above
/// `threshold` (thousandths).
pub struct AngleClassifier {
    pub threshold: u32,
}

impl AngleClassifier {
    pub fn new() -> (r: Self)
        ensures
            r.threshold == 900,
    {
        AngleClassifier { threshold: 900 }
    }

    pub fn with_threshold(self, threshold: u32) -> (r: Self)
        ensures
            r.threshold == threshold,
    {
        AngleClassifier { threshold }
    }

    /// Angle and confidence from the class scores for 0 and 180 degrees:
    /// the larger score wins, 180 on a tie.
    pub fn decide(&self, score_0: u32, score_180: u32) -> (r: (i32, u32))
        ensures
            score_0 > score_180 ==> r == (0i32, score_0),
            score_0 <= score_180 ==> r == (180i32, score_180),
    {
        if score_0 > score_180 {
            (0, score_0)
        } else {
            (180, score_180)
        }
    }

    /// A region is turned only when called 180 degrees with confidence above
    /// the threshold, so ambiguous calls leave it as it is.
    pub fn needs_rotation(&self, angle: i32, confidence: u32) -> (b: bool)
        ensures
            b == (angle == 180 && confidence > self.threshold),
    {
        angle == 180 && confidence > self.threshold
    }
}

} // verus!
