//! Post-processing core of a document OCR pipeline and the rules applied to
//! the recognised invoice text.
//!
//! The OCR side turns model outputs into results: connected components of a
//! text-probability map into boxes, greedy CTC decoding of class sequences,
//! per-type suppression and reading order of layout regions, table
//! structure tokens into cells and HTML, and the page result in reading
//! order. The invoice side checks NIP, REGON and IBAN numbers and reads
//! identifiers, VAT rates, amounts and dates out of text.
//!
//! Model outputs arrive already quantised: probabilities, scores and
//! thresholds are integers in thousandths, and coordinates are integers in
//! thousandths of a pixel.
use vstd::prelude::*;

pub mod text;
pub mod pattern;
pub mod checksum;
pub mod recognizer;
pub mod table;
pub mod order;
pub mod result;
pub mod layout;
pub mod detector;
pub mod classifier;
pub mod preprocess;
pub mod engine;
pub mod inference;
pub mod invoice;
pub mod extract;
pub mod dates;

verus! {

} // verus!
