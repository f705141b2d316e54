//! Text captchas: the answer is what OCR reads off the preprocessed image.
use vstd::prelude::*;

use crate::solver::{is_ocr_outcome, ocr_step, SolveError, SolveStep, TEXT_WHITELIST};
use crate::strings::{chars_of, spec_trim, string_of, trim};

verus! {

/// Solves a text-based image captcha up to OCR: the image is decoded,
/// preprocessed, and handed on to be read in page-segmentation mode `psm`, with
/// the text whitelist.
pub fn solve(image_bytes: &[u8], psm: u8) -> (r: Result<SolveStep, SolveError>)
    ensures
        is_ocr_outcome(image_bytes@, psm, TEXT_WHITELIST@, r),
{
    ocr_step(image_bytes, psm, TEXT_WHITELIST)
}

/// Answer to a text captcha from the OCR output: the output, trimmed.
pub fn finish(ocr_text: &str) -> (r: String)
    ensures
        r@ == spec_trim(ocr_text@),
{
    let chars = chars_of(ocr_text);
    let t = trim(&chars);
    string_of(&t)
}

} // verus!
