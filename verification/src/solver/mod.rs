//! Captcha solvers.
pub mod audio;
pub mod gray;
pub mod math;
pub mod slide;
pub mod text;

use vstd::prelude::*;
use vstd::string::StringExecFns;

use crate::solver::audio::{spec_clean_transcript, spec_detect_format};
use crate::solver::gray::{decode_luma8, decoded_luma8, preprocess, spec_preprocess, GrayImage};
use crate::solver::math::{math_message, spec_evaluate, MathError, MathFailure};
use crate::solver::slide::column_edge;
use crate::strings::{int_decimal, spec_trim};

verus! {

/// Why a captcha could not be solved.
#[derive(Debug, Clone, PartialEq, Eq)]
pub enum SolveError {
    /// The bytes are not an image the decoder understands; holds the decoder's
    /// message.
    Decode(String),
    /// The decoded pixel buffer does not match the image's dimensions.
    MalformedImage,
    /// The image is too large to be scaled.
    ImageTooLarge,
    /// The image has no pixels, or no columns to search.
    EmptyImage,
    /// The math expression could not be evaluated.
    Math(MathError),
}

/// A `SolveError` with its texts as character sequences.
pub enum SolveFailure {
    Decode(Seq<char>),
    MalformedImage,
    ImageTooLarge,
    EmptyImage,
    Math(MathFailure),
}

impl View for SolveError {
    type V = SolveFailure;

    open spec fn view(&self) -> SolveFailure {
        match self {
            SolveError::Decode(t) => SolveFailure::Decode(t@),
            SolveError::MalformedImage => SolveFailure::MalformedImage,
            SolveError::ImageTooLarge => SolveFailure::ImageTooLarge,
            SolveError::EmptyImage => SolveFailure::EmptyImage,
            SolveError::Math(m) => SolveFailure::Math(m@),
        }
    }
}

/// The message for a failure: the decoder's own message, the message of a math
/// failure, and texts of this library for the rest.
pub open spec fn solve_message(f: SolveFailure) -> Seq<char> {
    match f {
        SolveFailure::Decode(t) => t,
        SolveFailure::MalformedImage => "decoded pixel buffer does not match the image dimensions"@,
        SolveFailure::ImageTooLarge => "image too large to scale"@,
        SolveFailure::EmptyImage => "image has no pixels to read"@,
        SolveFailure::Math(m) => math_message(m),
    }
}

impl SolveError {
    /// The error's message (see `solve_message`).
    pub fn message(&self) -> (m: String)
        ensures
            m@ == solve_message(self@),
    {
        match self {
            SolveError::Decode(t) => t.clone(),
            SolveError::MalformedImage => String::from_str("decoded pixel buffer does not match the image dimensions"),
            SolveError::ImageTooLarge => String::from_str("image too large to scale"),
            SolveError::EmptyImage => String::from_str("image has no pixels to read"),
            SolveError::Math(m) => m.message(),
        }
    }
}

/// The kind of captcha to solve.
#[derive(Debug, Clone, Copy, PartialEq, Eq, Structural)]
pub enum SolverKind {
    /// Image with distorted text: OCR.
    Text,
    /// Image with a math expression (e.g. "3 + 7 = ?").
    Math,
    /// Audio captcha: speech-to-text.
    Audio,
    /// Slide/jigsaw puzzle: find the offset.
    Slide,
}

/// Tesseract page-segmentation mode for a single line of text, the default.
pub const OCR_SINGLE_LINE: u8 = 7;

/// Characters OCR may report for a text captcha.
pub const TEXT_WHITELIST: &'static str = "0123456789abcdefghijklmnopqrstuvwxyzABCDEFGHIJKLMNOPQRSTUVWXYZ";

/// Characters OCR may report for a math captcha.
pub const MATH_WHITELIST: &'static str = "0123456789+-*/x×=? ";

/// The outside work that completes a solve, with what it needs.
#[derive(Debug)]
pub enum SolveStep {
    /// Read the text in `image` by OCR in page-segmentation mode `psm`, restricted
    /// to the characters of `whitelist`; hand what was read to `finish`.
    Ocr { image: GrayImage, psm: u8, whitelist: String },
    /// Transcribe the audio, stored in a file ending in `suffix`; hand the
    /// transcript to `finish`.
    Transcribe { suffix: String },
    /// Choose the search band `start..end` of columns (the middle 80% of `width`)
    /// and hand it with `edges` to `slide::finish`.
    LocateNotch { width: u32, edges: Vec<u64> },
}

/// The decoded luma image for `bytes`, checked to hold one byte per pixel.
pub open spec fn spec_decode(bytes: Seq<u8>) -> Result<(u32, u32, Seq<u8>), SolveFailure> {
    match decoded_luma8(bytes) {
        Err(t) => Err(SolveFailure::Decode(t)),
        Ok((w, h, p)) => if p.len() == w as int * h as int {
            Ok((w, h, p))
        } else {
            Err(SolveFailure::MalformedImage)
        },
    }
}

/// The preprocessed image OCR is to read, for an image captcha.
pub open spec fn spec_ocr_image(bytes: Seq<u8>) -> Result<(u32, u32, Seq<u8>), SolveFailure> {
    match spec_decode(bytes) {
        Err(e) => Err(e),
        Ok((w, h, p)) => match spec_preprocess(w, h, p) {
            Err(e) => Err(e),
            Ok(q) => Ok(((2 * w) as u32, (2 * h) as u32, q)),
        },
    }
}

pub(crate) fn decode(bytes: &[u8]) -> (r: Result<GrayImage, SolveError>)
    ensures
        r is Ok <==> spec_decode(bytes@) is Ok,
        r matches Err(e) ==> spec_decode(bytes@) == Err::<(u32, u32, Seq<u8>), SolveFailure>(e@),
        r matches Ok(g) ==> g.wf() && spec_decode(bytes@) == Ok::<(u32, u32, Seq<u8>), SolveFailure>((g.width, g.height, g.pixels@)),
{
    match decode_luma8(bytes) {
        Err(t) => Err(SolveError::Decode(t)),
        Ok(g) => {
            let w = g.width as u128;
            let h = g.height as u128;
            assert(w * h <= 0x1_0000_0000_0000_0000u128) by (nonlinear_arith)
                requires w <= u32::MAX, h <= u32::MAX;
            if g.pixels.len() as u128 == w * h {
                Ok(g)
            } else {
                Err(SolveError::MalformedImage)
            }
        },
    }
}

/// `r` is what an image captcha's solve answers for `bytes`: the preprocessed
/// image, to be read by OCR in page-segmentation mode `psm`, restricted to
/// `whitelist`.
pub open spec fn is_ocr_outcome(bytes: Seq<u8>, psm: u8, whitelist: Seq<char>, r: Result<SolveStep, SolveError>) -> bool {
    &&& r is Ok <==> spec_ocr_image(bytes) is Ok
    &&& r matches Err(e) ==> spec_ocr_image(bytes) == Err::<(u32, u32, Seq<u8>), SolveFailure>(e@)
    &&& r matches Ok(step) ==> (step matches SolveStep::Ocr { image, psm: m, whitelist: w } && m == psm
        && w@ == whitelist && image.wf() && spec_ocr_image(bytes) == Ok::<(u32, u32, Seq<u8>), SolveFailure>(
        (image.width, image.height, image.pixels@),
    ))
}

/// `r` is what a slide captcha's solve answers for `bytes`: the gradient
/// energy of every column of the decoded image.
pub open spec fn is_notch_outcome(bytes: Seq<u8>, r: Result<SolveStep, SolveError>) -> bool {
    &&& r is Ok <==> spec_decode(bytes) is Ok
    &&& r matches Err(e) ==> spec_decode(bytes) == Err::<(u32, u32, Seq<u8>), SolveFailure>(e@)
    &&& r matches Ok(step) ==> (step matches SolveStep::LocateNotch { width, edges } && spec_decode(bytes) matches Ok(
        (w, h, p),
    ) && width == w && edges.len() == w && forall|x: int|
        0 <= x < w ==> #[trigger] edges@[x] == column_edge(w, h, p, x))
}

/// `r` is what an audio captcha's solve answers for `bytes`: transcription of
/// a file with the suffix of the detected format.
pub open spec fn is_transcribe_outcome(bytes: Seq<u8>, r: Result<SolveStep, SolveError>) -> bool {
    r matches Ok(SolveStep::Transcribe { suffix }) && suffix@ == spec_detect_format(bytes)
}

/// A `SolveStep` with its contents as sequences.
pub enum StepView {
    Ocr { width: u32, height: u32, pixels: Seq<u8>, psm: u8, whitelist: Seq<char> },
    Transcribe { suffix: Seq<char> },
    LocateNotch { width: u32, edges: Seq<u64> },
}

impl View for SolveStep {
    type V = StepView;

    open spec fn view(&self) -> StepView {
        match self {
            SolveStep::Ocr { image, psm, whitelist } => StepView::Ocr {
                width: image.width,
                height: image.height,
                pixels: image.pixels@,
                psm: *psm,
                whitelist: whitelist@,
            },
            SolveStep::Transcribe { suffix } => StepView::Transcribe { suffix: suffix@ },
            SolveStep::LocateNotch { width, edges } => StepView::LocateNotch { width: *width, edges: edges@ },
        }
    }
}

/// A solve's result with its step and error as views.
pub open spec fn outcome_view(r: Result<SolveStep, SolveError>) -> Result<StepView, SolveFailure> {
    match r {
        Ok(step) => Ok(step@),
        Err(e) => Err(e@),
    }
}

pub(crate) fn ocr_step(bytes: &[u8], psm: u8, whitelist: &str) -> (r: Result<SolveStep, SolveError>)
    ensures
        is_ocr_outcome(bytes@, psm, whitelist@, r),
{
    let img = match decode(bytes) {
        Ok(g) => g,
        Err(e) => return Err(e),
    };
    match preprocess(&img) {
        Err(e) => Err(e),
        Ok(out) => Ok(SolveStep::Ocr { image: out, psm, whitelist: whitelist.to_string() }),
    }
}

/// Solves captcha bytes with the given strategy, as far as the outside work
/// (OCR, speech-to-text, or the choice of the search band): does everything that
/// precedes it and says what it is. Image captchas are to be read by OCR in
/// page-segmentation mode `psm` (`OCR_SINGLE_LINE` unless the user asks for
/// another).
pub fn solve(bytes: &[u8], kind: SolverKind, psm: u8) -> (r: Result<SolveStep, SolveError>)
    ensures
        kind == SolverKind::Text ==> is_ocr_outcome(bytes@, psm, TEXT_WHITELIST@, r),
        kind == SolverKind::Math ==> is_ocr_outcome(bytes@, psm, MATH_WHITELIST@, r),
        kind == SolverKind::Audio ==> is_transcribe_outcome(bytes@, r),
        kind == SolverKind::Slide ==> is_notch_outcome(bytes@, r),
{
    match kind {
        SolverKind::Text => text::solve(bytes, psm),
        SolverKind::Math => math::solve(bytes, psm),
        SolverKind::Audio => audio::solve(bytes),
        SolverKind::Slide => slide::solve(bytes),
    }
}

/// Completes a text, math or audio solve with what the outside work returned:
/// the OCR output (text, math) or the transcript (audio).
pub fn finish(kind: SolverKind, reply: &str) -> (r: Result<String, SolveError>)
    requires
        kind != SolverKind::Slide,
    ensures
        kind == SolverKind::Text ==> (r matches Ok(t) && t@ == spec_trim(reply@)),
        kind == SolverKind::Audio ==> (r matches Ok(t) && t@ == spec_clean_transcript(reply@)),
        kind == SolverKind::Math ==> {
            &&& r is Ok <==> spec_evaluate(spec_trim(reply@)) is Ok
            &&& r matches Ok(t) ==> t@ == int_decimal(spec_evaluate(spec_trim(reply@))->Ok_0 as int)
            &&& r matches Err(e) ==> spec_evaluate(spec_trim(reply@)) matches Err(m) && e@ == SolveFailure::Math(m)
        },
{
    match kind {
        SolverKind::Text => Ok(text::finish(reply)),
        SolverKind::Audio => Ok(audio::finish(reply)),
        _ => match math::finish(reply) {
            Ok(t) => Ok(t),
            Err(m) => Err(SolveError::Math(m)),
        },
    }
}

/// `solve` answers for each kind what that kind's own solve answers
/// (`text::solve`, `math::solve`, `audio::solve`, `slide::solve`): a result `r`
/// that meets `solve`'s contract and a result `rk` that meets the kind's own
/// contract, on the same bytes (and mode), are the same step or the same error.
pub proof fn lemma_solve_dispatches(
    bytes: Seq<u8>,
    kind: SolverKind,
    psm: u8,
    r: Result<SolveStep, SolveError>,
    rk: Result<SolveStep, SolveError>,
)
    requires
        kind == SolverKind::Text ==> is_ocr_outcome(bytes, psm, TEXT_WHITELIST@, r),
        kind == SolverKind::Math ==> is_ocr_outcome(bytes, psm, MATH_WHITELIST@, r),
        kind == SolverKind::Audio ==> is_transcribe_outcome(bytes, r),
        kind == SolverKind::Slide ==> is_notch_outcome(bytes, r),
        kind == SolverKind::Text ==> is_ocr_outcome(bytes, psm, TEXT_WHITELIST@, rk),
        kind == SolverKind::Math ==> is_ocr_outcome(bytes, psm, MATH_WHITELIST@, rk),
        kind == SolverKind::Audio ==> is_transcribe_outcome(bytes, rk),
        kind == SolverKind::Slide ==> is_notch_outcome(bytes, rk),
    ensures
        outcome_view(r) == outcome_view(rk),
{
    if kind == SolverKind::Slide {
        if let (Ok(SolveStep::LocateNotch { edges: e1, .. }), Ok(SolveStep::LocateNotch { edges: e2, .. })) = (r, rk) {
            assert(e1@ =~= e2@);
        }
    }
}

} // verus!
