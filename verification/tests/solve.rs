use image::{GrayImage as ImgGray, ImageFormat, Luma};
use std::io::Cursor;
use uncap::solver::gray::{binarize, preprocess, GrayImage};
use uncap::solver::{solve, SolveError, SolveStep, SolverKind, MATH_WHITELIST, OCR_SINGLE_LINE, TEXT_WHITELIST};

fn png_bytes(img: &ImgGray) -> Vec<u8> {
    let mut out = Cursor::new(Vec::new());
    img.write_to(&mut out, ImageFormat::Png).unwrap();
    out.into_inner()
}

fn sample() -> ImgGray {
    let mut img = ImgGray::new(12, 5);
    for y in 0..5 {
        for x in 0..12u32 {
            img.put_pixel(x, y, Luma([if x % 4 == 0 { 20 } else { 230 }]));
        }
    }
    img
}

/// The preprocessing pipeline written directly against `image` and `imageproc`.
fn reference_preprocess(gray: &ImgGray) -> ImgGray {
    let (w, h) = gray.dimensions();
    let scaled = image::imageops::resize(gray, w * 2, h * 2, image::imageops::FilterType::Triangle);
    let mean = scaled.pixels().map(|p| p.0[0] as u64).sum::<u64>() / (scaled.pixels().count() as u64);
    let bin = imageproc::contrast::threshold(&scaled, mean as u8, imageproc::contrast::ThresholdType::Binary);
    let black = bin.pixels().filter(|p| p.0[0] == 0).count();
    if black > bin.pixels().count() / 2 {
        let mut inv = bin;
        for p in inv.pixels_mut() {
            p.0[0] = 255 - p.0[0];
        }
        inv
    } else {
        bin
    }
}

#[test]
fn preprocess_matches_reference_pipeline() {
    let g = sample();
    let img = GrayImage { width: 12, height: 5, pixels: g.clone().into_raw() };
    let out = preprocess(&img).unwrap();
    let expected = reference_preprocess(&g);
    assert_eq!((out.width, out.height), (24, 10));
    assert_eq!(out.pixels, expected.into_raw());
    assert!(out.pixels.iter().all(|&p| p == 0 || p == 255));
    assert!(out.pixels.iter().filter(|&&p| p == 0).count() <= out.pixels.len() / 2);
}

#[test]
fn preprocess_of_empty_image_is_an_error() {
    let img = GrayImage { width: 0, height: 3, pixels: vec![] };
    assert_eq!(preprocess(&img).unwrap_err(), SolveError::EmptyImage);
}

#[test]
fn binarize_inverts_dark_backgrounds() {
    assert_eq!(binarize(&vec![10, 10, 10, 200]), vec![255, 255, 255, 0]);
    assert_eq!(binarize(&vec![10, 200, 200, 200]), vec![0, 255, 255, 255]);
    assert_eq!(binarize(&vec![7, 7]), vec![255, 255]);
}

#[test]
fn solve_image_kinds_prepare_ocr() {
    let bytes = png_bytes(&sample());
    match solve(&bytes, SolverKind::Text, OCR_SINGLE_LINE).unwrap() {
        SolveStep::Ocr { image, psm, whitelist } => {
            assert_eq!((image.width, image.height), (24, 10));
            assert_eq!(image.pixels, reference_preprocess(&sample()).into_raw());
            assert_eq!(psm, 7);
            assert_eq!(whitelist, TEXT_WHITELIST);
        }
        other => panic!("unexpected step {:?}", other),
    }
    match solve(&bytes, SolverKind::Math, OCR_SINGLE_LINE).unwrap() {
        SolveStep::Ocr { whitelist, .. } => assert_eq!(whitelist, MATH_WHITELIST),
        other => panic!("unexpected step {:?}", other),
    }
}

#[test]
fn solve_rejects_undecodable_images() {
    let text_err = solve(b"not an image", SolverKind::Text, OCR_SINGLE_LINE).unwrap_err();
    assert!(matches!(text_err, SolveError::Decode(_)));
    assert_eq!(text_err.message(), "The image format could not be determined");
    let slide_err = solve(b"not an image", SolverKind::Slide, OCR_SINGLE_LINE).unwrap_err();
    assert_eq!(slide_err, text_err);
}

#[test]
fn solve_audio_names_the_suffix() {
    match solve(b"OggS....", SolverKind::Audio, OCR_SINGLE_LINE).unwrap() {
        SolveStep::Transcribe { suffix } => assert_eq!(suffix, ".ogg"),
        other => panic!("unexpected step {:?}", other),
    }
}

#[test]
fn solve_slide_measures_columns() {
    let mut img = ImgGray::new(200, 100);
    for y in 0..100 {
        for x in 0..200u32 {
            img.put_pixel(x, y, Luma([if (78..=82).contains(&x) { 30 } else { 200 }]));
        }
    }
    match solve(&png_bytes(&img), SolverKind::Slide, OCR_SINGLE_LINE).unwrap() {
        SolveStep::LocateNotch { width, edges } => {
            assert_eq!(width, 200);
            let answer = uncap::solver::slide::finish(&edges, 20, 180).unwrap();
            assert_eq!(answer, "83");
        }
        other => panic!("unexpected step {:?}", other),
    }
}

#[test]
fn solve_passes_the_requested_page_segmentation_mode() {
    let bytes = png_bytes(&sample());
    match solve(&bytes, SolverKind::Text, 8).unwrap() {
        SolveStep::Ocr { psm, whitelist, .. } => {
            assert_eq!(psm, 8);
            assert_eq!(whitelist, TEXT_WHITELIST);
        }
        other => panic!("unexpected step {:?}", other),
    }
    match solve(&bytes, SolverKind::Math, 6).unwrap() {
        SolveStep::Ocr { psm, whitelist, .. } => {
            assert_eq!(psm, 6);
            assert_eq!(whitelist, MATH_WHITELIST);
        }
        other => panic!("unexpected step {:?}", other),
    }
}

#[test]
fn solve_answers_what_each_kind_answers() {
    let bytes = png_bytes(&sample());
    let same = |a: Result<SolveStep, SolveError>, b: Result<SolveStep, SolveError>| {
        assert_eq!(format!("{a:?}"), format!("{b:?}"));
    };
    same(solve(&bytes, SolverKind::Text, 8), uncap::solver::text::solve(&bytes, 8));
    same(solve(&bytes, SolverKind::Math, 7), uncap::solver::math::solve(&bytes, 7));
    same(solve(&bytes, SolverKind::Slide, 7), uncap::solver::slide::solve(&bytes));
    same(solve(b"RIFF....WAVE", SolverKind::Audio, 7), uncap::solver::audio::solve(b"RIFF....WAVE"));
    same(solve(b"junk", SolverKind::Math, 7), uncap::solver::math::solve(b"junk", 7));
}
