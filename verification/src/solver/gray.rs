//! Grayscale images and the preprocessing that readies them for OCR:
//! grayscale, scale 2×, binary threshold at the mean, auto-invert.
use vstd::prelude::*;

use crate::solver::{SolveError, SolveFailure};

verus! {

/// An 8-bit grayscale image, row-major: pixel `(x, y)` is `pixels[y * width + x]`.
#[derive(Debug)]
pub struct GrayImage {
    pub width: u32,
    pub height: u32,
    pub pixels: Vec<u8>,
}

impl GrayImage {
    /// The pixel buffer holds exactly one byte per pixel.
    pub open spec fn wf(&self) -> bool {
        self.pixels.len() == self.width as int * self.height as int
    }
}

/// The resampling filters of `image::imageops::resize` whose kernels use only
/// exactly rounded arithmetic (`+ - * /`, `abs`, comparisons), so that what
/// `resize` returns with them is a function of its arguments. The other filters
/// (`CatmullRom`, `Gaussian`, `Lanczos3`) call `powi`, `exp` or `sin`, whose
/// precision std leaves unspecified, and are not offered.
#[derive(Debug, Clone, Copy, PartialEq, Eq, Structural)]
pub enum ResizeFilter {
    Nearest,
    Triangle,
}

/// Width, height and 8-bit luma pixels that `image::load_from_memory` followed by
/// `DynamicImage::to_luma8` gives for `bytes`; when decoding fails, the text
/// (`Display`) of the `ImageError`.
pub uninterp spec fn decoded_luma8(bytes: Seq<u8>) -> Result<(u32, u32, Seq<u8>), Seq<char>>;

/// Pixels that `image::imageops::resize` produces when resampling the `width` ×
/// `height` luma image `pixels` to `new_width` × `new_height` with `filter`.
pub uninterp spec fn resized_luma8(
    width: u32,
    height: u32,
    pixels: Seq<u8>,
    new_width: u32,
    new_height: u32,
    filter: ResizeFilter,
) -> Seq<u8>;

/// Decodes `bytes` with `image::load_from_memory` (format guessed from the
/// content) and converts the result to 8-bit luma with `DynamicImage::to_luma8`.
/// A failure is given as the error's text.
/// Trusted: the result is `decoded_luma8(bytes)`; no claim is made about how
/// decoding or the color conversion computes pixels, nor about the texts.
#[verifier::external_body]
pub(crate) fn decode_luma8(bytes: &[u8]) -> (r: Result<GrayImage, String>)
    ensures
        r is Ok <==> decoded_luma8(bytes@) is Ok,
        r matches Ok(g) ==> (decoded_luma8(bytes@) matches Ok((w, h, p)) && w == g.width && h == g.height
            && p == g.pixels@),
        r matches Err(t) ==> (decoded_luma8(bytes@) matches Err(m) && m == t@),
{
    match ::image::load_from_memory(bytes) {
        Ok(img) => {
            let g = img.to_luma8();
            Ok(GrayImage { width: g.width(), height: g.height(), pixels: g.into_raw() })
        },
        Err(e) => Err(e.to_string()),
    }
}

/// Resamples `img` to `new_width` × `new_height` with `image::imageops::resize`.
/// Trusted: the output has the requested dimensions and one byte per pixel
/// (`resize` builds it with `ImageBuffer::new`), and its pixels are
/// `resized_luma8` of the input and the arguments. The size bounds in `requires`
/// keep `ImageBuffer::new` from panicking on a length that overflows `usize`,
/// both for the output and for the `width` × `new_height` RGBA f32 buffer that
/// `resize` samples through.
#[verifier::external_body]
pub(crate) fn resize(img: &GrayImage, new_width: u32, new_height: u32, filter: ResizeFilter) -> (out: GrayImage)
    requires
        img.wf(),
        new_width as int * new_height as int <= usize::MAX,
        img.width as int * new_height as int * 4 <= usize::MAX,
    ensures
        out.width == new_width,
        out.height == new_height,
        out.wf(),
        out.pixels@ == resized_luma8(img.width, img.height, img.pixels@, new_width, new_height, filter),
{
    let f = match filter {
        ResizeFilter::Nearest => ::image::imageops::FilterType::Nearest,
        ResizeFilter::Triangle => ::image::imageops::FilterType::Triangle,
    };
    let buf = ::image::GrayImage::from_raw(img.width, img.height, img.pixels.clone()).unwrap();
    let out = ::image::imageops::resize(&buf, new_width, new_height, f);
    GrayImage { width: out.width(), height: out.height(), pixels: out.into_raw() }
}

/// Sum of the pixel values.
pub open spec fn pixel_sum(p: Seq<u8>) -> int
    decreases p.len(),
{
    if p.len() == 0 {
        0
    } else {
        pixel_sum(p.drop_last()) + p.last()
    }
}

/// Number of black (zero) pixels.
pub open spec fn black_count(p: Seq<u8>) -> int
    decreases p.len(),
{
    if p.len() == 0 {
        0
    } else {
        black_count(p.drop_last()) + if p.last() == 0 { 1int } else { 0 }
    }
}

/// Binary threshold (imageproc's `ThresholdType::Binary`): white where the pixel
/// is above `t`, black elsewhere.
pub open spec fn threshold_binary(p: Seq<u8>, t: u8) -> Seq<u8> {
    p.map_values(|x: u8| if x > t { 255u8 } else { 0u8 })
}

/// Photographic negative.
pub open spec fn invert(p: Seq<u8>) -> Seq<u8> {
    p.map_values(|x: u8| (255 - x) as u8)
}

/// Mean pixel value, rounded down (the pixels must not be empty).
pub open spec fn mean_pixel(p: Seq<u8>) -> int {
    pixel_sum(p) / (p.len() as int)
}

/// Threshold at the mean, then invert when more than half the pixels are black.
pub open spec fn spec_binarize(p: Seq<u8>) -> Seq<u8> {
    let b = threshold_binary(p, mean_pixel(p) as u8);
    if black_count(b) > b.len() / 2 {
        invert(b)
    } else {
        b
    }
}

/// In a black-and-white image, the negative's black pixels are the white ones of the image.
pub proof fn lemma_black_count_invert(b: Seq<u8>)
    requires
        forall|i: int| 0 <= i < b.len() ==> #[trigger] b[i] == 0 || b[i] == 255,
    ensures
        black_count(invert(b)) == b.len() - black_count(b),
    decreases b.len(),
{
    if b.len() > 0 {
        let c = b.drop_last();
        assert forall|i: int| 0 <= i < c.len() implies #[trigger] c[i] == 0 || c[i] == 255 by {
            assert(c[i] == b[i]);
        }
        lemma_black_count_invert(c);
        assert(invert(b).drop_last() == invert(c));
        assert(b.last() == 0 || b.last() == 255);
    }
}

proof fn lemma_pixel_sum_bound(p: Seq<u8>)
    ensures
        0 <= pixel_sum(p) <= 255 * p.len(),
    decreases p.len(),
{
    if p.len() > 0 {
        lemma_pixel_sum_bound(p.drop_last());
    }
}

/// Binarization thresholds at the mean: with `m` the sum of the pixels divided
/// by their number (rounded down), a pixel above `m` and a pixel at or below `m`
/// come out in opposite colors, pixels on the same side in the same color, and
/// the pixels above `m` are white unless more than half of the pixels are at or
/// below `m`, in which case they are black.
pub proof fn lemma_binarize_mean_threshold(p: Seq<u8>)
    requires
        p.len() > 0,
    ensures
        ({
            let m = pixel_sum(p) / (p.len() as int);
            let out = spec_binarize(p);
            let inverted = black_count(threshold_binary(p, m as u8)) > p.len() / 2;
            &&& out.len() == p.len()
            &&& forall|i: int| 0 <= i < p.len() ==> #[trigger] out[i] == (if (p[i] > m) != inverted { 255u8 } else { 0u8 })
        }),
{
    lemma_pixel_sum_bound(p);
    let m = pixel_sum(p) / (p.len() as int);
    assert(0 <= m <= 255) by (nonlinear_arith)
        requires 0 <= pixel_sum(p) <= 255 * p.len(), p.len() > 0, m == pixel_sum(p) / (p.len() as int);
    assert(mean_pixel(p) == m);
    let b = threshold_binary(p, m as u8);
    assert(b == threshold_binary(p, mean_pixel(p) as u8));
    assert forall|i: int| 0 <= i < p.len() implies #[trigger] spec_binarize(p)[i] == (if (p[i] > m) != (black_count(b) > p.len() / 2) { 255u8 } else { 0u8 }) by {
        assert(b[i] == (if p[i] > (m as u8) { 255u8 } else { 0u8 }));
    }
}

/// Binarizes `p`: threshold at the mean pixel value, then invert when more than
/// half the pixels came out black. The result is black and white, with at most
/// half of its pixels black.
pub fn binarize(p: &Vec<u8>) -> (out: Vec<u8>)
    requires
        p.len() > 0,
    ensures
        out@ == spec_binarize(p@),
        out.len() == p.len(),
        forall|i: int| 0 <= i < out.len() ==> #[trigger] out@[i] == 0 || out@[i] == 255,
        black_count(out@) <= out.len() / 2,
{
    let n = p.len();
    let mut sum: u128 = 0;
    let mut i: usize = 0;
    while i < n
        invariant
            i <= n,
            n == p.len(),
            sum == pixel_sum(p@.take(i as int)),
            sum <= 255 * i,
        decreases n - i,
    {
        assert(p@.take(i + 1).drop_last() == p@.take(i as int));
        sum = sum + p[i] as u128;
        i = i + 1;
    }
    assert(p@.take(n as int) == p@);
    let mean: u128 = sum / (n as u128);
    assert(mean <= 255) by (nonlinear_arith)
        requires
            sum <= 255 * n,
            n > 0,
            mean == sum / (n as u128),
    ;
    let t: u8 = mean as u8;
    let ghost b = threshold_binary(p@, t);
    let mut bin: Vec<u8> = Vec::new();
    let mut black: usize = 0;
    let mut j: usize = 0;
    while j < n
        invariant
            j <= n,
            n == p.len(),
            bin@ == threshold_binary(p@.take(j as int), t),
            black == black_count(bin@),
            black <= j,
        decreases n - j,
    {
        let v: u8 = if p[j] > t { 255 } else { 0 };
        let ghost old_bin = bin@;
        bin.push(v);
        assert(threshold_binary(p@.take(j + 1), t) == threshold_binary(p@.take(j as int), t).push(v));
        assert(bin@.drop_last() == old_bin);
        if v == 0 {
            black = black + 1;
        }
        j = j + 1;
    }
    assert(bin@ == b);
    assert forall|k: int| 0 <= k < bin.len() implies #[trigger] bin@[k] == 0 || bin@[k] == 255 by {}
    if black > n / 2 {
        let mut inv: Vec<u8> = Vec::new();
        let mut k: usize = 0;
        while k < n
            invariant
                k <= n,
                n == bin.len(),
                inv@ == invert(bin@.take(k as int)),
            decreases n - k,
        {
            inv.push(255 - bin[k]);
            assert(invert(bin@.take(k + 1)) == invert(bin@.take(k as int)).push((255 - bin@[k as int]) as u8));
            k = k + 1;
        }
        assert(bin@.take(n as int) == bin@);
        proof {
            lemma_black_count_invert(bin@);
        }
        inv
    } else {
        bin
    }
}


/// Whether `img` may be scaled 2× without overflowing `u32` dimensions or the
/// `usize` lengths of the buffers `resize` allocates.
pub open spec fn doubling_fits(width: u32, height: u32) -> bool {
    &&& 2 * width <= u32::MAX
    &&& 2 * height <= u32::MAX
    &&& (2 * width) * (2 * height) <= usize::MAX
    &&& width * (2 * height) * 4 <= usize::MAX
}

/// What `preprocess` yields for `img`: the 2× Triangle resample, binarized.
pub open spec fn spec_preprocess(width: u32, height: u32, pixels: Seq<u8>) -> Result<Seq<u8>, SolveFailure> {
    if !doubling_fits(width, height) {
        Err(SolveFailure::ImageTooLarge)
    } else if width == 0 || height == 0 {
        Err(SolveFailure::EmptyImage)
    } else {
        Ok(
            spec_binarize(
                resized_luma8(
                    width,
                    height,
                    pixels,
                    (2 * width) as u32,
                    (2 * height) as u32,
                    ResizeFilter::Triangle,
                ),
            ),
        )
    }
}

/// Readies a grayscale image for OCR: scale 2× (Triangle filter), binary
/// threshold at the mean pixel value, and invert when the background came out
/// dark. The result is black and white, twice the size, with at most half of
/// its pixels black.
pub fn preprocess(img: &GrayImage) -> (r: Result<GrayImage, SolveError>)
    requires
        img.wf(),
    ensures
        r is Ok <==> spec_preprocess(img.width, img.height, img.pixels@) is Ok,
        r matches Err(e) ==> spec_preprocess(img.width, img.height, img.pixels@) == Err::<Seq<u8>, SolveFailure>(e@),
        r matches Ok(out) ==> {
            &&& spec_preprocess(img.width, img.height, img.pixels@) == Ok::<Seq<u8>, SolveFailure>(out.pixels@)
            &&& out.width == 2 * img.width
            &&& out.height == 2 * img.height
            &&& out.wf()
            &&& forall|i: int| 0 <= i < out.pixels.len() ==> #[trigger] out.pixels@[i] == 0 || out.pixels@[i] == 255
            &&& black_count(out.pixels@) <= out.pixels.len() / 2
        },
{
    let w = img.width as u128;
    let h = img.height as u128;
    assert(w * 2 * (h * 2) <= 0x4_0000_0000_0000_0000u128) by (nonlinear_arith)
        requires w <= u32::MAX, h <= u32::MAX;
    assert(w * (h * 2) * 4 <= 0x8_0000_0000_0000_0000u128) by (nonlinear_arith)
        requires w <= u32::MAX, h <= u32::MAX;
    if !(w * 2 <= u32::MAX as u128 && h * 2 <= u32::MAX as u128 && (w * 2) * (h * 2) <= usize::MAX as u128
        && w * (h * 2) * 4 <= usize::MAX as u128) {
        return Err(SolveError::ImageTooLarge);
    }
    if img.width == 0 || img.height == 0 {
        return Err(SolveError::EmptyImage);
    }
    let w2: u32 = img.width * 2;
    let h2: u32 = img.height * 2;
    let scaled = resize(img, w2, h2, ResizeFilter::Triangle);
    assert(scaled.pixels.len() > 0) by (nonlinear_arith)
        requires scaled.pixels.len() == w2 as int * h2 as int, w2 > 0, h2 > 0;
    let bin = binarize(&scaled.pixels);
    Ok(GrayImage { width: w2, height: h2, pixels: bin })
}

} // verus!
