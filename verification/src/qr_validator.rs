//! Re-detects and decodes the embedded QR symbol under a fixed priority
//! order of preprocessing strategies, comparing the decoded payload against
//! the expected one.
//!
//! Detection and decoding are done by the `rqrr` crate behind one trusted
//! wrapper; the preprocessing strategies and the retry decision logic are
//! verified here.

use crate::error::QrImageError;
use crate::raster::{lemma_row_major_index, to_gray, GrayImage, RgbaImage};
use vstd::arithmetic::div_mod::{lemma_div_is_ordered, lemma_div_multiples_vanish};
use vstd::prelude::*;
use vstd::string::StringSliceAdditionalSpecFns;

verus! {

/// Validates embedded QR symbols under a bounded attempt budget.
pub struct QrValidator {
    pub max_attempts: u32,
}

// ---------------------------------------------------------------------------
// Preprocessing strategies
// ---------------------------------------------------------------------------

/// The darkest luminance seen in `s`, starting from a white ceiling.
pub open spec fn fold_min(s: Seq<u8>) -> int
    decreases s.len(),
{
    if s.len() == 0 {
        255
    } else {
        let m = fold_min(s.drop_last());
        if s.last() < m {
            s.last() as int
        } else {
            m
        }
    }
}

/// The brightest luminance seen in `s`, starting from a black floor.
pub open spec fn fold_max(s: Seq<u8>) -> int
    decreases s.len(),
{
    if s.len() == 0 {
        0
    } else {
        let m = fold_max(s.drop_last());
        if s.last() > m {
            s.last() as int
        } else {
            m
        }
    }
}

/// Every luminance lies between the observed extremes.
proof fn lemma_fold_min_max_bounds(s: Seq<u8>)
    ensures
        0 <= fold_min(s) <= 255,
        0 <= fold_max(s) <= 255,
        forall|k: int| 0 <= k < s.len() ==> fold_min(s) <= #[trigger] s[k] <= fold_max(s),
    decreases s.len(),
{
    if s.len() > 0 {
        lemma_fold_min_max_bounds(s.drop_last());
        assert forall|k: int| 0 <= k < s.len() implies fold_min(s) <= #[trigger] s[k]
            <= fold_max(s) by {
            if k < s.len() - 1 {
                assert(s.drop_last()[k] == s[k]);
            }
        }
    }
}

/// Linear remap of the observed luminance range onto the full byte range.
pub open spec fn stretch(p: u8, lo: int, hi: int) -> int {
    (p - lo) * 255 / (hi - lo)
}

/// A value between the extremes stretches to a byte.
proof fn lemma_stretch_bounds(p: u8, lo: int, hi: int)
    requires
        lo <= p <= hi,
        lo < hi,
    ensures
        0 <= stretch(p, lo, hi) <= 255,
{
    let d = hi - lo;
    assert((p - lo) * 255 <= d * 255) by (nonlinear_arith)
        requires
            p - lo <= d,
    ;
    assert((p - lo) * 255 >= 0) by (nonlinear_arith)
        requires
            p - lo >= 0,
    ;
    lemma_div_is_ordered((p - lo) * 255, d * 255, d);
    lemma_div_multiples_vanish(255, d);
}

/// A neighborhood coordinate pulled back by the half window, clamped at
/// the image's leading edge.
pub open spec fn win_clamp(a: int) -> int {
    if a >= 7 {
        a - 7
    } else {
        0
    }
}

/// The luminance total of the first `dx` cells of the window row at
/// clamped row coordinate `py`, over a `w` by `h` raster held flat in
/// `s`; cells outside the raster contribute nothing.
pub open spec fn row_sum(s: Seq<u8>, w: int, h: int, x: int, py: int, dx: int) -> int
    decreases dx,
{
    if dx <= 0 {
        0
    } else {
        let px = win_clamp(x + dx - 1);
        row_sum(s, w, h, x, py, dx - 1) + if px < w && py < h {
            s[py * w + px] as int
        } else {
            0
        }
    }
}

/// How many of the first `dx` cells of the window row land inside the
/// raster.
pub open spec fn row_cnt(s: Seq<u8>, w: int, h: int, x: int, py: int, dx: int) -> int
    decreases dx,
{
    if dx <= 0 {
        0
    } else {
        let px = win_clamp(x + dx - 1);
        row_cnt(s, w, h, x, py, dx - 1) + if px < w && py < h {
            1int
        } else {
            0int
        }
    }
}

/// The luminance total of the first `dy` rows of the 15-wide window
/// centered (with edge clamping) on `(x, y)`.
pub open spec fn win_sum(s: Seq<u8>, w: int, h: int, x: int, y: int, dy: int) -> int
    decreases dy,
{
    if dy <= 0 {
        0
    } else {
        win_sum(s, w, h, x, y, dy - 1) + row_sum(s, w, h, x, win_clamp(y + dy - 1), 15)
    }
}

/// How many cells of the first `dy` window rows land inside the raster.
pub open spec fn win_cnt(s: Seq<u8>, w: int, h: int, x: int, y: int, dy: int) -> int
    decreases dy,
{
    if dy <= 0 {
        0
    } else {
        win_cnt(s, w, h, x, y, dy - 1) + row_cnt(s, w, h, x, win_clamp(y + dy - 1), 15)
    }
}

/// A window row's total stays within `dx` cells of full brightness.
proof fn lemma_row_bounds(s: Seq<u8>, w: int, h: int, x: int, py: int, dx: int)
    requires
        dx >= 0,
    ensures
        0 <= row_cnt(s, w, h, x, py, dx) <= dx,
        0 <= row_sum(s, w, h, x, py, dx) <= 255 * dx,
    decreases dx,
{
    if dx > 0 {
        lemma_row_bounds(s, w, h, x, py, dx - 1);
    }
}

/// The window's total stays within `15 * dy` cells of full brightness.
proof fn lemma_win_bounds(s: Seq<u8>, w: int, h: int, x: int, y: int, dy: int)
    requires
        dy >= 0,
    ensures
        0 <= win_cnt(s, w, h, x, y, dy) <= 15 * dy,
        0 <= win_sum(s, w, h, x, y, dy) <= 255 * 15 * dy,
    decreases dy,
{
    if dy > 0 {
        lemma_win_bounds(s, w, h, x, y, dy - 1);
        lemma_row_bounds(s, w, h, x, win_clamp(y + dy - 1), 15);
        assert(255 * 15 * dy == 255 * 15 * (dy - 1) + 255 * 15) by (nonlinear_arith);
        assert(15 * dy == 15 * (dy - 1) + 15) by (nonlinear_arith);
    }
}

/// The mean luminance of the 15-by-15 neighborhood of `(x, y)`, clamped at
/// the raster edges.
pub open spec fn local_mean(s: Seq<u8>, w: int, h: int, x: int, y: int) -> int {
    let c = win_cnt(s, w, h, x, y, 15);
    win_sum(s, w, h, x, y, 15) / (if c > 0 {
        c
    } else {
        1
    })
}

/// A pixel binarized against its local mean less a fixed offset of 10.
pub open spec fn thresholded(s: Seq<u8>, w: int, h: int, x: int, y: int) -> int {
    if s[y * w + x] > local_mean(s, w, h, x, y) - 10 {
        255
    } else {
        0
    }
}

/// A uniform brightness shift of `(attempt - 3) * 20` luminance levels.
pub open spec fn brightness_shift(attempt: int) -> int {
    (attempt - 3) * 20
}

/// A value forced into the byte range.
pub open spec fn clamp255(v: int) -> int {
    if v < 0 {
        0
    } else if v > 255 {
        255
    } else {
        v
    }
}

/// `src` after full-range contrast stretching: the observed
/// minimum..maximum luminance remapped linearly onto 0..255, or an
/// unchanged copy when a single luminance level is present.
pub open spec fn contrast_seq(src: Seq<u8>) -> Seq<u8> {
    let lo = fold_min(src);
    let hi = fold_max(src);
    if hi > lo {
        Seq::new(src.len(), |k: int| stretch(src[k], lo, hi) as u8)
    } else {
        src
    }
}

/// `src` after a uniform brightness shift of `(attempt - 3) * 20` levels,
/// clamped to the byte range per pixel.
pub open spec fn brightness_seq(src: Seq<u8>, attempt: int) -> Seq<u8> {
    Seq::new(src.len(), |k: int| clamp255(src[k] + brightness_shift(attempt)) as u8)
}

/// A `w` by `h` raster, held flat in `src`, after local adaptive
/// thresholding of every pixel.
pub open spec fn threshold_seq(src: Seq<u8>, w: int, h: int) -> Seq<u8> {
    Seq::new(src.len(), |k: int| thresholded(src, w, h, k % w, k / w) as u8)
}

/// The grayscale raster handed to the detector on one attempt: the
/// unmodified image first, then contrast stretching, then adaptive
/// thresholding, then growing brightness shifts.
pub open spec fn preprocess_seq(src: Seq<u8>, w: int, h: int, attempt: int) -> Seq<u8> {
    if attempt == 1 {
        src
    } else if attempt == 2 {
        contrast_seq(src)
    } else if attempt == 3 {
        threshold_seq(src, w, h)
    } else {
        brightness_seq(src, attempt)
    }
}

impl QrValidator {
    /// A validator with the given attempt budget.
    pub fn new(max_attempts: u32) -> (v: Self)
        ensures
            v.max_attempts == max_attempts,
    {
        QrValidator { max_attempts }
    }

    /// Full-range contrast stretching: the observed minimum..maximum
    /// luminance is remapped linearly onto 0..255. An image with a single
    /// luminance level is returned unchanged.
    pub fn enhance_contrast(&self, image: &GrayImage) -> (out: GrayImage)
        requires
            image.wf(),
        ensures
            out.wf(),
            out.width == image.width,
            out.height == image.height,
            out.pixels@ == contrast_seq(image.pixels@),
    {
        let n = image.pixels.len();
        let mut min_val: u8 = 255;
        let mut max_val: u8 = 0;
        let mut k: usize = 0;
        while k < n
            invariant
                n == image.pixels@.len(),
                k <= n,
                min_val == fold_min(image.pixels@.take(k as int)),
                max_val == fold_max(image.pixels@.take(k as int)),
            decreases n - k,
        {
            let p = image.pixels[k];
            proof {
                assert(image.pixels@.take(k as int + 1).drop_last()
                    =~= image.pixels@.take(k as int));
                assert(image.pixels@.take(k as int + 1).last() == image.pixels@[k as int]);
            }
            if p < min_val {
                min_val = p;
            }
            if p > max_val {
                max_val = p;
            }
            k = k + 1;
        }
        proof {
            assert(image.pixels@.take(n as int) =~= image.pixels@);
        }
        if max_val > min_val {
            let ghost lo = min_val as int;
            let ghost hi = max_val as int;
            let range: u32 = (max_val - min_val) as u32;
            let mut pixels: Vec<u8> = Vec::new();
            let mut i: usize = 0;
            while i < n
                invariant
                    n == image.pixels@.len(),
                    image.wf(),
                    i <= n,
                    pixels.len() == i,
                    lo == fold_min(image.pixels@),
                    hi == fold_max(image.pixels@),
                    lo < hi,
                    range == hi - lo,
                    min_val as int == lo,
                    forall|k: int| 0 <= k < i ==> pixels@[k] == stretch(image.pixels@[k], lo, hi),
                decreases n - i,
            {
                let p = image.pixels[i];
                proof {
                    lemma_fold_min_max_bounds(image.pixels@);
                    lemma_stretch_bounds(p, lo, hi);
                }
                let v: u32 = ((p - min_val) as u32) * 255 / range;
                pixels.push(v as u8);
                i = i + 1;
            }
            proof {
                assert(pixels@ =~= contrast_seq(image.pixels@)) by {
                    assert forall|k: int| 0 <= k < n implies pixels@[k] == stretch(
                        image.pixels@[k],
                        lo,
                        hi,
                    ) as u8 by {
                        lemma_fold_min_max_bounds(image.pixels@);
                        lemma_stretch_bounds(image.pixels@[k], lo, hi);
                    }
                }
            }
            let out = GrayImage { width: image.width, height: image.height, pixels };
            out
        } else {
            let mut pixels: Vec<u8> = Vec::new();
            let mut i: usize = 0;
            while i < n
                invariant
                    n == image.pixels@.len(),
                    i <= n,
                    pixels@ =~= image.pixels@.take(i as int),
                decreases n - i,
            {
                let p = image.pixels[i];
                pixels.push(p);
                i = i + 1;
            }
            proof {
                assert(image.pixels@.take(n as int) =~= image.pixels@);
            }
            let out = GrayImage { width: image.width, height: image.height, pixels };
            out
        }
    }

    /// Local adaptive thresholding: each pixel is binarized against the
    /// mean luminance of a 15-by-15 neighborhood (clamped at the image
    /// edges), less a fixed offset of 10.
    pub fn adaptive_threshold(&self, image: &GrayImage) -> (out: GrayImage)
        requires
            image.wf(),
            image.width + 15 <= usize::MAX,
            image.height + 15 <= usize::MAX,
        ensures
            out.wf(),
            out.width == image.width,
            out.height == image.height,
            out.pixels@ == threshold_seq(
                image.pixels@,
                image.width as int,
                image.height as int,
            ),
    {
        let ghost img = *image;
        let w = image.width;
        let h = image.height;
        let mut pixels: Vec<u8> = Vec::new();
        let mut y: usize = 0;
        while y < h
            invariant
                img == *image,
                img.wf(),
                w == img.width,
                h == img.height,
                w + 15 <= usize::MAX,
                h + 15 <= usize::MAX,
                y <= h,
                pixels.len() == y * w,
                forall|k: int|
                    0 <= k < pixels.len() ==> pixels[k] == thresholded(
                        img.pixels@,
                        w as int,
                        h as int,
                        k % (w as int),
                        k / (w as int),
                    ),
            decreases h - y,
        {
            let mut x: usize = 0;
            while x < w
                invariant
                    img == *image,
                    img.wf(),
                    w == img.width,
                    h == img.height,
                    w + 15 <= usize::MAX,
                    h + 15 <= usize::MAX,
                    y < h,
                    x <= w,
                    pixels.len() == y * w + x,
                    forall|k: int|
                        0 <= k < pixels.len() ==> pixels[k] == thresholded(
                            img.pixels@,
                            w as int,
                            h as int,
                            k % (w as int),
                            k / (w as int),
                        ),
                decreases w - x,
            {
                let mut sum: u32 = 0;
                let mut count: u32 = 0;
                let mut dy: usize = 0;
                while dy < 15
                    invariant
                        img == *image,
                        img.wf(),
                        w == img.width,
                        h == img.height,
                        w + 15 <= usize::MAX,
                        h + 15 <= usize::MAX,
                        x < w,
                        y < h,
                        dy <= 15,
                        sum == win_sum(img.pixels@, w as int, h as int, x as int, y as int, dy as int),
                        count == win_cnt(img.pixels@, w as int, h as int, x as int, y as int, dy as int),
                    decreases 15 - dy,
                {
                    let py: usize = if y + dy >= 7 {
                        y + dy - 7
                    } else {
                        0
                    };
                    let mut dx: usize = 0;
                    while dx < 15
                        invariant
                            img == *image,
                            img.wf(),
                            w == img.width,
                            h == img.height,
                            w + 15 <= usize::MAX,
                            h + 15 <= usize::MAX,
                            x < w,
                            y < h,
                            dy < 15,
                            dx <= 15,
                            py == win_clamp(y as int + dy as int),
                            sum == win_sum(img.pixels@, w as int, h as int, x as int, y as int, dy as int)
                                + row_sum(
                                img.pixels@,
                                w as int,
                                h as int,
                                x as int,
                                py as int,
                                dx as int,
                            ),
                            count == win_cnt(img.pixels@, w as int, h as int, x as int, y as int, dy as int)
                                + row_cnt(
                                img.pixels@,
                                w as int,
                                h as int,
                                x as int,
                                py as int,
                                dx as int,
                            ),
                        decreases 15 - dx,
                    {
                        let px: usize = if x + dx >= 7 {
                            x + dx - 7
                        } else {
                            0
                        };
                        if px < w && py < h {
                            let p = image.luma(px, py);
                            proof {
                                lemma_win_bounds(
                                    img.pixels@, w as int, h as int, x as int, y as int, dy as int);
                                lemma_row_bounds(
                                    img.pixels@, w as int, h as int, x as int, py as int, dx as int);
                                assert(255 * 15 * (dy as int) <= 255 * 15 * 14)
                                    by (nonlinear_arith)
                                    requires
                                        dy < 15,
                                ;
                                assert(255 * (dx as int) <= 255 * 15) by (nonlinear_arith)
                                    requires
                                        dx <= 15,
                                ;
                                assert(sum <= 57375);
                            }
                            sum = sum + (p as u32);
                            count = count + 1;
                        }
                        dx = dx + 1;
                    }
                    dy = dy + 1;
                }
                let divisor: u32 = if count > 0 {
                    count
                } else {
                    1
                };
                let mean: u32 = sum / divisor;
                let p = image.luma(x, y);
                let v: u8 = if (p as i64) > (mean as i64) - 10 {
                    255
                } else {
                    0
                };
                proof {
                    assert(v as int == thresholded(
                        img.pixels@, w as int, h as int, x as int, y as int));
                    lemma_row_major_index(w as int, h as int, x as int, y as int);
                    vstd::arithmetic::div_mod::lemma_fundamental_div_mod_converse(
                        (y * w + x) as int, w as int, y as int, x as int);
                }
                pixels.push(v);
                x = x + 1;
            }
            proof {
                assert((y as int + 1) * (w as int) == y as int * (w as int) + w as int)
                    by (nonlinear_arith);
            }
            y = y + 1;
        }
        let out = GrayImage { width: w, height: h, pixels };
        proof {
            assert(out.pixels.len() == h * w);
            assert(w as int * h as int == h as int * w as int) by (nonlinear_arith);
            assert(out.pixels@ =~= threshold_seq(img.pixels@, w as int, h as int));
        }
        out
    }

    /// A uniform brightness shift of `(attempt - 3) * 20` levels, clamped
    /// to the byte range per pixel.
    pub fn adjust_brightness(&self, image: &GrayImage, factor: u32) -> (out: GrayImage)
        requires
            image.wf(),
        ensures
            out.wf(),
            out.width == image.width,
            out.height == image.height,
            out.pixels@ == brightness_seq(image.pixels@, factor as int),
    {
        let adjustment: i64 = ((factor as i64) - 3) * 20;
        let n = image.pixels.len();
        let mut pixels: Vec<u8> = Vec::new();
        let mut i: usize = 0;
        while i < n
            invariant
                n == image.pixels@.len(),
                i <= n,
                pixels.len() == i,
                adjustment == brightness_shift(factor as int),
                forall|k: int|
                    0 <= k < i ==> pixels@[k] == clamp255(
                        image.pixels@[k] + brightness_shift(factor as int),
                    ),
            decreases n - i,
        {
            let p = image.pixels[i];
            let shifted: i64 = (p as i64) + adjustment;
            let v: u8 = if shifted < 0 {
                0
            } else if shifted > 255 {
                255
            } else {
                shifted as u8
            };
            pixels.push(v);
            i = i + 1;
        }
        proof {
            assert(pixels@ =~= brightness_seq(image.pixels@, factor as int));
        }
        GrayImage { width: image.width, height: image.height, pixels }
    }

    /// The preprocessing strategy for one attempt, in priority order:
    /// the unmodified grayscale first, then contrast stretching, then
    /// adaptive thresholding, then growing brightness shifts.
    pub fn preprocess_image(&self, gray: &GrayImage, attempt: u32) -> (out: GrayImage)
        requires
            gray.wf(),
            gray.width + 15 <= usize::MAX,
            gray.height + 15 <= usize::MAX,
        ensures
            out.wf(),
            out.width == gray.width,
            out.height == gray.height,
            out.pixels@ == preprocess_seq(
                gray.pixels@,
                gray.width as int,
                gray.height as int,
                attempt as int,
            ),
    {
        if attempt == 1 {
            copy_gray(gray)
        } else if attempt == 2 {
            self.enhance_contrast(gray)
        } else if attempt == 3 {
            self.adaptive_threshold(gray)
        } else {
            self.adjust_brightness(gray, attempt)
        }
    }

    /// One detection attempt: preprocess the grayscale raster per the
    /// attempt number, run detection, and take the first grid that
    /// decodes.
    pub fn try_decode(&self, gray: &GrayImage, attempt: u32) -> (out: DecodeOutcome)
        requires
            gray.wf(),
            gray.width + 15 <= usize::MAX,
            gray.height + 15 <= usize::MAX,
        ensures
            outcome_describes(
                out,
                attempt_scan(
                    gray.pixels@,
                    gray.width as int,
                    gray.height as int,
                    attempt as int,
                ),
            ),
    {
        let processed = self.preprocess_image(gray, attempt);
        let grids = scan_grayscale(&processed);
        first_decoded(&grids)
    }

    /// The detector outcomes that this validator's attempts yield on the
    /// image: one entry per attempt, over the image's grayscale view.
    pub open spec fn trace_of(self, image: RgbaImage) -> Seq<Option<Seq<u8>>> {
        validation_trace(
            crate::raster::gray_view(image),
            image.width as int,
            image.height as int,
            self.max_attempts as int,
        )
    }

    /// Try to re-decode the embedded symbol under up to `max_attempts`
    /// preprocessing strategies, in priority order, and compare the decoded
    /// payload byte-for-byte against `expected_data`.
    ///
    /// Over the trace of per-attempt detector outcomes: success exactly
    /// when the first decoding attempt carries the expected payload; a
    /// mismatch error, carrying the decoded bytes, exactly when it carries
    /// a different payload — later attempts play no part either way; and
    /// exhaustion, with the full attempt count, exactly when no attempt
    /// decodes at all.
    pub fn validate(&self, image: &RgbaImage, expected_data: &str) -> (r: Result<
        bool,
        QrImageError,
    >)
        requires
            image.wf(),
            image.width + 15 <= usize::MAX,
            image.height + 15 <= usize::MAX,
        ensures
            r matches Ok(b) ==> b,
            r matches Err(e) ==> (e is ValidationMismatch || e is ValidationExhausted),
            (r == Ok::<bool, QrImageError>(true)) <==> validation_matches(
                self.trace_of(*image),
                expected_data.spec_bytes(),
            ),
            (r matches Err(QrImageError::ValidationMismatch { .. })) <==> validation_mismatches(
                self.trace_of(*image),
                expected_data.spec_bytes(),
            ),
            (r matches Err(QrImageError::ValidationExhausted { .. })) <==> first_decode_index(
                self.trace_of(*image),
            ) == self.max_attempts,
            r matches Err(QrImageError::ValidationMismatch { decoded }) ==> decoded@
                == self.trace_of(*image)[first_decode_index(self.trace_of(*image))].unwrap()
                && decoded@ != expected_data.spec_bytes(),
            r matches Err(QrImageError::ValidationExhausted { attempts }) ==> attempts
                == self.max_attempts,
    {
        let ghost trace = self.trace_of(*image);
        let ghost e = expected_data.spec_bytes();
        let expected = expected_data.as_bytes();
        let gray = to_gray(image);
        let mut done: u32 = 0;
        while done < self.max_attempts
            invariant
                gray.wf(),
                gray.width == image.width,
                gray.height == image.height,
                gray.pixels@ == crate::raster::gray_view(*image),
                image.wf(),
                image.width + 15 <= usize::MAX,
                image.height + 15 <= usize::MAX,
                expected@ == expected_data.spec_bytes(),
                e == expected_data.spec_bytes(),
                trace == self.trace_of(*image),
                trace.len() == self.max_attempts,
                done <= self.max_attempts,
                forall|j: int| 0 <= j < done ==> (#[trigger] trace[j]) is None,
            decreases self.max_attempts - done,
        {
            let attempt: u32 = done + 1;
            let outcome = self.try_decode(&gray, attempt);
            proof {
                assert(trace[done as int] == attempt_outcome(
                    gray.pixels@,
                    gray.width as int,
                    gray.height as int,
                    done as int + 1,
                ));
            }
            match outcome {
                DecodeOutcome::Decoded(decoded) => {
                    proof {
                        assert(trace[done as int] == Some(decoded@));
                        lemma_first_decode_index_unique(trace, done as int);
                    }
                    if bytes_equal(decoded.as_slice(), expected) {
                        proof {
                            lemma_lowest_attempt_wins(trace, e, done as int);
                        }
                        return Ok(true);
                    } else {
                        proof {
                            lemma_mismatch_stops_early(trace, e, done as int);
                        }
                        return Err(QrImageError::ValidationMismatch { decoded });
                    }
                },
                DecodeOutcome::NoSymbol => {},
                DecodeOutcome::DecodeFailed => {},
            }
            done = done + 1;
        }
        proof {
            // No attempt decoded: the trace matches nothing and mismatches
            // nothing.
            lemma_first_decode_index(trace);
            assert(first_decode_index(trace) == trace.len());
        }
        Err(QrImageError::ValidationExhausted { attempts: self.max_attempts })
    }

    /// Whether any QR symbol is detectable in the image's unmodified
    /// grayscale at all, with no decoding and no payload comparison.
    pub fn quick_check(&self, image: &RgbaImage) -> (found: bool)
        requires
            image.wf(),
        ensures
            found == (scan_of(
                image.width as int,
                image.height as int,
                crate::raster::gray_view(*image),
            ).len() > 0),
    {
        let gray = to_gray(image);
        let grids = scan_grayscale(&gray);
        grids.len() > 0
    }
}

// ---------------------------------------------------------------------------
// Detection and decoding
// ---------------------------------------------------------------------------

/// What one detection pass over a preprocessed image yielded.
pub enum DecodeOutcome {
    /// No QR symbol was detected.
    NoSymbol,
    /// Grids were detected but none of them decoded.
    DecodeFailed,
    /// The first grid that decoded, with its payload bytes.
    Decoded(Vec<u8>),
}

/// What one detection pass yields on a `width` by `height` grayscale
/// raster held flat in `pixels`: one entry per detected grid, in detection
/// order, `Some` carrying the decoded payload bytes of a grid that decoded
/// and `None` standing for one that failed. What `scan_grayscale` returns;
/// the detector is a pure function of the pixels.
pub uninterp spec fn scan_of(width: int, height: int, pixels: Seq<u8>) -> Seq<Option<Seq<u8>>>;

/// Relies on `rqrr::PreparedImage::prepare_from_greyscale`,
/// `PreparedImage::detect_grids` and `Grid::decode`: one entry per detected
/// grid, in detection order, `Some` carrying the decoded payload bytes of a
/// grid that decoded and `None` standing for one that failed. The chain is
/// deterministic in the raster's dimensions and pixels alone, so its result
/// carries the name `scan_of`.
#[verifier::external_body]
fn scan_grayscale(img: &GrayImage) -> (grids: Vec<Option<Vec<u8>>>)
    requires
        img.wf(),
    ensures
        grids.deep_view() == scan_of(img.width as int, img.height as int, img.pixels@),
{
    let mut prepared = rqrr::PreparedImage::prepare_from_greyscale(
        img.width,
        img.height,
        |x, y| img.luma(x, y),
    );
    let grids = prepared.detect_grids();
    grids.into_iter().map(|g| g.decode().ok().map(|r| r.1.into_bytes())).collect()
}

/// An unchanged copy of a grayscale raster.
fn copy_gray(image: &GrayImage) -> (out: GrayImage)
    requires
        image.wf(),
    ensures
        out.wf(),
        out.width == image.width,
        out.height == image.height,
        out.pixels@ == image.pixels@,
{
    let n = image.pixels.len();
    let mut pixels: Vec<u8> = Vec::new();
    let mut i: usize = 0;
    while i < n
        invariant
            n == image.pixels@.len(),
            i <= n,
            pixels@ =~= image.pixels@.take(i as int),
        decreases n - i,
    {
        let p = image.pixels[i];
        pixels.push(p);
        i = i + 1;
    }
    proof {
        assert(image.pixels@.take(n as int) =~= image.pixels@);
    }
    GrayImage { width: image.width, height: image.height, pixels }
}

/// An unchanged copy of a byte vector.
fn copy_bytes(src: &Vec<u8>) -> (out: Vec<u8>)
    ensures
        out@ == src@,
{
    let n = src.len();
    let mut out: Vec<u8> = Vec::new();
    let mut i: usize = 0;
    while i < n
        invariant
            n == src@.len(),
            i <= n,
            out@ =~= src@.take(i as int),
        decreases n - i,
    {
        let b = src[i];
        out.push(b);
        i = i + 1;
    }
    proof {
        assert(src@.take(n as int) =~= src@);
    }
    out
}

/// The outcome of one detection pass: no symbol when nothing was detected,
/// the payload of the first grid that decoded, or a decode failure when
/// grids were detected but none decoded.
fn first_decoded(grids: &Vec<Option<Vec<u8>>>) -> (out: DecodeOutcome)
    ensures
        outcome_describes(out, grids.deep_view()),
{
    let ghost gv = grids.deep_view();
    let n = grids.len();
    let mut idx: usize = 0;
    while idx < n
        invariant
            gv == grids.deep_view(),
            gv.len() == grids@.len(),
            n == grids@.len(),
            idx <= n,
            forall|j: int| 0 <= j < idx ==> (#[trigger] gv[j]) is None,
        decreases n - idx,
    {
        match &grids[idx] {
            Some(d) => {
                let payload = copy_bytes(d);
                proof {
                    assert(gv[idx as int] == grids@[idx as int].deep_view());
                    assert(gv[idx as int].unwrap() =~= payload@);
                    lemma_first_decode_index_unique(gv, idx as int);
                }
                return DecodeOutcome::Decoded(payload);
            },
            None => {
                proof {
                    assert(gv[idx as int] == grids@[idx as int].deep_view());
                }
            },
        }
        idx = idx + 1;
    }
    proof {
        lemma_first_decode_index(gv);
        assert(first_decode_index(gv) == gv.len());
    }
    if n == 0 {
        DecodeOutcome::NoSymbol
    } else {
        DecodeOutcome::DecodeFailed
    }
}

/// The outcome `out` is the first-decoded classification of the detection
/// pass `grids`: no symbol iff nothing was detected, a decode failure iff
/// grids were detected and none decoded, and otherwise the payload at the
/// first decode index.
pub open spec fn outcome_describes(out: DecodeOutcome, grids: Seq<Option<Seq<u8>>>) -> bool {
    &&& ((out is NoSymbol) <==> grids.len() == 0)
    &&& ((out is DecodeFailed) <==> (grids.len() > 0 && first_decode_index(grids) == grids.len()))
    &&& (out matches DecodeOutcome::Decoded(d) ==> first_decode_index(grids) < grids.len() && d@
        == grids[first_decode_index(grids)].unwrap())
    &&& (first_decode_index(grids) < grids.len() ==> out is Decoded)
}

// ---------------------------------------------------------------------------
// The retry state machine over attempt outcomes
// ---------------------------------------------------------------------------
//
// Each attempt either decodes some payload (`Some`) or yields nothing
// (`None`: no symbol, or grids that failed to decode). The first decoding
// attempt decides the run: a match on equality, a terminal mismatch
// otherwise; attempts after it play no part.

/// What the detector yields on one attempt: the named scan result of the
/// grayscale raster after that attempt's preprocessing strategy.
pub open spec fn attempt_scan(gray: Seq<u8>, w: int, h: int, attempt: int) -> Seq<
    Option<Seq<u8>>,
> {
    scan_of(w, h, preprocess_seq(gray, w, h, attempt))
}

/// One attempt's outcome: the payload of the first grid that decodes, or
/// nothing when no grid is detected or none decodes.
pub open spec fn attempt_outcome(gray: Seq<u8>, w: int, h: int, attempt: int) -> Option<
    Seq<u8>,
> {
    let grids = attempt_scan(gray, w, h, attempt);
    let i = first_decode_index(grids);
    if i < grids.len() {
        Some(grids[i].unwrap())
    } else {
        None
    }
}

/// The outcomes of attempts `1..=attempts` on one grayscale raster, in
/// priority order.
pub open spec fn validation_trace(gray: Seq<u8>, w: int, h: int, attempts: int) -> Seq<
    Option<Seq<u8>>,
> {
    Seq::new(attempts as nat, |i: int| attempt_outcome(gray, w, h, i + 1))
}

/// The position of the first decoding attempt, or the length when none
/// decodes.
pub open spec fn first_decode_index(outs: Seq<Option<Seq<u8>>>) -> int
    decreases outs.len(),
{
    if outs.len() == 0 {
        0
    } else if outs[0] is Some {
        0
    } else {
        1 + first_decode_index(outs.drop_first())
    }
}

/// Whether a run over these attempt outcomes ends in a confirmed match.
pub open spec fn validation_matches(outs: Seq<Option<Seq<u8>>>, expected: Seq<u8>) -> bool {
    let i = first_decode_index(outs);
    i < outs.len() && outs[i].unwrap() == expected
}

/// Whether a run over these attempt outcomes ends in a terminal mismatch.
pub open spec fn validation_mismatches(outs: Seq<Option<Seq<u8>>>, expected: Seq<u8>) -> bool {
    let i = first_decode_index(outs);
    i < outs.len() && outs[i].unwrap() != expected
}

/// The first decode index lies in range, points at a decoding attempt,
/// and everything before it decoded nothing.
pub proof fn lemma_first_decode_index(outs: Seq<Option<Seq<u8>>>)
    ensures
        0 <= first_decode_index(outs) <= outs.len(),
        first_decode_index(outs) < outs.len() ==> outs[first_decode_index(outs)] is Some,
        forall|j: int| 0 <= j < first_decode_index(outs) ==> (#[trigger] outs[j]) is None,
    decreases outs.len(),
{
    if outs.len() > 0 && !(outs[0] is Some) {
        lemma_first_decode_index(outs.drop_first());
        assert forall|j: int| 0 <= j < first_decode_index(outs) implies (#[trigger] outs[j])
            is None by {
            if j > 0 {
                assert(outs.drop_first()[j - 1] == outs[j]);
            }
        }
    }
}

/// An attempt that decodes, with none decoding before it, is the first
/// decode index.
pub proof fn lemma_first_decode_index_unique(outs: Seq<Option<Seq<u8>>>, i: int)
    requires
        0 <= i < outs.len(),
        outs[i] is Some,
        forall|j: int| 0 <= j < i ==> (#[trigger] outs[j]) is None,
    ensures
        first_decode_index(outs) == i,
    decreases i,
{
    if i > 0 {
        assert(outs.drop_first()[i - 1] == outs[i]);
        assert forall|j: int| 0 <= j < i - 1 implies (#[trigger] outs.drop_first()[j])
            is None by {
            assert(outs.drop_first()[j] == outs[j + 1]);
        }
        lemma_first_decode_index_unique(outs.drop_first(), i - 1);
    }
}

/// A decoded-but-wrong payload is terminal: the run is a mismatch, not a
/// match, and it is decided by the attempts up to and including the
/// decoding one — whatever the later attempts would have yielded plays no
/// part.
pub proof fn lemma_mismatch_stops_early(outs: Seq<Option<Seq<u8>>>, expected: Seq<u8>, i: int)
    requires
        0 <= i < outs.len(),
        outs[i] is Some,
        outs[i].unwrap() != expected,
        forall|j: int| 0 <= j < i ==> (#[trigger] outs[j]) is None,
    ensures
        validation_mismatches(outs, expected),
        !validation_matches(outs, expected),
        validation_mismatches(outs.take(i + 1), expected),
{
    lemma_first_decode_index_unique(outs, i);
    let cut = outs.take(i + 1);
    assert(cut[i] == outs[i]);
    assert forall|j: int| 0 <= j < i implies (#[trigger] cut[j]) is None by {
        assert(cut[j] == outs[j]);
    }
    lemma_first_decode_index_unique(cut, i);
}

/// The lowest-indexed decoding attempt wins: when it carries the expected
/// payload the run is a match, already decided at that attempt.
pub proof fn lemma_lowest_attempt_wins(outs: Seq<Option<Seq<u8>>>, expected: Seq<u8>, i: int)
    requires
        0 <= i < outs.len(),
        outs[i] is Some,
        outs[i].unwrap() == expected,
        forall|j: int| 0 <= j < i ==> (#[trigger] outs[j]) is None,
    ensures
        validation_matches(outs, expected),
        !validation_mismatches(outs, expected),
        validation_matches(outs.take(i + 1), expected),
{
    lemma_first_decode_index_unique(outs, i);
    let cut = outs.take(i + 1);
    assert(cut[i] == outs[i]);
    assert forall|j: int| 0 <= j < i implies (#[trigger] cut[j]) is None by {
        assert(cut[j] == outs[j]);
    }
    lemma_first_decode_index_unique(cut, i);
}

/// Byte-for-byte equality of two byte strings.
pub fn bytes_equal(a: &[u8], b: &[u8]) -> (r: bool)
    ensures
        r == (a@ == b@),
{
    if a.len() != b.len() {
        return false;
    }
    let n = a.len();
    let mut i: usize = 0;
    while i < n
        invariant
            n == a@.len(),
            n == b@.len(),
            i <= n,
            forall|j: int| 0 <= j < i ==> a@[j] == b@[j],
        decreases n - i,
    {
        if a[i] != b[i] {
            return false;
        }
        i = i + 1;
    }
    proof {
        assert(a@ =~= b@);
    }
    true
}

} // verus!
