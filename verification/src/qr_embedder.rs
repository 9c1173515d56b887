//! Renders an encoded QR symbol as a padded, bordered tile with a
//! translucent backing plate, places it per the configured anchor, and
//! alpha-composites it onto the background.

use crate::config::{Config, QrPosition};
use crate::error::QrImageError;
use crate::qr_encode::{encode_payload, qr_encodable, qr_modules_of, QrMatrix};
use crate::raster::{Px, RgbaImage};
use vstd::arithmetic::div_mod::{lemma_div_is_ordered, lemma_div_multiples_vanish};
use vstd::prelude::*;
use vstd::string::StringSliceAdditionalSpecFns;

verus! {

/// Distance in pixels kept between a corner-anchored tile and the
/// background's edge.
pub const EDGE_MARGIN: usize = 30;

/// Composites QR tiles onto backgrounds per a fixed configuration.
pub struct QrEmbedder {
    pub config: Config,
}

// ---------------------------------------------------------------------------
// Alpha compositing
// ---------------------------------------------------------------------------

/// The denominator of the "over" compositing formula, in 255ths of 255:
/// `out_a * 255` where `out_a = fg_a + bg_a * (1 - fg_a)` over unit alphas.
pub open spec fn blend_den(bga: u8, fga: u8) -> int {
    fga * 255 + bga * (255 - fga)
}

/// One color channel of "over" compositing:
/// `(fg_c * fg_a + bg_c * bg_a * (1 - fg_a)) / out_a`, over unit alphas,
/// carried out in integers scaled by 255 squared.
pub open spec fn blend_channel(bgc: u8, bga: u8, fgc: u8, fga: u8) -> int {
    (fgc * fga * 255 + bgc * bga * (255 - fga)) / blend_den(bga, fga)
}

/// Standard "over" alpha compositing of a foreground pixel onto a
/// background pixel; all channels are zero when the output alpha is zero.
pub open spec fn blend_spec(bg: Px, fg: Px) -> Px {
    if blend_den(bg.a, fg.a) == 0 {
        Px { r: 0, g: 0, b: 0, a: 0 }
    } else {
        Px {
            r: blend_channel(bg.r, bg.a, fg.r, fg.a) as u8,
            g: blend_channel(bg.g, bg.a, fg.g, fg.a) as u8,
            b: blend_channel(bg.b, bg.a, fg.b, fg.a) as u8,
            a: (blend_den(bg.a, fg.a) / 255) as u8,
        }
    }
}

/// One channel of the compositing formula stays within a byte.
proof fn lemma_blend_channel_bounds(bgc: u8, bga: u8, fgc: u8, fga: u8)
    requires
        blend_den(bga, fga) > 0,
    ensures
        0 <= blend_channel(bgc, bga, fgc, fga) <= 255,
{
    let den = blend_den(bga, fga);
    let num = fgc * fga * 255 + bgc * bga * (255 - fga);
    assert(num <= den * 255) by (nonlinear_arith)
        requires
            den == fga * 255 + bga * (255 - fga),
            num == fgc * fga * 255 + bgc * bga * (255 - fga),
            fgc <= 255,
            bgc <= 255,
            fga <= 255,
    ;
    lemma_div_is_ordered(num, den * 255, den);
    lemma_div_multiples_vanish(255, den);
}

/// The output alpha of the compositing formula stays within a byte.
proof fn lemma_blend_alpha_bounds(bga: u8, fga: u8)
    ensures
        0 <= blend_den(bga, fga) / 255 <= 255,
{
    let den = blend_den(bga, fga);
    assert(den <= 255 * 255) by (nonlinear_arith)
        requires
            den == fga * 255 + bga * (255 - fga),
            fga <= 255,
            bga <= 255,
    ;
    lemma_div_is_ordered(den, (255 * 255) as int, 255);
}

/// One color channel of "over" compositing, in integer arithmetic.
fn blend_channel_exec(bgc: u8, bga: u8, fgc: u8, fga: u8, den: u32) -> (out: u8)
    requires
        den == blend_den(bga, fga),
        den > 0,
    ensures
        out == blend_channel(bgc, bga, fgc, fga),
{
    proof {
        assert(fgc * fga * 255 <= 255 * 255 * 255
            && bgc * bga <= 255 * 255
            && bgc * bga * (255 - fga) <= 255 * 255 * 255) by (nonlinear_arith)
            requires
                fgc <= 255,
                0 <= fga <= 255,
                bgc <= 255,
                bga <= 255,
        ;
    }
    let num: u32 = (fgc as u32) * (fga as u32) * 255
        + (bgc as u32) * (bga as u32) * (255 - (fga as u32));
    proof {
        lemma_blend_channel_bounds(bgc, bga, fgc, fga);
    }
    (num / den) as u8
}

/// Standard "over" alpha compositing of `fg` onto `bg`.
pub fn alpha_blend(bg: Px, fg: Px) -> (out: Px)
    ensures
        out == blend_spec(bg, fg),
{
    let fga = fg.a as u32;
    let bga = bg.a as u32;
    proof {
        assert(bga * (255 - fga) <= 255 * 255) by (nonlinear_arith)
            requires
                bga <= 255,
                0 <= fga <= 255,
        ;
    }
    let den: u32 = fga * 255 + bga * (255 - fga);
    if den == 0 {
        Px { r: 0, g: 0, b: 0, a: 0 }
    } else {
        proof {
            lemma_blend_alpha_bounds(bg.a, fg.a);
        }
        Px {
            r: blend_channel_exec(bg.r, bg.a, fg.r, fg.a, den),
            g: blend_channel_exec(bg.g, bg.a, fg.g, fg.a, den),
            b: blend_channel_exec(bg.b, bg.a, fg.b, fg.a, den),
            a: (den / 255) as u8,
        }
    }
}

/// Compositing a fully transparent foreground gives back the background.
/// The one exception is a background whose own alpha is zero but whose
/// color channels are not: there the output is the all-zero pixel.
pub proof fn lemma_blend_transparent_fg(bg: Px, fg: Px)
    requires
        fg.a == 0,
        bg.a != 0 || bg == (Px { r: 0, g: 0, b: 0, a: 0 }),
    ensures
        blend_spec(bg, fg) == bg,
{
    if bg.a == 0 {
        assert(blend_den(bg.a, fg.a) == 0);
    } else {
        let den = blend_den(bg.a, fg.a);
        assert(den == bg.a * 255);
        lemma_channel_cancels(bg.r, bg.a, fg.r);
        lemma_channel_cancels(bg.g, bg.a, fg.g);
        lemma_channel_cancels(bg.b, bg.a, fg.b);
        lemma_div_multiples_vanish(bg.a as int, 255);
        assert(den / 255 == bg.a as int);
    }
}

/// With a transparent foreground, one channel reduces to the background's.
proof fn lemma_channel_cancels(bgc: u8, bga: u8, fgc: u8)
    requires
        bga > 0,
    ensures
        blend_channel(bgc, bga, fgc, 0) == bgc,
{
    let den = blend_den(bga, 0);
    assert(den == bga * 255);
    assert(fgc * 0 * 255 + bgc * bga * 255 == den * bgc) by (nonlinear_arith)
        requires
            den == bga * 255,
    ;
    lemma_div_multiples_vanish(bgc as int, den);
    assert((den * bgc) / den == bgc as int);
}

/// Compositing a fully opaque foreground gives exactly the foreground.
pub proof fn lemma_blend_opaque_fg(bg: Px, fg: Px)
    requires
        fg.a == 255,
    ensures
        blend_spec(bg, fg) == fg,
{
    let den = blend_den(bg.a, fg.a);
    assert(den == 255 * 255);
    lemma_opaque_channel(bg.r, bg.a, fg.r);
    lemma_opaque_channel(bg.g, bg.a, fg.g);
    lemma_opaque_channel(bg.b, bg.a, fg.b);
    assert(den / 255 == 255);
}

/// With an opaque foreground, one channel reduces to the foreground's.
proof fn lemma_opaque_channel(bgc: u8, bga: u8, fgc: u8)
    ensures
        blend_channel(bgc, bga, fgc, 255) == fgc,
{
    let den = blend_den(bga, 255);
    assert(den == 255 * 255);
    assert(fgc * 255 * 255 + bgc * bga * 0 == den * fgc) by (nonlinear_arith)
        requires
            den == 255 * 255,
    ;
    lemma_div_multiples_vanish(fgc as int, den);
}

// ---------------------------------------------------------------------------
// Tile geometry
// ---------------------------------------------------------------------------

/// The tile side: the shorter background dimension scaled by the ratio in
/// thousandths, forced into `[200, 800]` pixels.
pub open spec fn tile_side_spec(w: int, h: int, ratio: int) -> int {
    let m = if w < h {
        w
    } else {
        h
    };
    let scaled = m * ratio / 1000;
    if scaled < 200 {
        200
    } else if scaled > 800 {
        800
    } else {
        scaled
    }
}

/// The tile side lies in `[200, 800]` whatever the background size and
/// ratio are.
pub proof fn lemma_tile_side_in_range(w: int, h: int, ratio: int)
    ensures
        200 <= tile_side_spec(w, h, ratio) <= 800,
{
}

/// `a - b`, stopping at zero.
pub open spec fn sub0(a: int, b: int) -> int {
    if a >= b {
        a - b
    } else {
        0
    }
}

/// Where the tile's top-left corner lands for each anchor: corners sit
/// `margin` pixels in from the matching background corner, clamped at zero;
/// the center anchor splits the leftover space evenly.
pub open spec fn place_spec(
    bg_w: int,
    bg_h: int,
    t_w: int,
    t_h: int,
    pos: QrPosition,
    margin: int,
) -> (int, int) {
    match pos {
        QrPosition::TopLeft => (margin, margin),
        QrPosition::TopRight => (sub0(bg_w, t_w + margin), margin),
        QrPosition::BottomLeft => (margin, sub0(bg_h, t_h + margin)),
        QrPosition::BottomRight => (sub0(bg_w, t_w + margin), sub0(bg_h, t_h + margin)),
        QrPosition::Center => (sub0(bg_w, t_w) / 2, sub0(bg_h, t_h) / 2),
    }
}

/// Anchored placement never goes negative, and whenever the tile and its
/// margin fit inside the background, each anchor pins the tile's matching
/// corner exactly `margin` pixels in from the background's corner.
pub proof fn lemma_anchor_placement(
    bg_w: int,
    bg_h: int,
    t_w: int,
    t_h: int,
    pos: QrPosition,
    margin: int,
)
    requires
        0 <= margin,
    ensures
        place_spec(bg_w, bg_h, t_w, t_h, pos, margin).0 >= 0,
        place_spec(bg_w, bg_h, t_w, t_h, pos, margin).1 >= 0,
        t_w + margin <= bg_w && t_h + margin <= bg_h ==> ({
            let (x, y) = place_spec(bg_w, bg_h, t_w, t_h, pos, margin);
            match pos {
                QrPosition::TopLeft => x == margin && y == margin,
                QrPosition::TopRight => x + t_w + margin == bg_w && y == margin,
                QrPosition::BottomLeft => x == margin && y + t_h + margin == bg_h,
                QrPosition::BottomRight => x + t_w + margin == bg_w && y + t_h + margin == bg_h,
                QrPosition::Center => x == (bg_w - t_w) / 2 && y == (bg_h - t_h) / 2,
            }
        }),
{
}

impl QrEmbedder {
    /// An embedder holding the given configuration.
    pub fn new(config: Config) -> (e: Self)
        ensures
            e.config == config,
    {
        QrEmbedder { config }
    }

    /// The side length of the square tile for this background, in pixels.
    pub fn calculate_qr_size(&self, background: &RgbaImage) -> (s: usize)
        ensures
            s == tile_side_spec(
                background.width as int,
                background.height as int,
                self.config.qr_size_ratio as int,
            ),
            200 <= s <= 800,
    {
        let m: usize = if background.width < background.height {
            background.width
        } else {
            background.height
        };
        let ratio = self.config.qr_size_ratio;
        proof {
            assert(m * ratio <= u128::MAX) by (nonlinear_arith)
                requires
                    0 <= m <= usize::MAX,
                    0 <= ratio <= u32::MAX,
                    usize::MAX <= 0xffff_ffff_ffff_ffff,
                    u32::MAX == 0xffff_ffff,
                    u128::MAX == 0xffff_ffff_ffff_ffff_ffff_ffff_ffff_ffff,
            ;
        }
        let prod: u128 = (m as u128) * (ratio as u128);
        let scaled: u128 = prod / 1000;
        if scaled < 200 {
            200
        } else if scaled > 800 {
            800
        } else {
            scaled as usize
        }
    }

    /// The top-left coordinate at which the tile is composited.
    pub fn calculate_position(&self, background: &RgbaImage, qr_image: &RgbaImage)
        -> (p: (usize, usize))
        requires
            qr_image.width + EDGE_MARGIN <= usize::MAX,
            qr_image.height + EDGE_MARGIN <= usize::MAX,
        ensures
            (p.0 as int, p.1 as int) == place_spec(
                background.width as int,
                background.height as int,
                qr_image.width as int,
                qr_image.height as int,
                self.config.qr_position,
                EDGE_MARGIN as int,
            ),
    {
        let bg_w = background.width;
        let bg_h = background.height;
        let t_w = qr_image.width;
        let t_h = qr_image.height;
        let margin = EDGE_MARGIN;
        match self.config.qr_position {
            QrPosition::TopLeft => (margin, margin),
            QrPosition::TopRight => (sub0_exec(bg_w, t_w + margin), margin),
            QrPosition::BottomLeft => (margin, sub0_exec(bg_h, t_h + margin)),
            QrPosition::BottomRight => (
                sub0_exec(bg_w, t_w + margin),
                sub0_exec(bg_h, t_h + margin),
            ),
            QrPosition::Center => (sub0_exec(bg_w, t_w) / 2, sub0_exec(bg_h, t_h) / 2),
        }
    }
}

/// `a - b`, stopping at zero.
fn sub0_exec(a: usize, b: usize) -> (r: usize)
    ensures
        r == sub0(a as int, b as int),
{
    if a >= b {
        a - b
    } else {
        0
    }
}

// ---------------------------------------------------------------------------
// Tile rendering
// ---------------------------------------------------------------------------

/// A fully opaque black pixel, used for dark modules.
pub open spec fn px_black() -> Px {
    Px { r: 0, g: 0, b: 0, a: 255 }
}

/// The white backing plate at the configured opacity.
pub open spec fn px_plate(op: u8) -> Px {
    Px { r: 255, g: 255, b: 255, a: op }
}

/// The light-gray border color at the configured opacity.
pub open spec fn px_border(op: u8) -> Px {
    Px { r: 200, g: 200, b: 200, a: op }
}

/// The uniform padding around the QR pattern: a tenth of the tile side.
pub open spec fn tile_padding(size: int) -> int {
    size / 10
}

/// The side of the square area that holds the QR pattern.
pub open spec fn tile_content_size(size: int) -> int {
    size - 2 * (size / 10)
}

/// The border thickness: half the padding.
pub open spec fn tile_border_width(size: int) -> int {
    (size / 10) / 2
}

/// Whether `(x, y)` lies in the tile's central QR pattern area.
pub open spec fn in_tile_content(size: int, x: int, y: int) -> bool {
    &&& tile_padding(size) <= x < tile_padding(size) + tile_content_size(size)
    &&& tile_padding(size) <= y < tile_padding(size) + tile_content_size(size)
}

/// Whether `(x, y)` lies on the tile's border frame.
pub open spec fn in_tile_frame(size: int, x: int, y: int) -> bool {
    let bw = tile_border_width(size);
    x < bw || y < bw || x >= size - bw || y >= size - bw
}

/// Nearest-neighbor sampling of the module grid, including its four-module
/// quiet zone, at pattern-area coordinate `(cx, cy)`: whether the sampled
/// cell is a dark module.
pub open spec fn sample_dark(grid: Seq<Seq<bool>>, content: int, cx: int, cy: int) -> bool {
    let n = grid.len() as int;
    let sx = cx * (n + 8) / content;
    let sy = cy * (n + 8) / content;
    &&& 4 <= sx < n + 4
    &&& 4 <= sy < n + 4
    &&& grid[sy - 4][sx - 4]
}

/// The tile after the QR pattern is pasted over the backing plate: dark
/// modules are opaque black, everything else shows the plate.
pub open spec fn pasted_pixel(grid: Seq<Seq<bool>>, size: int, op: u8, x: int, y: int) -> Px {
    if in_tile_content(size, x, y) && sample_dark(
        grid,
        tile_content_size(size),
        x - tile_padding(size),
        y - tile_padding(size),
    ) {
        px_black()
    } else {
        px_plate(op)
    }
}

/// The finished tile: the border frame over the pasted QR pattern over the
/// backing plate.
pub open spec fn tile_pixel_spec(grid: Seq<Seq<bool>>, size: int, op: u8, x: int, y: int) -> Px {
    if in_tile_frame(size, x, y) {
        px_border(op)
    } else {
        pasted_pixel(grid, size, op, x, y)
    }
}

impl QrEmbedder {
    /// Render the module grid as a square tile of side `target_size`:
    /// a white backing plate at the configured opacity, the QR pattern
    /// nearest-neighbor-resampled into the padded central area, and a thin
    /// light-gray border.
    pub fn render_qr_code(&self, qr: &QrMatrix, target_size: usize) -> (tile: RgbaImage)
        requires
            qr.wf(),
            200 <= target_size <= 800,
        ensures
            tile.wf(),
            tile.width == target_size,
            tile.height == target_size,
            forall|x: int, y: int|
                0 <= x < target_size && 0 <= y < target_size ==> tile.pix(x, y)
                    == tile_pixel_spec(
                    qr.grid(),
                    target_size as int,
                    self.config.qr_background_opacity,
                    x,
                    y,
                ),
    {
        let ghost ts = target_size as int;
        let ghost grid = qr.grid();
        let op = self.config.qr_background_opacity;
        let plate = Px { r: 255, g: 255, b: 255, a: op };
        proof {
            assert(target_size * target_size <= 800 * 800) by (nonlinear_arith)
                requires
                    target_size <= 800,
            ;
        }
        let mut tile = RgbaImage::new(target_size, target_size, plate);
        let padding = target_size / 10;
        let content = target_size - 2 * padding;
        let n = qr.side;
        let mut cy: usize = 0;
        while cy < content
            invariant
                qr.wf(),
                tile.wf(),
                tile.width == target_size,
                tile.height == target_size,
                200 <= target_size <= 800,
                grid == qr.grid(),
                ts == target_size as int,
                padding == tile_padding(ts),
                content == tile_content_size(ts),
                n == qr.side,
                n == grid.len(),
                cy <= content,
                forall|x: int, y: int|
                    0 <= x < ts && 0 <= y < ts ==> tile.pix(x, y) == (
                    if y < tile_padding(ts) + cy {
                        pasted_pixel(grid, ts, op, x, y)
                    } else {
                        px_plate(op)
                    }),
            decreases content - cy,
        {
            let mut cx: usize = 0;
            while cx < content
                invariant
                    qr.wf(),
                    tile.wf(),
                    tile.width == target_size,
                    tile.height == target_size,
                    200 <= target_size <= 800,
                    grid == qr.grid(),
                    ts == target_size as int,
                    padding == tile_padding(ts),
                    content == tile_content_size(ts),
                    n == qr.side,
                    n == grid.len(),
                    cy < content,
                    cx <= content,
                    forall|x: int, y: int|
                        0 <= x < ts && 0 <= y < ts ==> tile.pix(x, y) == (
                        if y < tile_padding(ts) + cy || (y == tile_padding(ts) + cy && x
                            < tile_padding(ts) + cx) {
                            pasted_pixel(grid, ts, op, x, y)
                        } else {
                            px_plate(op)
                        }),
                decreases content - cx,
            {
                proof {
                    assert(cx * (n + 8) <= 800 * 185 && cy * (n + 8) <= 800 * 185)
                        by (nonlinear_arith)
                        requires
                            0 <= cx <= 800,
                            0 <= cy <= 800,
                            21 <= n <= 177,
                    ;
                }
                let sx: usize = cx * (n + 8) / content;
                let sy: usize = cy * (n + 8) / content;
                let dark = if sx >= 4 && sx < n + 4 && sy >= 4 && sy < n + 4 {
                    qr.module(sx - 4, sy - 4)
                } else {
                    false
                };
                assert(dark == sample_dark(grid, content as int, cx as int, cy as int));
                if dark {
                    tile.set_pixel(padding + cx, padding + cy, Px { r: 0, g: 0, b: 0, a: 255 });
                }
                cx = cx + 1;
            }
            cy = cy + 1;
        }
        proof {
            assert forall|x: int, y: int|
                0 <= x < ts && 0 <= y < ts implies tile.pix(x, y) == pasted_pixel(
                grid,
                ts,
                op,
                x,
                y,
            ) by {
                if y >= tile_padding(ts) + content {
                    assert(!in_tile_content(ts, x, y));
                }
            }
        }
        self.add_border(&mut tile, padding / 2);
        tile
    }

    /// Draw a uniform light-gray frame of the given thickness, at the
    /// configured plate opacity, along all four tile edges.
    pub fn add_border(&self, image: &mut RgbaImage, border_width: usize)
        requires
            old(image).wf(),
            2 * border_width <= old(image).width,
            2 * border_width <= old(image).height,
        ensures
            final(image).wf(),
            final(image).width == old(image).width,
            final(image).height == old(image).height,
            forall|x: int, y: int|
                0 <= x < old(image).width && 0 <= y < old(image).height ==> final(image).pix(x, y)
                    == (
                if x < border_width || y < border_width || x >= old(image).width - border_width
                    || y >= old(image).height - border_width {
                    px_border(self.config.qr_background_opacity)
                } else {
                    old(image).pix(x, y)
                }),
    {
        let ghost img0 = *image;
        let w = image.width;
        let h = image.height;
        let bw = border_width;
        let gray = Px { r: 200, g: 200, b: 200, a: self.config.qr_background_opacity };
        let mut y: usize = 0;
        while y < h
            invariant
                image.wf(),
                image.width == w,
                image.height == h,
                img0.wf(),
                img0.width == w,
                img0.height == h,
                2 * bw <= w,
                2 * bw <= h,
                y <= h,
                forall|i: int, j: int|
                    0 <= i < w && 0 <= j < h ==> image.pix(i, j) == (
                    if j < y && (i < bw || j < bw || i >= w - bw || j >= h - bw) {
                        gray
                    } else {
                        img0.pix(i, j)
                    }),
            decreases h - y,
        {
            let mut x: usize = 0;
            while x < w
                invariant
                    image.wf(),
                    image.width == w,
                    image.height == h,
                    img0.wf(),
                    img0.width == w,
                    img0.height == h,
                    2 * bw <= w,
                    2 * bw <= h,
                    y < h,
                    x <= w,
                    forall|i: int, j: int|
                        0 <= i < w && 0 <= j < h ==> image.pix(i, j) == (
                        if (j < y || (j == y && i < x)) && (i < bw || j < bw || i >= w - bw || j
                            >= h - bw) {
                            gray
                        } else {
                            img0.pix(i, j)
                        }),
                decreases w - x,
            {
                if x < bw || y < bw || x >= w - bw || y >= h - bw {
                    image.set_pixel(x, y, gray);
                }
                x = x + 1;
            }
            y = y + 1;
        }
    }
}

// ---------------------------------------------------------------------------
// Compositing the tile onto the background
// ---------------------------------------------------------------------------

/// The composited image, pixel by pixel: inside the tile's footprint the
/// tile is alpha-blended over the background; elsewhere the background is
/// kept. Tile parts outside the background are clipped silently.
pub open spec fn overlay_pixel_spec(
    bg: RgbaImage,
    tile: RgbaImage,
    px: int,
    py: int,
    i: int,
    j: int,
) -> Px {
    if px <= i < px + tile.width && py <= j < py + tile.height {
        blend_spec(bg.pix(i, j), tile.pix(i - px, j - py))
    } else {
        bg.pix(i, j)
    }
}

impl QrEmbedder {
    /// Alpha-composite `qr_image` onto `background` with its top-left
    /// corner at `(x, y)`, clipping whatever falls outside.
    pub fn overlay_qr_code(
        &self,
        background: RgbaImage,
        qr_image: RgbaImage,
        x: usize,
        y: usize,
    ) -> (out: RgbaImage)
        requires
            background.wf(),
            qr_image.wf(),
            x + qr_image.width <= usize::MAX,
            y + qr_image.height <= usize::MAX,
        ensures
            out.wf(),
            out.width == background.width,
            out.height == background.height,
            forall|i: int, j: int|
                0 <= i < background.width && 0 <= j < background.height ==> out.pix(i, j)
                    == overlay_pixel_spec(background, qr_image, x as int, y as int, i, j),
    {
        let ghost bg0 = background;
        let mut bg = background;
        let t_w = qr_image.width;
        let t_h = qr_image.height;
        let mut qr_y: usize = 0;
        while qr_y < t_h
            invariant
                bg.wf(),
                bg.width == bg0.width,
                bg.height == bg0.height,
                bg0.wf(),
                qr_image.wf(),
                t_w == qr_image.width,
                t_h == qr_image.height,
                x + t_w <= usize::MAX,
                y + t_h <= usize::MAX,
                qr_y <= t_h,
                forall|i: int, j: int|
                    0 <= i < bg0.width && 0 <= j < bg0.height ==> bg.pix(i, j) == (
                    if x <= i < x + t_w && y <= j < y + qr_y {
                        blend_spec(bg0.pix(i, j), qr_image.pix(i - x, j - y))
                    } else {
                        bg0.pix(i, j)
                    }),
            decreases t_h - qr_y,
        {
            let mut qr_x: usize = 0;
            while qr_x < t_w
                invariant
                    bg.wf(),
                    bg.width == bg0.width,
                    bg.height == bg0.height,
                    bg0.wf(),
                    qr_image.wf(),
                    t_w == qr_image.width,
                    t_h == qr_image.height,
                    x + t_w <= usize::MAX,
                    y + t_h <= usize::MAX,
                    qr_y < t_h,
                    qr_x <= t_w,
                    forall|i: int, j: int|
                        0 <= i < bg0.width && 0 <= j < bg0.height ==> bg.pix(i, j) == (
                        if x <= i < x + t_w && (y <= j < y + qr_y || (j == y + qr_y && i < x
                            + qr_x)) {
                            blend_spec(bg0.pix(i, j), qr_image.pix(i - x, j - y))
                        } else {
                            bg0.pix(i, j)
                        }),
                decreases t_w - qr_x,
            {
                let bg_x = x + qr_x;
                let bg_y = y + qr_y;
                if bg_x < bg.width && bg_y < bg.height {
                    let under = bg.pixel(bg_x, bg_y);
                    let over = qr_image.pixel(qr_x, qr_y);
                    let blended = alpha_blend(under, over);
                    bg.set_pixel(bg_x, bg_y, blended);
                }
                qr_x = qr_x + 1;
            }
            qr_y = qr_y + 1;
        }
        bg
    }

    /// The composited result of a successful embed call: the tile for this
    /// payload, rendered at the computed size and blended in at the
    /// anchored position, over an otherwise unchanged background.
    pub open spec fn embed_ok_spec(self, bg: RgbaImage, payload: Seq<u8>, out: RgbaImage) -> bool {
        let grid = qr_modules_of(payload);
        let ts = tile_side_spec(bg.width as int, bg.height as int, self.config.qr_size_ratio as int);
        let pos = place_spec(
            bg.width as int,
            bg.height as int,
            ts,
            ts,
            self.config.qr_position,
            EDGE_MARGIN as int,
        );
        let op = self.config.qr_background_opacity;
        &&& out.wf()
        &&& out.width == bg.width
        &&& out.height == bg.height
        &&& forall|i: int, j: int|
            0 <= i < bg.width && 0 <= j < bg.height ==> out.pix(i, j) == (
            if pos.0 <= i < pos.0 + ts && pos.1 <= j < pos.1 + ts {
                blend_spec(bg.pix(i, j), tile_pixel_spec(grid, ts, op, i - pos.0, j - pos.1))
            } else {
                bg.pix(i, j)
            })
    }

    /// Encode `data` as a QR symbol, render it as a tile sized and placed
    /// per the configuration, and alpha-composite it onto `background`.
    ///
    /// Fails with `CompositingError` on a zero-dimension background and
    /// with `QrEncodeError` exactly when the payload cannot be encoded;
    /// otherwise the composited image is returned.
    pub fn embed_qr_code(&self, background: RgbaImage, data: &str) -> (r: Result<
        RgbaImage,
        QrImageError,
    >)
        requires
            background.wf(),
            background.width + 830 <= usize::MAX,
            background.height + 830 <= usize::MAX,
        ensures
            background.width == 0 || background.height == 0 ==> r matches Err(
                QrImageError::CompositingError,
            ),
            background.width > 0 && background.height > 0 ==> ((r matches Err(
                QrImageError::QrEncodeError,
            )) <==> !qr_encodable(data.spec_bytes())),
            background.width > 0 && background.height > 0 && qr_encodable(data.spec_bytes())
                ==> (r matches Ok(out) && self.embed_ok_spec(
                background,
                data.spec_bytes(),
                out,
            )),
    {
        if background.width == 0 || background.height == 0 {
            return Err(QrImageError::CompositingError);
        }
        let payload = data.as_bytes();
        let qr_code = match encode_payload(payload) {
            Some(m) => m,
            None => {
                return Err(QrImageError::QrEncodeError);
            },
        };
        let qr_size = self.calculate_qr_size(&background);
        let qr_image = self.render_qr_code(&qr_code, qr_size);
        let (x, y) = self.calculate_position(&background, &qr_image);
        proof {
            assert(x + qr_image.width <= usize::MAX && y + qr_image.height <= usize::MAX);
        }
        let result = self.overlay_qr_code(background, qr_image, x, y);
        Ok(result)
    }
}

} // verus!
