//! Embedding and validation parameters.

use vstd::prelude::*;

verus! {

/// Anchor controlling where the QR tile is composited onto the background.
#[derive(Clone, Copy, Debug, PartialEq, Eq, Structural)]
pub enum QrPosition {
    TopLeft,
    TopRight,
    BottomLeft,
    BottomRight,
    Center,
}

/// Parameter set shared by the embedder and the validator.
///
/// The tile size ratio is a fraction of the shorter background dimension,
/// held in thousandths and kept within `[100, 500]`.
#[derive(Clone, Debug)]
pub struct Config {
    /// Access key for the background image provider, if any.
    pub unsplash_api_key: Option<String>,
    /// Default background width in pixels.
    pub image_width: usize,
    /// Default background height in pixels.
    pub image_height: usize,
    /// Tile size as thousandths of the shorter background dimension.
    pub qr_size_ratio: u32,
    /// Anchor for the tile.
    pub qr_position: QrPosition,
    /// Budget of preprocessing attempts for the validator.
    pub max_validation_attempts: u32,
    /// Opacity of the tile's white backing plate, 0 (clear) to 255 (solid).
    pub qr_background_opacity: u8,
}

impl Config {
    /// The size ratio stays within the tenth-to-half range.
    pub open spec fn wf(self) -> bool {
        100 <= self.qr_size_ratio <= 500
    }

    /// A configuration with the stock settings.
    pub fn new() -> (c: Self)
        ensures
            c == Self::default_spec(),
            c.wf(),
    {
        Self::default()
    }

    /// Use the given provider key.
    pub fn with_api_key(self, key: String) -> (c: Self)
        ensures
            c == (Self { unsplash_api_key: Some(key), ..self }),
    {
        Self { unsplash_api_key: Some(key), ..self }
    }

    /// Use the given background dimensions.
    pub fn with_dimensions(self, width: usize, height: usize) -> (c: Self)
        ensures
            c == (Self { image_width: width, image_height: height, ..self }),
    {
        Self { image_width: width, image_height: height, ..self }
    }

    /// Use the given size ratio, in thousandths, clamped to `[100, 500]`.
    pub fn with_qr_size_ratio(self, ratio: u32) -> (c: Self)
        ensures
            c.qr_size_ratio == clamp_ratio(ratio as int),
            c == (Self { qr_size_ratio: c.qr_size_ratio, ..self }),
            c.wf(),
    {
        let clamped: u32 = if ratio < 100 {
            100
        } else if ratio > 500 {
            500
        } else {
            ratio
        };
        Self { qr_size_ratio: clamped, ..self }
    }

    /// Use the given anchor.
    pub fn with_qr_position(self, position: QrPosition) -> (c: Self)
        ensures
            c == (Self { qr_position: position, ..self }),
    {
        Self { qr_position: position, ..self }
    }

    /// The stock settings.
    pub open spec fn default_spec() -> Config {
        Config {
            unsplash_api_key: None,
            image_width: 1920,
            image_height: 1080,
            qr_size_ratio: 250,
            qr_position: QrPosition::BottomRight,
            max_validation_attempts: 3,
            qr_background_opacity: 230,
        }
    }
}

/// A ratio forced into `[100, 500]` thousandths.
pub open spec fn clamp_ratio(r: int) -> int {
    if r < 100 {
        100
    } else if r > 500 {
        500
    } else {
        r
    }
}

impl Default for Config {
    /// The stock settings: 1920 by 1080 background, quarter-size tile at the
    /// bottom right, three validation attempts, a near-solid backing plate.
    fn default() -> (c: Self)
        ensures
            c == Self::default_spec(),
            c.wf(),
    {
        Config {
            unsplash_api_key: None,
            image_width: 1920,
            image_height: 1080,
            qr_size_ratio: 250,
            qr_position: QrPosition::BottomRight,
            max_validation_attempts: 3,
            qr_background_opacity: 230,
        }
    }
}

} // verus!
