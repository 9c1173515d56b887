//! Composites a scannable QR code onto a photographic background and
//! checks, before returning, that the embedded symbol decodes back to the
//! intended payload.
//!
//! The embedder renders the encoded symbol as a padded, bordered tile with
//! a translucent backing plate, places it per a configured anchor, and
//! alpha-composites it onto the background. The validator re-detects and
//! decodes the symbol under a fixed priority order of preprocessing
//! strategies, stopping early on a match or on a decoded-but-wrong payload.

pub mod config;
pub mod error;
pub mod qr_embedder;
pub mod qr_encode;
pub mod qr_validator;
pub mod raster;
