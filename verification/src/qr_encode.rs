//! Encoding a payload as a QR module grid.
//!
//! The encoding itself (segmentation, error correction, masking) is done by
//! the `qrcode` crate behind one trusted wrapper; everything downstream
//! works on the plain module grid it returns.

use crate::raster::lemma_row_major_index;
use vstd::prelude::*;

verus! {

/// Whether the payload fits a standard QR symbol at the default (medium)
/// error-correction level. What `qrcode::QrCode::new` decides.
pub uninterp spec fn qr_encodable(payload: Seq<u8>) -> bool;

/// The square module grid (row-major, `true` is a dark module) that the
/// payload encodes to. What `qrcode::QrCode::new` produces.
pub uninterp spec fn qr_modules_of(payload: Seq<u8>) -> Seq<Seq<bool>>;

/// A QR symbol as a plain square grid of dark and light modules,
/// row-major, `side` modules per side.
pub struct QrMatrix {
    pub side: usize,
    pub modules: Vec<bool>,
}

impl QrMatrix {
    /// A standard QR symbol: 21 to 177 modules per side, one entry per cell.
    pub open spec fn wf(self) -> bool {
        &&& 21 <= self.side <= 177
        &&& self.modules.len() == self.side * self.side
    }

    /// The grid as a sequence of rows.
    pub open spec fn grid(self) -> Seq<Seq<bool>> {
        Seq::new(
            self.side as nat,
            |my: int| Seq::new(self.side as nat, |mx: int| self.modules[my * self.side + mx]),
        )
    }

    /// Whether the module at column `mx`, row `my` is dark.
    pub fn module(&self, mx: usize, my: usize) -> (dark: bool)
        requires
            self.wf(),
            mx < self.side,
            my < self.side,
        ensures
            dark == self.grid()[my as int][mx as int],
    {
        proof {
            lemma_row_major_index(
                self.side as int, self.side as int, mx as int, my as int);
        }
        let idx: usize = my * self.side + mx;
        self.modules[idx]
    }
}

/// Relies on `qrcode::QrCode::new` (medium error correction, smallest
/// fitting version), `QrCode::width` and `QrCode::to_colors`: whether the
/// payload is encodable is a function of its bytes alone, and so is the
/// resulting module grid; a standard symbol is 21 to 177 modules per side
/// with one color per cell.
#[verifier::external_body]
pub(crate) fn encode_payload(data: &[u8]) -> (r: Option<QrMatrix>)
    ensures
        r is Some <==> qr_encodable(data@),
        r is Some ==> r.unwrap().wf() && r.unwrap().grid() == qr_modules_of(data@),
{
    match qrcode::QrCode::new(data) {
        Ok(code) => {
            let side = code.width();
            let modules = code
                .to_colors()
                .into_iter()
                .map(|c| c == qrcode::Color::Dark)
                .collect();
            Some(QrMatrix { side, modules })
        },
        Err(_) => None,
    }
}

} // verus!
