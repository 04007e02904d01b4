//! The frog glyph: a colour emoji bitmap, as plain RGBA pixels.
use vstd::prelude::*;

verus! {

/// A rasterized glyph.
pub struct GlyphBitmap {
    pub width: u32,
    pub height: u32,
    /// Straight (non-premultiplied) RGBA, row-major, top-to-bottom.
    pub rgba: Vec<u8>,
}

impl GlyphBitmap {
    /// The pixel bytes match the bitmap's dimensions.
    pub open spec fn wf(&self) -> bool {
        self.rgba@.len() == self.width * self.height * 4
    }
}

/// Byte `i` of the ARGB32 pixmap converted from RGBA bytes `rgba`: each whole
/// RGBA pixel `[r, g, b, a]` becomes `[a, r, g, b]`.
pub open spec fn argb_byte(rgba: Seq<u8>, i: int) -> u8 {
    let base = i - i % 4;
    if i % 4 == 0 {
        rgba[base + 3]
    } else {
        rgba[base + i % 4 - 1]
    }
}

/// Converts straight RGBA pixels into the ARGB32, network-byte-order pixmap
/// that a StatusNotifierItem icon wants; a trailing partial pixel is dropped.
pub fn rgba_to_argb(rgba: &[u8]) -> (r: Vec<u8>)
    ensures
        r@.len() == rgba@.len() - rgba@.len() % 4,
        forall|i: int| 0 <= i < r@.len() ==> #[trigger] r@[i] == argb_byte(rgba@, i),
{
    let total: usize = rgba.len();
    let n: usize = total / 4;
    let mut out: Vec<u8> = Vec::new();
    let mut p: usize = 0;
    while p < n
        invariant
            0 <= p <= n,
            n == rgba@.len() / 4,
            total == rgba@.len(),
            out@.len() == 4 * p,
            forall|i: int| 0 <= i < out@.len() ==> #[trigger] out@[i] == argb_byte(rgba@, i),
        decreases n - p,
    {
        assert(4 * p + 4 <= rgba@.len()) by {
            vstd::arithmetic::div_mod::lemma_fundamental_div_mod(rgba@.len() as int, 4);
        }
        let base: usize = 4 * p;
        out.push(rgba[base + 3]);
        out.push(rgba[base]);
        out.push(rgba[base + 1]);
        out.push(rgba[base + 2]);
        assert forall|i: int| 0 <= i < out@.len() implies #[trigger] out@[i] == argb_byte(rgba@, i) by {
            if i >= base {
                assert(i % 4 == i - base);
                assert(i - i % 4 == base);
            }
        }
        p += 1;
    }
    proof {
        vstd::arithmetic::div_mod::lemma_fundamental_div_mod(rgba@.len() as int, 4);
    }
    out
}

} // verus!
