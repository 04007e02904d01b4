//! The embedded 8x8 bitmap font of the speech bubbles (Font8x8's basic
//! Latin set, public domain).
use vstd::prelude::*;

verus! {

/// Width of one character cell, in font pixels.
pub const GLYPH_WIDTH: u32 = 8;

/// Height of one character cell, in font pixels.
pub const GLYPH_HEIGHT: u32 = 8;

/// The code point shown for characters outside the basic Latin set: `?`.
pub const FALLBACK_CODE: u32 = 63;

/// The eight bitmap rows, top to bottom, that font8x8's basic Latin table
/// holds for code point `code` (bit `c` of a row is column `c`, left to right).
pub uninterp spec fn basic_latin_rows(code: nat) -> Seq<u8>;

/// Reads row set `code` of `font8x8::legacy::BASIC_LEGACY`, the 128-entry
/// table of the basic Latin block. Trusted: the result is that table entry,
/// named `basic_latin_rows(code)`; its eight bytes are not restated here.
#[verifier::external_body]
fn basic_latin(code: usize) -> (r: [u8; 8])
    requires
        code < 128,
    ensures
        r@ == basic_latin_rows(code as nat),
{
    font8x8::legacy::BASIC_LEGACY[code]
}

/// The code point whose bitmap is drawn for `ch`.
pub open spec fn drawn_code(ch: char) -> nat {
    if (ch as u32) < 128 {
        ch as nat
    } else {
        FALLBACK_CODE as nat
    }
}

/// The bitmap rows drawn for `ch`.
pub open spec fn glyph_rows(ch: char) -> Seq<u8> {
    basic_latin_rows(drawn_code(ch))
}

/// The 8x8 bitmap of `ch`: its own for basic Latin characters, a question
/// mark for anything else.
pub fn glyph_for(ch: char) -> (r: [u8; 8])
    ensures
        r@ == glyph_rows(ch),
{
    let code = ch as u32;
    if code < 128 {
        basic_latin(code as usize)
    } else {
        basic_latin(FALLBACK_CODE as usize)
    }
}

} // verus!
