//! Where the frog's window goes on screen, and how big its canvas is.
use crate::brain::movement::{monitor_containing, spec_on_any, MonitorBounds, Point};
use crate::render::bubble::{
    bubble_cols,
    bubble_h,
    bubble_w,
    bubble_x,
    bubble_y,
    frog_x,
    frog_y,
    law_bubble_within_max_width,
    max_width,
    max_width_of,
    spec_wrap_text,
    BubbleStyle,
};
use crate::render::glyph::GlyphBitmap;
use crate::render::font::GLYPH_HEIGHT;
use vstd::prelude::*;

verus! {

/// The most lines a bubble is given room for.
pub const MAX_BUBBLE_LINES: u32 = 3;

/// Room left around the bubble and the frog on the canvas, in pixels.
pub const CANVAS_SLACK: u32 = 16;

/// The window's top-left corner that puts the glyph's centre, at
/// `glyph_center` within the canvas, exactly on the frog's position.
pub fn window_origin(pos: Point, glyph_center: (i32, i32)) -> (r: (i32, i32))
    requires
        i32::MIN <= pos.x - glyph_center.0 <= i32::MAX,
        i32::MIN <= pos.y - glyph_center.1 <= i32::MAX,
    ensures
        r.0 == pos.x - glyph_center.0,
        r.1 == pos.y - glyph_center.1,
{
    (pos.x - glyph_center.0, pos.y - glyph_center.1)
}

/// A bubble drawn "above" the frog needs room between the frog and the top of
/// its monitor; if there isn't enough (less than half the canvas height), the
/// layout flips so it draws below instead. Off every monitor it stays above.
pub fn prefer_below(pos: Point, monitors: &[MonitorBounds], canvas_h: u32) -> (r: bool)
    ensures
        !spec_on_any(monitors@, pos.x as int, pos.y as int) ==> !r,
        spec_on_any(monitors@, pos.x as int, pos.y as int) ==> exists|i: int|
            0 <= i < monitors@.len() && monitors@[i].covers(pos.x as int, pos.y as int) && (
            forall|j: int|
                0 <= j < i ==> !(#[trigger] monitors@[j].covers(pos.x as int, pos.y as int)))
                && r == (pos.y - monitors@[i].y < canvas_h as int / 2),
{
    match monitor_containing(pos, monitors) {
        Some(m) => (pos.y as i64 - m.y as i64) < (canvas_h / 2) as i64,
        None => false,
    }
}

/// The canvas the frog is drawn on: wide enough for the widest bubble the
/// style allows, and tall enough for a bubble of `MAX_BUBBLE_LINES` lines
/// plus the frog glyph, on either side of it, with some slack.
pub fn canvas_size(style: &BubbleStyle, glyph_height: u32) -> (r: (u32, u32))
    requires
        0 <= style.padding,
        style.max_cols * 8 * style.scale + 2 * style.padding + CANVAS_SLACK <= u32::MAX,
        MAX_BUBBLE_LINES * GLYPH_HEIGHT * style.scale + 2 * style.padding + glyph_height
            + CANVAS_SLACK <= u32::MAX,
    ensures
        r.0 == style.max_cols * 8 * style.scale + 2 * style.padding + CANVAS_SLACK,
        r.1 == MAX_BUBBLE_LINES * GLYPH_HEIGHT * style.scale + 2 * style.padding + glyph_height
            + CANVAS_SLACK,
{
    let w = max_width(style) + CANVAS_SLACK;
    assert(0 <= MAX_BUBBLE_LINES * GLYPH_HEIGHT * style.scale) by (nonlinear_arith);
    let h = MAX_BUBBLE_LINES * GLYPH_HEIGHT * style.scale + (style.padding as u32) * 2 + glyph_height
        + CANVAS_SLACK;
    (w, h)
}

/// The canvas never clips a bubble it was sized for: when the text wraps to
/// at most `MAX_BUBBLE_LINES` lines and the glyph is not wider than the
/// canvas that `canvas_size` gives, then on either side of the frog the whole
/// bubble box, border included, and the whole glyph lie inside that canvas.
pub proof fn law_canvas_fits_bubble(
    text: Seq<char>,
    style: BubbleStyle,
    glyph: GlyphBitmap,
    prefer_below: bool,
)
    requires
        style.max_cols >= 1,
        0 <= style.padding,
        spec_wrap_text(text, style.max_cols as int).len() <= MAX_BUBBLE_LINES,
        glyph.width <= max_width_of(style) + CANVAS_SLACK,
    ensures
        ({
            let cw = max_width_of(style) + CANVAS_SLACK;
            let ch = MAX_BUBBLE_LINES * GLYPH_HEIGHT * style.scale + 2 * style.padding
                + glyph.height + CANVAS_SLACK;
            let lines = spec_wrap_text(text, style.max_cols as int);
            let fx = frog_x(cw, glyph);
            let fy = frog_y(ch, glyph, prefer_below);
            let bx = bubble_x(fx, glyph, lines, style);
            let by = bubble_y(fy, glyph, lines, style, prefer_below);
            &&& 0 <= bx
            &&& bx + bubble_w(lines, style) <= cw
            &&& 0 <= by
            &&& by + bubble_h(lines, style) <= ch
            &&& 0 <= fx
            &&& fx + glyph.width <= cw
            &&& 0 <= fy
            &&& fy + glyph.height <= ch
        }),
{
    let m = style.max_cols as int;
    let lines = spec_wrap_text(text, m);
    law_bubble_within_max_width(text, style);
    let n = lines.len();
    assert(n * 8 * style.scale <= 3 * 8 * style.scale) by (nonlinear_arith)
        requires
            n <= 3,
            style.scale >= 0,
    ;
    assert(0 <= n * 8 * style.scale) by (nonlinear_arith)
        requires
            style.scale >= 0,
    ;
    assert(0 <= bubble_cols(lines) * 8 * style.scale) by (nonlinear_arith)
        requires
            style.scale >= 0,
            bubble_cols(lines) >= 1,
    ;
}

} // verus!
