//! CPU compositing of the frog's frame.
pub mod about;
pub mod bubble;
pub mod font;
pub mod glyph;

use vstd::prelude::*;

verus! {

/// A CPU-composited frame in BGRA, premultiplied-alpha, top-down row order:
/// the exact layout a layered window expects.
pub struct Frame {
    pub width: u32,
    pub height: u32,
    pub bgra: Vec<u8>,
}

/// A straight-alpha colour `(r, g, b, a)`.
pub type Rgba = (u8, u8, u8, u8);

/// Column of the pixel that byte `i` of a frame `width` pixels wide belongs to.
pub open spec fn px_of(i: int, width: int) -> int {
    (i / 4) % width
}

/// Row of the pixel that byte `i` of a frame `width` pixels wide belongs to.
pub open spec fn py_of(i: int, width: int) -> int {
    (i / 4) / width
}

/// Byte `ch` (0 = blue, 1 = green, 2 = red, 3 = alpha) of a premultiplied
/// pixel after compositing the straight-alpha colour `rgba` "over" it, where
/// `dst` is that byte before.
pub open spec fn blend_channel(dst: u8, ch: int, rgba: Rgba) -> u8 {
    let c: int = if ch == 0 {
        rgba.2 as int
    } else if ch == 1 {
        rgba.1 as int
    } else if ch == 2 {
        rgba.0 as int
    } else {
        255
    };
    (c * rgba.3 / 255 + dst * (255 - rgba.3) / 255) as u8
}

/// Composites, over every pixel that `sel` selects, the colour that `color`
/// gives for that pixel; every other byte is left as it was.
pub open spec fn spec_paint(
    bytes: Seq<u8>,
    width: int,
    sel: spec_fn(int, int) -> bool,
    color: spec_fn(int, int) -> Rgba,
) -> Seq<u8> {
    Seq::new(
        bytes.len(),
        |i: int|
            if sel(px_of(i, width), py_of(i, width)) {
                blend_channel(bytes[i], i % 4, color(px_of(i, width), py_of(i, width)))
            } else {
                bytes[i]
            },
    )
}

/// The pixel (`px`, `py`) lies in the `w` × `h` rectangle at (`x`, `y`).
pub open spec fn in_rect(px: int, py: int, x: int, y: int, w: int, h: int) -> bool {
    x <= px < x + w && y <= py < y + h
}

/// A rectangle filled with one colour, composited over.
pub open spec fn spec_fill(
    bytes: Seq<u8>,
    width: int,
    x: int,
    y: int,
    w: int,
    h: int,
    rgba: Rgba,
) -> Seq<u8> {
    spec_paint(bytes, width, |px: int, py: int| in_rect(px, py, x, y, w, h), |px: int, py: int| rgba)
}

/// The 1px outline of a rectangle: its top, bottom, left and right edges
/// filled in that order (so each corner is composited twice).
pub open spec fn spec_stroke(
    bytes: Seq<u8>,
    width: int,
    x: int,
    y: int,
    w: int,
    h: int,
    rgba: Rgba,
) -> Seq<u8> {
    if w == 0 || h == 0 {
        bytes
    } else {
        let top = spec_fill(bytes, width, x, y, w, 1, rgba);
        let bottom = spec_fill(top, width, x, y + h - 1, w, 1, rgba);
        let left = spec_fill(bottom, width, x, y, 1, h, rgba);
        spec_fill(left, width, x + w - 1, y, 1, h, rgba)
    }
}

/// Where the pixel at column `col`, row `row` of a `w`-wide RGBA image starts.
pub open spec fn src_offset(w: int, col: int, row: int) -> int {
    (row * w + col) * 4
}

/// Every source pixel of a `w` × `h` image blitted at (`x`, `y`) that lands
/// inside a `width` × `height` frame lies within the `len` source bytes.
pub open spec fn blit_source_ok(width: int, height: int, x: int, y: int, w: int, h: int, len: int) -> bool {
    forall|row: int, col: int|
        0 <= row < h && 0 <= col < w && 0 <= x + col < width && 0 <= y + row < height
            ==> #[trigger] src_offset(w, col, row) + 4 <= len
}

/// The straight-alpha RGBA pixel at column `col`, row `row` of a `w`-wide image.
pub open spec fn src_pixel(src: Seq<u8>, w: int, col: int, row: int) -> Rgba {
    let si = src_offset(w, col, row);
    (src[si], src[si + 1], src[si + 2], src[si + 3])
}

/// A straight-alpha RGBA image of `w` × `h` pixels composited over at (`x`, `y`).
pub open spec fn spec_blit(
    bytes: Seq<u8>,
    width: int,
    x: int,
    y: int,
    w: int,
    h: int,
    src: Seq<u8>,
) -> Seq<u8> {
    spec_paint(
        bytes,
        width,
        |px: int, py: int| in_rect(px, py, x, y, w, h),
        |px: int, py: int| src_pixel(src, w, px - x, py - y),
    )
}

/// Every pixel of the frame whose byte index `i` names lies within the frame.
proof fn lemma_pixel_in_frame(width: int, height: int, i: int)
    requires
        0 < width,
        0 <= height,
        0 <= i < width * height * 4,
    ensures
        0 <= px_of(i, width) < width,
        0 <= py_of(i, width) < height,
{
    let p = i / 4;
    assert(0 <= p < width * height) by (nonlinear_arith)
        requires
            0 <= i < width * height * 4,
            p == i / 4,
    ;
    assert(0 <= p / width < height) by (nonlinear_arith)
        requires
            0 <= p < width * height,
            0 < width,
    ;
    assert(0 <= p % width < width) by (nonlinear_arith)
        requires
            0 < width,
    ;
}

/// The bytes of pixel (`dx`, `dy`) are exactly the four starting at
/// `(dy * width + dx) * 4`, in channel order.
proof fn lemma_pixel_bytes(width: int, dx: int, dy: int, i: int)
    requires
        0 <= dx < width,
        0 <= dy,
        0 <= i,
    ensures
        (px_of(i, width) == dx && py_of(i, width) == dy) <==> ((dy * width + dx) * 4 <= i < (dy
            * width + dx) * 4 + 4),
        ((dy * width + dx) * 4 <= i < (dy * width + dx) * 4 + 4) ==> i % 4 == i - (dy * width
            + dx) * 4,
{
    let q = dy * width + dx;
    let p = i / 4;
    vstd::arithmetic::div_mod::lemma_fundamental_div_mod(i, 4);
    vstd::arithmetic::div_mod::lemma_fundamental_div_mod(p, width);
    assert(0 <= i % 4 < 4);
    assert(0 <= p % width < width) by (nonlinear_arith)
        requires
            0 < width,
    ;
    if q * 4 <= i < q * 4 + 4 {
        vstd::arithmetic::div_mod::lemma_fundamental_div_mod_converse(i, 4, q, i - q * 4);
        vstd::arithmetic::div_mod::lemma_fundamental_div_mod_converse(p, width, dy, dx);
    }
    if p % width == dx && p / width == dy {
        assert(p == q) by (nonlinear_arith)
            requires
                p == width * (p / width) + p % width,
                p % width == dx,
                p / width == dy,
                q == dy * width + dx,
        ;
    }
}

/// Compositing never overflows a byte: the premultiplied colour share and
/// the remaining share of what was there add up to at most 255.
pub proof fn law_blend_fits_in_a_byte(c: int, dst: int, a: int)
    requires
        0 <= c <= 255,
        0 <= dst <= 255,
        0 <= a <= 255,
    ensures
        0 <= c * a <= 65025,
        0 <= dst * (255 - a) <= 65025,
        c * a / 255 + dst * (255 - a) / 255 <= 255,
{
    assert(0 <= c * a <= 255 * a) by (nonlinear_arith)
        requires
            0 <= c <= 255,
            0 <= a <= 255,
    ;
    assert(0 <= dst * (255 - a) <= 255 * (255 - a)) by (nonlinear_arith)
        requires
            0 <= dst <= 255,
            0 <= a <= 255,
    ;
    vstd::arithmetic::div_mod::lemma_div_is_ordered(c * a, 255 * a, 255);
    vstd::arithmetic::div_mod::lemma_div_is_ordered(dst * (255 - a), 255 * (255 - a), 255);
    vstd::arithmetic::div_mod::lemma_div_multiples_vanish(a, 255);
    vstd::arithmetic::div_mod::lemma_div_multiples_vanish(255 - a, 255);
}

/// Compositing keeps a pixel premultiplied: when a colour byte of the pixel
/// was at most its alpha byte, the composited colour byte is at most the
/// composited alpha byte.
pub proof fn law_blend_keeps_premultiplied(dst_c: u8, dst_a: u8, ch: int, rgba: Rgba)
    requires
        0 <= ch < 3,
        dst_c <= dst_a,
    ensures
        blend_channel(dst_c, ch, rgba) <= blend_channel(dst_a, 3, rgba),
{
    let a = rgba.3 as int;
    let c: int = if ch == 0 {
        rgba.2 as int
    } else if ch == 1 {
        rgba.1 as int
    } else {
        rgba.0 as int
    };
    law_blend_fits_in_a_byte(c, dst_c as int, a);
    law_blend_fits_in_a_byte(255, dst_a as int, a);
    assert(c * a <= 255 * a) by (nonlinear_arith)
        requires
            0 <= c <= 255,
            0 <= a,
    ;
    assert(dst_c * (255 - a) <= dst_a * (255 - a)) by (nonlinear_arith)
        requires
            0 <= dst_c <= dst_a,
            a <= 255,
    ;
    vstd::arithmetic::div_mod::lemma_div_is_ordered(c * a, 255 * a, 255);
    vstd::arithmetic::div_mod::lemma_div_is_ordered(
        dst_c * (255 - a),
        dst_a * (255 - a),
        255,
    );
}

impl Frame {
    /// The pixel bytes match the frame's dimensions.
    pub open spec fn wf(&self) -> bool {
        self.bgra@.len() == self.width * self.height * 4
    }

    /// A fully transparent frame.
    pub fn new(width: u32, height: u32) -> (r: Self)
        requires
            width * height * 4 <= u32::MAX,
        ensures
            r.width == width,
            r.height == height,
            r.wf(),
            forall|i: int| 0 <= i < r.bgra@.len() ==> r.bgra@[i] == 0,
    {
        let n: u32 = width * height * 4;
        let mut bgra: Vec<u8> = Vec::new();
        let mut k: u32 = 0;
        while k < n
            invariant
                0 <= k <= n,
                bgra@.len() == k,
                forall|i: int| 0 <= i < k ==> bgra@[i] == 0,
            decreases n - k,
        {
            bgra.push(0u8);
            k += 1;
        }
        Self { width, height, bgra }
    }

    /// Alpha-composites one straight-alpha RGBA pixel "over" the premultiplied
    /// pixel already at (x, y).
    fn blend_pixel(&mut self, x: u32, y: u32, r: u8, g: u8, b: u8, a: u8)
        requires
            old(self).wf(),
            x < old(self).width,
            y < old(self).height,
        ensures
            final(self).width == old(self).width,
            final(self).height == old(self).height,
            final(self).bgra@.len() == old(self).bgra@.len(),
            forall|i: int|
                0 <= i < old(self).bgra@.len() ==> #[trigger] final(self).bgra@[i] == (if px_of(
                    i,
                    old(self).width as int,
                ) == x && py_of(i, old(self).width as int) == y {
                    blend_channel(old(self).bgra@[i], i % 4, (r, g, b, a))
                } else {
                    old(self).bgra@[i]
                }),
    {
        let ghost w = self.width as int;
        let ghost pre = self.bgra@;
        assert(y * w + x < w * self.height) by (nonlinear_arith)
            requires
                x < w,
                y < self.height,
        ;
        proof {
            law_blend_fits_in_a_byte(r as int, pre[((y * w + x) * 4) as int] as int, a as int);
            law_blend_fits_in_a_byte(g as int, pre[((y * w + x) * 4 + 1) as int] as int, a as int);
            law_blend_fits_in_a_byte(b as int, pre[((y * w + x) * 4 + 2) as int] as int, a as int);
            law_blend_fits_in_a_byte(255, pre[((y * w + x) * 4 + 3) as int] as int, a as int);
        }
        let a32 = a as u32;
        let inv_a = 255 - a32;
        let pr = (r as u32 * a32) / 255;
        let pg = (g as u32 * a32) / 255;
        let pb = (b as u32 * a32) / 255;
        assert((y as int) * (self.width as int) <= u32::MAX as int * u32::MAX as int) by (
        nonlinear_arith)
            requires
                y <= u32::MAX,
                self.width <= u32::MAX,
        ;
        let len: usize = self.bgra.len();
        assert((y * w + x) * 4 + 4 <= len) by (nonlinear_arith)
            requires
                y * w + x < w * self.height,
                len == w * self.height * 4,
        ;
        assert(y as int * self.width as int <= y as int * self.width as int + x as int);
        let di: usize = ((y as usize * self.width as usize + x as usize) * 4) as usize;
        assert(di as int == (y * w + x) * 4);
        let v0 = (pb + (self.bgra[di] as u32 * inv_a) / 255) as u8;
        self.bgra.set(di, v0);
        let v1 = (pg + (self.bgra[di + 1] as u32 * inv_a) / 255) as u8;
        self.bgra.set(di + 1, v1);
        let v2 = (pr + (self.bgra[di + 2] as u32 * inv_a) / 255) as u8;
        self.bgra.set(di + 2, v2);
        let v3 = (a32 + (self.bgra[di + 3] as u32 * inv_a) / 255) as u8;
        self.bgra.set(di + 3, v3);
        assert forall|i: int| 0 <= i < pre.len() implies #[trigger] self.bgra@[i] == (if px_of(i, w)
            == x && py_of(i, w) == y {
            blend_channel(pre[i], i % 4, (r, g, b, a))
        } else {
            pre[i]
        }) by {
            lemma_pixel_bytes(w, x as int, y as int, i);
        }
    }

    /// Fills a rectangle given in wide coordinates, clipped to the frame.
    pub(crate) fn fill_rect_wide(&mut self, x: i64, y: i64, w: u32, h: u32, rgba: Rgba)
        requires
            old(self).wf(),
            -0x1_0000_0000_0000 <= x <= 0x1_0000_0000_0000,
            -0x1_0000_0000_0000 <= y <= 0x1_0000_0000_0000,
        ensures
            final(self).width == old(self).width,
            final(self).height == old(self).height,
            final(self).wf(),
            final(self).bgra@ == spec_fill(
                old(self).bgra@,
                old(self).width as int,
                x as int,
                y as int,
                w as int,
                h as int,
                rgba,
            ),
    {
        let ghost width = self.width as int;
        let ghost height = self.height as int;
        let ghost pre = self.bgra@;
        let ghost color = |px: int, py: int| rgba;
        if self.width == 0 {
            assert(self.bgra@ =~= spec_fill(pre, width, x as int, y as int, w as int, h as int, rgba));
            return ;
        }
        let (r, g, b, a) = rgba;
        let mut row: u32 = 0;
        while row < h
            invariant
                0 <= row <= h,
                self.width == width,
                self.height == height,
                width > 0,
                self.wf(),
                -0x1_0000_0000_0000 <= x <= 0x1_0000_0000_0000,
                -0x1_0000_0000_0000 <= y <= 0x1_0000_0000_0000,
                rgba == (r, g, b, a),
                color == (|px: int, py: int| rgba),
                self.bgra@ == spec_paint(
                    pre,
                    width,
                    |px: int, py: int| in_rect(px, py, x as int, y as int, w as int, row as int),
                    color,
                ),
            decreases h - row,
        {
            let dy: i64 = y + row as i64;
            if dy >= 0 && dy < self.height as i64 {
                let mut col: u32 = 0;
                while col < w
                    invariant
                        0 <= col <= w,
                        0 <= row < h,
                        dy == y + row,
                        0 <= dy < height,
                        self.width == width,
                        self.height == height,
                        width > 0,
                        self.wf(),
                        -0x1_0000_0000_0000 <= x <= 0x1_0000_0000_0000,
                        rgba == (r, g, b, a),
                        color == (|px: int, py: int| rgba),
                        self.bgra@ == spec_paint(
                            pre,
                            width,
                            |px: int, py: int|
                                in_rect(px, py, x as int, y as int, w as int, row as int) || (py
                                    == dy && x <= px < x + col),
                            color,
                        ),
                    decreases w - col,
                {
                    let dx: i64 = x + col as i64;
                    let ghost before = self.bgra@;
                    if dx >= 0 && dx < self.width as i64 {
                        self.blend_pixel(dx as u32, dy as u32, r, g, b, a);
                    }
                    assert forall|i: int| 0 <= i < pre.len() implies #[trigger] self.bgra@[i]
                        == spec_paint(
                        pre,
                        width,
                        |px: int, py: int|
                            in_rect(px, py, x as int, y as int, w as int, row as int) || (py == dy
                                && x <= px < x + col + 1),
                        color,
                    )[i] by {
                        lemma_pixel_in_frame(width, height, i);
                    }
                    assert(self.bgra@ =~= spec_paint(
                        pre,
                        width,
                        |px: int, py: int|
                            in_rect(px, py, x as int, y as int, w as int, row as int) || (py == dy
                                && x <= px < x + col + 1),
                        color,
                    ));
                    col += 1;
                }
                assert(self.bgra@ =~= spec_paint(
                    pre,
                    width,
                    |px: int, py: int|
                        in_rect(px, py, x as int, y as int, w as int, row as int + 1),
                    color,
                ));
            } else {
                assert forall|i: int| 0 <= i < pre.len() implies #[trigger] self.bgra@[i]
                    == spec_paint(
                    pre,
                    width,
                    |px: int, py: int|
                        in_rect(px, py, x as int, y as int, w as int, row as int + 1),
                    color,
                )[i] by {
                    lemma_pixel_in_frame(width, height, i);
                }
                assert(self.bgra@ =~= spec_paint(
                    pre,
                    width,
                    |px: int, py: int|
                        in_rect(px, py, x as int, y as int, w as int, row as int + 1),
                    color,
                ));
            }
            row += 1;
        }
        assert(self.bgra@ =~= spec_fill(pre, width, x as int, y as int, w as int, h as int, rgba));
    }

    /// Fills an axis-aligned rectangle with a straight-alpha color, composited "over".
    pub fn fill_rect(&mut self, x: i32, y: i32, w: u32, h: u32, rgba: Rgba)
        requires
            old(self).wf(),
        ensures
            final(self).width == old(self).width,
            final(self).height == old(self).height,
            final(self).wf(),
            final(self).bgra@ == spec_fill(
                old(self).bgra@,
                old(self).width as int,
                x as int,
                y as int,
                w as int,
                h as int,
                rgba,
            ),
    {
        self.fill_rect_wide(x as i64, y as i64, w, h, rgba);
    }

    /// Draws a 1px rectangle outline with a straight-alpha color.
    pub fn stroke_rect(&mut self, x: i32, y: i32, w: u32, h: u32, rgba: Rgba)
        requires
            old(self).wf(),
        ensures
            final(self).width == old(self).width,
            final(self).height == old(self).height,
            final(self).wf(),
            final(self).bgra@ == spec_stroke(
                old(self).bgra@,
                old(self).width as int,
                x as int,
                y as int,
                w as int,
                h as int,
                rgba,
            ),
    {
        self.stroke_rect_wide(x as i64, y as i64, w, h, rgba);
    }

    /// The outline of a rectangle given in wide coordinates.
    pub(crate) fn stroke_rect_wide(&mut self, x: i64, y: i64, w: u32, h: u32, rgba: Rgba)
        requires
            old(self).wf(),
            -0x1_0000_0000_0000 <= x <= 0x1_0000_0000,
            -0x1_0000_0000_0000 <= y <= 0x1_0000_0000,
        ensures
            final(self).width == old(self).width,
            final(self).height == old(self).height,
            final(self).wf(),
            final(self).bgra@ == spec_stroke(
                old(self).bgra@,
                old(self).width as int,
                x as int,
                y as int,
                w as int,
                h as int,
                rgba,
            ),
    {
        if w == 0 || h == 0 {
            return ;
        }
        self.fill_rect_wide(x, y, w, 1, rgba);
        self.fill_rect_wide(x, y + h as i64 - 1, w, 1, rgba);
        self.fill_rect_wide(x, y, 1, h, rgba);
        self.fill_rect_wide(x + w as i64 - 1, y, 1, h, rgba);
    }

    /// Blits a straight-alpha RGBA source onto this frame at (x, y), alpha-composited
    /// "over" whatever is already there (so it can safely overlap other drawing).
    /// Only the source pixels that land inside the frame are read.
    pub fn blit_rgba_straight(&mut self, x: i32, y: i32, w: u32, h: u32, src_rgba: &[u8])
        requires
            old(self).wf(),
            blit_source_ok(
                old(self).width as int,
                old(self).height as int,
                x as int,
                y as int,
                w as int,
                h as int,
                src_rgba@.len() as int,
            ),
        ensures
            final(self).width == old(self).width,
            final(self).height == old(self).height,
            final(self).wf(),
            final(self).bgra@ == spec_blit(
                old(self).bgra@,
                old(self).width as int,
                x as int,
                y as int,
                w as int,
                h as int,
                src_rgba@,
            ),
    {
        let ghost width = self.width as int;
        let ghost height = self.height as int;
        let ghost pre = self.bgra@;
        let ghost src = src_rgba@;
        let ghost color = |px: int, py: int| src_pixel(src, w as int, px - x, py - y);
        if self.width == 0 {
            assert(self.bgra@ =~= spec_blit(pre, width, x as int, y as int, w as int, h as int, src));
            return ;
        }
        let mut row: u32 = 0;
        while row < h
            invariant
                0 <= row <= h,
                self.width == width,
                self.height == height,
                width > 0,
                self.wf(),
                src == src_rgba@,
                blit_source_ok(width, height, x as int, y as int, w as int, h as int, src_rgba@.len() as int),
                color == (|px: int, py: int| src_pixel(src, w as int, px - x, py - y)),
                self.bgra@ == spec_paint(
                    pre,
                    width,
                    |px: int, py: int| in_rect(px, py, x as int, y as int, w as int, row as int),
                    color,
                ),
            decreases h - row,
        {
            let dy: i64 = y as i64 + row as i64;
            if dy >= 0 && dy < self.height as i64 {
                let mut col: u32 = 0;
                while col < w
                    invariant
                        0 <= col <= w,
                        0 <= row < h,
                        dy == y + row,
                        0 <= dy < height,
                        self.width == width,
                        self.height == height,
                        width > 0,
                        self.wf(),
                        src == src_rgba@,
                        blit_source_ok(width, height, x as int, y as int, w as int, h as int, src_rgba@.len() as int),
                        color == (|px: int, py: int| src_pixel(src, w as int, px - x, py - y)),
                        self.bgra@ == spec_paint(
                            pre,
                            width,
                            |px: int, py: int|
                                in_rect(px, py, x as int, y as int, w as int, row as int) || (py
                                    == dy && x <= px < x + col),
                            color,
                        ),
                    decreases w - col,
                {
                    let dx: i64 = x as i64 + col as i64;
                    if dx >= 0 && dx < self.width as i64 {
                        assert(src_offset(w as int, col as int, row as int) + 4 <= src_rgba@.len());
                        let slen: usize = src_rgba.len();
                        assert((row as int * w as int + col as int) * 4 + 4 <= slen);
                        assert(0 <= row as int * w as int) by (nonlinear_arith)
                            requires
                                0 <= row,
                                0 <= w,
                        ;
                        let si: usize = (row as usize * w as usize + col as usize) * 4;
                        self.blend_pixel(
                            dx as u32,
                            dy as u32,
                            src_rgba[si],
                            src_rgba[si + 1],
                            src_rgba[si + 2],
                            src_rgba[si + 3],
                        );
                    }
                    assert forall|i: int| 0 <= i < pre.len() implies #[trigger] self.bgra@[i]
                        == spec_paint(
                        pre,
                        width,
                        |px: int, py: int|
                            in_rect(px, py, x as int, y as int, w as int, row as int) || (py == dy
                                && x <= px < x + col + 1),
                        color,
                    )[i] by {
                        lemma_pixel_in_frame(width, height, i);
                    }
                    assert(self.bgra@ =~= spec_paint(
                        pre,
                        width,
                        |px: int, py: int|
                            in_rect(px, py, x as int, y as int, w as int, row as int) || (py == dy
                                && x <= px < x + col + 1),
                        color,
                    ));
                    col += 1;
                }
                assert(self.bgra@ =~= spec_paint(
                    pre,
                    width,
                    |px: int, py: int|
                        in_rect(px, py, x as int, y as int, w as int, row as int + 1),
                    color,
                ));
            } else {
                assert forall|i: int| 0 <= i < pre.len() implies #[trigger] self.bgra@[i]
                    == spec_paint(
                    pre,
                    width,
                    |px: int, py: int|
                        in_rect(px, py, x as int, y as int, w as int, row as int + 1),
                    color,
                )[i] by {
                    lemma_pixel_in_frame(width, height, i);
                }
                assert(self.bgra@ =~= spec_paint(
                    pre,
                    width,
                    |px: int, py: int|
                        in_rect(px, py, x as int, y as int, w as int, row as int + 1),
                    color,
                ));
            }
            row += 1;
        }
        assert(self.bgra@ =~= spec_blit(pre, width, x as int, y as int, w as int, h as int, src));
    }
}

} // verus!
