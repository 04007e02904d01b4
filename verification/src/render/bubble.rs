//! The speech bubble: word wrapping, measuring and drawing it, and laying
//! out the frog glyph with its bubble on a canvas.
use super::font::{glyph_for, glyph_rows, GLYPH_HEIGHT, GLYPH_WIDTH};
use super::glyph::GlyphBitmap;
use super::{
    blend_channel,
    blit_source_ok,
    in_rect,
    px_of,
    py_of,
    spec_blit,
    spec_fill,
    spec_stroke,
    Frame,
    Rgba,
};
use vstd::prelude::*;

verus! {

/// Gap kept between the frog glyph and the canvas edge it is anchored to.
pub const EDGE_MARGIN: i32 = 4;

/// Gap between the frog glyph and its speech bubble.
pub const BUBBLE_GAP: i32 = 3;

/// How a speech bubble looks.
pub struct BubbleStyle {
    /// Integer scale factor of the 8x8 font.
    pub scale: u32,
    /// Space between the bubble's border and its text, in pixels.
    pub padding: i32,
    pub fg: Rgba,
    pub bg: Rgba,
    pub border: Rgba,
    /// Wrap width, in characters.
    pub max_cols: usize,
}

impl Default for BubbleStyle {
    fn default() -> (r: Self)
        ensures
            r.scale == 1,
            r.padding == 4,
            r.fg == (230u8, 230u8, 230u8, 255u8),
            r.bg == (10u8, 10u8, 10u8, 235u8),
            r.border == (230u8, 230u8, 230u8, 255u8),
            r.max_cols == 16,
    {
        Self {
            scale: 1,
            padding: 4,
            fg: (230, 230, 230, 255),
            bg: (10, 10, 10, 235),
            border: (230, 230, 230, 255),
            max_cols: 16,
        }
    }
}

/// Unicode `White_Space`, the characters that separate words.
pub open spec fn is_space(c: char) -> bool {
    let u = c as u32;
    (0x9 <= u <= 0xD) || u == 0x20 || u == 0x85 || u == 0xA0 || u == 0x1680 || (0x2000 <= u
        <= 0x200A) || u == 0x2028 || u == 0x2029 || u == 0x202F || u == 0x205F || u == 0x3000
}

fn char_is_space(c: char) -> (r: bool)
    ensures
        r == is_space(c),
{
    let u = c as u32;
    (0x9 <= u && u <= 0xD) || u == 0x20 || u == 0x85 || u == 0xA0 || u == 0x1680 || (0x2000 <= u
        && u <= 0x200A) || u == 0x2028 || u == 0x2029 || u == 0x202F || u == 0x205F || u == 0x3000
}

/// The words of `s`: its maximal runs of non-space characters, in order.
pub open spec fn words_of(s: Seq<char>) -> Seq<Seq<char>>
    decreases s.len(),
{
    if s.len() == 0 {
        seq![]
    } else {
        let init = s.drop_last();
        let c = s.last();
        let ws = words_of(init);
        if is_space(c) {
            ws
        } else if init.len() > 0 && !is_space(init.last()) {
            ws.update(ws.len() - 1, ws.last().push(c))
        } else {
            ws.push(seq![c])
        }
    }
}

/// `w` cut into pieces of `max_cols` characters, the last one possibly
/// shorter; `w` itself when it fits, or when `max_cols` is not positive.
pub open spec fn chunks(w: Seq<char>, max_cols: int) -> Seq<Seq<char>>
    decreases w.len(),
{
    if max_cols <= 0 || w.len() <= max_cols {
        seq![w]
    } else {
        seq![w.take(max_cols)] + chunks(w.skip(max_cols), max_cols)
    }
}

/// The words of `words` in order, each one longer than `max_cols` cut into
/// chunks of `max_cols` characters.
pub open spec fn pieces(words: Seq<Seq<char>>, max_cols: int) -> Seq<Seq<char>>
    decreases words.len(),
{
    if words.len() == 0 {
        seq![]
    } else {
        pieces(words.drop_last(), max_cols) + chunks(words.last(), max_cols)
    }
}

/// Greedy word wrap of `words` to `max_cols` columns: the finished lines and
/// the line still being filled. A word joins the current line, after one
/// space, when the result still fits; otherwise it starts a new line.
pub open spec fn wrap_words(words: Seq<Seq<char>>, max_cols: int) -> (Seq<Seq<char>>, Seq<char>)
    decreases words.len(),
{
    if words.len() == 0 {
        (seq![], seq![])
    } else {
        let prev = wrap_words(words.drop_last(), max_cols);
        let w = words.last();
        if prev.1.len() == 0 {
            (prev.0, w)
        } else if prev.1.len() + 1 + w.len() <= max_cols {
            (prev.0, prev.1 + seq![' '] + w)
        } else {
            (prev.0.push(prev.1), w)
        }
    }
}

/// The lines of `text` wrapped to `max_cols` columns, a word longer than a
/// line cut into chunks that fill whole lines; a text without words gives a
/// single empty line.
pub open spec fn spec_wrap_text(text: Seq<char>, max_cols: int) -> Seq<Seq<char>> {
    wrap_lines(pieces(words_of(text), max_cols), max_cols)
}

/// All lines of the greedy wrap of `words`, or a single empty line if there
/// are no words.
pub open spec fn wrap_lines(words: Seq<Seq<char>>, max_cols: int) -> Seq<Seq<char>> {
    let (lines, cur) = wrap_words(words, max_cols);
    let all = if cur.len() > 0 {
        lines.push(cur)
    } else {
        lines
    };
    if all.len() == 0 {
        seq![seq![]]
    } else {
        all
    }
}

pub open spec fn char_views(v: Seq<Vec<char>>) -> Seq<Seq<char>> {
    v.map_values(|w: Vec<char>| w@)
}

/// Appends `c` with `String::push`. Trusted: the string gains exactly `c` at
/// its end.
#[verifier::external_body]
fn push_char(s: &mut String, c: char)
    ensures
        final(s)@ == old(s)@.push(c),
{
    s.push(c)
}

fn string_of(chars: &Vec<char>) -> (r: String)
    ensures
        r@ == chars@,
{
    let mut s = String::new();
    let mut i: usize = 0;
    while i < chars.len()
        invariant
            0 <= i <= chars.len(),
            s@ == chars@.take(i as int),
        decreases chars.len() - i,
    {
        push_char(&mut s, chars[i]);
        assert(chars@.take(i as int + 1) =~= chars@.take(i as int).push(chars@[i as int]));
        i += 1;
    }
    assert(chars@.take(chars.len() as int) =~= chars@);
    s
}

pub(crate) fn chars_of(text: &str) -> (r: Vec<char>)
    ensures
        r@ == text@,
{
    let n = text.unicode_len();
    let mut v: Vec<char> = Vec::new();
    let mut i: usize = 0;
    while i < n
        invariant
            0 <= i <= n,
            n == text@.len(),
            v@ == text@.take(i as int),
        decreases n - i,
    {
        v.push(text.get_char(i));
        assert(text@.take(i as int + 1) =~= text@.take(i as int).push(text@[i as int]));
        i += 1;
    }
    assert(text@.take(n as int) =~= text@);
    v
}

fn split_words(chars: &Vec<char>) -> (r: Vec<Vec<char>>)
    ensures
        char_views(r@) == words_of(chars@),
{
    let mut words: Vec<Vec<char>> = Vec::new();
    let mut cur: Vec<char> = Vec::new();
    let mut i: usize = 0;
    while i < chars.len()
        invariant
            0 <= i <= chars.len(),
            words_of(chars@.take(i as int)) == (if cur@.len() > 0 {
                char_views(words@).push(cur@)
            } else {
                char_views(words@)
            }),
            cur@.len() > 0 <==> (i > 0 && !is_space(chars@[i - 1])),
        decreases chars.len() - i,
    {
        let c = chars[i];
        let ghost prefix = chars@.take(i as int);
        assert(chars@.take(i as int + 1).drop_last() =~= prefix);
        if char_is_space(c) {
            if cur.len() > 0 {
                let ghost old_words = words@;
                let ghost w = cur@;
                words.push(cur);
                cur = Vec::new();
                assert(char_views(words@) =~= char_views(old_words).push(w));
            }
        } else {
            let ghost old_cur = cur@;
            cur.push(c);
            if cur.len() > 1 {
                assert(char_views(words@).push(old_cur).update(
                    char_views(words@).len() as int,
                    old_cur.push(c),
                ) =~= char_views(words@).push(cur@));
            } else {
                assert(cur@ =~= seq![c]);
            }
        }
        i += 1;
    }
    assert(chars@.take(chars.len() as int) =~= chars@);
    if cur.len() > 0 {
        let ghost old_words = words@;
        let ghost w = cur@;
        words.push(cur);
        assert(char_views(words@) =~= char_views(old_words).push(w));
    }
    words
}

fn append_chars(dst: &mut Vec<char>, src: &Vec<char>)
    ensures
        final(dst)@ == old(dst)@ + src@,
{
    let mut i: usize = 0;
    while i < src.len()
        invariant
            0 <= i <= src.len(),
            dst@ == old(dst)@ + src@.take(i as int),
        decreases src.len() - i,
    {
        dst.push(src[i]);
        assert(src@.take(i as int + 1) =~= src@.take(i as int).push(src@[i as int]));
        i += 1;
    }
    assert(src@.take(src.len() as int) =~= src@);
}

fn copy_chars(src: &Vec<char>) -> (r: Vec<char>)
    ensures
        r@ == src@,
{
    let mut r: Vec<char> = Vec::new();
    append_chars(&mut r, src);
    assert(Seq::<char>::empty() + src@ =~= src@);
    r
}

fn wrap_word_lists(words: &Vec<Vec<char>>, max_cols: usize) -> (r: Vec<Vec<char>>)
    ensures
        char_views(r@) == wrap_lines(char_views(words@), max_cols as int),
{
    let ghost ws = char_views(words@);
    let mut lines: Vec<Vec<char>> = Vec::new();
    let mut current: Vec<char> = Vec::new();
    let mut j: usize = 0;
    while j < words.len()
        invariant
            0 <= j <= words.len(),
            ws == char_views(words@),
            (char_views(lines@), current@) == wrap_words(ws.take(j as int), max_cols as int),
        decreases words.len() - j,
    {
        let w = &words[j];
        assert(ws.take(j as int + 1).drop_last() =~= ws.take(j as int));
        assert(ws.take(j as int + 1).last() == w@);
        if current.len() == 0 {
            current = copy_chars(w);
        } else if w.len() < max_cols && current.len() <= max_cols - w.len() - 1 {
            current.push(' ');
            append_chars(&mut current, w);
        } else {
            let ghost old_lines = lines@;
            let ghost old_cur = current@;
            lines.push(current);
            current = copy_chars(w);
            assert(char_views(lines@) =~= char_views(old_lines).push(old_cur));
        }
        j += 1;
    }
    assert(ws.take(words.len() as int) =~= ws);
    if current.len() > 0 {
        let ghost old_lines = lines@;
        let ghost old_cur = current@;
        lines.push(current);
        assert(char_views(lines@) =~= char_views(old_lines).push(old_cur));
    }
    if lines.len() == 0 {
        lines.push(Vec::new());
        assert(char_views(lines@) =~= seq![Seq::<char>::empty()]);
    }
    lines
}

fn sub_chars(w: &Vec<char>, from: usize, to: usize) -> (r: Vec<char>)
    requires
        from <= to <= w.len(),
    ensures
        r@ == w@.subrange(from as int, to as int),
{
    let mut r: Vec<char> = Vec::new();
    let mut i: usize = from;
    while i < to
        invariant
            from <= i <= to <= w.len(),
            r@ == w@.subrange(from as int, i as int),
        decreases to - i,
    {
        r.push(w[i]);
        assert(w@.subrange(from as int, i as int + 1) =~= w@.subrange(from as int, i as int).push(
            w@[i as int],
        ));
        i += 1;
    }
    r
}

fn push_chunks(out: &mut Vec<Vec<char>>, w: &Vec<char>, max_cols: usize)
    ensures
        char_views(final(out)@) == char_views(old(out)@) + chunks(w@, max_cols as int),
{
    let ghost m = max_cols as int;
    let mut start: usize = 0;
    assert(w@.skip(0) =~= w@);
    while max_cols > 0 && w.len() - start > max_cols
        invariant
            start <= w.len(),
            m == max_cols,
            char_views(out@) + chunks(w@.skip(start as int), m) == char_views(old(out)@) + chunks(
                w@,
                m,
            ),
        decreases w.len() - start,
    {
        let ghost rest = w@.skip(start as int);
        let piece = sub_chars(w, start, start + max_cols);
        assert(piece@ =~= rest.take(m));
        assert(rest.skip(m) =~= w@.skip(start + m));
        let ghost before = char_views(out@);
        out.push(piece);
        assert(char_views(out@) =~= before.push(piece@));
        assert(before + chunks(rest, m) =~= before.push(piece@) + chunks(rest.skip(m), m));
        start += max_cols;
    }
    let ghost rest = w@.skip(start as int);
    let last = sub_chars(w, start, w.len());
    assert(last@ =~= rest);
    let ghost before = char_views(out@);
    out.push(last);
    assert(char_views(out@) =~= before + seq![rest]);
}

fn split_long(words: &Vec<Vec<char>>, max_cols: usize) -> (r: Vec<Vec<char>>)
    ensures
        char_views(r@) == pieces(char_views(words@), max_cols as int),
{
    let ghost ws = char_views(words@);
    let mut out: Vec<Vec<char>> = Vec::new();
    let mut j: usize = 0;
    while j < words.len()
        invariant
            0 <= j <= words.len(),
            ws == char_views(words@),
            char_views(out@) == pieces(ws.take(j as int), max_cols as int),
        decreases words.len() - j,
    {
        assert(ws.take(j as int + 1).drop_last() =~= ws.take(j as int));
        assert(ws.take(j as int + 1).last() == words@[j as int]@);
        push_chunks(&mut out, &words[j], max_cols);
        j += 1;
    }
    assert(ws.take(words.len() as int) =~= ws);
    out
}

/// The wrapped lines of `text`, as characters.
fn wrap_chars(text: &str, max_cols: usize) -> (r: Vec<Vec<char>>)
    ensures
        char_views(r@) == spec_wrap_text(text@, max_cols as int),
{
    let chars = chars_of(text);
    let words = split_words(&chars);
    let parts = split_long(&words, max_cols);
    wrap_word_lists(&parts, max_cols)
}

pub open spec fn string_views(v: Seq<String>) -> Seq<Seq<char>> {
    v.map_values(|s: String| s@)
}

/// Greedy word wrap to at most `max_cols` characters per line (see
/// `spec_wrap_text`): words are split at Unicode white space and rejoined
/// with single spaces, and a word longer than a line is cut into chunks of
/// `max_cols` characters. A wrap width of zero cuts nothing.
pub fn wrap_text(text: &str, max_cols: usize) -> (r: Vec<String>)
    ensures
        string_views(r@) == spec_wrap_text(text@, max_cols as int),
        r.len() >= 1,
        max_cols >= 1 ==> forall|i: int| 0 <= i < r.len() ==> #[trigger] r[i]@.len() <= max_cols,
{
    proof {
        law_wrap_lines_fit(text@, max_cols as int);
    }
    let lines = wrap_chars(text, max_cols);
    let mut out: Vec<String> = Vec::new();
    let mut i: usize = 0;
    while i < lines.len()
        invariant
            0 <= i <= lines.len(),
            string_views(out@) == char_views(lines@).take(i as int),
        decreases lines.len() - i,
    {
        let ghost before = out@;
        out.push(string_of(&lines[i]));
        assert(string_views(out@) =~= string_views(before).push(lines@[i as int]@));
        assert(char_views(lines@).take(i as int + 1) =~= char_views(lines@).take(i as int).push(
            lines@[i as int]@,
        ));
        i += 1;
    }
    assert(char_views(lines@).take(lines.len() as int) =~= char_views(lines@));
    assert forall|i: int| 0 <= i < out.len() implies #[trigger] out[i]@.len() == string_views(
        out@,
    )[i].len() by {}
    out
}

/// The length of the longest of `lines`.
pub open spec fn max_line_len(lines: Seq<Seq<char>>) -> nat
    decreases lines.len(),
{
    if lines.len() == 0 {
        0
    } else {
        let m = max_line_len(lines.drop_last());
        if lines.last().len() > m {
            lines.last().len()
        } else {
            m
        }
    }
}

pub(crate) proof fn lemma_max_line_len(lines: Seq<Seq<char>>)
    ensures
        forall|i: int| 0 <= i < lines.len() ==> #[trigger] lines[i].len() <= max_line_len(lines),
    decreases lines.len(),
{
    if lines.len() > 0 {
        lemma_max_line_len(lines.drop_last());
        assert forall|i: int| 0 <= i < lines.len() implies #[trigger] lines[i].len()
            <= max_line_len(lines) by {
            if i < lines.len() - 1 {
                assert(lines[i] == lines.drop_last()[i]);
            }
        }
    }
}

/// Columns of a bubble: its longest line, but at least one.
pub open spec fn bubble_cols(lines: Seq<Seq<char>>) -> int {
    if max_line_len(lines) == 0 {
        1
    } else {
        max_line_len(lines) as int
    }
}

/// Width in pixels of the bubble holding `lines`.
pub open spec fn bubble_w(lines: Seq<Seq<char>>, style: BubbleStyle) -> int {
    bubble_cols(lines) * GLYPH_WIDTH * style.scale + 2 * style.padding
}

/// Height in pixels of the bubble holding `lines`.
pub open spec fn bubble_h(lines: Seq<Seq<char>>, style: BubbleStyle) -> int {
    lines.len() * GLYPH_HEIGHT * style.scale + 2 * style.padding
}

/// The bubble's padding is not negative and its size fits the coordinate range.
pub open spec fn bubble_fits(lines: Seq<Seq<char>>, style: BubbleStyle) -> bool {
    0 <= style.padding && bubble_w(lines, style) <= i32::MAX && bubble_h(lines, style) <= i32::MAX
}

/// Width in pixels of a bubble line of `max_cols` characters, with padding.
pub open spec fn max_width_of(style: BubbleStyle) -> int {
    style.max_cols * GLYPH_WIDTH * style.scale + 2 * style.padding
}

/// The widest a bubble can ever get for this style: a full line of
/// `max_cols` characters (no wrapped line is longer, see
/// `law_bubble_within_max_width`). Callers need this to size a canvas that
/// never clips the bubble.
pub fn max_width(style: &BubbleStyle) -> (r: u32)
    requires
        0 <= style.padding,
        max_width_of(*style) <= u32::MAX,
    ensures
        r == max_width_of(*style),
{
    if style.scale == 0 {
        return (style.padding as u32) * 2;
    }
    assert(style.max_cols <= style.max_cols * GLYPH_WIDTH * style.scale) by (nonlinear_arith)
        requires
            style.scale >= 1,
    ;
    assert(style.max_cols * GLYPH_WIDTH <= style.max_cols * GLYPH_WIDTH * style.scale) by (
    nonlinear_arith)
        requires
            style.scale >= 1,
    ;
    style.max_cols as u32 * GLYPH_WIDTH * style.scale + (style.padding as u32) * 2
}

fn measure(lines: &Vec<Vec<char>>, style: &BubbleStyle) -> (r: (u32, u32))
    requires
        bubble_fits(char_views(lines@), *style),
    ensures
        r.0 == bubble_w(char_views(lines@), *style),
        r.1 == bubble_h(char_views(lines@), *style),
{
    let ghost ls = char_views(lines@);
    let mut longest: usize = 0;
    let mut i: usize = 0;
    while i < lines.len()
        invariant
            0 <= i <= lines.len(),
            ls == char_views(lines@),
            longest == max_line_len(ls.take(i as int)),
        decreases lines.len() - i,
    {
        assert(ls.take(i as int + 1).drop_last() =~= ls.take(i as int));
        if lines[i].len() > longest {
            longest = lines[i].len();
        }
        i += 1;
    }
    assert(ls.take(lines.len() as int) =~= ls);
    let cols: usize = if longest == 0 {
        1
    } else {
        longest
    };
    let pad2: u32 = (style.padding as u32) * 2;
    if style.scale == 0 {
        return (pad2, pad2);
    }
    let s = style.scale;
    assert(cols * 8 <= cols * 8 * s && lines.len() * 8 <= lines.len() * 8 * s) by (nonlinear_arith)
        requires
            s >= 1,
    ;
    let w: u32 = cols as u32 * GLYPH_WIDTH * s + pad2;
    let h: u32 = lines.len() as u32 * GLYPH_HEIGHT * s + pad2;
    (w, h)
}

/// Bit `col` (0 = leftmost) of a font row is set.
pub open spec fn glyph_bit(bits: u8, col: u32) -> bool {
    (bits >> col) & 1u8 == 1u8
}

/// The first `k` cells (row-major) of an 8x8 glyph drawn at (`x`, `y`), each
/// set bit as a `scale` × `scale` square.
pub open spec fn spec_glyph_cells(
    bytes: Seq<u8>,
    width: int,
    x: int,
    y: int,
    rows: Seq<u8>,
    scale: int,
    color: Rgba,
    k: int,
) -> Seq<u8>
    decreases k,
{
    if k <= 0 {
        bytes
    } else {
        let prev = spec_glyph_cells(bytes, width, x, y, rows, scale, color, k - 1);
        let row = (k - 1) / 8;
        let col = (k - 1) % 8;
        if glyph_bit(rows[row], col as u32) {
            spec_fill(prev, width, x + col * scale, y + row * scale, scale, scale, color)
        } else {
            prev
        }
    }
}

/// A whole 8x8 glyph drawn at (`x`, `y`).
pub open spec fn spec_glyph(
    bytes: Seq<u8>,
    width: int,
    x: int,
    y: int,
    rows: Seq<u8>,
    scale: int,
    color: Rgba,
) -> Seq<u8> {
    spec_glyph_cells(bytes, width, x, y, rows, scale, color, 64)
}

/// Composites the 8x8 glyph with bitmap rows `glyph` onto `frame`, its
/// top-left corner at (`x`, `y`): each set bit becomes a `scale` × `scale`
/// square of `color`, clipped to the frame (see `spec_glyph`).
pub fn draw_glyph(frame: &mut Frame, x: i64, y: i64, glyph: &[u8; 8], scale: u32, color: Rgba)
    requires
        old(frame).wf(),
        -0x1_0000_0000_00 <= x <= 0x1_0000_0000_00,
        -0x1_0000_0000_00 <= y <= 0x1_0000_0000_00,
    ensures
        final(frame).width == old(frame).width,
        final(frame).height == old(frame).height,
        final(frame).wf(),
        final(frame).bgra@ == spec_glyph(
            old(frame).bgra@,
            old(frame).width as int,
            x as int,
            y as int,
            glyph@,
            scale as int,
            color,
        ),
{
    let ghost pre = frame.bgra@;
    let ghost width = frame.width as int;
    let mut row: u32 = 0;
    while row < 8
        invariant
            0 <= row <= 8,
            frame.wf(),
            frame.width == old(frame).width,
            frame.height == old(frame).height,
            width == frame.width,
            -0x1_0000_0000_00 <= x <= 0x1_0000_0000_00,
            -0x1_0000_0000_00 <= y <= 0x1_0000_0000_00,
            frame.bgra@ == spec_glyph_cells(
                pre,
                width,
                x as int,
                y as int,
                glyph@,
                scale as int,
                color,
                row * 8,
            ),
        decreases 8 - row,
    {
        let bits = glyph[row as usize];
        let mut col: u32 = 0;
        while col < 8
            invariant
                0 <= col <= 8,
                0 <= row < 8,
                bits == glyph@[row as int],
                frame.wf(),
                frame.width == old(frame).width,
                frame.height == old(frame).height,
                width == frame.width,
                -0x1_0000_0000_00 <= x <= 0x1_0000_0000_00,
                -0x1_0000_0000_00 <= y <= 0x1_0000_0000_00,
                frame.bgra@ == spec_glyph_cells(
                    pre,
                    width,
                    x as int,
                    y as int,
                    glyph@,
                    scale as int,
                    color,
                    row * 8 + col,
                ),
            decreases 8 - col,
        {
            let ghost k = row * 8 + col + 1;
            assert((k - 1) / 8 == row && (k - 1) % 8 == col);
            if (bits >> col) & 1 == 1 {
                assert(0 <= col * scale <= 8 * 0x1_0000_0000 && 0 <= row * scale <= 8
                    * 0x1_0000_0000) by (nonlinear_arith)
                    requires
                        col < 8,
                        row < 8,
                        scale <= u32::MAX,
                ;
                let cx: i64 = x + (col as i64) * (scale as i64);
                let cy: i64 = y + (row as i64) * (scale as i64);
                frame.fill_rect_wide(cx, cy, scale, scale, color);
            }
            col += 1;
        }
        row += 1;
    }
}

/// The characters of the first `m` columns of `line`, drawn from (`lx`, `ly`).
pub open spec fn spec_line(
    bytes: Seq<u8>,
    width: int,
    lx: int,
    ly: int,
    line: Seq<char>,
    style: BubbleStyle,
    m: int,
) -> Seq<u8>
    decreases m,
{
    if m <= 0 {
        bytes
    } else {
        spec_glyph(
            spec_line(bytes, width, lx, ly, line, style, m - 1),
            width,
            lx + (m - 1) * GLYPH_WIDTH * style.scale,
            ly,
            glyph_rows(line[m - 1]),
            style.scale as int,
            style.fg,
        )
    }
}

/// The first `n` lines of text of a bubble whose box is at (`x`, `y`).
pub open spec fn spec_lines(
    bytes: Seq<u8>,
    width: int,
    x: int,
    y: int,
    lines: Seq<Seq<char>>,
    style: BubbleStyle,
    n: int,
) -> Seq<u8>
    decreases n,
{
    if n <= 0 {
        bytes
    } else {
        spec_line(
            spec_lines(bytes, width, x, y, lines, style, n - 1),
            width,
            x + style.padding,
            y + style.padding + (n - 1) * GLYPH_HEIGHT * style.scale,
            lines[n - 1],
            style,
            lines[n - 1].len() as int,
        )
    }
}

/// A speech bubble at (`x`, `y`): its box filled with the background colour,
/// outlined with the border colour, then every character of every line.
pub open spec fn spec_draw_bubble(
    bytes: Seq<u8>,
    width: int,
    x: int,
    y: int,
    lines: Seq<Seq<char>>,
    style: BubbleStyle,
) -> Seq<u8> {
    let w = bubble_w(lines, style);
    let h = bubble_h(lines, style);
    let filled = spec_fill(bytes, width, x, y, w, h, style.bg);
    let framed = spec_stroke(filled, width, x, y, w, h, style.border);
    spec_lines(framed, width, x, y, lines, style, lines.len() as int)
}

fn draw_bubble(frame: &mut Frame, x: i64, y: i64, lines: &Vec<Vec<char>>, style: &BubbleStyle)
    requires
        old(frame).wf(),
        bubble_fits(char_views(lines@), *style),
        i32::MIN <= x <= i32::MAX,
        i32::MIN <= y <= i32::MAX,
    ensures
        final(frame).width == old(frame).width,
        final(frame).height == old(frame).height,
        final(frame).wf(),
        final(frame).bgra@ == spec_draw_bubble(
            old(frame).bgra@,
            old(frame).width as int,
            x as int,
            y as int,
            char_views(lines@),
            *style,
        ),
{
    let ghost ls = char_views(lines@);
    let ghost width = frame.width as int;
    let (w, h) = measure(lines, style);
    frame.fill_rect_wide(x, y, w, h, style.bg);
    frame.stroke_rect_wide(x, y, w, h, style.border);
    let ghost framed = frame.bgra@;
    proof {
        lemma_max_line_len(ls);
    }
    let s: i64 = style.scale as i64;
    let pad: i64 = style.padding as i64;
    let step: i64 = 8 * s;
    let mut row_off: i64 = 0;
    let mut r: usize = 0;
    assert(r * 8 * s == 0) by (nonlinear_arith)
        requires
            r == 0,
    ;
    while r < lines.len()
        invariant
            0 <= r <= lines.len(),
            ls == char_views(lines@),
            ls.len() == lines@.len(),
            step == 8 * s,
            row_off == r * 8 * s,
            row_off <= bubble_h(ls, *style),
            frame.wf(),
            frame.width == old(frame).width,
            frame.height == old(frame).height,
            width == frame.width,
            bubble_fits(ls, *style),
            forall|i: int| 0 <= i < ls.len() ==> #[trigger] ls[i].len() <= max_line_len(ls),
            s == style.scale,
            pad == style.padding,
            i32::MIN <= x <= i32::MAX,
            i32::MIN <= y <= i32::MAX,
            frame.bgra@ == spec_lines(framed, width, x as int, y as int, ls, *style, r as int),
        decreases lines.len() - r,
    {
        let line = &lines[r];
        assert(line@ == ls[r as int]);
        assert((r + 1) * 8 * s <= bubble_h(ls, *style)) by (nonlinear_arith)
            requires
                r < ls.len(),
                s >= 0,
                pad >= 0,
                bubble_h(ls, *style) == ls.len() * 8 * s + 2 * pad,
        ;
        let line_y: i64 = y + pad + row_off;
        let ghost row_start = frame.bgra@;
        let mut col_off: i64 = 0;
        let mut c: usize = 0;
        assert(c * 8 * s == 0) by (nonlinear_arith)
            requires
                c == 0,
        ;
        while c < line.len()
            invariant
                0 <= c <= line.len(),
                step == 8 * s,
                col_off == c * 8 * s,
                col_off <= bubble_w(ls, *style),
                0 <= r < lines.len(),
                line@ == ls[r as int],
                ls == char_views(lines@),
                ls.len() == lines@.len(),
                frame.wf(),
                frame.width == old(frame).width,
                frame.height == old(frame).height,
                width == frame.width,
                bubble_fits(ls, *style),
                line@.len() <= max_line_len(ls),
                s == style.scale,
                pad == style.padding,
                i32::MIN <= x <= i32::MAX,
                -0x1_0000_0000_0 <= line_y <= 0x1_0000_0000_0,
                frame.bgra@ == spec_line(
                    row_start,
                    width,
                    x + pad,
                    line_y as int,
                    line@,
                    *style,
                    c as int,
                ),
            decreases line.len() - c,
        {
            assert((c + 1) * 8 * s <= bubble_w(ls, *style)) by (nonlinear_arith)
                requires
                    c < line@.len(),
                    line@.len() <= max_line_len(ls),
                    max_line_len(ls) <= bubble_cols(ls),
                    s >= 0,
                    pad >= 0,
                    bubble_w(ls, *style) == bubble_cols(ls) * 8 * s + 2 * pad,
            ;
            let char_x: i64 = x + pad + col_off;
            let rows = glyph_for(line[c]);
            draw_glyph(frame, char_x, line_y, &rows, style.scale, style.fg);
            assert((c + 1) * 8 * s == c * 8 * s + 8 * s) by (nonlinear_arith);
            col_off = col_off + step;
            c += 1;
        }
        assert((r + 1) * 8 * s == r * 8 * s + 8 * s) by (nonlinear_arith);
        row_off = row_off + step;
        r += 1;
    }
}

fn longest_line(lines: &Vec<Vec<char>>) -> (r: usize)
    ensures
        r == max_line_len(char_views(lines@)),
{
    let ghost ls = char_views(lines@);
    let mut longest: usize = 0;
    let mut i: usize = 0;
    while i < lines.len()
        invariant
            0 <= i <= lines.len(),
            ls == char_views(lines@),
            longest == max_line_len(ls.take(i as int)),
        decreases lines.len() - i,
    {
        assert(ls.take(i as int + 1).drop_last() =~= ls.take(i as int));
        if lines[i].len() > longest {
            longest = lines[i].len();
        }
        i += 1;
    }
    assert(ls.take(lines.len() as int) =~= ls);
    longest
}

/// The size of the bubble that `compose` would draw for `text` (its lines
/// wrapped to the style's width), or `None` when the padding is negative or
/// the bubble would not fit the coordinate range.
pub fn measure_text(text: &str, style: &BubbleStyle) -> (r: Option<(u32, u32)>)
    ensures
        r is Some <==> bubble_fits(spec_wrap_text(text@, style.max_cols as int), *style),
        r matches Some(size) ==> size.0 == bubble_w(
            spec_wrap_text(text@, style.max_cols as int),
            *style,
        ) && size.1 == bubble_h(spec_wrap_text(text@, style.max_cols as int), *style),
        style.max_cols >= 1 ==> (r matches Some(size) ==> size.0 <= max_width_of(*style)),
{
    proof {
        if style.max_cols >= 1 && style.padding >= 0 {
            law_bubble_within_max_width(text@, *style);
        }
    }
    let lines = wrap_chars(text, style.max_cols);
    if style.padding < 0 {
        return None;
    }
    let longest = longest_line(&lines);
    let cols: u128 = if longest == 0 {
        1
    } else {
        longest as u128
    };
    let rows: u128 = lines.len() as u128;
    let s: u128 = style.scale as u128;
    let pad2: u128 = 2 * (style.padding as u128);
    assert(cols * 8 * s <= 0x1_0000_0000_0000_0000 * 8 * 0x1_0000_0000) by (nonlinear_arith)
        requires
            cols <= 0x1_0000_0000_0000_0000,
            s <= 0x1_0000_0000,
    ;
    assert(rows * 8 * s <= 0x1_0000_0000_0000_0000 * 8 * 0x1_0000_0000) by (nonlinear_arith)
        requires
            rows <= 0x1_0000_0000_0000_0000,
            s <= 0x1_0000_0000,
    ;
    assert(0 <= cols * 8 * s && 0 <= rows * 8 * s) by (nonlinear_arith)
        requires
            0 <= cols,
            0 <= rows,
            0 <= s,
    ;
    let w: u128 = cols * 8 * s + pad2;
    let h: u128 = rows * 8 * s + pad2;
    if w > i32::MAX as u128 || h > i32::MAX as u128 {
        return None;
    }
    Some((w as u32, h as u32))
}

/// A composed frame plus the on-screen offset (within the frame) of the frog
/// glyph's center: the windowing layer positions the window so this point
/// lands exactly on the frog's logical world position.
pub struct Layout {
    pub frame: Frame,
    pub glyph_center: (i32, i32),
}

/// Column of the frog glyph's left edge: centred horizontally.
pub open spec fn frog_x(canvas_w: int, glyph: GlyphBitmap) -> int {
    (canvas_w - glyph.width) / 2
}

/// Row of the frog glyph's top edge: near the top of the canvas when the
/// bubble goes below it, near the bottom otherwise.
pub open spec fn frog_y(canvas_h: int, glyph: GlyphBitmap, prefer_below: bool) -> int {
    if prefer_below {
        EDGE_MARGIN as int
    } else {
        canvas_h - EDGE_MARGIN - glyph.height
    }
}

/// The bubble box's left edge: centred over the glyph.
pub open spec fn bubble_x(fx: int, glyph: GlyphBitmap, lines: Seq<Seq<char>>, style: BubbleStyle) -> int {
    fx + glyph.width / 2 - bubble_w(lines, style) / 2
}

/// The bubble box's top edge: just below the glyph, or just above it.
pub open spec fn bubble_y(
    fy: int,
    glyph: GlyphBitmap,
    lines: Seq<Seq<char>>,
    style: BubbleStyle,
    prefer_below: bool,
) -> int {
    if prefer_below {
        fy + glyph.height + BUBBLE_GAP
    } else {
        fy - BUBBLE_GAP - bubble_h(lines, style)
    }
}

pub open spec fn fits_i32_int(v: int) -> bool {
    i32::MIN <= v <= i32::MAX
}

/// The inputs on which `compose` does its work without overflowing: the
/// canvas can be allocated, the glyph is not wider than the canvas, every
/// coordinate fits the `i32` range, the glyph's pixels that land on the
/// canvas exist, and a bubble's padding is not negative.
pub open spec fn compose_fits(
    canvas_w: u32,
    canvas_h: u32,
    glyph: GlyphBitmap,
    bubble_text: Option<Seq<char>>,
    style: BubbleStyle,
    prefer_below: bool,
) -> bool {
    let fx = frog_x(canvas_w as int, glyph);
    let fy = frog_y(canvas_h as int, glyph, prefer_below);
    &&& canvas_w * canvas_h * 4 <= u32::MAX
    &&& glyph.width <= canvas_w <= i32::MAX
    &&& canvas_h <= i32::MAX
    &&& glyph.height <= i32::MAX
    &&& fits_i32_int(fy)
    &&& blit_source_ok(
        canvas_w as int,
        canvas_h as int,
        fx,
        fy,
        glyph.width as int,
        glyph.height as int,
        glyph.rgba@.len() as int,
    )
    &&& (bubble_text matches Some(t) ==> {
        let lines = spec_wrap_text(t, style.max_cols as int);
        &&& bubble_fits(lines, style)
        &&& fits_i32_int(bubble_x(fx, glyph, lines, style))
        &&& fits_i32_int(bubble_y(fy, glyph, lines, style, prefer_below))
    })
}

/// The composed canvas: fully transparent, then the bubble (if any), then
/// the frog glyph over it.
pub open spec fn spec_compose(
    canvas_w: u32,
    canvas_h: u32,
    glyph: GlyphBitmap,
    bubble_text: Option<Seq<char>>,
    style: BubbleStyle,
    prefer_below: bool,
) -> Seq<u8> {
    let fx = frog_x(canvas_w as int, glyph);
    let fy = frog_y(canvas_h as int, glyph, prefer_below);
    let blank = Seq::new((canvas_w * canvas_h * 4) as nat, |i: int| 0u8);
    let with_bubble = match bubble_text {
        Some(t) => {
            let lines = spec_wrap_text(t, style.max_cols as int);
            spec_draw_bubble(
                blank,
                canvas_w as int,
                bubble_x(fx, glyph, lines, style),
                bubble_y(fy, glyph, lines, style, prefer_below),
                lines,
                style,
            )
        },
        None => blank,
    };
    spec_blit(with_bubble, canvas_w as int, fx, fy, glyph.width as int, glyph.height as int, glyph.rgba@)
}

pub open spec fn text_view(t: Option<&str>) -> Option<Seq<char>> {
    match t {
        Some(s) => Some(s@),
        None => None,
    }
}

/// Lays out the frog glyph and an optional speech bubble onto a fixed-size canvas.
/// When `prefer_below` is set (the frog is too close to the top edge of its
/// monitor for a bubble to fit above it), the frog anchors near the top of the
/// canvas and the bubble is drawn beneath it instead.
pub fn compose(
    canvas_w: u32,
    canvas_h: u32,
    glyph: &GlyphBitmap,
    bubble_text: Option<&str>,
    style: &BubbleStyle,
    prefer_below: bool,
) -> (r: Layout)
    requires
        compose_fits(canvas_w, canvas_h, *glyph, text_view(bubble_text), *style, prefer_below),
    ensures
        r.frame.width == canvas_w,
        r.frame.height == canvas_h,
        r.frame.wf(),
        r.frame.bgra@ == spec_compose(
            canvas_w,
            canvas_h,
            *glyph,
            text_view(bubble_text),
            *style,
            prefer_below,
        ),
        r.glyph_center.0 == frog_x(canvas_w as int, *glyph) + glyph.width / 2,
        r.glyph_center.1 == frog_y(canvas_h as int, *glyph, prefer_below) + glyph.height / 2,
{
    let mut frame = Frame::new(canvas_w, canvas_h);
    let ghost blank = Seq::new((canvas_w * canvas_h * 4) as nat, |i: int| 0u8);
    assert(frame.bgra@ =~= blank);
    let fx: i64 = ((canvas_w - glyph.width) / 2) as i64;
    let fy: i64 = if prefer_below {
        EDGE_MARGIN as i64
    } else {
        canvas_h as i64 - EDGE_MARGIN as i64 - glyph.height as i64
    };
    match bubble_text {
        Some(text) => {
            let lines = wrap_chars(text, style.max_cols);
            let (bw, bh) = measure(&lines, style);
            let bx: i64 = fx + (glyph.width / 2) as i64 - (bw / 2) as i64;
            let by: i64 = if prefer_below {
                fy + glyph.height as i64 + BUBBLE_GAP as i64
            } else {
                fy - BUBBLE_GAP as i64 - bh as i64
            };
            draw_bubble(&mut frame, bx, by, &lines, style);
        },
        None => {},
    }
    frame.blit_rgba_straight(fx as i32, fy as i32, glyph.width, glyph.height, glyph.rgba.as_slice());
    let center = ((fx + (glyph.width / 2) as i64) as i32, (fy + (glyph.height / 2) as i64) as i32);
    Layout { frame, glyph_center: center }
}

/// A word: a non-empty run of characters none of which is white space.
pub open spec fn is_word(w: Seq<char>) -> bool {
    w.len() > 0 && forall|i: int| 0 <= i < w.len() ==> !is_space(#[trigger] w[i])
}

/// The words of all `lines`, in order.
pub open spec fn words_of_lines(lines: Seq<Seq<char>>) -> Seq<Seq<char>>
    decreases lines.len(),
{
    if lines.len() == 0 {
        seq![]
    } else {
        words_of_lines(lines.drop_last()) + words_of(lines.last())
    }
}

proof fn lemma_words_are_words(s: Seq<char>)
    ensures
        forall|i: int| 0 <= i < words_of(s).len() ==> is_word(#[trigger] words_of(s)[i]),
    decreases s.len(),
{
    if s.len() > 0 {
        let init = s.drop_last();
        lemma_words_are_words(init);
        let ws = words_of(init);
        let c = s.last();
        if !is_space(c) && init.len() > 0 && !is_space(init.last()) {
            let nw = ws.last().push(c);
            lemma_words_nonempty_when_trailing(init);
            assert(is_word(ws[ws.len() - 1]));
            assert forall|i: int| 0 <= i < nw.len() implies !is_space(#[trigger] nw[i]) by {
                if i < nw.len() - 1 {
                    assert(nw[i] == ws[ws.len() - 1][i]);
                }
            }
        }
        if !is_space(c) && !(init.len() > 0 && !is_space(init.last())) {
            assert(is_word(seq![c]));
        }
    }
}

proof fn lemma_words_nonempty_when_trailing(s: Seq<char>)
    requires
        s.len() > 0,
        !is_space(s.last()),
    ensures
        words_of(s).len() > 0,
    decreases s.len(),
{
    let init = s.drop_last();
    if init.len() > 0 && !is_space(init.last()) {
        lemma_words_nonempty_when_trailing(init);
    }
}

proof fn lemma_single_word(w: Seq<char>)
    requires
        is_word(w),
    ensures
        words_of(w) == seq![w],
    decreases w.len(),
{
    let init = w.drop_last();
    assert(!is_space(w.last())) by {
        assert(w.last() == w[w.len() - 1]);
    }
    if init.len() == 0 {
        assert(init =~= Seq::<char>::empty());
        assert(words_of(init) =~= Seq::<Seq<char>>::empty());
        assert(w =~= seq![w.last()]);
        assert(words_of(w) =~= seq![seq![w.last()]]);
    } else {
        assert(is_word(init)) by {
            assert forall|i: int| 0 <= i < init.len() implies !is_space(#[trigger] init[i]) by {
                assert(init[i] == w[i]);
            }
        }
        lemma_single_word(init);
        assert(!is_space(init.last())) by {
            assert(init.last() == w[w.len() - 2]);
        }
        assert(init.push(w.last()) =~= w);
        assert(words_of(w) =~= seq![init].update(0, init.push(w.last())));
        assert(seq![init].update(0, init.push(w.last())) =~= seq![w]);
    }
}

/// Words separated by a space: the words of `a + " " + b` are those of `a`
/// followed by those of `b`.
proof fn lemma_words_concat(a: Seq<char>, b: Seq<char>)
    ensures
        words_of(a + seq![' '] + b) == words_of(a) + words_of(b),
    decreases b.len(),
{
    let ab = a + seq![' '] + b;
    if b.len() == 0 {
        assert(ab.drop_last() =~= a);
        assert(words_of(a) + words_of(b) =~= words_of(a));
    } else {
        let binit = b.drop_last();
        let c = b.last();
        lemma_words_concat(a, binit);
        assert(ab.drop_last() =~= a + seq![' '] + binit);
        let left = words_of(a + seq![' '] + binit);
        assert(left == words_of(a) + words_of(binit));
        if is_space(c) {
            assert(words_of(ab) == left);
        } else if binit.len() > 0 && !is_space(binit.last()) {
            assert((a + seq![' '] + binit).last() == binit.last());
            lemma_words_nonempty_when_trailing(binit);
            let wb = words_of(binit);
            assert(words_of(b) == wb.update(wb.len() - 1, wb.last().push(c)));
            assert(words_of(ab) =~= words_of(a) + words_of(b));
        } else {
            if binit.len() == 0 {
                assert((a + seq![' '] + binit).last() == ' ');
            } else {
                assert((a + seq![' '] + binit).last() == binit.last());
            }
            assert(words_of(b) == words_of(binit).push(seq![c]));
            assert(words_of(ab) =~= words_of(a) + words_of(b));
        }
    }
}

proof fn lemma_wrap_words(words: Seq<Seq<char>>, max_cols: int)
    requires
        forall|i: int| 0 <= i < words.len() ==> is_word(#[trigger] words[i]),
    ensures
        words_of_lines(wrap_words(words, max_cols).0) + words_of(wrap_words(words, max_cols).1)
            == words,
        wrap_words(words, max_cols).1.len() == 0 ==> words.len() == 0,
        wrap_words(words, max_cols).1.len() == 0 ==> wrap_words(words, max_cols).0.len() == 0,
        max_cols >= 0 && (forall|i: int|
            0 <= i < words.len() ==> #[trigger] words[i].len() <= max_cols) ==> {
            &&& forall|i: int|
                0 <= i < wrap_words(words, max_cols).0.len() ==> #[trigger] wrap_words(
                    words,
                    max_cols,
                ).0[i].len() <= max_cols
            &&& wrap_words(words, max_cols).1.len() <= max_cols
        },
    decreases words.len(),
{
    if words.len() > 0 {
        let init = words.drop_last();
        assert forall|i: int| 0 <= i < init.len() implies is_word(#[trigger] init[i]) by {
            assert(init[i] == words[i]);
        }
        if forall|i: int| 0 <= i < words.len() ==> #[trigger] words[i].len() <= max_cols {
            assert forall|i: int| 0 <= i < init.len() implies #[trigger] init[i].len()
                <= max_cols by {
                assert(init[i] == words[i]);
            }
            assert(words.last() == words[words.len() - 1]);
        }
        lemma_wrap_words(init, max_cols);
        let prev = wrap_words(init, max_cols);
        let w = words.last();
        assert(is_word(w)) by {
            assert(w == words[words.len() - 1]);
        }
        lemma_single_word(w);
        if prev.1.len() == 0 {
            assert(words_of_lines(prev.0) =~= seq![]);
            assert(words =~= seq![w]);
        } else if prev.1.len() + 1 + w.len() <= max_cols {
            lemma_words_concat(prev.1, w);
            assert(words =~= init.push(w));
        } else {
            assert(prev.0.push(prev.1).drop_last() =~= prev.0);
            assert(words_of_lines(prev.0.push(prev.1)) == words_of_lines(prev.0) + words_of(
                prev.1,
            ));
            assert(words =~= init.push(w));
            let nl = prev.0.push(prev.1);
            if forall|i: int| 0 <= i < words.len() ==> #[trigger] words[i].len() <= max_cols {
                assert forall|i: int| 0 <= i < nl.len() implies #[trigger] nl[i].len()
                    <= max_cols by {
                    if i < prev.0.len() {
                        assert(nl[i] == prev.0[i]);
                    }
                }
            }
        }
    }
}

proof fn lemma_chunks(w: Seq<char>, max_cols: int)
    requires
        is_word(w),
    ensures
        forall|i: int|
            0 <= i < chunks(w, max_cols).len() ==> is_word(#[trigger] chunks(w, max_cols)[i]),
        max_cols >= 1 ==> forall|i: int|
            0 <= i < chunks(w, max_cols).len() ==> #[trigger] chunks(w, max_cols)[i].len()
                <= max_cols,
        chunks(w, max_cols).flatten() == w,
    decreases w.len(),
{
    if max_cols <= 0 || w.len() <= max_cols {
        seq![w].lemma_flatten_singleton();
    } else {
        let a = w.take(max_cols);
        let b = w.skip(max_cols);
        assert(is_word(a)) by {
            assert forall|i: int| 0 <= i < a.len() implies !is_space(#[trigger] a[i]) by {
                assert(a[i] == w[i]);
            }
        }
        assert(is_word(b)) by {
            assert forall|i: int| 0 <= i < b.len() implies !is_space(#[trigger] b[i]) by {
                assert(b[i] == w[i + max_cols]);
            }
        }
        lemma_chunks(b, max_cols);
        let cb = chunks(b, max_cols);
        let cw = chunks(w, max_cols);
        assert forall|i: int| 0 <= i < cw.len() implies is_word(#[trigger] cw[i]) && (max_cols
            >= 1 ==> cw[i].len() <= max_cols) by {
            if i > 0 {
                assert(cw[i] == cb[i - 1]);
            }
        }
        vstd::seq_lib::lemma_flatten_concat(seq![a], cb);
        seq![a].lemma_flatten_singleton();
        assert(a + b =~= w);
    }
}

proof fn lemma_pieces(words: Seq<Seq<char>>, max_cols: int)
    requires
        forall|i: int| 0 <= i < words.len() ==> is_word(#[trigger] words[i]),
    ensures
        forall|i: int|
            0 <= i < pieces(words, max_cols).len() ==> is_word(
                #[trigger] pieces(words, max_cols)[i],
            ),
        max_cols >= 1 ==> forall|i: int|
            0 <= i < pieces(words, max_cols).len() ==> #[trigger] pieces(words, max_cols)[i].len()
                <= max_cols,
        pieces(words, max_cols).flatten() == words.flatten(),
        (forall|i: int| 0 <= i < words.len() ==> #[trigger] words[i].len() <= max_cols) ==> pieces(
            words,
            max_cols,
        ) == words,
    decreases words.len(),
{
    if words.len() == 0 {
        assert(pieces(words, max_cols) =~= words);
    } else {
        let init = words.drop_last();
        let w = words.last();
        assert forall|i: int| 0 <= i < init.len() implies is_word(#[trigger] init[i]) by {
            assert(init[i] == words[i]);
        }
        assert(is_word(w)) by {
            assert(w == words[words.len() - 1]);
        }
        lemma_pieces(init, max_cols);
        lemma_chunks(w, max_cols);
        let pi = pieces(init, max_cols);
        let cw = chunks(w, max_cols);
        let p = pieces(words, max_cols);
        assert forall|i: int| 0 <= i < p.len() implies is_word(#[trigger] p[i]) && (max_cols >= 1
            ==> p[i].len() <= max_cols) by {
            if i < pi.len() {
                assert(p[i] == pi[i]);
            } else {
                assert(p[i] == cw[i - pi.len()]);
            }
        }
        vstd::seq_lib::lemma_flatten_concat(pi, cw);
        assert(init.push(w) =~= words);
        init.lemma_flatten_push(w);
        if forall|i: int| 0 <= i < words.len() ==> #[trigger] words[i].len() <= max_cols {
            assert forall|i: int| 0 <= i < init.len() implies #[trigger] init[i].len()
                <= max_cols by {
                assert(init[i] == words[i]);
            }
            assert(w.len() <= max_cols) by {
                assert(w == words[words.len() - 1]);
            }
            assert(cw == seq![w]);
            assert(p =~= words);
        }
    }
}

/// What `lemma_wrap_words` says, for the finished list of lines.
proof fn lemma_wrap_lines(words: Seq<Seq<char>>, max_cols: int)
    requires
        forall|i: int| 0 <= i < words.len() ==> is_word(#[trigger] words[i]),
    ensures
        words_of_lines(wrap_lines(words, max_cols)) == words,
        wrap_lines(words, max_cols).len() >= 1,
        max_cols >= 0 && (forall|i: int|
            0 <= i < words.len() ==> #[trigger] words[i].len() <= max_cols) ==> forall|i: int|
            0 <= i < wrap_lines(words, max_cols).len() ==> #[trigger] wrap_lines(
                words,
                max_cols,
            )[i].len() <= max_cols,
{
    lemma_wrap_words(words, max_cols);
    let (lines, cur) = wrap_words(words, max_cols);
    let all = wrap_lines(words, max_cols);
    if cur.len() > 0 {
        assert(lines.push(cur).drop_last() =~= lines);
    } else {
        if lines.len() == 0 {
            let one = seq![Seq::<char>::empty()];
            assert(one.drop_last() =~= seq![]);
            assert(words_of(Seq::<char>::empty()) =~= seq![]);
            assert(words_of_lines(one) =~= seq![]);
        }
    }
    if max_cols >= 0 && (forall|i: int|
        0 <= i < words.len() ==> #[trigger] words[i].len() <= max_cols) {
        assert forall|i: int| 0 <= i < all.len() implies #[trigger] all[i].len() <= max_cols by {
            if cur.len() > 0 && i == lines.len() {
                assert(all[i] == cur);
            } else if cur.len() > 0 {
                assert(all[i] == lines[i]);
            } else if lines.len() > 0 {
                assert(all[i] == lines[i]);
            }
        }
    }
}

/// Wrapping keeps the text's words: read back word by word, the wrapped
/// lines hold exactly the words of the text in order, each word longer than
/// a line cut into its chunks.
pub proof fn law_wrap_keeps_words(text: Seq<char>, max_cols: int)
    ensures
        words_of_lines(spec_wrap_text(text, max_cols)) == pieces(words_of(text), max_cols),
{
    lemma_words_are_words(text);
    lemma_pieces(words_of(text), max_cols);
    lemma_wrap_lines(pieces(words_of(text), max_cols), max_cols);
}

/// Cutting long words loses no character and changes no order: the pieces,
/// joined, spell the words, joined; and when every word fits on a line no
/// word is cut at all.
pub proof fn law_pieces_keep_words(text: Seq<char>, max_cols: int)
    ensures
        pieces(words_of(text), max_cols).flatten() == words_of(text).flatten(),
        (forall|i: int| 0 <= i < words_of(text).len() ==> #[trigger] words_of(text)[i].len()
            <= max_cols) ==> pieces(words_of(text), max_cols) == words_of(text),
{
    lemma_words_are_words(text);
    lemma_pieces(words_of(text), max_cols);
}

/// There is always at least one wrapped line, and with a wrap width of at
/// least one column no line is longer than `max_cols` characters.
pub proof fn law_wrap_lines_fit(text: Seq<char>, max_cols: int)
    ensures
        spec_wrap_text(text, max_cols).len() >= 1,
        max_cols >= 1 ==> forall|i: int|
            0 <= i < spec_wrap_text(text, max_cols).len() ==> #[trigger] spec_wrap_text(
                text,
                max_cols,
            )[i].len() <= max_cols,
{
    lemma_words_are_words(text);
    lemma_pieces(words_of(text), max_cols);
    lemma_wrap_lines(pieces(words_of(text), max_cols), max_cols);
}

/// Compositing a fully transparent colour leaves every pixel as it was.
pub proof fn law_transparent_fill_changes_nothing(
    bytes: Seq<u8>,
    width: int,
    x: int,
    y: int,
    w: int,
    h: int,
    r: u8,
    g: u8,
    b: u8,
)
    ensures
        spec_fill(bytes, width, x, y, w, h, (r, g, b, 0u8)) == bytes,
{
    let out = spec_fill(bytes, width, x, y, w, h, (r, g, b, 0u8));
    assert forall|i: int| 0 <= i < bytes.len() implies out[i] == bytes[i] by {
        let d = bytes[i] as int;
        vstd::arithmetic::div_mod::lemma_div_multiples_vanish(d, 255);
        assert(d * 255 == 255 * d) by (nonlinear_arith);
    }
    assert(out =~= bytes);
}

/// Compositing a fully opaque colour replaces each covered pixel with exactly
/// that colour (as premultiplied BGRA, fully opaque).
pub proof fn law_opaque_fill_sets_color(
    bytes: Seq<u8>,
    width: int,
    x: int,
    y: int,
    w: int,
    h: int,
    r: u8,
    g: u8,
    b: u8,
    i: int,
)
    requires
        0 <= i < bytes.len(),
        super::in_rect(super::px_of(i, width), super::py_of(i, width), x, y, w, h),
    ensures
        spec_fill(bytes, width, x, y, w, h, (r, g, b, 255u8))[i] == (if i % 4 == 0 {
            b
        } else if i % 4 == 1 {
            g
        } else if i % 4 == 2 {
            r
        } else {
            255u8
        }),
{
    let c: int = if i % 4 == 0 {
        b as int
    } else if i % 4 == 1 {
        g as int
    } else if i % 4 == 2 {
        r as int
    } else {
        255
    };
    vstd::arithmetic::div_mod::lemma_div_multiples_vanish(c, 255);
    assert(c * 255 == 255 * c) by (nonlinear_arith);
    let d = bytes[i] as int;
    assert(d * (255 - 255) / 255 == 0);
    assert(spec_fill(bytes, width, x, y, w, h, (r, g, b, 255u8))[i] == blend_channel(
        bytes[i],
        i % 4,
        (r, g, b, 255u8),
    ));
}

/// With a wrap width of at least one column, a bubble of any text is never
/// wider than `max_width` promises.
pub proof fn law_bubble_within_max_width(text: Seq<char>, style: BubbleStyle)
    requires
        style.max_cols >= 1,
        0 <= style.padding,
    ensures
        bubble_w(spec_wrap_text(text, style.max_cols as int), style) <= max_width_of(style),
{
    let m = style.max_cols as int;
    let lines = spec_wrap_text(text, m);
    law_wrap_lines_fit(text, m);
    lemma_max_line_len_bound(lines, m);
    let cols = bubble_cols(lines);
    assert(cols <= m);
    assert(cols * 8 * style.scale <= m * 8 * style.scale) by (nonlinear_arith)
        requires
            cols <= m,
            style.scale >= 0,
    ;
}

proof fn lemma_max_line_len_bound(lines: Seq<Seq<char>>, m: int)
    requires
        forall|i: int| 0 <= i < lines.len() ==> #[trigger] lines[i].len() <= m,
    ensures
        max_line_len(lines) <= m || lines.len() == 0,
    decreases lines.len(),
{
    if lines.len() > 0 {
        let init = lines.drop_last();
        assert forall|i: int| 0 <= i < init.len() implies #[trigger] init[i].len() <= m by {
            assert(init[i] == lines[i]);
        }
        lemma_max_line_len_bound(init, m);
        assert(lines.last() == lines[lines.len() - 1]);
    }
}

/// Byte `ch` (0 = blue, 1 = green, 2 = red, 3 = alpha) of the opaque colour
/// `c` as a premultiplied pixel.
pub open spec fn opaque_channel(c: Rgba, ch: int) -> u8 {
    if ch == 0 {
        c.2
    } else if ch == 1 {
        c.1
    } else if ch == 2 {
        c.0
    } else {
        255u8
    }
}

/// The pixel (`px`, `py`) lies in the `scale` × `scale` square that bit `c`
/// (set) of row `r` of the glyph of character `j` of line `i` gets in a
/// bubble at (`x`, `y`): lines go down one cell height each, characters right
/// one cell width each, inside the padding.
pub open spec fn text_pixel(
    lines: Seq<Seq<char>>,
    style: BubbleStyle,
    x: int,
    y: int,
    px: int,
    py: int,
    i: int,
    j: int,
    r: int,
    c: int,
) -> bool {
    &&& 0 <= i < lines.len()
    &&& 0 <= j < lines[i].len()
    &&& 0 <= r < 8
    &&& 0 <= c < 8
    &&& glyph_bit(glyph_rows(lines[i][j])[r], c as u32)
    &&& in_rect(
        px,
        py,
        x + style.padding + j * 8 * style.scale + c * style.scale,
        y + style.padding + i * 8 * style.scale + r * style.scale,
        style.scale as int,
        style.scale as int,
    )
}

/// The byte `k` of `b` holds the opaque colour `col`.
pub open spec fn holds_opaque(b: Seq<u8>, k: int, col: Rgba) -> bool {
    b[k] == opaque_channel(col, k % 4)
}

proof fn lemma_opaque_fill(b: Seq<u8>, width: int, x: int, y: int, w: int, h: int, col: Rgba, k: int)
    requires
        col.3 == 255,
        0 <= k < b.len(),
    ensures
        in_rect(px_of(k, width), py_of(k, width), x, y, w, h) ==> holds_opaque(
            spec_fill(b, width, x, y, w, h, col),
            k,
            col,
        ),
        !in_rect(px_of(k, width), py_of(k, width), x, y, w, h) ==> spec_fill(
            b,
            width,
            x,
            y,
            w,
            h,
            col,
        )[k] == b[k],
{
    let ch = k % 4;
    let v = opaque_channel(col, ch) as int;
    let cv: int = if ch == 0 {
        col.2 as int
    } else if ch == 1 {
        col.1 as int
    } else if ch == 2 {
        col.0 as int
    } else {
        255
    };
    assert(cv == v);
    vstd::arithmetic::div_mod::lemma_div_multiples_vanish(cv, 255);
    assert(cv * 255 == 255 * cv) by (nonlinear_arith);
    let d = b[k] as int;
    assert(d * (255 - 255) / 255 == 0);
    assert(blend_channel(b[k], ch, col) == v);
}

proof fn lemma_glyph_keeps(
    b: Seq<u8>,
    width: int,
    x: int,
    y: int,
    rows: Seq<u8>,
    scale: int,
    col: Rgba,
    m: int,
    k: int,
)
    requires
        col.3 == 255,
        0 <= k < b.len(),
        holds_opaque(b, k, col),
    ensures
        holds_opaque(spec_glyph_cells(b, width, x, y, rows, scale, col, m), k, col),
        spec_glyph_cells(b, width, x, y, rows, scale, col, m).len() == b.len(),
    decreases m,
{
    if m > 0 {
        lemma_glyph_keeps(b, width, x, y, rows, scale, col, m - 1, k);
        let prev = spec_glyph_cells(b, width, x, y, rows, scale, col, m - 1);
        let row = (m - 1) / 8;
        let cl = (m - 1) % 8;
        lemma_opaque_fill(prev, width, x + cl * scale, y + row * scale, scale, scale, col, k);
    }
}

proof fn lemma_glyph_hits(
    b: Seq<u8>,
    width: int,
    x: int,
    y: int,
    rows: Seq<u8>,
    scale: int,
    col: Rgba,
    m: int,
    k: int,
    r: int,
    c: int,
)
    requires
        col.3 == 255,
        0 <= k < b.len(),
        0 <= r < 8,
        0 <= c < 8,
        r * 8 + c < m,
        glyph_bit(rows[r], c as u32),
        in_rect(px_of(k, width), py_of(k, width), x + c * scale, y + r * scale, scale, scale),
    ensures
        holds_opaque(spec_glyph_cells(b, width, x, y, rows, scale, col, m), k, col),
    decreases m,
{
    let prev = spec_glyph_cells(b, width, x, y, rows, scale, col, m - 1);
    lemma_glyph_len(b, width, x, y, rows, scale, col, m - 1);
    let row = (m - 1) / 8;
    let cl = (m - 1) % 8;
    if m - 1 == r * 8 + c {
        assert(row == r && cl == c);
    } else {
        lemma_glyph_hits(b, width, x, y, rows, scale, col, m - 1, k, r, c);
    }
    lemma_opaque_fill(prev, width, x + cl * scale, y + row * scale, scale, scale, col, k);
}

proof fn lemma_glyph_len(
    b: Seq<u8>,
    width: int,
    x: int,
    y: int,
    rows: Seq<u8>,
    scale: int,
    col: Rgba,
    m: int,
)
    ensures
        spec_glyph_cells(b, width, x, y, rows, scale, col, m).len() == b.len(),
    decreases m,
{
    if m > 0 {
        lemma_glyph_len(b, width, x, y, rows, scale, col, m - 1);
    }
}

proof fn lemma_line_len(
    b: Seq<u8>,
    width: int,
    lx: int,
    ly: int,
    line: Seq<char>,
    style: BubbleStyle,
    m: int,
)
    ensures
        spec_line(b, width, lx, ly, line, style, m).len() == b.len(),
    decreases m,
{
    if m > 0 {
        lemma_line_len(b, width, lx, ly, line, style, m - 1);
        let prev = spec_line(b, width, lx, ly, line, style, m - 1);
        lemma_glyph_len(
            prev,
            width,
            lx + (m - 1) * GLYPH_WIDTH * style.scale,
            ly,
            glyph_rows(line[m - 1]),
            style.scale as int,
            style.fg,
            64,
        );
    }
}

/// Once a byte holds the opaque text colour, drawing more characters leaves
/// it so; a character drawn over byte `k` sets it.
proof fn lemma_line_text(
    b: Seq<u8>,
    width: int,
    lx: int,
    ly: int,
    line: Seq<char>,
    style: BubbleStyle,
    m: int,
    k: int,
    j: int,
    r: int,
    c: int,
)
    requires
        style.fg.3 == 255,
        0 <= k < b.len(),
        holds_opaque(b, k, style.fg) || (0 <= j < m && 0 <= j < line.len() && 0 <= r < 8 && 0
            <= c < 8 && glyph_bit(glyph_rows(line[j])[r], c as u32) && in_rect(
            px_of(k, width),
            py_of(k, width),
            lx + j * 8 * style.scale + c * style.scale,
            ly + r * style.scale,
            style.scale as int,
            style.scale as int,
        )),
    ensures
        holds_opaque(spec_line(b, width, lx, ly, line, style, m), k, style.fg),
    decreases m,
{
    let s = style.scale as int;
    if m > 0 {
        let prev = spec_line(b, width, lx, ly, line, style, m - 1);
        lemma_line_len(b, width, lx, ly, line, style, m - 1);
        let gx = lx + (m - 1) * GLYPH_WIDTH * style.scale;
        let rows = glyph_rows(line[m - 1]);
        if holds_opaque(b, k, style.fg) || j < m - 1 {
            lemma_line_text(b, width, lx, ly, line, style, m - 1, k, j, r, c);
            lemma_glyph_keeps(prev, width, gx, ly, rows, s, style.fg, 64, k);
        } else {
            assert(j == m - 1);
            assert(gx + c * s == lx + j * 8 * style.scale + c * style.scale);
            lemma_glyph_hits(prev, width, gx, ly, rows, s, style.fg, 64, k, r, c);
        }
    }
}

proof fn lemma_lines_text(
    b: Seq<u8>,
    width: int,
    x: int,
    y: int,
    lines: Seq<Seq<char>>,
    style: BubbleStyle,
    n: int,
    k: int,
    i: int,
    j: int,
    r: int,
    c: int,
)
    requires
        style.fg.3 == 255,
        0 <= k < b.len(),
        i < n,
        text_pixel(lines, style, x, y, px_of(k, width), py_of(k, width), i, j, r, c),
    ensures
        holds_opaque(spec_lines(b, width, x, y, lines, style, n), k, style.fg),
        spec_lines(b, width, x, y, lines, style, n).len() == b.len(),
    decreases n,
{
    let prev = spec_lines(b, width, x, y, lines, style, n - 1);
    let ly = y + style.padding + (n - 1) * GLYPH_HEIGHT * style.scale;
    let line = lines[n - 1];
    lemma_lines_len(b, width, x, y, lines, style, n - 1);
    lemma_line_len(prev, width, x + style.padding, ly, line, style, line.len() as int);
    if i < n - 1 {
        lemma_lines_text(b, width, x, y, lines, style, n - 1, k, i, j, r, c);
        lemma_line_text(prev, width, x + style.padding, ly, line, style, line.len() as int, k, j, r, c);
    } else {
        assert(i == n - 1);
        assert(ly + r * style.scale == y + style.padding + i * 8 * style.scale + r * style.scale);
        lemma_line_text(prev, width, x + style.padding, ly, line, style, line.len() as int, k, j, r, c);
    }
}

proof fn lemma_lines_len(
    b: Seq<u8>,
    width: int,
    x: int,
    y: int,
    lines: Seq<Seq<char>>,
    style: BubbleStyle,
    n: int,
)
    ensures
        spec_lines(b, width, x, y, lines, style, n).len() == b.len(),
    decreases n,
{
    if n > 0 {
        lemma_lines_len(b, width, x, y, lines, style, n - 1);
        let prev = spec_lines(b, width, x, y, lines, style, n - 1);
        let line = lines[n - 1];
        lemma_line_len(
            prev,
            width,
            x + style.padding,
            y + style.padding + (n - 1) * GLYPH_HEIGHT * style.scale,
            line,
            style,
            line.len() as int,
        );
    }
}

proof fn lemma_fill_len(b: Seq<u8>, width: int, x: int, y: int, w: int, h: int, col: Rgba)
    ensures
        spec_fill(b, width, x, y, w, h, col).len() == b.len(),
{
}

/// Every line of text is drawn in its own row of cells: with an opaque text
/// colour, each byte of a pixel in the square of a set glyph bit of
/// character `j` of line `i` (the square at column `j` and row `i` of
/// character cells inside the padding, see `text_pixel`) holds the text
/// colour once the bubble is drawn.
pub proof fn law_text_drawn_in_its_cell(
    bytes: Seq<u8>,
    width: int,
    x: int,
    y: int,
    lines: Seq<Seq<char>>,
    style: BubbleStyle,
    k: int,
    i: int,
    j: int,
    r: int,
    c: int,
)
    requires
        style.fg.3 == 255,
        0 <= k < bytes.len(),
        text_pixel(lines, style, x, y, px_of(k, width), py_of(k, width), i, j, r, c),
    ensures
        holds_opaque(spec_draw_bubble(bytes, width, x, y, lines, style), k, style.fg),
{
    let w = bubble_w(lines, style);
    let h = bubble_h(lines, style);
    let filled = spec_fill(bytes, width, x, y, w, h, style.bg);
    lemma_fill_len(bytes, width, x, y, w, h, style.bg);
    let framed = spec_stroke(filled, width, x, y, w, h, style.border);
    lemma_fill_len(filled, width, x, y, w, 1, style.border);
    lemma_fill_len(spec_fill(filled, width, x, y, w, 1, style.border), width, x, y + h - 1, w, 1, style.border);
    lemma_fill_len(
        spec_fill(spec_fill(filled, width, x, y, w, 1, style.border), width, x, y + h - 1, w, 1, style.border),
        width,
        x,
        y,
        1,
        h,
        style.border,
    );
    lemma_fill_len(
        spec_fill(
            spec_fill(spec_fill(filled, width, x, y, w, 1, style.border), width, x, y + h - 1, w, 1, style.border),
            width,
            x,
            y,
            1,
            h,
            style.border,
        ),
        width,
        x + w - 1,
        y,
        1,
        h,
        style.border,
    );
    assert(framed.len() == bytes.len());
    lemma_lines_text(framed, width, x, y, lines, style, lines.len() as int, k, i, j, r, c);
}

/// A glyph whose pixel bytes cover all its pixels can be blitted anywhere.
proof fn lemma_whole_glyph_blits(width: int, height: int, x: int, y: int, w: int, h: int, len: int)
    requires
        0 <= w,
        0 <= h,
        len >= w * h * 4,
    ensures
        blit_source_ok(width, height, x, y, w, h, len),
{
    assert forall|row: int, col: int|
        0 <= row < h && 0 <= col < w && 0 <= x + col < width && 0 <= y + row < height implies #[trigger] super::src_offset(
        w,
        col,
        row,
    ) + 4 <= len by {
        assert((row * w + col) * 4 + 4 <= w * h * 4) by (nonlinear_arith)
            requires
                0 <= row < h,
                0 <= col < w,
        ;
    }
}

/// `compose`'s inputs fit (see `compose_fits`) and the glyph's pixel bytes
/// cover the whole glyph.
pub open spec fn compose_checked_fits(
    canvas_w: u32,
    canvas_h: u32,
    glyph: GlyphBitmap,
    bubble_text: Option<Seq<char>>,
    style: BubbleStyle,
    prefer_below: bool,
) -> bool {
    &&& glyph.rgba@.len() >= glyph.width * glyph.height * 4
    &&& compose_fits(canvas_w, canvas_h, glyph, bubble_text, style, prefer_below)
}

/// `compose`, after checking that its inputs fit: `None` exactly when they
/// do not (or the glyph's pixel bytes do not cover the glyph).
pub fn compose_checked(
    canvas_w: u32,
    canvas_h: u32,
    glyph: &GlyphBitmap,
    bubble_text: Option<&str>,
    style: &BubbleStyle,
    prefer_below: bool,
) -> (r: Option<Layout>)
    ensures
        r is Some <==> compose_checked_fits(
            canvas_w,
            canvas_h,
            *glyph,
            text_view(bubble_text),
            *style,
            prefer_below,
        ),
        r matches Some(l) ==> {
            &&& l.frame.width == canvas_w
            &&& l.frame.height == canvas_h
            &&& l.frame.wf()
            &&& l.frame.bgra@ == spec_compose(
                canvas_w,
                canvas_h,
                *glyph,
                text_view(bubble_text),
                *style,
                prefer_below,
            )
            &&& l.glyph_center.0 == frog_x(canvas_w as int, *glyph) + glyph.width / 2
            &&& l.glyph_center.1 == frog_y(canvas_h as int, *glyph, prefer_below) + glyph.height / 2
        },
{
    assert(glyph.width * glyph.height <= 0x1_0000_0000 * 0x1_0000_0000) by (nonlinear_arith)
        requires
            glyph.width <= u32::MAX,
            glyph.height <= u32::MAX,
    ;
    assert(canvas_w * canvas_h <= 0x1_0000_0000 * 0x1_0000_0000) by (nonlinear_arith)
        requires
            canvas_w <= u32::MAX,
            canvas_h <= u32::MAX,
    ;
    let need: u128 = glyph.width as u128 * glyph.height as u128 * 4;
    if (glyph.rgba.len() as u128) < need {
        return None;
    }
    if canvas_w as u128 * canvas_h as u128 * 4 > u32::MAX as u128 || glyph.width > canvas_w || canvas_w
        > i32::MAX as u32 || canvas_h > i32::MAX as u32 || glyph.height > i32::MAX as u32 {
        return None;
    }
    let fx: i64 = ((canvas_w - glyph.width) / 2) as i64;
    let fy: i64 = if prefer_below {
        EDGE_MARGIN as i64
    } else {
        canvas_h as i64 - EDGE_MARGIN as i64 - glyph.height as i64
    };
    if fy < i32::MIN as i64 {
        return None;
    }
    proof {
        lemma_whole_glyph_blits(
            canvas_w as int,
            canvas_h as int,
            fx as int,
            fy as int,
            glyph.width as int,
            glyph.height as int,
            glyph.rgba@.len() as int,
        );
    }
    match bubble_text {
        Some(text) => {
            match measure_text(text, style) {
                None => {
                    return None;
                },
                Some((bw, bh)) => {
                    let bx: i64 = fx + (glyph.width / 2) as i64 - (bw / 2) as i64;
                    let by: i64 = if prefer_below {
                        fy + glyph.height as i64 + BUBBLE_GAP as i64
                    } else {
                        fy - BUBBLE_GAP as i64 - bh as i64
                    };
                    if bx < i32::MIN as i64 || bx > i32::MAX as i64 || by < i32::MIN as i64 || by
                        > i32::MAX as i64 {
                        return None;
                    }
                },
            }
        },
        None => {},
    }
    Some(compose(canvas_w, canvas_h, glyph, bubble_text, style, prefer_below))
}

} // verus!
