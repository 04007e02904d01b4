//! Layout of the About window: its size, and the filled squares that spell
//! its text in the 8x8 bitmap font.
use super::bubble::{chars_of, glyph_bit, max_line_len, string_views};
use super::font::{glyph_for, glyph_rows, GLYPH_HEIGHT, GLYPH_WIDTH};
use vstd::prelude::*;

verus! {

/// A filled square: left, top, width, height.
pub type Square = (i32, i32, u32, u32);

/// The squares of the first `k` cells (row by row, each row left to right)
/// of the glyph with bitmap `rows` whose top-left corner is at (`x`, `y`):
/// one `scale` × `scale` square per set bit.
pub open spec fn glyph_squares(x: int, y: int, rows: Seq<u8>, scale: int, k: int) -> Seq<Square>
    decreases k,
{
    if k <= 0 {
        seq![]
    } else {
        let prev = glyph_squares(x, y, rows, scale, k - 1);
        let row = (k - 1) / 8;
        let col = (k - 1) % 8;
        if glyph_bit(rows[row], col as u32) {
            prev.push(((x + col * scale) as i32, (y + row * scale) as i32, scale as u32, scale as u32))
        } else {
            prev
        }
    }
}

/// The squares of the first `n` characters of `line`, whose first cell has
/// its top-left corner at (`x`, `y`).
pub open spec fn line_squares(x: int, y: int, line: Seq<char>, scale: int, n: int) -> Seq<Square>
    decreases n,
{
    if n <= 0 {
        seq![]
    } else {
        line_squares(x, y, line, scale, n - 1) + glyph_squares(
            x + (n - 1) * GLYPH_WIDTH * scale,
            y,
            glyph_rows(line[n - 1]),
            scale,
            64,
        )
    }
}

/// The squares of the first `n` of `lines`, each line one cell height below
/// the previous one, all inset by `padding`.
pub open spec fn text_squares(lines: Seq<Seq<char>>, scale: int, padding: int, n: int) -> Seq<
    Square,
>
    decreases n,
{
    if n <= 0 {
        seq![]
    } else {
        text_squares(lines, scale, padding, n - 1) + line_squares(
            padding,
            padding + (n - 1) * GLYPH_HEIGHT * scale,
            lines[n - 1],
            scale,
            lines[n - 1].len() as int,
        )
    }
}

/// All squares that spell `lines`: line by line, character by character,
/// glyph row by glyph row, bit by bit.
pub open spec fn about_squares(lines: Seq<Seq<char>>, scale: int, padding: int) -> Seq<Square> {
    text_squares(lines, scale, padding, lines.len() as int)
}

/// Columns of the About window: its longest line, or one when it has none.
pub open spec fn about_cols(lines: Seq<Seq<char>>) -> int {
    if lines.len() == 0 {
        1
    } else {
        max_line_len(lines) as int
    }
}

proof fn lemma_cell_bound(j: int, c: int, n: int, scale: int)
    requires
        0 <= j < n,
        0 <= c < 8,
        0 <= scale,
    ensures
        j * 8 * scale + c * scale + scale <= n * 8 * scale,
        0 <= j * 8 * scale,
        0 <= c * scale,
{
    assert(j * 8 * scale + c * scale + scale <= n * 8 * scale) by (nonlinear_arith)
        requires
            0 <= j < n,
            0 <= c < 8,
            0 <= scale,
    ;
    assert(0 <= j * 8 * scale && 0 <= c * scale) by (nonlinear_arith)
        requires
            0 <= j,
            0 <= c,
            0 <= scale,
    ;
}

fn push_glyph_squares(out: &mut Vec<Square>, x: u64, y: u64, rows: &[u8; 8], scale: u32)
    requires
        x + 8 * scale <= i32::MAX,
        y + 8 * scale <= i32::MAX,
    ensures
        final(out)@ == old(out)@ + glyph_squares(x as int, y as int, rows@, scale as int, 64),
{
    let mut row: u64 = 0;
    while row < 8
        invariant
            0 <= row <= 8,
            x + 8 * scale <= i32::MAX,
            y + 8 * scale <= i32::MAX,
            out@ == old(out)@ + glyph_squares(
                x as int,
                y as int,
                rows@,
                scale as int,
                (row * 8) as int,
            ),
        decreases 8 - row,
    {
        let bits = rows[row as usize];
        let mut col: u64 = 0;
        while col < 8
            invariant
                0 <= col <= 8,
                0 <= row < 8,
                bits == rows@[row as int],
                x + 8 * scale <= i32::MAX,
                y + 8 * scale <= i32::MAX,
                out@ == old(out)@ + glyph_squares(
                    x as int,
                    y as int,
                    rows@,
                    scale as int,
                    (row * 8 + col) as int,
                ),
            decreases 8 - col,
        {
            let ghost k = row * 8 + col + 1;
            assert((k - 1) / 8 == row && (k - 1) % 8 == col);
            let ghost before = out@;
            if (bits >> (col as u32)) & 1 == 1 {
                proof {
                    lemma_cell_bound(0, col as int, 1, scale as int);
                    lemma_cell_bound(0, row as int, 1, scale as int);
                }
                let cx: u64 = x + col * (scale as u64);
                let cy: u64 = y + row * (scale as u64);
                out.push((cx as i32, cy as i32, scale, scale));
                assert(out@ =~= old(out)@ + glyph_squares(
                    x as int,
                    y as int,
                    rows@,
                    scale as int,
                    k as int,
                ));
            }
            col += 1;
        }
        row += 1;
    }
}

fn push_line_squares(out: &mut Vec<Square>, x: u64, y: u64, line: &Vec<char>, scale: u32)
    requires
        x + line@.len() * 8 * scale <= i32::MAX,
        y + 8 * scale <= i32::MAX,
    ensures
        final(out)@ == old(out)@ + line_squares(
            x as int,
            y as int,
            line@,
            scale as int,
            line@.len() as int,
        ),
{
    let mut j: usize = 0;
    while j < line.len()
        invariant
            0 <= j <= line.len(),
            x + line@.len() * 8 * scale <= i32::MAX,
            y + 8 * scale <= i32::MAX,
            out@ == old(out)@ + line_squares(x as int, y as int, line@, scale as int, j as int),
        decreases line.len() - j,
    {
        proof {
            lemma_cell_bound(j as int, 7, line@.len() as int, scale as int);
            assert(j * (8 * scale) == j * 8 * scale) by (nonlinear_arith);
        }
        let cx: u64 = x + (j as u64) * (8 * (scale as u64));
        let rows = glyph_for(line[j]);
        let ghost before = out@;
        push_glyph_squares(out, cx, y, &rows, scale);
        assert(out@ =~= old(out)@ + line_squares(
            x as int,
            y as int,
            line@,
            scale as int,
            j as int + 1,
        ));
        j += 1;
    }
}

/// Size of the About window showing `lines` in the 8x8 font magnified
/// `scale` times with `padding` pixels around the text, and the squares to
/// fill to draw that text: width, height, squares.
pub fn about_layout(lines: &Vec<String>, scale: u32, padding: u32) -> (r: (u32, u32, Vec<Square>))
    requires
        about_cols(string_views(lines@)) * GLYPH_WIDTH * scale + 2 * padding <= i32::MAX,
        lines@.len() * GLYPH_HEIGHT * scale + 2 * padding <= i32::MAX,
    ensures
        r.0 == about_cols(string_views(lines@)) * GLYPH_WIDTH * scale + 2 * padding,
        r.1 == lines@.len() * GLYPH_HEIGHT * scale + 2 * padding,
        r.2@ == about_squares(string_views(lines@), scale as int, padding as int),
{
    let ghost ls = string_views(lines@);
    let mut out: Vec<Square> = Vec::new();
    let mut longest: usize = 0;
    let mut i: usize = 0;
    while i < lines.len()
        invariant
            0 <= i <= lines.len(),
            ls == string_views(lines@),
            about_cols(ls) * 8 * scale + 2 * padding <= i32::MAX,
            lines@.len() * 8 * scale + 2 * padding <= i32::MAX,
            longest == max_line_len(ls.take(i as int)),
            out@ == text_squares(ls, scale as int, padding as int, i as int),
        decreases lines.len() - i,
    {
        let cs = chars_of(lines[i].as_str());
        assert(cs@ == ls[i as int]);
        assert(ls.take(i as int + 1).drop_last() =~= ls.take(i as int));
        proof {
            super::bubble::lemma_max_line_len(ls);
            lemma_cell_bound(0, 0, 1, scale as int);
            assert(cs@.len() * 8 * scale <= about_cols(ls) * 8 * scale) by (nonlinear_arith)
                requires
                    cs@.len() <= about_cols(ls),
                    0 <= scale,
            ;
            assert((i + 1) * 8 * scale <= lines@.len() * 8 * scale) by (nonlinear_arith)
                requires
                    i + 1 <= lines@.len(),
                    0 <= scale,
            ;
            assert(i * 8 * scale + 8 * scale == (i + 1) * 8 * scale) by (nonlinear_arith);
            assert(0 <= i * 8 * scale) by (nonlinear_arith);
            assert(i * (8 * scale) == i * 8 * scale) by (nonlinear_arith);
        }
        let y: u64 = padding as u64 + (i as u64) * (8 * (scale as u64));
        push_line_squares(&mut out, padding as u64, y, &cs, scale);
        if cs.len() > longest {
            longest = cs.len();
        }
        i += 1;
    }
    assert(ls.take(lines.len() as int) =~= ls);
    let cols: u64 = if lines.len() == 0 {
        1
    } else {
        longest as u64
    };
    proof {
        assert(0 <= cols * 8 * scale && 0 <= lines@.len() * 8 * scale) by (nonlinear_arith)
            requires
                0 <= cols,
                0 <= scale,
        ;
        assert(cols * (8 * scale) == cols * 8 * scale) by (nonlinear_arith);
        assert(lines@.len() * (8 * scale) == lines@.len() * 8 * scale) by (nonlinear_arith);
    }
    let w: u64 = cols * (8 * (scale as u64)) + 2 * (padding as u64);
    let h: u64 = (lines.len() as u64) * (8 * (scale as u64)) + 2 * (padding as u64);
    (w as u32, h as u32, out)
}

} // verus!
