use deskfrog::render::about::about_layout;
use deskfrog::render::bubble::{draw_glyph, compose, compose_checked, max_width, measure_text, wrap_text, BubbleStyle};
use deskfrog::render::font::{glyph_for, GLYPH_HEIGHT, GLYPH_WIDTH};
use deskfrog::render::glyph::{rgba_to_argb, GlyphBitmap};
use deskfrog::render::Frame;

fn px(f: &Frame, x: u32, y: u32) -> [u8; 4] {
    let i = ((y * f.width + x) * 4) as usize;
    [f.bgra[i], f.bgra[i + 1], f.bgra[i + 2], f.bgra[i + 3]]
}

#[test]
fn new_frame_is_transparent() {
    let f = Frame::new(3, 2);
    assert_eq!(f.bgra.len(), 24);
    assert!(f.bgra.iter().all(|b| *b == 0));
}

#[test]
fn opaque_fill_sets_exact_color() {
    let mut f = Frame::new(2, 2);
    f.fill_rect(0, 0, 1, 1, (255, 0, 0, 255));
    assert_eq!(px(&f, 0, 0), [0, 0, 255, 255]);
    assert_eq!(px(&f, 1, 0), [0, 0, 0, 0]);
    f.fill_rect(0, 0, 1, 1, (1, 2, 3, 255));
    assert_eq!(px(&f, 0, 0), [3, 2, 1, 255]);
}

#[test]
fn transparent_fill_changes_nothing() {
    let mut f = Frame::new(2, 2);
    f.fill_rect(0, 0, 2, 2, (200, 100, 50, 128));
    let before = f.bgra.clone();
    f.fill_rect(-5, -5, 100, 100, (255, 255, 255, 0));
    assert_eq!(f.bgra, before);
}

#[test]
fn half_alpha_fill_composites_over() {
    let mut f = Frame::new(1, 1);
    f.fill_rect(0, 0, 1, 1, (200, 100, 50, 128));
    assert_eq!(px(&f, 0, 0), [25, 50, 100, 128]);
    f.fill_rect(0, 0, 1, 1, (200, 100, 50, 128));
    assert_eq!(px(&f, 0, 0), [37, 74, 149, 191]);
}

#[test]
fn fill_is_clipped_to_frame() {
    let mut f = Frame::new(2, 2);
    f.fill_rect(1, -3, 10, 4, (0, 255, 0, 255));
    assert_eq!(px(&f, 1, 0), [0, 255, 0, 255]);
    assert_eq!(px(&f, 0, 0), [0, 0, 0, 0]);
    assert_eq!(px(&f, 1, 1), [0, 0, 0, 0]);
    f.fill_rect(i32::MAX, i32::MAX, u32::MAX, 1, (0, 255, 0, 255));
    assert_eq!(px(&f, 1, 1), [0, 0, 0, 0]);
}

#[test]
fn stroke_blends_corners_twice() {
    let mut f = Frame::new(3, 3);
    f.stroke_rect(0, 0, 3, 3, (0, 0, 255, 128));
    assert_eq!(px(&f, 0, 0), [191, 0, 0, 191]);
    assert_eq!(px(&f, 1, 0), [128, 0, 0, 128]);
    assert_eq!(px(&f, 1, 1), [0, 0, 0, 0]);
    assert_eq!(px(&f, 2, 2), [191, 0, 0, 191]);
}

#[test]
fn empty_stroke_draws_nothing() {
    let mut f = Frame::new(3, 3);
    f.stroke_rect(0, 0, 0, 3, (0, 0, 255, 255));
    f.stroke_rect(0, 0, 3, 0, (0, 0, 255, 255));
    assert!(f.bgra.iter().all(|b| *b == 0));
}

#[test]
fn blit_places_and_clips_source() {
    let mut f = Frame::new(2, 2);
    f.blit_rgba_straight(1, 1, 1, 1, &[10, 20, 30, 255]);
    assert_eq!(px(&f, 1, 1), [30, 20, 10, 255]);
    let mut g = Frame::new(2, 2);
    let src = [0, 0, 0, 255, 0, 0, 0, 255, 0, 0, 0, 255, 9, 8, 7, 255];
    g.blit_rgba_straight(-1, -1, 2, 2, &src);
    assert_eq!(px(&g, 0, 0), [7, 8, 9, 255]);
    assert_eq!(px(&g, 1, 0), [0, 0, 0, 0]);
}

#[test]
fn wrap_greedily_fills_lines() {
    assert_eq!(
        wrap_text("I have important frog business.", 16),
        vec!["I have important".to_string(), "frog business.".to_string()]
    );
}

#[test]
fn wrap_empty_text_gives_one_empty_line() {
    assert_eq!(wrap_text("", 16), vec![String::new()]);
    assert_eq!(wrap_text(" \t\n ", 16), vec![String::new()]);
}

#[test]
fn wrap_splits_on_unicode_white_space() {
    assert_eq!(wrap_text("a\tb\u{a0}c\u{3000}d", 16), vec!["a b c d".to_string()]);
    assert_eq!(wrap_text("  Ribbit.  ", 16), vec!["Ribbit.".to_string()]);
}

#[test]
fn wrap_cuts_overlong_word_into_chunks() {
    assert_eq!(
        wrap_text("hi abcdefghij yo", 5),
        vec!["hi".to_string(), "abcde".to_string(), "fghij".to_string(), "yo".to_string()]
    );
    assert_eq!(wrap_text("ab", 1), vec!["a".to_string(), "b".to_string()]);
    assert_eq!(wrap_text("abcdefg h", 5), vec!["abcde".to_string(), "fg h".to_string()]);
    assert_eq!(
        wrap_text("Supercalifragilistic", 16),
        vec!["Supercalifragili".to_string(), "stic".to_string()]
    );
}

#[test]
fn wrap_width_zero_cuts_nothing() {
    assert_eq!(wrap_text("a b", 0), vec!["a".to_string(), "b".to_string()]);
    assert_eq!(wrap_text("abc de", 0), vec!["abc".to_string(), "de".to_string()]);
}

#[test]
fn wrap_counts_characters_not_bytes() {
    assert_eq!(wrap_text("ééé ü", 5), vec!["ééé ü".to_string()]);
}

#[test]
fn wrap_keeps_every_character_within_the_width() {
    let text = "Is that a bug? Tasty. Why is your mouse so fast? Supercalifragilistic";
    for cols in 1..30 {
        let lines = wrap_text(text, cols);
        let rejoined: String = lines.iter().flat_map(|l| l.split_whitespace()).collect();
        let expected: String = text.split_whitespace().collect();
        assert_eq!(rejoined, expected);
        for l in &lines {
            assert!(l.chars().count() <= cols);
        }
        let style = BubbleStyle { max_cols: cols, ..BubbleStyle::default() };
        let (w, _) = measure_text(text, &style).unwrap();
        assert!(w <= max_width(&style));
    }
}

#[test]
fn wrap_keeps_every_word_when_words_fit() {
    let text = "Is that a bug? Tasty. Why is your mouse so fast?";
    for cols in 6..30 {
        let lines = wrap_text(text, cols);
        let rejoined: Vec<String> =
            lines.iter().flat_map(|l| l.split_whitespace().map(|w| w.to_string())).collect();
        let expected: Vec<String> = text.split_whitespace().map(|w| w.to_string()).collect();
        assert_eq!(rejoined, expected);
    }
}

#[test]
fn bubble_never_wider_than_max_width() {
    let mut style = BubbleStyle::default();
    style.max_cols = 1;
    assert_eq!(max_width(&style), 16);
    assert_eq!(measure_text("ab", &style), Some((16, 24)));
}

#[test]
fn max_width_of_default_style() {
    let style = BubbleStyle::default();
    assert_eq!(style.scale, 1);
    assert_eq!(style.padding, 4);
    assert_eq!(style.max_cols, 16);
    assert_eq!(max_width(&style), 136);
    let mut big = BubbleStyle::default();
    big.scale = 2;
    assert_eq!(max_width(&big), 16 * GLYPH_WIDTH * 2 + 8);
    assert_eq!(GLYPH_HEIGHT, 8);
}

fn red_glyph() -> GlyphBitmap {
    GlyphBitmap { width: 2, height: 2, rgba: [255u8, 0, 0, 255].repeat(4) }
}

#[test]
fn compose_centres_frog_near_bottom() {
    let layout = compose(10, 10, &red_glyph(), None, &BubbleStyle::default(), false);
    assert_eq!(layout.glyph_center, (5, 5));
    assert_eq!(layout.frame.width, 10);
    assert_eq!(px(&layout.frame, 4, 4), [0, 0, 255, 255]);
    assert_eq!(px(&layout.frame, 5, 5), [0, 0, 255, 255]);
    assert_eq!(px(&layout.frame, 0, 0), [0, 0, 0, 0]);
    assert_eq!(px(&layout.frame, 6, 6), [0, 0, 0, 0]);
}

#[test]
fn compose_draws_bubble_below() {
    let style = BubbleStyle::default();
    let layout = compose(200, 60, &red_glyph(), Some("Hi"), &style, true);
    assert_eq!(layout.glyph_center, (100, 5));
    // Bubble box 24 x 16 at (88, 9): opaque border over the background.
    assert_eq!(px(&layout.frame, 88, 9), [230, 230, 230, 255]);
    assert_eq!(px(&layout.frame, 111, 24), [230, 230, 230, 255]);
    // Inside the padding: background only.
    assert_eq!(px(&layout.frame, 89, 10), [9, 9, 9, 235]);
    // Outside the box: untouched.
    assert_eq!(px(&layout.frame, 87, 9), [0, 0, 0, 0]);
    // Some pixel of the text is lit in the foreground colour.
    let mut lit = 0;
    for y in 13..21 {
        for x in 92..108 {
            if px(&layout.frame, x, y) == [230, 230, 230, 255] {
                lit += 1;
            }
        }
    }
    assert!(lit > 0);
}

#[test]
fn compose_draws_bubble_above() {
    let style = BubbleStyle::default();
    let layout = compose(200, 60, &red_glyph(), Some("Hi"), &style, false);
    // Frog at y = 60 - 4 - 2 = 54, bubble top at 54 - 3 - 16 = 35.
    assert_eq!(layout.glyph_center, (100, 55));
    assert_eq!(px(&layout.frame, 88, 35), [230, 230, 230, 255]);
    assert_eq!(px(&layout.frame, 88, 34), [0, 0, 0, 0]);
}

#[test]
fn font_glyphs_come_from_font8x8() {
    assert_eq!(glyph_for('A'), [0x0C, 0x1E, 0x33, 0x33, 0x3F, 0x33, 0x33, 0x00]);
    assert_eq!(glyph_for('A'), font8x8::legacy::BASIC_LEGACY[65]);
    assert_eq!(glyph_for(' '), [0; 8]);
    assert_eq!(glyph_for('\u{1F438}'), font8x8::legacy::BASIC_LEGACY[63]);
    assert_eq!(glyph_for('é'), glyph_for('?'));
}

#[test]
fn rgba_becomes_argb() {
    assert_eq!(rgba_to_argb(&[1, 2, 3, 4, 5, 6, 7, 8, 9]), vec![4, 1, 2, 3, 8, 5, 6, 7]);
    assert!(rgba_to_argb(&[]).is_empty());
}

#[test]
fn measure_text_sizes_the_wrapped_bubble() {
    let style = BubbleStyle::default();
    assert_eq!(measure_text("Hi", &style), Some((24, 16)));
    assert_eq!(measure_text("", &style), Some((16, 16)));
    assert_eq!(measure_text("I have important frog business.", &style), Some((136, 24)));
    let mut neg = BubbleStyle::default();
    neg.padding = -1;
    assert_eq!(measure_text("Hi", &neg), None);
    let mut huge = BubbleStyle::default();
    huge.scale = u32::MAX;
    assert_eq!(measure_text("Hi", &huge), None);
}

#[test]
fn compose_checked_refuses_what_does_not_fit() {
    let style = BubbleStyle::default();
    assert!(compose_checked(10, 10, &red_glyph(), None, &style, false).is_some());
    assert!(compose_checked(1, 10, &red_glyph(), None, &style, false).is_none());
    let short = GlyphBitmap { width: 2, height: 2, rgba: vec![0; 15] };
    assert!(compose_checked(10, 10, &short, None, &style, false).is_none());
    assert!(compose_checked(70000, 70000, &red_glyph(), None, &style, false).is_none());
    let mut neg = BubbleStyle::default();
    neg.padding = -4;
    assert!(compose_checked(10, 10, &red_glyph(), Some("x"), &neg, false).is_none());
    let a = compose_checked(200, 60, &red_glyph(), Some("Hi"), &style, true).unwrap();
    let b = compose(200, 60, &red_glyph(), Some("Hi"), &style, true);
    assert_eq!(a.frame.bgra, b.frame.bgra);
    assert_eq!(a.glyph_center, b.glyph_center);
}

#[test]
fn about_layout_sizes_the_window() {
    let lines = vec!["DeskFrog v1.0".to_string(), String::new(), "Hi".to_string()];
    let (w, h, _) = about_layout(&lines, 2, 12);
    assert_eq!(w, 13 * 8 * 2 + 24);
    assert_eq!(h, 3 * 8 * 2 + 24);
    let (w, h, squares) = about_layout(&Vec::new(), 2, 12);
    assert_eq!((w, h), (8 * 2 + 24, 24));
    assert!(squares.is_empty());
    let (w, _, squares) = about_layout(&vec![String::new()], 3, 1);
    assert_eq!(w, 2);
    assert!(squares.is_empty());
}

#[test]
fn about_layout_spells_each_glyph_bit() {
    let (_, _, squares) = about_layout(&vec!["A".to_string()], 2, 12);
    let mut expected = Vec::new();
    for (r, bits) in font8x8::legacy::BASIC_LEGACY[65].iter().enumerate() {
        for c in 0..8 {
            if (bits >> c) & 1 == 1 {
                expected.push((12 + c * 2, 12 + r as i32 * 2, 2u32, 2u32));
            }
        }
    }
    assert_eq!(squares, expected);
    let (_, _, two) = about_layout(&vec![" A".to_string(), "A".to_string()], 1, 0);
    let shifted: Vec<(i32, i32, u32, u32)> =
        expected.iter().map(|&(x, y, _, _)| ((x - 12) / 2 + 8, (y - 12) / 2, 1, 1)).collect();
    let below: Vec<(i32, i32, u32, u32)> =
        expected.iter().map(|&(x, y, _, _)| ((x - 12) / 2, (y - 12) / 2 + 8, 1, 1)).collect();
    assert_eq!(two, [shifted, below].concat());
}

#[test]
fn blending_keeps_pixels_premultiplied() {
    let mut f = Frame::new(1, 1);
    let colours = [(200, 100, 50, 128), (255, 255, 255, 100), (0, 255, 10, 3), (255, 0, 255, 255), (9, 9, 9, 1)];
    for c in colours {
        f.fill_rect(0, 0, 1, 1, c);
        let [b, g, r, a] = px(&f, 0, 0);
        assert!(b <= a && g <= a && r <= a);
    }
}

#[test]
fn draw_glyph_paints_each_set_bit() {
    let mut f = Frame::new(18, 18);
    let rows = glyph_for('A');
    draw_glyph(&mut f, 1, 2, &rows, 2, (255, 0, 0, 255));
    for y in 0..18u32 {
        for x in 0..18u32 {
            let inside = x >= 1 && y >= 2 && x < 17 && y < 18;
            let set = inside && (rows[((y - 2) / 2) as usize] >> ((x - 1) / 2)) & 1 == 1;
            let expected = if set { [0, 0, 255, 255] } else { [0, 0, 0, 0] };
            assert_eq!(px(&f, x, y), expected, "pixel {x},{y}");
        }
    }
}
