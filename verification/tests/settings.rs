use deskfrog::brain::movement::{MonitorBounds, Point};
use deskfrog::config::{effective_bubble_scale, Behavior};
use deskfrog::placement::{canvas_size, prefer_below, window_origin};
use deskfrog::render::bubble::{compose, measure_text, BubbleStyle};
use deskfrog::render::glyph::GlyphBitmap;
use deskfrog::wide::to_wide;

#[test]
fn behavior_defaults() {
    let b = Behavior::default();
    assert_eq!(b.step_interval_ms, 500);
    assert_eq!(b.flee_radius_px, 120);
}

#[test]
fn bubble_scale_is_at_least_one() {
    assert_eq!(effective_bubble_scale(0), 1);
    assert_eq!(effective_bubble_scale(1), 1);
    assert_eq!(effective_bubble_scale(3), 3);
}

#[test]
fn window_origin_puts_glyph_centre_on_frog() {
    assert_eq!(window_origin(Point { x: 100, y: 100 }, (5, 7)), (95, 93));
}

#[test]
fn bubble_flips_below_near_monitor_top() {
    let ms = vec![
        MonitorBounds { x: 0, y: 0, width: 1920, height: 1080 },
        MonitorBounds { x: 1920, y: -500, width: 1920, height: 1080 },
    ];
    assert!(prefer_below(Point { x: 100, y: 10 }, &ms, 72));
    assert!(!prefer_below(Point { x: 100, y: 36 }, &ms, 72));
    assert!(prefer_below(Point { x: 2000, y: -480 }, &ms, 72));
    assert!(!prefer_below(Point { x: -10, y: 10 }, &ms, 72));
}

#[test]
fn canvas_fits_widest_bubble() {
    assert_eq!(canvas_size(&BubbleStyle::default(), 24), (152, 72));
}

#[test]
fn wide_strings_are_nul_terminated_utf16() {
    assert_eq!(to_wide("A"), vec![65, 0]);
    assert_eq!(to_wide(""), vec![0]);
    assert_eq!(to_wide("\u{1F438}"), vec![0xD83D, 0xDC38, 0]);
    let s = "DeskFrog – Frösche 🐸!";
    let mut expected: Vec<u16> = s.encode_utf16().collect();
    expected.push(0);
    assert_eq!(to_wide(s), expected);
}

#[test]
fn canvas_fits_its_widest_bubble() {
    let style = BubbleStyle::default();
    let (cw, ch) = canvas_size(&style, 24);
    let (bw, bh) = measure_text("I have important frog business.", &style).unwrap();
    assert!(bw + 16 <= cw);
    assert!(bh + 24 + 16 <= ch);
    let (bw3, bh3) = measure_text("aaaaaaaaaaaaaaaa bbbbbbbbbbbbbbbb cccccccccccccccc", &style).unwrap();
    assert_eq!((bw3 + 16, bh3 + 24 + 16), (cw, ch));
}

#[test]
fn prefer_below_takes_any_canvas_height() {
    let ms = vec![MonitorBounds { x: 0, y: 0, width: 1920, height: 1080 }];
    assert!(prefer_below(Point { x: 100, y: 1000 }, &ms, u32::MAX));
    assert!(!prefer_below(Point { x: 100, y: 1000 }, &ms, 72));
}

#[test]
fn canvas_never_clips_the_bubble() {
    let style = BubbleStyle::default();
    let glyph = GlyphBitmap { width: 24, height: 24, rgba: [0u8, 200, 0, 255].repeat(24 * 24) };
    let (cw, ch) = canvas_size(&style, 24);
    let border = [230u8, 230, 230, 255];
    for text in ["Hi", "Supercalifragilisticexpialidocious!", "aaaaaaaaaaaaaaaa bbbbbbbbbbbbbbbb cccccccccccccccc"] {
        let (bw, bh) = measure_text(text, &style).unwrap();
        for below in [false, true] {
            let layout = compose(cw, ch, &glyph, Some(text), &style, below);
            let fx = ((cw - 24) / 2) as i64;
            let fy: i64 = if below { 4 } else { ch as i64 - 4 - 24 };
            let bx = fx + 12 - (bw / 2) as i64;
            let by = if below { fy + 24 + 3 } else { fy - 3 - bh as i64 };
            assert!(bx >= 0 && by >= 0);
            assert!(bx + bw as i64 <= cw as i64 && by + bh as i64 <= ch as i64);
            let at = |x: i64, y: i64| {
                let i = ((y as u32 * cw + x as u32) * 4) as usize;
                [layout.frame.bgra[i], layout.frame.bgra[i + 1], layout.frame.bgra[i + 2], layout.frame.bgra[i + 3]]
            };
            let right = bx + bw as i64 - 1;
            let bottom = by + bh as i64 - 1;
            assert_eq!(at(bx, by), border);
            assert_eq!(at(right, by), border);
            assert_eq!(at(bx, bottom), border);
            assert_eq!(at(right, bottom), border);
        }
    }
}
