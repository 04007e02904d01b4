use deskfrog::brain::movement::{
    flee_step, flee_step_axis_aligned_multi, monitor_containing, on_any_monitor, within, Direction,
    MonitorBounds, Point, Wanderer,
};
use rand::rngs::StdRng;
use rand::SeedableRng;

fn screen() -> Vec<MonitorBounds> {
    vec![MonitorBounds { x: 0, y: 0, width: 3840, height: 1600 }]
}

#[test]
fn contains_is_half_open() {
    let m = MonitorBounds { x: 10, y: 20, width: 100, height: 50 };
    assert!(m.contains(Point { x: 10, y: 20 }));
    assert!(m.contains(Point { x: 109, y: 69 }));
    assert!(!m.contains(Point { x: 110, y: 20 }));
    assert!(!m.contains(Point { x: 10, y: 70 }));
    assert!(!m.contains(Point { x: 9, y: 20 }));
}

#[test]
fn contains_does_not_overflow_at_extremes() {
    let m = MonitorBounds { x: i32::MAX - 5, y: 0, width: i32::MAX, height: 10 };
    assert!(m.contains(Point { x: i32::MAX, y: 0 }));
}

#[test]
fn on_any_monitor_and_first_containing() {
    let ms = vec![
        MonitorBounds { x: 0, y: 0, width: 100, height: 100 },
        MonitorBounds { x: 50, y: 0, width: 100, height: 100 },
        MonitorBounds { x: 200, y: 0, width: 100, height: 100 },
    ];
    assert!(on_any_monitor(Point { x: 250, y: 5 }, &ms));
    assert!(!on_any_monitor(Point { x: 170, y: 5 }, &ms));
    let m = monitor_containing(Point { x: 60, y: 5 }, &ms).unwrap();
    assert_eq!(m.x, 0);
    assert!(monitor_containing(Point { x: 170, y: 5 }, &ms).is_none());
    assert!(monitor_containing(Point { x: 0, y: 0 }, &[]).is_none());
}

#[test]
fn compass_rotation() {
    assert_eq!(Direction::E.rotated(1), Direction::SE);
    assert_eq!(Direction::N.rotated(-1), Direction::NW);
    assert_eq!(Direction::NW.rotated(1), Direction::N);
    assert_eq!(Direction::S.rotated(8), Direction::S);
    assert_eq!(Direction::S.rotated(-9), Direction::SE);
    assert_eq!(Direction::W.rotated(4), Direction::E);
    assert_eq!(Direction::N.rotated(i32::MIN), Direction::N);
    assert_eq!(Direction::N.rotated(i32::MAX), Direction::NW);
}

#[test]
fn compass_deltas_and_indices() {
    assert_eq!(Direction::N.delta(), (0, -1));
    assert_eq!(Direction::SE.delta(), (1, 1));
    assert_eq!(Direction::W.delta(), (-1, 0));
    for i in 0..8usize {
        assert_eq!(Direction::from_index(i).index(), i as i32);
    }
}

#[test]
fn wanderer_keeps_heading_in_open_field() {
    let ms = screen();
    let mut w = Wanderer::new(24, Direction::E);
    let next = w.step_toward(Point { x: 1000, y: 1000 }, &ms, Direction::E);
    assert_eq!(next, Point { x: 1024, y: 1000 });
    assert_eq!(w.step_px(), 24);
}

#[test]
fn wanderer_widens_when_blocked() {
    // Right at the east edge: E, SE and NE are blocked, so the scan settles on S.
    let ms = screen();
    let mut w = Wanderer::new(24, Direction::E);
    let next = w.step_toward(Point { x: 3830, y: 800 }, &ms, Direction::E);
    assert_eq!(next, Point { x: 3830, y: 824 });
}

#[test]
fn wanderer_corner_scan_order() {
    // Bottom-right corner: E, SE, NE(-1), S(+2) blocked... N (-2) is first open.
    let ms = screen();
    let mut w = Wanderer::new(24, Direction::E);
    let next = w.step_toward(Point { x: 3830, y: 1590 }, &ms, Direction::E);
    assert_eq!(next, Point { x: 3830, y: 1566 });
}

#[test]
fn wanderer_stays_only_when_boxed_in() {
    let ms = vec![MonitorBounds { x: 0, y: 0, width: 10, height: 10 }];
    let mut w = Wanderer::new(24, Direction::N);
    let here = Point { x: 5, y: 5 };
    for d in 0..8usize {
        assert_eq!(w.step_toward(here, &ms, Direction::from_index(d)), here);
    }
}

#[test]
fn wanderer_random_steps_stay_on_grid_and_screen() {
    let ms = screen();
    let mut rng = StdRng::seed_from_u64(123);
    let mut w = Wanderer::new(24, Direction::E);
    let mut pos = Point { x: 1920, y: 800 };
    for _ in 0..2000 {
        let next = w.next_step(pos, &ms, &mut rng);
        let dx = (next.x - pos.x).abs();
        let dy = (next.y - pos.y).abs();
        assert!(dx == 0 || dx == 24);
        assert!(dy == 0 || dy == 24);
        assert!(dx + dy > 0, "an open field never blocks every heading");
        assert!(on_any_monitor(next, &ms));
        pos = next;
    }
}

#[test]
fn within_is_euclidean_and_inclusive() {
    let a = Point { x: 0, y: 0 };
    assert!(within(a, Point { x: 3, y: 4 }, 5));
    assert!(!within(a, Point { x: 3, y: 5 }, 5));
    assert!(within(Point { x: i32::MIN, y: i32::MIN }, Point { x: i32::MIN, y: i32::MIN }, 0));
    assert!(!within(Point { x: i32::MIN, y: 0 }, Point { x: i32::MAX, y: 0 }, i32::MAX));
}

#[test]
fn flee_step_takes_the_farthest_cell() {
    let ms = screen();
    let pos = Point { x: 1000, y: 1000 };
    // NE and SE tie as farthest; the earlier heading (NE) wins.
    assert_eq!(flee_step(pos, Point { x: 900, y: 1000 }, 24, &ms), Point { x: 1024, y: 976 });
    assert_eq!(flee_step(pos, Point { x: 900, y: 900 }, 24, &ms), Point { x: 1024, y: 1024 });
}

#[test]
fn flee_step_never_closer_in_a_corner() {
    let ms = vec![MonitorBounds { x: 0, y: 0, width: 100, height: 100 }];
    let pos = Point { x: 90, y: 90 };
    let threat = Point { x: 50, y: 50 };
    let next = flee_step(pos, threat, 24, &ms);
    assert_eq!(next, pos);
}

#[test]
fn panic_dash_is_axis_aligned() {
    // Sweep threats all the way around the frog, including exact diagonals.
    let ms = screen();
    let pos = Point { x: 1000, y: 1000 };
    let mut diagonal = 0;
    for angle_deg in (0..360).step_by(5) {
        let rad = (angle_deg as f64).to_radians();
        let threat = Point {
            x: 1000 + (200.0 * rad.cos()) as i32,
            y: 1000 + (200.0 * rad.sin()) as i32,
        };
        let next = flee_step_axis_aligned_multi(pos, threat, 24, 2, &ms);
        let dx = next.x - pos.x;
        let dy = next.y - pos.y;
        if dx != 0 && dy != 0 {
            diagonal += 1;
        }
        assert!(dx.abs() + dy.abs() == 48);
    }
    assert_eq!(diagonal, 0);
}

#[test]
fn panic_dash_zero_steps_stays() {
    let ms = screen();
    let pos = Point { x: 1000, y: 1000 };
    assert_eq!(flee_step_axis_aligned_multi(pos, pos, 24, 0, &ms), pos);
    assert_eq!(flee_step_axis_aligned_multi(pos, pos, 24, 2, &ms), Point { x: 1000, y: 952 });
}

#[test]
fn panic_dash_stops_at_monitor_edge() {
    let ms = vec![MonitorBounds { x: 0, y: 0, width: 100, height: 100 }];
    let next = flee_step_axis_aligned_multi(Point { x: 50, y: 30 }, Point { x: 50, y: 80 }, 24, 2, &ms);
    assert_eq!(next, Point { x: 50, y: 6 });
    let boxed = vec![MonitorBounds { x: 40, y: 40, width: 1, height: 1 }];
    let here = Point { x: 40, y: 40 };
    assert_eq!(flee_step_axis_aligned_multi(here, Point { x: 41, y: 41 }, 24, 2, &boxed), here);
}

#[test]
fn panic_dash_is_straight_everywhere() {
    let ms = vec![MonitorBounds { x: 0, y: 0, width: 200, height: 120 }];
    for px in (0..200).step_by(7) {
        for py in (0..120).step_by(7) {
            for (tx, ty) in [(0, 0), (199, 0), (0, 119), (199, 119), (100, 60), (px, py)] {
                let pos = Point { x: px, y: py };
                let threat = Point { x: tx, y: ty };
                let next = flee_step_axis_aligned_multi(pos, threat, 24, 2, &ms);
                let (dx, dy) = (next.x - pos.x, next.y - pos.y);
                assert!(dx == 0 || dy == 0, "diagonal dash from {pos:?}");
                assert!([0, 24, 48].contains(&dx.abs()) && [0, 24, 48].contains(&dy.abs()));
                let d2 = |p: Point| {
                    let (a, b) = ((p.x - tx) as i64, (p.y - ty) as i64);
                    a * a + b * b
                };
                assert!(d2(next) >= d2(pos));
            }
        }
    }
}
