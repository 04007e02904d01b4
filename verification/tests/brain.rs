use deskfrog::brain::messages::{default_messages, Commentary};
use deskfrog::brain::movement::{within, MonitorBounds, Point};
use deskfrog::brain::{Frog, State, StepRolls, WorldInput};
use rand::rngs::StdRng;
use rand::SeedableRng;

fn screen() -> Vec<MonitorBounds> {
    vec![MonitorBounds { x: 0, y: 0, width: 3840, height: 1600 }]
}

/// Rolls that make a wandering frog simply walk on, with its heading kept.
fn walk_rolls() -> StepRolls {
    StepRolls {
        panic_roll: 99,
        panic_len: 2,
        mood_roll: 99,
        sleep_len: 10,
        idle_len: 2,
        heading_roll: 0,
        turn: 0,
        fresh: 0,
        pause: 20,
        pick: 0,
    }
}

fn far() -> Point {
    Point { x: 3000, y: 1500 }
}

fn new_frog(messages: Vec<String>) -> Frog {
    let mut rng = StdRng::seed_from_u64(1);
    Frog::new(Point { x: 1000, y: 1000 }, 24, 120, messages, &mut rng)
}

#[test]
fn default_messages_are_the_seven_remarks() {
    let m = default_messages();
    assert_eq!(m.len(), 7);
    assert_eq!(m[0], "Why is your mouse so fast?");
    assert_eq!(m[2], "Ribbit.");
    assert_eq!(m[6], "Nice desktop.");
}

#[test]
fn commentary_starts_silent() {
    let mut rng = StdRng::seed_from_u64(5);
    let c = Commentary::new(default_messages(), &mut rng);
    assert!(c.bubble().is_none());
    assert_eq!(c.message_count(), 7);
}

#[test]
fn remark_shows_for_six_ticks_then_pauses() {
    let mut rng = StdRng::seed_from_u64(5);
    let mut c = Commentary::new(vec!["Ribbit.".to_string(), "Hi".to_string()], &mut rng);
    // Run down the initial silence (at most 9 ticks).
    let mut guard = 0;
    while c.bubble().is_none() {
        c.tick_with(30, 1);
        guard += 1;
        assert!(guard <= 10);
    }
    assert_eq!(c.bubble(), Some("Hi"));
    for _ in 0..5 {
        c.tick_with(30, 0);
        assert_eq!(c.bubble(), Some("Hi"));
    }
    c.tick_with(30, 0);
    assert_eq!(c.bubble(), None);
    // A silence of exactly 30 ticks follows.
    for _ in 0..30 {
        c.tick_with(20, 0);
        assert_eq!(c.bubble(), None);
    }
    c.tick_with(20, 0);
    assert_eq!(c.bubble(), Some("Ribbit."));
}

#[test]
fn no_messages_means_no_remarks() {
    let mut rng = StdRng::seed_from_u64(9);
    let mut c = Commentary::new(Vec::new(), &mut rng);
    for _ in 0..500 {
        c.tick(&mut rng);
        assert!(c.bubble().is_none());
    }
}

#[test]
fn random_ticks_only_say_configured_messages() {
    let mut rng = StdRng::seed_from_u64(11);
    let msgs = vec!["a b".to_string(), "c".to_string()];
    let mut c = Commentary::new(msgs.clone(), &mut rng);
    let mut spoke = false;
    for _ in 0..1000 {
        c.tick(&mut rng);
        if let Some(s) = c.bubble() {
            spoke = true;
            assert!(msgs.iter().any(|m| m == s));
        }
    }
    assert!(spoke);
}

#[test]
fn new_frog_wanders_silently() {
    let f = new_frog(default_messages());
    assert_eq!(f.pos, Point { x: 1000, y: 1000 });
    assert_eq!(f.state(), State::Wander);
    assert_eq!(f.bubble(), None);
}

#[test]
fn walking_frog_moves_one_cell_east() {
    let ms = screen();
    let mut f = new_frog(default_messages());
    f.step_with(&WorldInput { monitors: &ms, cursor: far() }, &walk_rolls());
    assert_eq!(f.pos, Point { x: 1024, y: 1000 });
    assert_eq!(f.state(), State::Wander);
}

#[test]
fn nap_snores_and_alternates() {
    let ms = screen();
    let mut f = new_frog(Vec::new());
    let input = WorldInput { monitors: &ms, cursor: far() };
    let mut r = walk_rolls();
    r.mood_roll = 0;
    r.sleep_len = 12;
    f.step_with(&input, &r);
    assert_eq!(f.state(), State::Sleeping(12));
    assert_eq!(f.bubble().as_deref(), Some("z z z"));
    f.step_with(&input, &walk_rolls());
    assert_eq!(f.state(), State::Sleeping(11));
    assert_eq!(f.bubble().as_deref(), Some("zZzZz"));
    f.step_with(&input, &walk_rolls());
    assert_eq!(f.bubble().as_deref(), Some("z z z"));
    assert_eq!(f.pos, Point { x: 1000, y: 1000 });
}

#[test]
fn startle_lasts_one_tick() {
    let ms = screen();
    let mut f = new_frog(Vec::new());
    let input = WorldInput { monitors: &ms, cursor: far() };
    let mut r = walk_rolls();
    r.mood_roll = 6;
    f.step_with(&input, &r);
    assert_eq!(f.state(), State::Startled(1));
    assert_eq!(f.bubble().as_deref(), Some("!"));
    f.step_with(&input, &walk_rolls());
    assert_eq!(f.state(), State::Wander);
    assert_eq!(f.bubble(), None);
}

#[test]
fn idle_counts_down_in_place() {
    let ms = screen();
    let mut f = new_frog(Vec::new());
    let input = WorldInput { monitors: &ms, cursor: far() };
    let mut r = walk_rolls();
    r.mood_roll = 20;
    r.idle_len = 3;
    f.step_with(&input, &r);
    assert_eq!(f.state(), State::Idle(3));
    f.step_with(&input, &walk_rolls());
    assert_eq!(f.state(), State::Idle(2));
    f.step_with(&input, &walk_rolls());
    assert_eq!(f.state(), State::Idle(1));
    f.step_with(&input, &walk_rolls());
    assert_eq!(f.state(), State::Wander);
    assert_eq!(f.pos, Point { x: 1000, y: 1000 });
}

#[test]
fn cursor_close_sends_frog_fleeing() {
    let ms = screen();
    let mut f = new_frog(Vec::new());
    let cursor = Point { x: 950, y: 1000 };
    f.step_with(&WorldInput { monitors: &ms, cursor }, &walk_rolls());
    assert_eq!(f.state(), State::Fleeing);
    assert_eq!(f.pos, Point { x: 1024, y: 976 });
    assert_eq!(f.bubble(), None);
}

#[test]
fn frog_stops_fleeing_beyond_safe_distance() {
    let ms = screen();
    let mut f = new_frog(Vec::new());
    let cursor = Point { x: 900, y: 1000 };
    let input = WorldInput { monitors: &ms, cursor };
    let mut n = 0;
    loop {
        let before = f.pos;
        f.step_with(&input, &walk_rolls());
        n += 1;
        assert!(n < 20);
        if f.state() == State::Wander {
            assert!(!within(f.pos, cursor, 220));
            break;
        }
        assert!(f.pos.x > before.x);
    }
}

#[test]
fn panic_shouts_and_runs_double() {
    let ms = screen();
    let mut f = new_frog(Vec::new());
    let cursor = Point { x: 1000, y: 1050 };
    let mut r = walk_rolls();
    r.panic_roll = 0;
    r.panic_len = 3;
    f.step_with(&WorldInput { monitors: &ms, cursor }, &r);
    assert_eq!(f.state(), State::Fleeing);
    assert_eq!(f.pos, Point { x: 1000, y: 952 });
    assert_eq!(f.bubble().as_deref(), Some("Eeek! Go away!"));
}

#[test]
fn panic_never_interrupts_a_nap() {
    let ms = screen();
    let mut f = new_frog(Vec::new());
    let far_input = WorldInput { monitors: &ms, cursor: far() };
    let mut r = walk_rolls();
    r.mood_roll = 0;
    f.step_with(&far_input, &r);
    assert!(matches!(f.state(), State::Sleeping(_)));
    // Cursor within the wake radius (but outside the flee radius).
    let near = WorldInput { monitors: &ms, cursor: Point { x: 1000, y: 1150 } };
    let mut p = walk_rolls();
    p.panic_roll = 0;
    f.step_with(&near, &p);
    assert_eq!(f.state(), State::Fleeing);
    assert_ne!(f.bubble().as_deref(), Some("Eeek! Go away!"));
}

#[test]
fn panic_never_interrupts_a_remark() {
    let ms = screen();
    let mut f = new_frog(vec!["Ribbit.".to_string()]);
    let far_input = WorldInput { monitors: &ms, cursor: far() };
    let mut guard = 0;
    while f.bubble().is_none() {
        f.step_with(&far_input, &walk_rolls());
        guard += 1;
        assert!(guard < 12);
    }
    assert_eq!(f.bubble().as_deref(), Some("Ribbit."));
    let mut p = walk_rolls();
    p.panic_roll = 0;
    let here = f.pos;
    f.step_with(&WorldInput { monitors: &ms, cursor: here }, &p);
    assert_eq!(f.state(), State::Fleeing);
    assert_eq!(f.bubble().as_deref(), Some("Ribbit."));
}

#[test]
fn random_ticks_keep_the_frog_on_screen() {
    let ms = screen();
    let mut rng = StdRng::seed_from_u64(42);
    let mut f = Frog::new(Point { x: 1000, y: 1000 }, 24, 120, default_messages(), &mut rng);
    for i in 0..3000 {
        let cursor = if i % 50 < 3 { f.pos } else { far() };
        let before = f.pos;
        f.step(&WorldInput { monitors: &ms, cursor }, &mut rng);
        assert!(ms[0].contains(f.pos));
        let (dx, dy) = (f.pos.x - before.x, f.pos.y - before.y);
        assert!(dx % 24 == 0 && dy % 24 == 0 && dx.abs() <= 48 && dy.abs() <= 48);
        if let Some(text) = f.bubble() {
            assert!(!text.is_empty());
        }
    }
}

#[test]
fn fleeing_frog_never_gets_closer() {
    let ms = screen();
    let mut rng = StdRng::seed_from_u64(3);
    for start_x in [100, 1000, 3800] {
        let mut f = Frog::new(Point { x: start_x, y: 800 }, 24, 120, Vec::new(), &mut rng);
        let cursor = Point { x: start_x + 10, y: 790 };
        let d = |p: Point| {
            let dx = (p.x - cursor.x) as i64;
            let dy = (p.y - cursor.y) as i64;
            dx * dx + dy * dy
        };
        for _ in 0..30 {
            let before = d(f.pos);
            let was_fleeing = f.state() == State::Fleeing;
            f.step(&WorldInput { monitors: &ms, cursor }, &mut rng);
            if was_fleeing || before <= 120 * 120 {
                assert!(d(f.pos) >= before);
            }
        }
    }
}

#[test]
fn first_remark_comes_after_five_to_ten_ticks() {
    for seed in 0..50 {
        let mut rng = StdRng::seed_from_u64(seed);
        let mut c = Commentary::new(default_messages(), &mut rng);
        let mut ticks = 0;
        while c.bubble().is_none() {
            c.tick(&mut rng);
            ticks += 1;
            assert!(ticks <= 10);
        }
        assert!(ticks >= 5);
    }
}

#[test]
fn silence_between_remarks_lasts_21_to_80_ticks() {
    let mut rng = StdRng::seed_from_u64(3);
    let mut c = Commentary::new(default_messages(), &mut rng);
    let mut speaking = false;
    let mut silent: Option<u32> = None;
    let mut gaps = 0;
    for _ in 0..5000 {
        c.tick(&mut rng);
        match (speaking, c.bubble().is_some()) {
            (true, false) => {
                speaking = false;
                silent = Some(1);
            }
            (false, false) => silent = silent.map(|n| n + 1),
            (false, true) => {
                if let Some(n) = silent {
                    assert!((21..=80).contains(&n), "silence of {n} ticks");
                    gaps += 1;
                }
                speaking = true;
            }
            (true, true) => {}
        }
    }
    assert!(gaps > 10);
}

#[test]
fn frog_only_says_its_lines() {
    let msgs = vec!["Ribbit.".to_string(), "Hi".to_string()];
    let mut rng = StdRng::seed_from_u64(21);
    let mut f = Frog::new(Point { x: 1000, y: 1000 }, 24, 120, msgs.clone(), &mut rng);
    let ms = screen();
    let emotes = ["Eeek! Go away!", "z z z", "zZzZz", "!"];
    for i in 0..3000 {
        let cursor = if i % 97 < 5 { f.pos } else { far() };
        f.step(&WorldInput { monitors: &ms, cursor }, &mut rng);
        if let Some(t) = f.bubble() {
            assert!(msgs.contains(&t) || emotes.contains(&t.as_str()), "unexpected {t}");
        }
    }
}

#[test]
fn frog_reports_its_position() {
    let f = new_frog(default_messages());
    assert_eq!(f.pos(), Point { x: 1000, y: 1000 });
    assert_eq!(f.pos(), f.pos);
}
