//! Grid positions, monitors, compass headings, wandering with momentum and
//! fleeing from a threat.
use crate::chance::{random_below, random_in, roll_percent};
use rand::rngs::StdRng;
use vstd::prelude::*;

verus! {

/// A position in virtual-desktop coordinates.
#[derive(Clone, Copy, Debug, PartialEq, Eq, Structural)]
pub struct Point {
    pub x: i32,
    pub y: i32,
}

/// One monitor's rectangle in virtual-desktop coordinates.
#[derive(Clone, Copy, Debug)]
pub struct MonitorBounds {
    pub x: i32,
    pub y: i32,
    pub width: i32,
    pub height: i32,
}

/// Whether the mathematical point (`px`, `py`) is representable as a `Point`.
pub open spec fn fits_i32(px: int, py: int) -> bool {
    i32::MIN <= px <= i32::MAX && i32::MIN <= py <= i32::MAX
}

impl MonitorBounds {
    /// The half-open rectangle `[x, x + width) × [y, y + height)` holds (`px`, `py`).
    pub open spec fn covers(self, px: int, py: int) -> bool {
        &&& self.x <= px
        &&& px < self.x + self.width
        &&& self.y <= py
        &&& py < self.y + self.height
    }

    pub fn contains(&self, p: Point) -> (r: bool)
        ensures
            r == self.covers(p.x as int, p.y as int),
    {
        let px: i64 = p.x as i64;
        let py: i64 = p.y as i64;
        px >= self.x as i64 && px < self.x as i64 + self.width as i64 && py >= self.y as i64 && py
            < self.y as i64 + self.height as i64
    }
}

/// Some monitor of `ms` covers (`px`, `py`).
pub open spec fn spec_on_any(ms: Seq<MonitorBounds>, px: int, py: int) -> bool {
    exists|i: int| 0 <= i < ms.len() && #[trigger] ms[i].covers(px, py)
}

/// A grid cell that the frog may stand on: representable, and on some monitor.
pub open spec fn spec_open(ms: Seq<MonitorBounds>, px: int, py: int) -> bool {
    fits_i32(px, py) && spec_on_any(ms, px, py)
}

pub fn on_any_monitor(p: Point, monitors: &[MonitorBounds]) -> (r: bool)
    ensures
        r == spec_on_any(monitors@, p.x as int, p.y as int),
{
    let mut i: usize = 0;
    while i < monitors.len()
        invariant
            0 <= i <= monitors.len(),
            forall|j: int| 0 <= j < i ==> !(#[trigger] monitors@[j].covers(p.x as int, p.y as int)),
        decreases monitors.len() - i,
    {
        if monitors[i].contains(p) {
            assert(monitors@[i as int].covers(p.x as int, p.y as int));
            return true;
        }
        i += 1;
    }
    false
}

/// The first monitor (in the given order) that contains `p`, if any.
pub fn monitor_containing(p: Point, monitors: &[MonitorBounds]) -> (r: Option<&MonitorBounds>)
    ensures
        r is None <==> !spec_on_any(monitors@, p.x as int, p.y as int),
        r matches Some(m) ==> exists|i: int|
            0 <= i < monitors@.len() && *m == monitors@[i] && monitors@[i].covers(
                p.x as int,
                p.y as int,
            ) && forall|j: int|
                0 <= j < i ==> !(#[trigger] monitors@[j].covers(p.x as int, p.y as int)),
{
    let mut i: usize = 0;
    while i < monitors.len()
        invariant
            0 <= i <= monitors.len(),
            forall|j: int| 0 <= j < i ==> !(#[trigger] monitors@[j].covers(p.x as int, p.y as int)),
        decreases monitors.len() - i,
    {
        if monitors[i].contains(p) {
            assert(monitors@[i as int].covers(p.x as int, p.y as int));
            return Some(&monitors[i]);
        }
        i += 1;
    }
    None
}

/// The eight compass headings, clockwise from north.
#[derive(Clone, Copy, Debug, PartialEq, Eq, Structural)]
pub enum Direction {
    N,
    NE,
    E,
    SE,
    S,
    SW,
    W,
    NW,
}

/// The scan order in which a blocked heading is widened: straight on, then
/// one step either way, then two, then three, then straight back.
pub open spec fn scan_offset(k: int) -> int {
    if k == 0 {
        0
    } else if k == 1 {
        1
    } else if k == 2 {
        -1
    } else if k == 3 {
        2
    } else if k == 4 {
        -2
    } else if k == 5 {
        3
    } else if k == 6 {
        -3
    } else {
        4
    }
}

fn scan_offset_exec(k: usize) -> (r: i32)
    requires
        k < 8,
    ensures
        r == scan_offset(k as int),
{
    if k == 0 {
        0
    } else if k == 1 {
        1
    } else if k == 2 {
        -1
    } else if k == 3 {
        2
    } else if k == 4 {
        -2
    } else if k == 5 {
        3
    } else if k == 6 {
        -3
    } else {
        4
    }
}

impl Direction {
    /// Position around the compass, `N` = 0, clockwise.
    pub open spec fn ordinal(self) -> int {
        match self {
            Direction::N => 0,
            Direction::NE => 1,
            Direction::E => 2,
            Direction::SE => 3,
            Direction::S => 4,
            Direction::SW => 5,
            Direction::W => 6,
            Direction::NW => 7,
        }
    }

    /// The heading at compass position `i` (taken modulo 8).
    pub open spec fn at(i: int) -> Direction {
        let k = i % 8;
        if k == 0 {
            Direction::N
        } else if k == 1 {
            Direction::NE
        } else if k == 2 {
            Direction::E
        } else if k == 3 {
            Direction::SE
        } else if k == 4 {
            Direction::S
        } else if k == 5 {
            Direction::SW
        } else if k == 6 {
            Direction::W
        } else {
            Direction::NW
        }
    }

    /// One grid step in this heading, as (dx, dy) with y growing downwards.
    pub open spec fn dx(self) -> int {
        match self {
            Direction::N => 0,
            Direction::NE => 1,
            Direction::E => 1,
            Direction::SE => 1,
            Direction::S => 0,
            Direction::SW => -1,
            Direction::W => -1,
            Direction::NW => -1,
        }
    }

    pub open spec fn dy(self) -> int {
        match self {
            Direction::N => -1,
            Direction::NE => -1,
            Direction::E => 0,
            Direction::SE => 1,
            Direction::S => 1,
            Direction::SW => 1,
            Direction::W => 0,
            Direction::NW => -1,
        }
    }

    /// Turned by `steps` positions around the compass (positive = clockwise).
    pub open spec fn turned(self, steps: int) -> Direction {
        Direction::at(self.ordinal() + steps)
    }

    pub fn index(self) -> (r: i32)
        ensures
            r == self.ordinal(),
    {
        match self {
            Direction::N => 0,
            Direction::NE => 1,
            Direction::E => 2,
            Direction::SE => 3,
            Direction::S => 4,
            Direction::SW => 5,
            Direction::W => 6,
            Direction::NW => 7,
        }
    }

    pub fn from_index(i: usize) -> (r: Direction)
        requires
            i < 8,
        ensures
            r == Direction::at(i as int),
            r.ordinal() == i,
    {
        if i == 0 {
            Direction::N
        } else if i == 1 {
            Direction::NE
        } else if i == 2 {
            Direction::E
        } else if i == 3 {
            Direction::SE
        } else if i == 4 {
            Direction::S
        } else if i == 5 {
            Direction::SW
        } else if i == 6 {
            Direction::W
        } else {
            Direction::NW
        }
    }

    pub fn delta(self) -> (r: (i32, i32))
        ensures
            r.0 == self.dx(),
            r.1 == self.dy(),
            -1 <= r.0 <= 1,
            -1 <= r.1 <= 1,
    {
        match self {
            Direction::N => (0, -1),
            Direction::NE => (1, -1),
            Direction::E => (1, 0),
            Direction::SE => (1, 1),
            Direction::S => (0, 1),
            Direction::SW => (-1, 1),
            Direction::W => (-1, 0),
            Direction::NW => (-1, -1),
        }
    }

    /// Turns by `steps` positions around the 8-direction compass (positive = clockwise).
    pub fn rotated(self, steps: i32) -> (r: Direction)
        ensures
            r == self.turned(steps as int),
    {
        let idx: i64 = self.index() as i64;
        let shifted: i64 = idx + steps as i64 + 2147483648i64;
        let m: u64 = (shifted as u64) % 8;
        proof {
            vstd::arithmetic::div_mod::lemma_mod_multiples_vanish(
                268435456,
                idx + steps as int,
                8,
            );
        }
        Self::from_index(m as usize)
    }

    /// A heading drawn uniformly from all eight.
    pub fn random(rng: &mut StdRng) -> (r: Direction)
        ensures
            0 <= r.ordinal() < 8,
    {
        Self::from_index(random_below(rng, 8))
    }
}

/// The cell one grid step of `step` pixels from `pos` in heading `d`.
pub open spec fn neighbor_x(pos: Point, d: Direction, step: int) -> int {
    pos.x + d.dx() * step
}

pub open spec fn neighbor_y(pos: Point, d: Direction, step: int) -> int {
    pos.y + d.dy() * step
}

pub open spec fn neighbor(pos: Point, d: Direction, step: int) -> Point {
    Point { x: neighbor_x(pos, d, step) as i32, y: neighbor_y(pos, d, step) as i32 }
}

/// The neighbour cell in heading `d` can be stood on.
pub open spec fn neighbor_open(ms: Seq<MonitorBounds>, pos: Point, d: Direction, step: int) -> bool {
    spec_open(ms, neighbor_x(pos, d, step), neighbor_y(pos, d, step))
}

/// Computes the neighbour cell, or `None` where it is not representable.
fn step_from(pos: Point, d: Direction, step_px: i32) -> (r: Option<Point>)
    ensures
        r is Some <==> fits_i32(neighbor_x(pos, d, step_px as int), neighbor_y(pos, d, step_px as int)),
        r matches Some(p) ==> p.x == neighbor_x(pos, d, step_px as int) && p.y == neighbor_y(
            pos,
            d,
            step_px as int,
        ),
{
    let (dx, dy) = d.delta();
    let s: i64 = step_px as i64;
    let ox: i64 = if dx > 0 {
        s
    } else if dx < 0 {
        -s
    } else {
        0
    };
    let oy: i64 = if dy > 0 {
        s
    } else if dy < 0 {
        -s
    } else {
        0
    };
    let nx: i64 = pos.x as i64 + ox;
    let ny: i64 = pos.y as i64 + oy;
    if nx < i32::MIN as i64 || nx > i32::MAX as i64 || ny < i32::MIN as i64 || ny > i32::MAX as i64 {
        None
    } else {
        Some(Point { x: nx as i32, y: ny as i32 })
    }
}

/// The first heading, in the widening scan order from position `k` on, whose
/// neighbour cell can be stood on.
pub open spec fn first_open_heading(
    ms: Seq<MonitorBounds>,
    pos: Point,
    step: int,
    cand: Direction,
    k: int,
) -> Option<Direction>
    decreases 8 - k,
{
    if k >= 8 || k < 0 {
        None
    } else if neighbor_open(ms, pos, cand.turned(scan_offset(k)), step) {
        Some(cand.turned(scan_offset(k)))
    } else {
        first_open_heading(ms, pos, step, cand, k + 1)
    }
}

/// Where one wander step from `pos` lands and which heading the frog keeps,
/// when it tries heading `cand` first.
pub open spec fn walk(
    ms: Seq<MonitorBounds>,
    pos: Point,
    step: int,
    heading: Direction,
    cand: Direction,
) -> (Point, Direction) {
    match first_open_heading(ms, pos, step, cand, 0) {
        Some(d) => (neighbor(pos, d, step), d),
        None => (pos, heading),
    }
}

/// Grid-based wandering with momentum: the frog is biased to keep heading the way
/// it was already going, occasionally drifts to an adjacent heading, and rarely
/// picks a fresh direction outright.
pub struct Wanderer {
    step_px: i32,
    dir: Direction,
}

impl Wanderer {
    /// The grid pitch in pixels.
    pub closed spec fn step(&self) -> i32 {
        self.step_px
    }

    /// The heading the frog is currently keeping.
    pub closed spec fn heading(&self) -> Direction {
        self.dir
    }

    pub fn new(step_px: i32, initial_dir: Direction) -> (r: Self)
        ensures
            r.step() == step_px,
            r.heading() == initial_dir,
    {
        Self { step_px, dir: initial_dir }
    }

    pub fn step_px(&self) -> (r: i32)
        ensures
            r == self.step(),
    {
        self.step_px
    }

    /// Tries `candidate`, then progressively wider deviations from it
    /// (see `scan_offset`), and moves to the first cell that lies on a
    /// monitor, adopting that heading; stays put, keeping its heading, only if
    /// every direction is blocked.
    pub fn step_toward(&mut self, pos: Point, monitors: &[MonitorBounds], candidate: Direction) -> (r:
        Point)
        ensures
            final(self).step() == old(self).step(),
            (r, final(self).heading()) == walk(
                monitors@,
                pos,
                old(self).step() as int,
                old(self).heading(),
                candidate,
            ),
    {
        let mut k: usize = 0;
        while k < 8
            invariant
                0 <= k <= 8,
                self.step_px == old(self).step_px,
                self.dir == old(self).dir,
                first_open_heading(monitors@, pos, self.step_px as int, candidate, 0)
                    == first_open_heading(monitors@, pos, self.step_px as int, candidate, k as int),
            decreases 8 - k,
        {
            let dir = candidate.rotated(scan_offset_exec(k));
            match step_from(pos, dir, self.step_px) {
                Some(next) => {
                    if on_any_monitor(next, monitors) {
                        self.dir = dir;
                        return next;
                    }
                },
                None => {},
            }
            k += 1;
        }
        pos
    }

    /// The heading the frog tries next, from three rolls: a percentile `roll`
    /// (below 60 it keeps going, below 85 it drifts one step, clockwise when
    /// `turn` is 0 and anticlockwise otherwise, and otherwise it takes the
    /// fresh heading at compass position `fresh`).
    pub fn pick_heading(&self, roll: u32, turn: u32, fresh: usize) -> (r: Direction)
        requires
            fresh < 8,
        ensures
            r == (if roll < 60 {
                self.heading()
            } else if roll < 85 {
                self.heading().turned(if turn == 0 { 1int } else { -1int })
            } else {
                Direction::at(fresh as int)
            }),
    {
        if roll < 60 {
            self.dir
        } else if roll < 85 {
            self.dir.rotated(if turn == 0 { 1 } else { -1 })
        } else {
            Direction::from_index(fresh)
        }
    }

    /// Picks the next grid cell: a heading chosen by chance with momentum
    /// (see `pick_heading`), then `step_toward` it.
    pub fn next_step(&mut self, pos: Point, monitors: &[MonitorBounds], rng: &mut StdRng) -> (r:
        Point)
        ensures
            final(self).step() == old(self).step(),
            exists|c: Direction|
                #[trigger] walk(monitors@, pos, old(self).step() as int, old(self).heading(), c) == (
                r,
                final(self).heading(),
            ),
    {
        let roll = roll_percent(rng);
        let turn = if roll >= 60 && roll < 85 {
            random_in(rng, 0, 2)
        } else {
            0
        };
        let fresh = if roll >= 85 {
            random_below(rng, 8)
        } else {
            0
        };
        let candidate = self.pick_heading(roll, turn, fresh);
        self.step_toward(pos, monitors, candidate)
    }
}


/// Squared Euclidean distance between two points.
pub open spec fn dist2(a: Point, b: Point) -> int {
    (a.x - b.x) * (a.x - b.x) + (a.y - b.y) * (a.y - b.y)
}

/// `a` lies within `radius` pixels of `b` (Euclidean, boundary included).
pub open spec fn spec_within(a: Point, b: Point, radius: int) -> bool {
    dist2(a, b) <= radius * radius
}

fn dist2_exec(a: Point, b: Point) -> (r: i128)
    ensures
        r == dist2(a, b),
{
    let dx: i128 = a.x as i128 - b.x as i128;
    let dy: i128 = a.y as i128 - b.y as i128;
    assert(dx * dx <= 0x1_0000_0000_0000_0000) by (nonlinear_arith)
        requires
            -0x1_0000_0000 <= dx <= 0x1_0000_0000,
    ;
    assert(dy * dy <= 0x1_0000_0000_0000_0000) by (nonlinear_arith)
        requires
            -0x1_0000_0000 <= dy <= 0x1_0000_0000,
    ;
    assert(0 <= dx * dx) by (nonlinear_arith);
    assert(0 <= dy * dy) by (nonlinear_arith);
    dx * dx + dy * dy
}

/// Whether `a` is within `radius` pixels of `b`.
pub fn within(a: Point, b: Point, radius: i32) -> (r: bool)
    ensures
        r == spec_within(a, b, radius as int),
{
    let rr: i128 = radius as i128;
    assert(rr * rr <= 0x1_0000_0000_0000_0000) by (nonlinear_arith)
        requires
            -0x1_0000_0000 <= rr <= 0x1_0000_0000,
    ;
    assert(0 <= rr * rr) by (nonlinear_arith);
    let r2: i128 = rr * rr;
    dist2_exec(a, b) <= r2
}

/// All eight headings in compass order.
pub open spec fn all_headings() -> Seq<Direction> {
    seq![
        Direction::N,
        Direction::NE,
        Direction::E,
        Direction::SE,
        Direction::S,
        Direction::SW,
        Direction::W,
        Direction::NW,
    ]
}

/// The four axis-aligned headings in compass order.
pub open spec fn cardinal_headings() -> Seq<Direction> {
    seq![Direction::N, Direction::E, Direction::S, Direction::W]
}

/// The best escape among the first `k` headings of `cands`: the standable
/// neighbour cell farthest from `threat`, provided it is strictly farther than
/// `pos` itself; an earlier heading wins a tie; `pos` if none qualifies.
pub open spec fn flee_best(
    ms: Seq<MonitorBounds>,
    pos: Point,
    threat: Point,
    step: int,
    cands: Seq<Direction>,
    k: int,
) -> Point
    decreases k,
{
    if k <= 0 {
        pos
    } else {
        let prev = flee_best(ms, pos, threat, step, cands, k - 1);
        let d = cands[k - 1];
        if neighbor_open(ms, pos, d, step) && dist2(neighbor(pos, d, step), threat) > dist2(
            prev,
            threat,
        ) {
            neighbor(pos, d, step)
        } else {
            prev
        }
    }
}

/// One escape step over all eight headings.
pub open spec fn spec_flee_step(ms: Seq<MonitorBounds>, pos: Point, threat: Point, step: int) -> Point {
    flee_best(ms, pos, threat, step, all_headings(), 8)
}

/// The heading of the best escape among the first `k` headings of `cands`
/// (the one whose cell `flee_best` picks), or `None` when staying put is best.
pub open spec fn flee_heading(
    ms: Seq<MonitorBounds>,
    pos: Point,
    threat: Point,
    step: int,
    cands: Seq<Direction>,
    k: int,
) -> Option<Direction>
    decreases k,
{
    if k <= 0 {
        None
    } else {
        let prev = flee_heading(ms, pos, threat, step, cands, k - 1);
        let d = cands[k - 1];
        if neighbor_open(ms, pos, d, step) && dist2(neighbor(pos, d, step), threat) > dist2(
            heading_target(pos, prev, step),
            threat,
        ) {
            Some(d)
        } else {
            prev
        }
    }
}

/// The cell one step from `pos` in heading `h`, or `pos` itself for no heading.
pub open spec fn heading_target(pos: Point, h: Option<Direction>, step: int) -> Point {
    match h {
        Some(d) => neighbor(pos, d, step),
        None => pos,
    }
}

/// Up to `n` grid steps from `pos` in heading `d`, stopping before the first
/// cell that cannot be stood on.
pub open spec fn dash(ms: Seq<MonitorBounds>, pos: Point, d: Direction, step: int, n: nat) -> Point
    decreases n,
{
    if n == 0 || !neighbor_open(ms, pos, d, step) {
        pos
    } else {
        dash(ms, neighbor(pos, d, step), d, step, (n - 1) as nat)
    }
}

/// A panicked escape of up to `n` steps: the axis-aligned heading of the best
/// single escape step from `pos` is chosen once, and followed for up to `n`
/// steps, stopping before a cell off every monitor; `pos` when no
/// axis-aligned step gets farther from `threat`.
pub open spec fn spec_flee_axis(
    ms: Seq<MonitorBounds>,
    pos: Point,
    threat: Point,
    step: int,
    n: nat,
) -> Point {
    match flee_heading(ms, pos, threat, step, cardinal_headings(), 4) {
        Some(d) => dash(ms, pos, d, step, n),
        None => pos,
    }
}

/// `k` grid steps of `step` pixels.
pub open spec fn steps_of(k: int, step: int) -> int {
    k * step
}

/// `d` is a whole number of grid steps of `step` pixels, at most `n` of them.
pub open spec fn grid_offset(d: int, step: int, n: int) -> bool {
    exists|k: int| -n <= k <= n && d == #[trigger] steps_of(k, step)
}

/// `q` lies on the row or on the column of `p`, at most `n` grid steps of
/// `step` pixels away from it.
pub open spec fn axis_move(p: Point, q: Point, step: int, n: int) -> bool {
    ||| q.x == p.x && grid_offset(q.y - p.y, step, n)
    ||| q.y == p.y && grid_offset(q.x - p.x, step, n)
}

fn flee_over(pos: Point, threat: Point, step_px: i32, monitors: &[MonitorBounds], axis_only: bool) -> (r:
    (Point, Option<Direction>))
    ensures
        r.0 == (if axis_only {
            flee_best(monitors@, pos, threat, step_px as int, cardinal_headings(), 4)
        } else {
            flee_best(monitors@, pos, threat, step_px as int, all_headings(), 8)
        }),
        r.1 == (if axis_only {
            flee_heading(monitors@, pos, threat, step_px as int, cardinal_headings(), 4)
        } else {
            flee_heading(monitors@, pos, threat, step_px as int, all_headings(), 8)
        }),
{
    let n: usize = if axis_only {
        4
    } else {
        8
    };
    let ghost cands = if axis_only {
        cardinal_headings()
    } else {
        all_headings()
    };
    let mut best = pos;
    let mut best_h: Option<Direction> = None;
    let mut best_d: i128 = dist2_exec(pos, threat);
    let mut k: usize = 0;
    while k < n
        invariant
            0 <= k <= n,
            n == cands.len(),
            cands == (if axis_only {
                cardinal_headings()
            } else {
                all_headings()
            }),
            best == flee_best(monitors@, pos, threat, step_px as int, cands, k as int),
            best_h == flee_heading(monitors@, pos, threat, step_px as int, cands, k as int),
            best == heading_target(pos, best_h, step_px as int),
            best_d == dist2(best, threat),
        decreases n - k,
    {
        let d = if axis_only {
            Direction::from_index(2 * k)
        } else {
            Direction::from_index(k)
        };
        assert(d == cands[k as int]);
        match step_from(pos, d, step_px) {
            Some(next) => {
                assert(next == neighbor(pos, d, step_px as int));
                if on_any_monitor(next, monitors) {
                    let nd: i128 = dist2_exec(next, threat);
                    if nd > best_d {
                        best = next;
                        best_h = Some(d);
                        best_d = nd;
                    }
                }
            },
            None => {},
        }
        k += 1;
    }
    (best, best_h)
}

/// Moves one grid cell directly away from `threat`: the standable neighbour
/// (any of the eight headings) that is farthest from it, or stays put if no
/// neighbour gets farther away.
pub fn flee_step(pos: Point, threat: Point, step_px: i32, monitors: &[MonitorBounds]) -> (r: Point)
    ensures
        r == spec_flee_step(monitors@, pos, threat, step_px as int),
{
    flee_over(pos, threat, step_px, monitors, false).0
}

/// A panicked dash of up to `steps` grid cells: the best axis-aligned escape
/// heading is chosen once, then followed, stopping before a cell off every
/// monitor, so the dash is a straight run and never a diagonal zig-zag.
pub fn flee_step_axis_aligned_multi(
    pos: Point,
    threat: Point,
    step_px: i32,
    steps: u32,
    monitors: &[MonitorBounds],
) -> (r: Point)
    ensures
        r == spec_flee_axis(monitors@, pos, threat, step_px as int, steps as nat),
        axis_move(pos, r, step_px as int, steps as int),
        dist2(r, threat) >= dist2(pos, threat),
{
    proof {
        law_panic_dash_is_straight(monitors@, pos, threat, step_px as int, steps as nat);
    }
    let ghost ms = monitors@;
    let ghost s = step_px as int;
    let (_, heading) = flee_over(pos, threat, step_px, monitors, true);
    match heading {
        None => pos,
        Some(d) => {
            let mut cur = pos;
            let mut i: u32 = 0;
            let mut blocked = false;
            while i < steps && !blocked
                invariant
                    0 <= i <= steps,
                    ms == monitors@,
                    s == step_px,
                    !blocked ==> dash(ms, pos, d, s, steps as nat) == dash(
                        ms,
                        cur,
                        d,
                        s,
                        (steps - i) as nat,
                    ),
                    blocked ==> cur == dash(ms, pos, d, s, steps as nat),
                decreases steps - i,
            {
                match step_from(cur, d, step_px) {
                    Some(next) => {
                        assert(next == neighbor(cur, d, s));
                        if on_any_monitor(next, monitors) {
                            cur = next;
                        } else {
                            blocked = true;
                        }
                    },
                    None => {
                        blocked = true;
                    },
                }
                i += 1;
            }
            cur
        },
    }
}

proof fn lemma_first_open_from(
    ms: Seq<MonitorBounds>,
    pos: Point,
    step: int,
    cand: Direction,
    k: int,
)
    requires
        0 <= k <= 8,
    ensures
        first_open_heading(ms, pos, step, cand, k) is None <==> forall|j: int|
            k <= j < 8 ==> !neighbor_open(ms, pos, #[trigger] cand.turned(scan_offset(j)), step),
        first_open_heading(ms, pos, step, cand, k) matches Some(d) ==> neighbor_open(
            ms,
            pos,
            d,
            step,
        ),
    decreases 8 - k,
{
    if k < 8 {
        lemma_first_open_from(ms, pos, step, cand, k + 1);
    }
}

proof fn lemma_scan_reaches(cand: Direction, d: Direction)
    ensures
        exists|j: int| 0 <= j < 8 && #[trigger] cand.turned(scan_offset(j)) == d,
{
    let a = cand.ordinal();
    let b = d.ordinal();
    let diff = b - a;
    let j: int = if diff == 0 {
        0
    } else if diff == 1 || diff == -7 {
        1
    } else if diff == -1 || diff == 7 {
        2
    } else if diff == 2 || diff == -6 {
        3
    } else if diff == -2 || diff == 6 {
        4
    } else if diff == 3 || diff == -5 {
        5
    } else if diff == -3 || diff == 5 {
        6
    } else {
        7
    };
    assert((a + scan_offset(j)) % 8 == b);
    assert(cand.turned(scan_offset(j)) == d);
}

/// Wandering stays put only when boxed in: the widening scan finds no cell to
/// step to exactly when none of the eight neighbouring cells can be stood on,
/// and whatever cell it does pick can be stood on.
pub proof fn law_wander_stays_only_when_boxed_in(
    ms: Seq<MonitorBounds>,
    pos: Point,
    step: int,
    cand: Direction,
)
    ensures
        first_open_heading(ms, pos, step, cand, 0) is None <==> forall|d: Direction|
            !(#[trigger] neighbor_open(ms, pos, d, step)),
        first_open_heading(ms, pos, step, cand, 0) matches Some(d) ==> neighbor_open(
            ms,
            pos,
            d,
            step,
        ),
{
    lemma_first_open_from(ms, pos, step, cand, 0);
    if first_open_heading(ms, pos, step, cand, 0) is None {
        assert forall|d: Direction| !(#[trigger] neighbor_open(ms, pos, d, step)) by {
            lemma_scan_reaches(cand, d);
            let j = choose|j: int| 0 <= j < 8 && #[trigger] cand.turned(scan_offset(j)) == d;
            assert(!neighbor_open(ms, pos, cand.turned(scan_offset(j)), step));
        }
    } else {
        let d = first_open_heading(ms, pos, step, cand, 0)->0;
        assert(neighbor_open(ms, pos, d, step));
    }
}

/// Fleeing never brings the frog closer: the chosen cell is at least as far
/// from the threat as where it stood, and is either where it stood or a
/// neighbouring cell (over one of the candidate headings) that can be stood on.
pub proof fn law_flee_never_closer(
    ms: Seq<MonitorBounds>,
    pos: Point,
    threat: Point,
    step: int,
    cands: Seq<Direction>,
    k: int,
)
    requires
        k <= cands.len(),
    ensures
        dist2(flee_best(ms, pos, threat, step, cands, k), threat) >= dist2(pos, threat),
        flee_best(ms, pos, threat, step, cands, k) == pos || exists|i: int|
            0 <= i < k && neighbor_open(ms, pos, cands[i], step) && flee_best(
                ms,
                pos,
                threat,
                step,
                cands,
                k,
            ) == #[trigger] neighbor(pos, cands[i], step),
    decreases k,
{
    if k > 0 {
        law_flee_never_closer(ms, pos, threat, step, cands, k - 1);
    }
}

proof fn lemma_flee_best_beats_all(
    ms: Seq<MonitorBounds>,
    pos: Point,
    threat: Point,
    step: int,
    cands: Seq<Direction>,
    k: int,
)
    requires
        k <= cands.len(),
    ensures
        forall|i: int|
            0 <= i < k && neighbor_open(ms, pos, #[trigger] cands[i], step) ==> dist2(
                flee_best(ms, pos, threat, step, cands, k),
                threat,
            ) >= dist2(neighbor(pos, cands[i], step), threat),
    decreases k,
{
    if k > 0 {
        lemma_flee_best_beats_all(ms, pos, threat, step, cands, k - 1);
    }
}

/// A flee step goes to the best cell there is: the cell it picks is at least
/// as far from the threat as every neighbouring cell, over all eight
/// headings, that can be stood on, and never closer than where it stood.
pub proof fn law_flee_step_is_farthest(
    ms: Seq<MonitorBounds>,
    pos: Point,
    threat: Point,
    step: int,
    d: Direction,
)
    ensures
        neighbor_open(ms, pos, d, step) ==> dist2(spec_flee_step(ms, pos, threat, step), threat)
            >= dist2(neighbor(pos, d, step), threat),
        dist2(spec_flee_step(ms, pos, threat, step), threat) >= dist2(pos, threat),
{
    let c = all_headings();
    lemma_flee_best_beats_all(ms, pos, threat, step, c, 8);
    law_flee_never_closer(ms, pos, threat, step, c, 8);
    let i = d.ordinal();
    assert(c[i] == d);
}

/// A panicked dash starts with the best axis-aligned step: its first cell is
/// at least as far from the threat as every neighbouring cell straight
/// north, east, south or west that can be stood on.
pub proof fn law_dash_starts_farthest(
    ms: Seq<MonitorBounds>,
    pos: Point,
    threat: Point,
    step: int,
    d: Direction,
)
    requires
        d == Direction::N || d == Direction::E || d == Direction::S || d == Direction::W,
    ensures
        neighbor_open(ms, pos, d, step) ==> dist2(spec_flee_axis(ms, pos, threat, step, 1), threat)
            >= dist2(neighbor(pos, d, step), threat),
{
    let c = cardinal_headings();
    lemma_flee_best_beats_all(ms, pos, threat, step, c, 4);
    lemma_flee_heading(ms, pos, threat, step, c, 4);
    if let Some(h) = flee_heading(ms, pos, threat, step, c, 4) {
        assert(dash(ms, neighbor(pos, h, step), h, step, 0) == neighbor(pos, h, step));
    }
    let i: int = if d == Direction::N {
        0
    } else if d == Direction::E {
        1
    } else if d == Direction::S {
        2
    } else {
        3
    };
    assert(c[i] == d);
}

/// A panicked dash runs on straight whenever it can: after a first step from
/// `pos` to `p1`, the two-step dash takes one more step of the same length
/// in the same direction when that cell can be stood on, and stops at `p1`
/// otherwise.
pub proof fn law_dash_runs_on(ms: Seq<MonitorBounds>, pos: Point, threat: Point, step: int)
    ensures
        ({
            let p1 = spec_flee_axis(ms, pos, threat, step, 1);
            let nx = p1.x + (p1.x - pos.x);
            let ny = p1.y + (p1.y - pos.y);
            p1 != pos ==> (if spec_open(ms, nx, ny) {
                spec_flee_axis(ms, pos, threat, step, 2) == Point { x: nx as i32, y: ny as i32 }
            } else {
                spec_flee_axis(ms, pos, threat, step, 2) == p1
            })
        }),
{
    let c = cardinal_headings();
    lemma_flee_heading(ms, pos, threat, step, c, 4);
    if let Some(d) = flee_heading(ms, pos, threat, step, c, 4) {
        let p1 = neighbor(pos, d, step);
        assert(dash(ms, p1, d, step, 0) == p1);
        assert(spec_flee_axis(ms, pos, threat, step, 1) == p1);
        assert(p1.x == pos.x + d.dx() * step && p1.y == pos.y + d.dy() * step);
        assert(dash(ms, pos, d, step, 2) == dash(ms, p1, d, step, 1));
        assert(p1.x + (p1.x - pos.x) == neighbor_x(p1, d, step));
        assert(p1.y + (p1.y - pos.y) == neighbor_y(p1, d, step));
        if neighbor_open(ms, p1, d, step) {
            let p2 = neighbor(p1, d, step);
            assert(dash(ms, p2, d, step, 0) == p2);
            assert(dash(ms, p1, d, step, 1) == p2);
        }
    }
}

proof fn lemma_flee_heading(
    ms: Seq<MonitorBounds>,
    pos: Point,
    threat: Point,
    step: int,
    cands: Seq<Direction>,
    k: int,
)
    requires
        k <= cands.len(),
    ensures
        flee_best(ms, pos, threat, step, cands, k) == heading_target(
            pos,
            flee_heading(ms, pos, threat, step, cands, k),
            step,
        ),
        flee_heading(ms, pos, threat, step, cands, k) matches Some(d) ==> {
            &&& neighbor_open(ms, pos, d, step)
            &&& dist2(neighbor(pos, d, step), threat) > dist2(pos, threat)
            &&& exists|i: int| 0 <= i < k && #[trigger] cands[i] == d
        },
    decreases k,
{
    if k > 0 {
        lemma_flee_heading(ms, pos, threat, step, cands, k - 1);
        law_flee_never_closer(ms, pos, threat, step, cands, k - 1);
        if let Some(d) = flee_heading(ms, pos, threat, step, cands, k - 1) {
            let i = choose|i: int| 0 <= i < k - 1 && #[trigger] cands[i] == d;
            assert(cands[i] == d);
        }
    }
}

/// What one more step in heading `d` from `p` adds to the squared distance
/// from `t`, for an axis-aligned `d`.
pub open spec fn axis_gain(p: Point, d: Direction, step: int, t: Point) -> int {
    2 * (d.dx() * (p.x - t.x) + d.dy() * (p.y - t.y)) * step + step * step
}

/// `q` is `k` grid steps of `step` pixels from `p` in heading `d`.
pub open spec fn steps_along(p: Point, q: Point, d: Direction, step: int, k: int) -> bool {
    q.x == p.x + k * (d.dx() * step) && q.y == p.y + k * (d.dy() * step)
}

/// Once an axis-aligned step gets farther from `t`, every further step along
/// it does too: a dash only ever moves away, a whole number of steps.
proof fn lemma_dash(ms: Seq<MonitorBounds>, p: Point, d: Direction, step: int, t: Point, n: nat)
    requires
        d.dx() * d.dx() + d.dy() * d.dy() == 1,
        axis_gain(p, d, step, t) > 0,
    ensures
        dist2(dash(ms, p, d, step, n), t) >= dist2(p, t),
        exists|k: int| 0 <= k <= n && #[trigger] steps_along(p, dash(ms, p, d, step, n), d, step, k),
    decreases n,
{
    let r = dash(ms, p, d, step, n);
    if n == 0 || !neighbor_open(ms, p, d, step) {
        assert(0 * (d.dx() * step) == 0 && 0 * (d.dy() * step) == 0) by (nonlinear_arith);
        assert(steps_along(p, r, d, step, 0));
    } else {
        let q = neighbor(p, d, step);
        let dx = d.dx();
        let dy = d.dy();
        assert(q.x == p.x + dx * step && q.y == p.y + dy * step);
        let a = p.x - t.x;
        let b = p.y - t.y;
        assert(dist2(q, t) == dist2(p, t) + axis_gain(p, d, step, t)) by (nonlinear_arith)
            requires
                q.x - t.x == a + dx * step,
                q.y - t.y == b + dy * step,
                p.x - t.x == a,
                p.y - t.y == b,
                dx * dx + dy * dy == 1,
                dist2(q, t) == (q.x - t.x) * (q.x - t.x) + (q.y - t.y) * (q.y - t.y),
                dist2(p, t) == (p.x - t.x) * (p.x - t.x) + (p.y - t.y) * (p.y - t.y),
                axis_gain(p, d, step, t) == 2 * (dx * a + dy * b) * step + step * step,
        ;
        assert(axis_gain(q, d, step, t) == axis_gain(p, d, step, t) + 2 * (step * step)) by (
        nonlinear_arith)
            requires
                q.x - t.x == a + dx * step,
                q.y - t.y == b + dy * step,
                dx * dx + dy * dy == 1,
                axis_gain(p, d, step, t) == 2 * (dx * a + dy * b) * step + step * step,
                axis_gain(q, d, step, t) == 2 * (dx * (q.x - t.x) + dy * (q.y - t.y)) * step
                    + step * step,
        ;
        assert(step * step >= 0) by (nonlinear_arith);
        lemma_dash(ms, q, d, step, t, (n - 1) as nat);
        let k = choose|k: int|
            0 <= k <= n - 1 && #[trigger] steps_along(q, r, d, step, k);
        assert(steps_along(p, r, d, step, k + 1)) by (nonlinear_arith)
            requires
                r.x == q.x + k * (dx * step),
                r.y == q.y + k * (dy * step),
                q.x == p.x + dx * step,
                q.y == p.y + dy * step,
                d.dx() == dx,
                d.dy() == dy,
        ;
    }
}

/// A panicked dash is a straight run that only moves away: however many
/// steps it takes, the frog ends on its own row or column, a whole number of
/// grid steps (at most `n`) from where it stood, and no closer to the threat.
pub proof fn law_panic_dash_is_straight(
    ms: Seq<MonitorBounds>,
    pos: Point,
    threat: Point,
    step: int,
    n: nat,
)
    ensures
        axis_move(pos, spec_flee_axis(ms, pos, threat, step, n), step, n as int),
        dist2(spec_flee_axis(ms, pos, threat, step, n), threat) >= dist2(pos, threat),
{
    let r = spec_flee_axis(ms, pos, threat, step, n);
    let c = cardinal_headings();
    lemma_flee_heading(ms, pos, threat, step, c, 4);
    match flee_heading(ms, pos, threat, step, c, 4) {
        None => {
            assert(r.x - pos.x == steps_of(0, step));
            assert(r.y - pos.y == steps_of(0, step));
        },
        Some(d) => {
            let i = choose|i: int| 0 <= i < 4 && #[trigger] c[i] == d;
            assert(d == Direction::N || d == Direction::E || d == Direction::S || d
                == Direction::W);
            let q = neighbor(pos, d, step);
            let dx = d.dx();
            let dy = d.dy();
            assert(q.x == pos.x + dx * step && q.y == pos.y + dy * step);
            assert(dist2(q, threat) == dist2(pos, threat) + axis_gain(pos, d, step, threat)) by (
            nonlinear_arith)
                requires
                    q.x - threat.x == (pos.x - threat.x) + dx * step,
                    q.y - threat.y == (pos.y - threat.y) + dy * step,
                    dx * dx + dy * dy == 1,
                    dist2(q, threat) == (q.x - threat.x) * (q.x - threat.x) + (q.y - threat.y) * (
                    q.y - threat.y),
                    dist2(pos, threat) == (pos.x - threat.x) * (pos.x - threat.x) + (pos.y
                        - threat.y) * (pos.y - threat.y),
                    axis_gain(pos, d, step, threat) == 2 * (dx * (pos.x - threat.x) + dy * (pos.y
                        - threat.y)) * step + step * step,
            ;
            lemma_dash(ms, pos, d, step, threat, n);
            let k = choose|k: int| 0 <= k <= n && #[trigger] steps_along(pos, r, d, step, k);
            if dx == 0 {
                assert(r.x == pos.x);
                assert(r.y - pos.y == steps_of(k * dy, step)) by (nonlinear_arith)
                    requires
                        r.y == pos.y + k * (dy * step),
                ;
                assert(-(n as int) <= k * dy <= n) by (nonlinear_arith)
                    requires
                        0 <= k <= n,
                        dy == 1 || dy == -1,
                ;
            } else {
                assert(r.y == pos.y);
                assert(r.x - pos.x == steps_of(k * dx, step)) by (nonlinear_arith)
                    requires
                        r.x == pos.x + k * (dx * step),
                ;
                assert(-(n as int) <= k * dx <= n) by (nonlinear_arith)
                    requires
                        0 <= k <= n,
                        dx == 1 || dx == -1,
                ;
            }
        },
    }
}

} // verus!
