//! The frog's brain: a state machine over wandering, idling, napping, being
//! startled and fleeing, plus its commentary.
pub mod messages;
pub mod movement;

use crate::chance::{random_below, random_in, roll_percent};
use messages::{option_view, Commentary, CommentaryView};
use movement::{
    flee_step,
    flee_step_axis_aligned_multi,
    grid_offset,
    steps_of,
    spec_flee_axis,
    spec_flee_step,
    spec_within,
    walk,
    within,
    Direction,
    MonitorBounds,
    Point,
    Wanderer,
};
use rand::rngs::StdRng;
use vstd::prelude::*;

verus! {

/// A sleeping frog wakes (and immediately flees) if the cursor gets this close:
/// wider than the flee radius so waking up doesn't feel like a jump-scare dodge.
pub const WAKE_RADIUS_PX: i32 = 200;

/// Stop fleeing once this far from the cursor.
pub const SAFE_DISTANCE_PX: i32 = 220;

/// Chance, in percent, that a fresh flee turns into a panic (double speed and
/// a startled shout).
pub const PANIC_PERCENT: u32 = 20;

pub const IDLE_TICKS_MIN: u32 = 2;

pub const IDLE_TICKS_MAX_EXCLUSIVE: u32 = 5;

/// Sleep naps run roughly 3-4x longer than an ordinary idle pause.
pub const SLEEP_TICKS_MIN: u32 = IDLE_TICKS_MIN * 5;

pub const SLEEP_TICKS_MAX_EXCLUSIVE: u32 = IDLE_TICKS_MAX_EXCLUSIVE * 6;

/// What the frog perceives in one tick.
pub struct WorldInput<'a> {
    pub monitors: &'a [MonitorBounds],
    pub cursor: Point,
}

/// What the frog is doing; the counts are the ticks left.
#[derive(Clone, Copy, PartialEq, Eq, Debug, Structural)]
pub enum State {
    Wander,
    Idle(u32),
    Sleeping(u32),
    Startled(u32),
    Fleeing,
}

/// The random draws of one tick of the frog.
#[derive(Clone, Copy, Debug)]
pub struct StepRolls {
    /// Percentile roll deciding whether a fresh flee turns into a panic.
    pub panic_roll: u32,
    /// How many ticks a panic lasts (2 or 3).
    pub panic_len: u32,
    /// Percentile roll choosing between napping, being startled, idling and walking.
    pub mood_roll: u32,
    /// Length of a nap.
    pub sleep_len: u32,
    /// Length of an idle pause.
    pub idle_len: u32,
    /// Percentile roll choosing how the wander heading changes.
    pub heading_roll: u32,
    /// Which way the heading drifts (0 = clockwise).
    pub turn: u32,
    /// Compass position of a fresh heading.
    pub fresh: usize,
    /// Length of the silence after a remark.
    pub pause: u32,
    /// Index of the next remark.
    pub pick: usize,
}

impl StepRolls {
    /// Every draw lies in the range that the frog draws it from.
    pub open spec fn valid(self, message_count: nat) -> bool {
        &&& self.panic_roll < 100
        &&& 2 <= self.panic_len < 4
        &&& self.mood_roll < 100
        &&& SLEEP_TICKS_MIN <= self.sleep_len < SLEEP_TICKS_MAX_EXCLUSIVE
        &&& IDLE_TICKS_MIN <= self.idle_len < IDLE_TICKS_MAX_EXCLUSIVE
        &&& self.heading_roll < 100
        &&& self.turn < 2
        &&& self.fresh < 8
        &&& 20 <= self.pause < 80
        &&& (message_count > 0 ==> self.pick < message_count)
    }

    /// Draws every roll of a tick by chance.
    pub fn draw(rng: &mut StdRng, message_count: usize) -> (r: StepRolls)
        ensures
            r.valid(message_count as nat),
    {
        let panic_roll = roll_percent(rng);
        let panic_len = random_in(rng, 2, 4);
        let mood_roll = roll_percent(rng);
        let sleep_len = random_in(rng, SLEEP_TICKS_MIN, SLEEP_TICKS_MAX_EXCLUSIVE);
        let idle_len = random_in(rng, IDLE_TICKS_MIN, IDLE_TICKS_MAX_EXCLUSIVE);
        let heading_roll = roll_percent(rng);
        let turn = random_in(rng, 0, 2);
        let fresh = random_below(rng, 8);
        let pause = random_in(rng, 20, 80);
        let pick = if message_count > 0 {
            random_below(rng, message_count)
        } else {
            0
        };
        StepRolls {
            panic_roll,
            panic_len,
            mood_roll,
            sleep_len,
            idle_len,
            heading_roll,
            turn,
            fresh,
            pause,
            pick,
        }
    }
}

/// The frog as plain values.
pub struct FrogView {
    pub pos: Point,
    pub step_px: i32,
    pub heading: Direction,
    pub commentary: CommentaryView,
    pub state: State,
    pub sleep_frame: u32,
    pub panic_ticks_left: u32,
    pub flee_radius_px: i32,
}

/// The heading the wanderer tries first, from the heading rolls.
pub open spec fn spec_pick_heading(heading: Direction, roll: u32, turn: u32, fresh: usize) -> Direction {
    if roll < 60 {
        heading
    } else if roll < 85 {
        heading.turned(
            if turn == 0 {
                1int
            } else {
                -1int
            },
        )
    } else {
        Direction::at(fresh as int)
    }
}

/// Counting down a timed state: back to wandering once the last tick is used up.
pub open spec fn spec_countdown(state: State) -> State {
    match state {
        State::Idle(t) => if t <= 1 {
            State::Wander
        } else {
            State::Idle((t - 1) as u32)
        },
        State::Sleeping(t) => if t <= 1 {
            State::Wander
        } else {
            State::Sleeping((t - 1) as u32)
        },
        State::Startled(t) => if t <= 1 {
            State::Wander
        } else {
            State::Startled((t - 1) as u32)
        },
        _ => state,
    }
}

impl FrogView {
    /// The frog's own invariant: its commentary is well formed, and a panic
    /// only ever runs while fleeing, for at most two more ticks.
    pub open spec fn wf(self) -> bool {
        &&& self.commentary.wf()
        &&& (self.panic_ticks_left > 0 ==> self.state == State::Fleeing)
        &&& self.panic_ticks_left <= 2
    }

    /// The cursor is close enough to send the frog fleeing: within the flee
    /// radius, or, while it sleeps, within the wider wake radius.
    pub open spec fn threatened(self, cursor: Point) -> bool {
        spec_within(self.pos, cursor, self.flee_radius_px as int) || (self.state is Sleeping
            && spec_within(self.pos, cursor, WAKE_RADIUS_PX as int))
    }

    /// Plain, silent wandering: the only moment a fresh flee may turn into a panic.
    pub open spec fn plain_wander(self) -> bool {
        self.state == State::Wander && self.commentary.current is None
    }

    /// The state after the threat check at the start of a tick.
    pub open spec fn alerted(self, cursor: Point, rolls: StepRolls) -> FrogView {
        if self.threatened(cursor) {
            FrogView {
                state: State::Fleeing,
                panic_ticks_left: if self.plain_wander() && rolls.panic_roll < PANIC_PERCENT {
                    rolls.panic_len
                } else {
                    self.panic_ticks_left
                },
                ..self
            }
        } else {
            self
        }
    }

    /// The state after acting on the current state (before the commentary ticks).
    pub open spec fn acted(self, ms: Seq<MonitorBounds>, cursor: Point, rolls: StepRolls) -> FrogView {
        match self.state {
            State::Fleeing => {
                let pos = if self.panic_ticks_left > 0 {
                    spec_flee_axis(ms, self.pos, cursor, self.step_px as int, 2)
                } else {
                    spec_flee_step(ms, self.pos, cursor, self.step_px as int)
                };
                let left = if self.panic_ticks_left > 0 {
                    (self.panic_ticks_left - 1) as u32
                } else {
                    0u32
                };
                if !spec_within(pos, cursor, SAFE_DISTANCE_PX as int) {
                    FrogView { pos, state: State::Wander, panic_ticks_left: 0, ..self }
                } else {
                    FrogView { pos, panic_ticks_left: left, ..self }
                }
            },
            State::Sleeping(_) => FrogView {
                state: spec_countdown(self.state),
                sleep_frame: if self.sleep_frame == u32::MAX {
                    0
                } else {
                    (self.sleep_frame + 1) as u32
                },
                ..self
            },
            State::Idle(_) => FrogView { state: spec_countdown(self.state), ..self },
            State::Startled(_) => FrogView { state: spec_countdown(self.state), ..self },
            State::Wander => {
                if rolls.mood_roll < 5 {
                    FrogView { state: State::Sleeping(rolls.sleep_len), ..self }
                } else if rolls.mood_roll < 8 {
                    FrogView { state: State::Startled(1), ..self }
                } else if rolls.mood_roll < 33 {
                    FrogView { state: State::Idle(rolls.idle_len), ..self }
                } else {
                    let cand = spec_pick_heading(
                        self.heading,
                        rolls.heading_roll,
                        rolls.turn,
                        rolls.fresh,
                    );
                    let moved = walk(ms, self.pos, self.step_px as int, self.heading, cand);
                    FrogView { pos: moved.0, heading: moved.1, ..self }
                }
            },
        }
    }

    /// One full tick of the frog, given its random draws.
    pub open spec fn step(self, ms: Seq<MonitorBounds>, cursor: Point, rolls: StepRolls) -> FrogView {
        let a = self.alerted(cursor, rolls).acted(ms, cursor, rolls);
        FrogView { commentary: a.commentary.tick(rolls.pause, rolls.pick as int), ..a }
    }

    /// The speech bubble: a panic shout, then the nap or startle emotes, and
    /// only otherwise the frog's own remark.
    pub open spec fn bubble(self) -> Option<Seq<char>> {
        match self.state {
            State::Fleeing => if self.panic_ticks_left > 0 {
                Some("Eeek! Go away!"@)
            } else {
                self.commentary.current
            },
            State::Sleeping(_) => if self.sleep_frame % 2 == 0 {
                Some("z z z"@)
            } else {
                Some("zZzZz"@)
            },
            State::Startled(_) => Some("!"@),
            _ => self.commentary.current,
        }
    }
}

pub struct Frog {
    pub pos: Point,
    wanderer: Wanderer,
    commentary: Commentary,
    state: State,
    sleep_frame: u32,
    panic_ticks_left: u32,
    flee_radius_px: i32,
}

impl View for Frog {
    type V = FrogView;

    closed spec fn view(&self) -> FrogView {
        FrogView {
            pos: self.pos,
            step_px: self.wanderer.step(),
            heading: self.wanderer.heading(),
            commentary: self.commentary@,
            state: self.state,
            sleep_frame: self.sleep_frame,
            panic_ticks_left: self.panic_ticks_left,
            flee_radius_px: self.flee_radius_px,
        }
    }
}

fn idle_for(t: u32) -> (s: State)
    ensures
        s == State::Idle(t),
{
    State::Idle(t)
}

fn sleeping_for(t: u32) -> (s: State)
    ensures
        s == State::Sleeping(t),
{
    State::Sleeping(t)
}

fn startled_for(t: u32) -> (s: State)
    ensures
        s == State::Startled(t),
{
    State::Startled(t)
}

fn next_countdown(ticks_left: u32, done: State, still_going: impl Fn(u32) -> State) -> (r: State)
    requires
        forall|t: u32| still_going.requires((t,)),
    ensures
        ticks_left <= 1 ==> r == done,
        ticks_left > 1 ==> still_going.ensures(((ticks_left - 1) as u32,), r),
{
    if ticks_left <= 1 {
        done
    } else {
        still_going(ticks_left - 1)
    }
}

impl Frog {
    /// A frog at `start`, wandering east on a grid of `step_px` pixels, that
    /// flees when the cursor comes within `flee_radius_px` and remarks from
    /// `messages`.
    pub fn new(
        start: Point,
        step_px: i32,
        flee_radius_px: i32,
        messages: Vec<String>,
        rng: &mut StdRng,
    ) -> (r: Self)
        ensures
            r@.pos == start,
            r@.step_px == step_px,
            r@.heading == Direction::E,
            r@.flee_radius_px == flee_radius_px,
            r@.state == State::Wander,
            r@.sleep_frame == 0,
            r@.panic_ticks_left == 0,
            r@.commentary.messages == messages::string_views(messages@),
            r@.commentary.current is None,
            r@.commentary.speaking_ticks_left == 0,
            4 <= r@.commentary.ticks_until_next < 10,
            r@.wf(),
    {
        Self {
            pos: start,
            wanderer: Wanderer::new(step_px, Direction::E),
            commentary: Commentary::new(messages, rng),
            state: State::Wander,
            sleep_frame: 0,
            panic_ticks_left: 0,
            flee_radius_px,
        }
    }

    /// Where the frog is.
    pub fn pos(&self) -> (r: Point)
        ensures
            r == self@.pos,
    {
        self.pos
    }

    /// What the frog is doing.
    pub fn state(&self) -> (r: State)
        ensures
            r == self@.state,
    {
        self.state
    }

    /// One tick with its random draws given (see `FrogView::step`).
    pub fn step_with(&mut self, input: &WorldInput, rolls: &StepRolls)
        requires
            rolls.valid(old(self)@.commentary.messages.len()),
        ensures
            final(self)@ == old(self)@.step(input.monitors@, input.cursor, *rolls),
    {
        let ghost pre = self@;
        let threat_close = within(self.pos, input.cursor, self.flee_radius_px);
        let sleeping = match self.state {
            State::Sleeping(_) => true,
            _ => false,
        };
        let plain_wander = match self.state {
            State::Wander => true,
            _ => false,
        } && self.commentary.bubble().is_none();
        if threat_close || (sleeping && within(self.pos, input.cursor, WAKE_RADIUS_PX)) {
            if plain_wander && rolls.panic_roll < PANIC_PERCENT {
                self.panic_ticks_left = rolls.panic_len;
            }
            self.state = State::Fleeing;
        }
        let ghost alerted = self@;
        assert(alerted == pre.alerted(input.cursor, *rolls));
        match self.state {
            State::Fleeing => {
                self.pos =
                if self.panic_ticks_left > 0 {
                    flee_step_axis_aligned_multi(
                        self.pos,
                        input.cursor,
                        self.wanderer.step_px(),
                        2,
                        input.monitors,
                    )
                } else {
                    flee_step(self.pos, input.cursor, self.wanderer.step_px(), input.monitors)
                };
                self.panic_ticks_left = self.panic_ticks_left.saturating_sub(1);
                if !within(self.pos, input.cursor, SAFE_DISTANCE_PX) {
                    self.state = State::Wander;
                    self.panic_ticks_left = 0;
                }
            },
            State::Idle(ticks_left) => {
                self.state =
                next_countdown(
                    ticks_left,
                    State::Wander,
                    idle_for,
                );
            },
            State::Sleeping(ticks_left) => {
                self.sleep_frame = self.sleep_frame.wrapping_add(1);
                self.state =
                next_countdown(
                    ticks_left,
                    State::Wander,
                    sleeping_for,
                );
            },
            State::Startled(ticks_left) => {
                self.state =
                next_countdown(
                    ticks_left,
                    State::Wander,
                    startled_for,
                );
            },
            State::Wander => {
                if rolls.mood_roll < 5 {
                    self.state = State::Sleeping(rolls.sleep_len);
                } else if rolls.mood_roll < 8 {
                    self.state = State::Startled(1);
                } else if rolls.mood_roll < 33 {
                    self.state = State::Idle(rolls.idle_len);
                } else {
                    let cand = self.wanderer.pick_heading(
                        rolls.heading_roll,
                        rolls.turn,
                        rolls.fresh,
                    );
                    self.pos = self.wanderer.step_toward(self.pos, input.monitors, cand);
                }
            },
        }
        let ghost acted = self@;
        assert(acted == alerted.acted(input.monitors@, input.cursor, *rolls));
        self.commentary.tick_with(rolls.pause, rolls.pick);
    }

    /// One tick, drawing its rolls by chance: the outcome is the tick of
    /// `FrogView::step` for some usable rolls.
    pub fn step(&mut self, input: &WorldInput, rng: &mut StdRng)
        ensures
            exists|rolls: StepRolls|
                rolls.valid(old(self)@.commentary.messages.len()) && final(self)@ == #[trigger] old(
                    self,
                )@.step(input.monitors@, input.cursor, rolls),
    {
        let n = self.commentary.message_count();
        let rolls = StepRolls::draw(rng, n);
        self.step_with(input, &rolls);
    }

    /// The bubble text to show this tick, if any. Sleep and startle emotes take
    /// priority over ordinary commentary: the frog doesn't chit-chat mid-nap.
    pub fn bubble(&self) -> (r: Option<String>)
        ensures
            option_view(r) == self@.bubble(),
    {
        match self.state {
            State::Fleeing => {
                if self.panic_ticks_left > 0 {
                    return Some(String::from_str("Eeek! Go away!"));
                }
            },
            State::Sleeping(_) => {
                if self.sleep_frame % 2 == 0 {
                    return Some(String::from_str("z z z"));
                } else {
                    return Some(String::from_str("zZzZz"));
                }
            },
            State::Startled(_) => {
                return Some(String::from_str("!"));
            },
            _ => {},
        }
        match self.commentary.bubble() {
            Some(s) => Some(String::from_str(s)),
            None => None,
        }
    }
}


/// The frog after `n` ticks among the monitors `ms`, tick `i` seeing the
/// cursor at `ticks[i].0` and drawing the rolls `ticks[i].1`.
pub open spec fn run_steps(
    f: FrogView,
    ms: Seq<MonitorBounds>,
    ticks: Seq<(Point, StepRolls)>,
    n: nat,
) -> FrogView
    decreases n,
{
    if n == 0 {
        f
    } else {
        let t = ticks[n - 1];
        run_steps(f, ms, ticks, (n - 1) as nat).step(ms, t.0, t.1)
    }
}

/// `text` is one of the frog's lines: a remark from `messages`, or one of
/// its panic, nap and startle emotes.
pub open spec fn frog_line(messages: Seq<Seq<char>>, text: Seq<char>) -> bool {
    ||| messages.contains(text)
    ||| text == "Eeek! Go away!"@
    ||| text == "z z z"@
    ||| text == "zZzZz"@
    ||| text == "!"@
}

/// Over any run of ticks the frog stays well formed, keeps the messages it
/// was given, and every bubble it shows is one of its lines: a configured
/// remark or an emote, never anything else.
pub proof fn law_frog_says_only_its_lines(
    f: FrogView,
    ms: Seq<MonitorBounds>,
    ticks: Seq<(Point, StepRolls)>,
    n: nat,
)
    requires
        f.wf(),
        n <= ticks.len(),
        forall|i: int| 0 <= i < ticks.len() ==> (#[trigger] ticks[i]).1.valid(
            f.commentary.messages.len(),
        ),
    ensures
        run_steps(f, ms, ticks, n).wf(),
        run_steps(f, ms, ticks, n).commentary.messages == f.commentary.messages,
        run_steps(f, ms, ticks, n).bubble() matches Some(t) ==> frog_line(
            f.commentary.messages,
            t,
        ),
    decreases n,
{
    if n > 0 {
        law_frog_says_only_its_lines(f, ms, ticks, (n - 1) as nat);
        let prev = run_steps(f, ms, ticks, (n - 1) as nat);
        let t = ticks[n - 1];
        law_step_keeps_frog_wf(prev, ms, t.0, t.1);
    }
    let g = run_steps(f, ms, ticks, n);
    if g.commentary.current is Some {
        assert(g.commentary.messages.contains(g.commentary.current->0));
    }
}

/// Every tick keeps the frog well formed: its commentary stays well formed
/// with the same messages, and a panic only runs while fleeing.
pub proof fn law_step_keeps_frog_wf(f: FrogView, ms: Seq<MonitorBounds>, cursor: Point, rolls: StepRolls)
    requires
        f.wf(),
        rolls.valid(f.commentary.messages.len()),
    ensures
        f.step(ms, cursor, rolls).wf(),
        f.step(ms, cursor, rolls).commentary.messages == f.commentary.messages,
{
    let a = f.alerted(cursor, rolls).acted(ms, cursor, rolls);
    assert(a.commentary == f.commentary);
    messages::law_tick_keeps_commentary_wf(a.commentary, rolls.pause, rolls.pick as int);
}

/// A panic only interrupts plain wandering: never a nap, a startle, an idle
/// pause, a flight already under way or a remark on screen. Unless the frog
/// was wandering in silence, a tick never adds panic ticks.
pub proof fn law_panic_only_from_plain_wander(
    f: FrogView,
    ms: Seq<MonitorBounds>,
    cursor: Point,
    rolls: StepRolls,
)
    requires
        f.wf(),
        !f.plain_wander(),
    ensures
        f.step(ms, cursor, rolls).panic_ticks_left <= f.panic_ticks_left,
{
}

/// A threatened frog flees, whatever it was doing: when the cursor is within
/// the flee radius (or, for a napping frog, within the wake radius) at the
/// start of a tick, after the tick the frog is fleeing, or it has already got
/// beyond the safe distance and gone back to wandering; and a frog that
/// is still fleeing after a tick is within the safe distance of the cursor.
pub proof fn law_threat_makes_frog_flee(
    f: FrogView,
    ms: Seq<MonitorBounds>,
    cursor: Point,
    rolls: StepRolls,
)
    ensures
        (spec_within(f.pos, cursor, f.flee_radius_px as int) || (f.state is Sleeping
            && spec_within(f.pos, cursor, WAKE_RADIUS_PX as int))) ==> (f.step(
            ms,
            cursor,
            rolls,
        ).state == State::Fleeing
            || (f.step(ms, cursor, rolls).state == State::Wander && !spec_within(
            f.step(ms, cursor, rolls).pos,
            cursor,
            SAFE_DISTANCE_PX as int,
        ))),
        f.step(ms, cursor, rolls).state == State::Fleeing ==> spec_within(
            f.step(ms, cursor, rolls).pos,
            cursor,
            SAFE_DISTANCE_PX as int,
        ),
{
}

/// A fleeing frog never moves closer to the cursor.
pub proof fn law_fleeing_never_closer(
    f: FrogView,
    ms: Seq<MonitorBounds>,
    cursor: Point,
    rolls: StepRolls,
)
    requires
        f.state == State::Fleeing || f.threatened(cursor),
    ensures
        movement::dist2(f.step(ms, cursor, rolls).pos, cursor) >= movement::dist2(f.pos, cursor),
{
    movement::law_panic_dash_is_straight(ms, f.pos, cursor, f.step_px as int, 2);
    movement::law_flee_never_closer(
        ms,
        f.pos,
        cursor,
        f.step_px as int,
        movement::all_headings(),
        8,
    );
}

/// The nap and startle emotes and the panic shout take priority over any
/// remark: a startled frog shows "!", a napping one a snore, and a panicking
/// one its shout, whatever its commentary is saying; otherwise the bubble is
/// the current remark, if any.
pub proof fn law_emotes_come_first(f: FrogView)
    ensures
        f.state is Startled ==> f.bubble() == Some("!"@),
        f.state is Sleeping ==> f.bubble() == Some("z z z"@) || f.bubble() == Some("zZzZz"@),
        f.state == State::Fleeing && f.panic_ticks_left > 0 ==> f.bubble() == Some(
            "Eeek! Go away!"@,
        ),
        (f.state == State::Wander || f.state is Idle || (f.state == State::Fleeing
            && f.panic_ticks_left == 0)) ==> f.bubble() == f.commentary.current,
{
}

/// The snore alternates every tick of a nap: while the frog sleeps on, a
/// "z z z" bubble becomes "zZzZz" and a "zZzZz" bubble becomes "z z z".
pub proof fn law_snore_alternates(f: FrogView, ms: Seq<MonitorBounds>, cursor: Point, rolls: StepRolls)
    requires
        f.state is Sleeping,
        f.step(ms, cursor, rolls).state is Sleeping,
    ensures
        f.sleep_frame % 2 == 0 ==> f.bubble() == Some("z z z"@) && f.step(
            ms,
            cursor,
            rolls,
        ).bubble() == Some("zZzZz"@),
        f.sleep_frame % 2 == 1 ==> f.bubble() == Some("zZzZz"@) && f.step(
            ms,
            cursor,
            rolls,
        ).bubble() == Some("z z z"@),
{
    let g = f.step(ms, cursor, rolls);
    assert(!f.threatened(cursor));
    assert(g.sleep_frame == (if f.sleep_frame == u32::MAX {
        0
    } else {
        f.sleep_frame + 1
    }));
}

/// The nap animation only advances while napping undisturbed.
pub proof fn law_sleep_frame_only_advances_asleep(
    f: FrogView,
    ms: Seq<MonitorBounds>,
    cursor: Point,
    rolls: StepRolls,
)
    ensures
        f.step(ms, cursor, rolls).sleep_frame != f.sleep_frame ==> (f.state is Sleeping
            && !f.threatened(cursor)),
{
}

/// A timed state undisturbed by the cursor counts down by one tick, and the
/// frog does not move meanwhile.
pub proof fn law_timed_states_count_down(
    f: FrogView,
    ms: Seq<MonitorBounds>,
    cursor: Point,
    rolls: StepRolls,
)
    requires
        !f.threatened(cursor),
        f.state is Idle || f.state is Sleeping || f.state is Startled,
    ensures
        f.step(ms, cursor, rolls).state == spec_countdown(f.state),
        f.step(ms, cursor, rolls).pos == f.pos,
{
}

proof fn lemma_cell_offset(ms: Seq<MonitorBounds>, pos: Point, d: Direction, step: int)
    requires
        movement::neighbor_open(ms, pos, d, step),
    ensures
        grid_offset(movement::neighbor(pos, d, step).x - pos.x, step, 1),
        grid_offset(movement::neighbor(pos, d, step).y - pos.y, step, 1),
{
    let n = movement::neighbor(pos, d, step);
    assert(n.x == pos.x + d.dx() * step);
    assert(n.y == pos.y + d.dy() * step);
    assert(-1 <= d.dx() <= 1 && -1 <= d.dy() <= 1);
    assert(n.x - pos.x == steps_of(d.dx(), step));
    assert(n.y - pos.y == steps_of(d.dy(), step));
}

proof fn lemma_flee_offset(
    ms: Seq<MonitorBounds>,
    pos: Point,
    threat: Point,
    step: int,
    cands: Seq<Direction>,
    k: int,
)
    requires
        k <= cands.len(),
    ensures
        grid_offset(movement::flee_best(ms, pos, threat, step, cands, k).x - pos.x, step, 1),
        grid_offset(movement::flee_best(ms, pos, threat, step, cands, k).y - pos.y, step, 1),
{
    movement::law_flee_never_closer(ms, pos, threat, step, cands, k);
    let r = movement::flee_best(ms, pos, threat, step, cands, k);
    if r == pos {
        assert(r.x - pos.x == steps_of(0, step));
        assert(r.y - pos.y == steps_of(0, step));
    } else {
        let i = choose|i: int|
            0 <= i < k && movement::neighbor_open(ms, pos, cands[i], step) && r
                == #[trigger] movement::neighbor(pos, cands[i], step);
        lemma_cell_offset(ms, pos, cands[i], step);
    }
}

/// The frog moves on a grid: in one tick it moves by a whole number of grid
/// steps along each axis, at most one, or at most two during a panicked dash.
pub proof fn law_moves_in_grid_steps(
    f: FrogView,
    ms: Seq<MonitorBounds>,
    cursor: Point,
    rolls: StepRolls,
)
    ensures
        ({
            let g = f.step(ms, cursor, rolls);
            let a = f.alerted(cursor, rolls);
            let n = if a.state == State::Fleeing && a.panic_ticks_left > 0 {
                2int
            } else {
                1int
            };
            grid_offset(g.pos.x - f.pos.x, f.step_px as int, n) && grid_offset(
                g.pos.y - f.pos.y,
                f.step_px as int,
                n,
            )
        }),
{
    let s = f.step_px as int;
    let a = f.alerted(cursor, rolls);
    let g = f.step(ms, cursor, rolls);
    assert(a.pos == f.pos && a.step_px == f.step_px);
    match a.state {
        State::Fleeing => {
            if a.panic_ticks_left > 0 {
                movement::law_panic_dash_is_straight(ms, f.pos, cursor, s, 2);
                let p = spec_flee_axis(ms, f.pos, cursor, s, 2);
                if p.x == f.pos.x {
                    assert(p.x - f.pos.x == steps_of(0, s));
                }
                if p.y == f.pos.y {
                    assert(p.y - f.pos.y == steps_of(0, s));
                }
            } else {
                lemma_flee_offset(ms, f.pos, cursor, s, movement::all_headings(), 8);
            }
        },
        State::Wander => {
            if rolls.mood_roll >= 33 {
                let cand = spec_pick_heading(f.heading, rolls.heading_roll, rolls.turn, rolls.fresh);
                movement::law_wander_stays_only_when_boxed_in(ms, f.pos, s, cand);
                match movement::first_open_heading(ms, f.pos, s, cand, 0) {
                    Some(d) => {
                        lemma_cell_offset(ms, f.pos, d, s);
                    },
                    None => {
                        assert(g.pos.x - f.pos.x == steps_of(0, s));
                        assert(g.pos.y - f.pos.y == steps_of(0, s));
                    },
                }
            } else {
                assert(g.pos.x - f.pos.x == steps_of(0, s));
                assert(g.pos.y - f.pos.y == steps_of(0, s));
            }
        },
        _ => {
            assert(g.pos.x - f.pos.x == steps_of(0, s));
            assert(g.pos.y - f.pos.y == steps_of(0, s));
        },
    }
}

} // verus!
