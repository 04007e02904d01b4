//! What the frog says, and when.
use crate::chance::{random_below, random_in};
use rand::rngs::StdRng;
use vstd::prelude::*;

verus! {

/// How many ticks a remark stays on screen.
pub const SPEAKING_TICKS: u32 = 6;

/// The remarks the frog makes when no others are configured.
pub fn default_messages() -> (v: Vec<String>)
    ensures
        v@.len() == 7,
        v@[0]@ == "Why is your mouse so fast?"@,
        v@[1]@ == "I have important frog business."@,
        v@[2]@ == "Ribbit."@,
        v@[3]@ == "Just vibing here."@,
        v@[4]@ == "Is that a bug? Tasty."@,
        v@[5]@ == "Don't mind me."@,
        v@[6]@ == "Nice desktop."@,
{
    let mut v: Vec<String> = Vec::new();
    v.push(String::from_str("Why is your mouse so fast?"));
    v.push(String::from_str("I have important frog business."));
    v.push(String::from_str("Ribbit."));
    v.push(String::from_str("Just vibing here."));
    v.push(String::from_str("Is that a bug? Tasty."));
    v.push(String::from_str("Don't mind me."));
    v.push(String::from_str("Nice desktop."));
    v
}

/// The state of the commentary, as plain values.
pub struct CommentaryView {
    pub messages: Seq<Seq<char>>,
    pub ticks_until_next: u32,
    pub speaking_ticks_left: u32,
    pub current: Option<Seq<char>>,
}

impl CommentaryView {
    /// A remark is on screen exactly while its speaking time runs, it lasts at
    /// most `SPEAKING_TICKS` ticks, and it is always one of the configured
    /// messages.
    pub open spec fn wf(self) -> bool {
        &&& (self.speaking_ticks_left > 0 <==> self.current is Some)
        &&& self.speaking_ticks_left <= SPEAKING_TICKS
        &&& (self.current matches Some(m) ==> self.messages.contains(m))
    }

    /// The random draws of one tick are usable: a silence of 20 to 79 ticks,
    /// and the index of a configured message (when there are any).
    pub open spec fn tick_rolls_ok(self, pause: u32, pick: int) -> bool {
        &&& 20 <= pause < 80
        &&& (self.messages.len() > 0 ==> 0 <= pick < self.messages.len())
    }

    /// One tick of commentary, given its random draws: a remark on screen
    /// counts down and, when its time is up, disappears and starts a silence of
    /// `pause` ticks; otherwise a running silence counts down; when the silence
    /// is over the frog says message `pick` for `SPEAKING_TICKS` ticks, or,
    /// having nothing to say, starts a new silence.
    pub open spec fn tick(self, pause: u32, pick: int) -> CommentaryView {
        if self.speaking_ticks_left > 0 {
            if self.speaking_ticks_left == 1 {
                CommentaryView {
                    speaking_ticks_left: 0,
                    current: None,
                    ticks_until_next: pause,
                    ..self
                }
            } else {
                CommentaryView { speaking_ticks_left: (self.speaking_ticks_left - 1) as u32, ..self }
            }
        } else if self.ticks_until_next > 0 {
            CommentaryView { ticks_until_next: (self.ticks_until_next - 1) as u32, ..self }
        } else if self.messages.len() == 0 {
            CommentaryView { ticks_until_next: pause, ..self }
        } else {
            CommentaryView {
                current: Some(self.messages[pick]),
                speaking_ticks_left: SPEAKING_TICKS,
                ..self
            }
        }
    }
}

/// Ticks are whatever cadence the caller drives `tick()` at (one movement step,
/// in DeskFrog's case): this stays decoupled from wall-clock time so the brain
/// has no OS dependency.
pub struct Commentary {
    messages: Vec<String>,
    ticks_until_next: u32,
    speaking_ticks_left: u32,
    current: Option<String>,
}

pub open spec fn string_views(v: Seq<String>) -> Seq<Seq<char>> {
    v.map_values(|s: String| s@)
}

pub open spec fn option_view(o: Option<String>) -> Option<Seq<char>> {
    match o {
        Some(s) => Some(s@),
        None => None,
    }
}

impl View for Commentary {
    type V = CommentaryView;

    closed spec fn view(&self) -> CommentaryView {
        CommentaryView {
            messages: string_views(self.messages@),
            ticks_until_next: self.ticks_until_next,
            speaking_ticks_left: self.speaking_ticks_left,
            current: option_view(self.current),
        }
    }
}

impl Commentary {
    /// Starts silent, with a first remark due after 4 to 9 ticks.
    pub fn new(messages: Vec<String>, rng: &mut StdRng) -> (r: Self)
        ensures
            r@.messages == string_views(messages@),
            4 <= r@.ticks_until_next < 10,
            r@.speaking_ticks_left == 0,
            r@.current is None,
            r@.wf(),
    {
        let first = random_in(rng, 4, 10);
        Commentary { messages, ticks_until_next: first, speaking_ticks_left: 0, current: None }
    }

    /// One tick with its random draws given (see `CommentaryView::tick`).
    pub fn tick_with(&mut self, pause: u32, pick: usize)
        requires
            old(self)@.tick_rolls_ok(pause, pick as int),
        ensures
            final(self)@ == old(self)@.tick(pause, pick as int),
    {
        if self.speaking_ticks_left > 0 {
            self.speaking_ticks_left = self.speaking_ticks_left - 1;
            if self.speaking_ticks_left == 0 {
                self.current = None;
                self.ticks_until_next = pause;
            }
            return ;
        }
        if self.ticks_until_next > 0 {
            self.ticks_until_next = self.ticks_until_next - 1;
            return ;
        }
        if self.messages.len() == 0 {
            self.ticks_until_next = pause;
            return ;
        }
        let msg = self.messages[pick].clone();
        self.current = Some(msg);
        self.speaking_ticks_left = SPEAKING_TICKS;
    }

    /// One tick, drawing what it needs by chance: the outcome is the tick of
    /// `CommentaryView::tick` for some usable draws.
    pub fn tick(&mut self, rng: &mut StdRng)
        ensures
            exists|pause: u32, pick: int|
                old(self)@.tick_rolls_ok(pause, pick) && final(self)@ == #[trigger] old(self)@.tick(
                    pause,
                    pick,
                ),
    {
        let needs_pause = (self.speaking_ticks_left == 1) || (self.speaking_ticks_left == 0
            && self.ticks_until_next == 0 && self.messages.len() == 0);
        let needs_pick = self.speaking_ticks_left == 0 && self.ticks_until_next == 0
            && self.messages.len() > 0;
        let pause = if needs_pause {
            random_in(rng, 20, 80)
        } else {
            20
        };
        let pick = if needs_pick {
            random_below(rng, self.messages.len())
        } else {
            0
        };
        let ghost pre = self@;
        self.tick_with(pause, pick);
        assert(pre.tick_rolls_ok(pause, pick as int));
    }

    /// The remark on screen, if any.
    pub fn bubble(&self) -> (r: Option<&str>)
        ensures
            match r {
                Some(s) => self@.current == Some(s@),
                None => self@.current is None,
            },
    {
        match &self.current {
            Some(s) => Some(s.as_str()),
            None => None,
        }
    }

    /// How many configured messages there are.
    pub fn message_count(&self) -> (r: usize)
        ensures
            r == self@.messages.len(),
    {
        self.messages.len()
    }
}

/// Every tick keeps the commentary well formed and never changes the
/// configured messages: a remark on screen is always one of them.
pub proof fn law_tick_keeps_commentary_wf(c: CommentaryView, pause: u32, pick: int)
    requires
        c.wf(),
        c.tick_rolls_ok(pause, pick),
    ensures
        c.tick(pause, pick).wf(),
        c.tick(pause, pick).messages == c.messages,
{
    if c.speaking_ticks_left == 0 && c.ticks_until_next == 0 && c.messages.len() > 0 {
        assert(c.messages.contains(c.messages[pick]));
    }
}

/// A remark, once picked, stays on screen for exactly `SPEAKING_TICKS` ticks:
/// a remark with `k > 1` ticks left is still shown after the next tick with
/// `k - 1` left, and one with a single tick left disappears.
pub proof fn law_remark_counts_down(c: CommentaryView, pause: u32, pick: int)
    requires
        c.speaking_ticks_left > 0,
    ensures
        c.speaking_ticks_left > 1 ==> c.tick(pause, pick).current == c.current
            && c.tick(pause, pick).speaking_ticks_left == c.speaking_ticks_left - 1,
        c.speaking_ticks_left == 1 ==> c.tick(pause, pick).current is None,
{
}

/// The draws `draws` are usable for every tick of `c`: each silence lasts 20
/// to 79 ticks and each pick names a configured message.
pub open spec fn draws_ok(c: CommentaryView, draws: Seq<(u32, int)>) -> bool {
    forall|i: int| 0 <= i < draws.len() ==> c.tick_rolls_ok(#[trigger] draws[i].0, draws[i].1)
}

/// The commentary after `n` ticks, tick `i` taking the draws `draws[i]`.
pub open spec fn run_ticks(c: CommentaryView, draws: Seq<(u32, int)>, n: nat) -> CommentaryView
    decreases n,
{
    if n == 0 {
        c
    } else {
        let d = draws[n - 1];
        run_ticks(c, draws, (n - 1) as nat).tick(d.0, d.1)
    }
}

/// Over any run of ticks with usable draws the commentary stays well formed
/// and keeps its messages, so every remark shown is a configured message and,
/// with none configured, nothing is ever shown.
pub proof fn law_run_says_only_messages(c: CommentaryView, draws: Seq<(u32, int)>, n: nat)
    requires
        c.wf(),
        draws_ok(c, draws),
        n <= draws.len(),
    ensures
        run_ticks(c, draws, n).wf(),
        run_ticks(c, draws, n).messages == c.messages,
        run_ticks(c, draws, n).current matches Some(m) ==> c.messages.contains(m),
        c.messages.len() == 0 ==> run_ticks(c, draws, n).current is None,
    decreases n,
{
    if n > 0 {
        law_run_says_only_messages(c, draws, (n - 1) as nat);
        let d = draws[n - 1];
        assert(c.tick_rolls_ok(d.0, d.1));
        law_tick_keeps_commentary_wf(run_ticks(c, draws, (n - 1) as nat), d.0, d.1);
    }
    let r = run_ticks(c, draws, n);
    if c.messages.len() == 0 && r.current is Some {
        assert(r.messages.contains(r.current->0));
    }
}

/// `a + b` ticks are `a` ticks followed by `b` more.
proof fn lemma_run_split(c: CommentaryView, draws: Seq<(u32, int)>, a: nat, b: nat)
    requires
        a + b <= draws.len(),
    ensures
        run_ticks(c, draws, a + b) == run_ticks(run_ticks(c, draws, a), draws.skip(a as int), b),
    decreases b,
{
    if b > 0 {
        lemma_run_split(c, draws, a, (b - 1) as nat);
        assert(draws.skip(a as int)[b - 1] == draws[a + b - 1]);
    }
}

/// During a silence nothing is said: each tick takes one off the silence.
proof fn lemma_silence(c: CommentaryView, draws: Seq<(u32, int)>, k: nat)
    requires
        c.speaking_ticks_left == 0,
        c.current is None,
        k <= c.ticks_until_next,
    ensures
        run_ticks(c, draws, k) == (CommentaryView {
            ticks_until_next: (c.ticks_until_next - k) as u32,
            ..c
        }),
    decreases k,
{
    if k > 0 {
        lemma_silence(c, draws, (k - 1) as nat);
    }
}

/// A silence of `t` ticks is kept exactly: with something to say, the frog
/// says nothing for the next `t` ticks and starts a remark on tick `t + 1`.
pub proof fn law_silence_then_remark(c: CommentaryView, draws: Seq<(u32, int)>)
    requires
        c.speaking_ticks_left == 0,
        c.current is None,
        c.messages.len() > 0,
        draws_ok(c, draws),
        draws.len() > c.ticks_until_next,
    ensures
        forall|k: nat| k <= c.ticks_until_next ==> (#[trigger] run_ticks(c, draws, k)).current is None,
        run_ticks(c, draws, (c.ticks_until_next + 1) as nat).current is Some,
        run_ticks(c, draws, (c.ticks_until_next + 1) as nat).speaking_ticks_left == SPEAKING_TICKS,
{
    assert forall|k: nat| k <= c.ticks_until_next implies (#[trigger] run_ticks(
        c,
        draws,
        k,
    )).current is None by {
        lemma_silence(c, draws, k);
    }
    let t = c.ticks_until_next as nat;
    lemma_silence(c, draws, t);
    assert(c.tick_rolls_ok(draws[t as int].0, draws[t as int].1));
}

/// The first remark comes after 5 to 10 ticks: from the silent start that
/// `Commentary::new` gives, with something to say, the first four ticks are
/// silent and a remark is on screen after some tick from the fifth to the
/// tenth, with silence before it.
pub proof fn law_first_remark(c: CommentaryView, draws: Seq<(u32, int)>)
    requires
        c.speaking_ticks_left == 0,
        c.current is None,
        4 <= c.ticks_until_next < 10,
        c.messages.len() > 0,
        draws_ok(c, draws),
        draws.len() >= 10,
    ensures
        forall|k: nat| k <= 4 ==> (#[trigger] run_ticks(c, draws, k)).current is None,
        exists|k: nat|
            5 <= k <= 10 && (#[trigger] run_ticks(c, draws, k)).current is Some && forall|j: nat|
                j < k ==> (#[trigger] run_ticks(c, draws, j)).current is None,
{
    law_silence_then_remark(c, draws);
    let k = (c.ticks_until_next + 1) as nat;
    assert(run_ticks(c, draws, k).current is Some);
}

/// Silence between remarks lasts 21 to 80 ticks: when a remark ends on the
/// next tick, which draws the silence `p = draws[0].0` (20 to 79), the frog
/// says nothing after each of ticks 1 to `p + 1`, and a new remark is on
/// screen after tick `p + 2`.
pub proof fn law_pause_between_remarks(c: CommentaryView, draws: Seq<(u32, int)>)
    requires
        c.wf(),
        c.speaking_ticks_left == 1,
        draws_ok(c, draws),
        draws.len() >= 81,
    ensures
        20 <= draws[0].0 < 80,
        forall|k: nat| 1 <= k <= draws[0].0 + 1 ==> (#[trigger] run_ticks(c, draws, k)).current is None,
        run_ticks(c, draws, (draws[0].0 + 2) as nat).current is Some,
{
    let p = draws[0].0;
    assert(c.tick_rolls_ok(draws[0].0, draws[0].1));
    let c1 = run_ticks(c, draws, 1);
    assert(run_ticks(c, draws, 0) == c);
    assert(c1.ticks_until_next == p && c1.current is None && c1.speaking_ticks_left == 0);
    assert(c.messages.len() > 0) by {
        assert(c.messages.contains(c.current->0));
    }
    let rest = draws.skip(1);
    assert(draws_ok(c1, rest)) by {
        assert forall|i: int| 0 <= i < rest.len() implies c1.tick_rolls_ok(
            #[trigger] rest[i].0,
            rest[i].1,
        ) by {
            assert(rest[i] == draws[i + 1]);
            assert(c.tick_rolls_ok(draws[i + 1].0, draws[i + 1].1));
        }
    }
    law_silence_then_remark(c1, rest);
    assert forall|k: nat| 1 <= k <= p + 1 implies (#[trigger] run_ticks(c, draws, k)).current is None by {
        lemma_run_split(c, draws, 1, (k - 1) as nat);
        assert(run_ticks(c1, rest, (k - 1) as nat).current is None);
    }
    lemma_run_split(c, draws, 1, (p + 1) as nat);
}

} // verus!
