//! A pair of chess clocks with a Fischer increment. Times are milliseconds;
//! the instants the caller passes are milliseconds from any fixed origin.

use vstd::prelude::*;
use crate::types::Color;
use crate::eval::half_even;
use crate::text::{decimal, push_decimal, string_of};

verus! {

/// The value of a [`Clock`].
pub struct ClockView {
    /// White's and Black's time left.
    pub white: nat,
    pub black: nat,
    pub increment: nat,
    /// Set once the first move has been played.
    pub started: bool,
    /// When the running side was last charged; `None` while paused.
    pub last_tick: Option<nat>,
    /// Both times after each ply, so a takeback can put them back.
    pub snapshots: Seq<(nat, nat)>,
}

impl ClockView {
    pub open spec fn remaining(self, c: Color) -> nat {
        match c {
            Color::White => self.white,
            Color::Black => self.black,
        }
    }

    pub open spec fn with_remaining(self, c: Color, t: nat) -> ClockView {
        match c {
            Color::White => ClockView { white: t, ..self },
            Color::Black => ClockView { black: t, ..self },
        }
    }

    pub open spec fn is_running(self) -> bool {
        self.started && self.last_tick is Some
    }

    /// `side` charged for the time from the last tick to `now`, none if the
    /// clock is paused, and nothing at all before the first move.
    pub open spec fn tick(self, side: Color, now: nat) -> ClockView {
        if !self.started {
            self
        } else {
            let charged = match self.last_tick {
                Some(last) => {
                    let spent = if now >= last { now - last } else { 0 };
                    let left = self.remaining(side);
                    self.with_remaining(side, if left >= spent { (left - spent) as nat } else { 0 })
                },
                None => self,
            };
            ClockView { last_tick: Some(now), ..charged }
        }
    }

    /// `mover` has played the move that makes `ply` moves: their time
    /// settled, the increment added (up to the largest time a clock holds),
    /// the clock running from `now`, and the times recorded for `ply`,
    /// replacing any recorded from there on.
    pub open spec fn press(self, mover: Color, now: nat, ply: nat) -> ClockView {
        let t = self.tick(mover, now);
        let total = t.remaining(mover) + t.increment;
        let added = t.with_remaining(mover, if total > max_time() { max_time() } else { total });
        ClockView {
            started: true,
            last_tick: Some(now),
            snapshots: (if ply < t.snapshots.len() { t.snapshots.take(ply as int) } else { t.snapshots }).push((added.white, added.black)),
            ..added
        }
    }

    /// Both times as they stood after `ply` moves, paused, when those were
    /// recorded; unchanged otherwise.
    pub open spec fn restore(self, ply: nat) -> ClockView {
        if ply < self.snapshots.len() {
            ClockView {
                white: self.snapshots[ply as int].0,
                black: self.snapshots[ply as int].1,
                started: ply > 0,
                last_tick: None,
                ..self
            }
        } else {
            self
        }
    }
}

/// A pair of chess clocks.
#[derive(Debug, Clone)]
pub struct Clock {
    white: u64,
    black: u64,
    increment: u64,
    started: bool,
    last_tick: Option<u64>,
    snapshots: Vec<(u64, u64)>,
}

impl View for Clock {
    type V = ClockView;

    closed spec fn view(&self) -> ClockView {
        ClockView {
            white: self.white as nat,
            black: self.black as nat,
            increment: self.increment as nat,
            started: self.started,
            last_tick: match self.last_tick {
                Some(t) => Some(t as nat),
                None => None,
            },
            snapshots: self.snapshots@.map_values(|p: (u64, u64)| (p.0 as nat, p.1 as nat)),
        }
    }
}

/// The largest time a clock holds.
pub open spec fn max_time() -> nat {
    u64::MAX as nat
}

impl Clock {
    /// Every recorded time fits a clock, and at least the start is recorded.
    pub closed spec fn wf(&self) -> bool {
        self.snapshots@.len() >= 1
    }

    /// A clock at `minutes` for each side with `increment_seconds` added
    /// after each move.
    pub fn new(minutes: u32, increment_seconds: u32) -> (c: Clock)
        ensures
            c.wf(),
            c@.white == minutes * 60000,
            c@.black == minutes * 60000,
            c@.increment == increment_seconds * 1000,
            !c@.started,
            c@.last_tick is None,
            c@.snapshots == seq![((minutes * 60000) as nat, (minutes * 60000) as nat)],
    {
        let start: u64 = minutes as u64 * 60000;
        let c = Clock {
            white: start,
            black: start,
            increment: increment_seconds as u64 * 1000,
            started: false,
            last_tick: None,
            snapshots: vec![(start, start)],
        };
        proof {
            assert(c@.snapshots =~= seq![((minutes * 60000) as nat, (minutes * 60000) as nat)]);
        }
        c
    }

    /// `color`'s time left.
    pub fn remaining(&self, color: Color) -> (t: u64)
        ensures
            t == self@.remaining(color),
    {
        match color {
            Color::White => self.white,
            Color::Black => self.black,
        }
    }

    /// The time added after each move.
    pub fn increment(&self) -> (t: u64)
        ensures
            t == self@.increment,
    {
        self.increment
    }

    /// Ticking once the first move is played and not paused.
    pub fn is_running(&self) -> (r: bool)
        ensures
            r == self@.is_running(),
    {
        self.started && self.last_tick.is_some()
    }

    /// Charge `side` for the time since the last tick. True when its flag fell.
    pub fn tick(&mut self, side: Color, now: u64) -> (flagged: bool)
        requires
            old(self).wf(),
        ensures
            final(self).wf(),
            final(self)@ == old(self)@.tick(side, now as nat),
            flagged == (old(self)@.started && final(self)@.remaining(side) == 0),
    {
        if !self.started {
            return false;
        }
        if let Some(last) = self.last_tick {
            let spent = now.saturating_sub(last);
            match side {
                Color::White => self.white = self.white.saturating_sub(spent),
                Color::Black => self.black = self.black.saturating_sub(spent),
            }
        }
        self.last_tick = Some(now);
        self.remaining(side) == 0
    }

    /// Stop charging until the next tick, for instance while browsing the history.
    pub fn pause(&mut self)
        requires
            old(self).wf(),
        ensures
            final(self).wf(),
            final(self)@ == (ClockView { last_tick: None, ..old(self)@ }),
    {
        self.last_tick = None;
    }

    /// `mover` has played the move that makes `ply` moves: settle their time,
    /// add the increment, and start the clock if this was the first move.
    pub fn press(&mut self, mover: Color, now: u64, ply: usize)
        requires
            old(self).wf(),
        ensures
            final(self).wf(),
            final(self)@ == old(self)@.press(mover, now as nat, ply as nat),
    {
        let ghost before = self@;
        self.tick(mover, now);
        let ghost ticked = self@;
        self.started = true;
        self.last_tick = Some(now);
        match mover {
            Color::White => self.white = self.white.saturating_add(self.increment),
            Color::Black => self.black = self.black.saturating_add(self.increment),
        }
        self.snapshots.truncate(ply);
        self.snapshots.push((self.white, self.black));
        proof {
            let want = before.press(mover, now as nat, ply as nat);
            assert(self@.snapshots =~= want.snapshots);
        }
    }

    /// Put both clocks back to where they stood after `ply` moves, for undo,
    /// redo and jumps. Paused until the next tick, so the time spent browsing
    /// is nobody's.
    pub fn restore(&mut self, ply: usize)
        requires
            old(self).wf(),
        ensures
            final(self).wf(),
            final(self)@ == old(self)@.restore(ply as nat),
    {
        if ply < self.snapshots.len() {
            let (w, b) = self.snapshots[ply];
            self.white = w;
            self.black = b;
            self.started = ply > 0;
            self.last_tick = None;
        }
    }

    /// `m:ss`, with tenths under ten seconds.
    pub fn format(millis: u64) -> (s: String)
        ensures
            s@ == format_spec(millis as nat),
    {
        let mut out: Vec<char> = Vec::new();
        if millis < 10000 {
            let tenths: u64 = tenths_of_second(millis);
            out.push('0');
            out.push(':');
            if tenths / 10 < 10 {
                out.push('0');
            }
            push_decimal(&mut out, tenths / 10);
            out.push('.');
            push_decimal(&mut out, tenths % 10);
        } else {
            let whole: u64 = millis / 1000;
            push_decimal(&mut out, whole / 60);
            out.push(':');
            if whole % 60 < 10 {
                out.push('0');
            }
            push_decimal(&mut out, whole % 60);
        }
        string_of(out.as_slice())
    }
}

/// `n` in decimal, at least two digits wide.
pub open spec fn two_digits(n: nat) -> Seq<char> {
    if n < 10 { seq!['0'] + decimal(n) } else { decimal(n) }
}

/// `prod` doubled, with `scale` beside it, until it reaches 1000 * 2^52.
pub open spec fn lifted_thousandths(prod: nat, scale: nat) -> (nat, nat)
    decreases (if prod >= 4_503_599_627_370_496_000 { 0 } else { 4_503_599_627_370_496_000 - prod }),
{
    if prod == 0 || prod >= 4_503_599_627_370_496_000 {
        (prod, scale)
    } else {
        lifted_thousandths(2 * prod, 2 * scale)
    }
}

/// The spacing of double-precision floats around `x`: the least power of two
/// from `sp` on that leaves `x` under 2^53 units of it.
pub open spec fn f64_spacing(x: nat, sp: nat) -> nat
    decreases (if sp == 0 || sp >= x { 0 } else { x - sp }),
{
    if sp == 0 || x < 0x20_0000_0000_0000 * sp { sp } else { f64_spacing(x, 2 * sp) }
}

/// Tenths of a second in `millis` (below ten seconds) as `Duration::as_secs_f64`
/// gives the seconds and `{:.1}` prints them: the thousandths turned into a
/// double, added to the whole seconds in double precision, then rounded to
/// tenths, ties to even each time.
pub open spec fn clock_tenths(millis: nat) -> nat {
    let s = millis / 1000;
    let j = millis % 1000;
    if j == 0 {
        10 * s
    } else {
        let (prod, scale) = lifted_thousandths(j, 1);
        let x = s * scale + half_even(prod, 1000);
        let sp = f64_spacing(x, 1);
        half_even(10 * (half_even(x, sp) * sp), scale)
    }
}

/// A time as the clock shows it: `m:ss`, or `0:ss.t` under ten seconds.
pub open spec fn format_spec(millis: nat) -> Seq<char> {
    if millis < 10000 {
        let tenths = clock_tenths(millis);
        seq!['0', ':'] + two_digits(tenths / 10) + seq!['.'] + decimal(tenths % 10)
    } else {
        let whole = millis / 1000;
        decimal(whole / 60) + seq![':'] + two_digits(whole % 60)
    }
}

/// A takeback puts back the times a move left: after `mover` plays the move
/// that makes `ply` moves, restoring `ply` gives the times that move left,
/// with the clock paused.
pub proof fn law_restore_returns_to_the_press(c: ClockView, mover: Color, now: nat, ply: nat)
    requires
        ply <= c.snapshots.len(),
    ensures
        ({
            let p = c.press(mover, now, ply);
            let r = p.restore(ply);
            &&& r.white == p.white
            &&& r.black == p.black
            &&& !r.is_running()
        }),
{
}

/// A press charges the mover for the time since the clock last ran (none
/// when it was paused, and never below zero), adds the increment, leaves
/// the other side's time alone and sets the clock running.
pub proof fn law_press_charges_the_mover(c: ClockView, mover: Color, now: nat, ply: nat)
    requires
        c.last_tick matches Some(last) ==> last <= now,
    ensures
        ({
            let p = c.press(mover, now, ply);
            let left = c.remaining(mover);
            let spent: nat = if c.is_running() { (now - c.last_tick->0) as nat } else { 0 };
            let charged: nat = if left >= spent { (left - spent) as nat } else { 0 };
            let total = charged + c.increment;
            &&& p.is_running()
            &&& p.remaining(mover) == (if total > max_time() { max_time() } else { total })
            &&& p.remaining(mover.spec_opposite()) == c.remaining(mover.spec_opposite())
        }),
{
}

/// Before the first move nothing is charged and no flag falls.
pub proof fn law_first_move_is_free(c: ClockView, side: Color, now: nat)
    requires
        !c.started,
    ensures
        c.tick(side, now) == c,
{
}

/// A paused clock charges nothing on its next tick.
pub proof fn law_pause_skips_the_gap(c: ClockView, side: Color, now: nat)
    ensures
        ({
            let t = ClockView { last_tick: None, ..c }.tick(side, now);
            &&& t.white == c.white
            &&& t.black == c.black
        }),
{
}

/// Time only goes down between presses: a tick never adds to either side.
pub proof fn law_tick_never_adds(c: ClockView, side: Color, now: nat)
    ensures
        c.tick(side, now).white <= c.white,
        c.tick(side, now).black <= c.black,
{
}

fn half_even_wide(num: u128, den: u128) -> (r: u128)
    requires
        den > 0,
        num < u128::MAX,
    ensures
        r == half_even(num as nat, den as nat),
{
    let q = num / den;
    let r = num % den;
    if r > den - r {
        q + 1
    } else if r < den - r {
        q
    } else if q % 2 == 1 {
        q + 1
    } else {
        q
    }
}

/// The tenths of a second the clock shows for `millis` under ten seconds.
fn tenths_of_second(millis: u64) -> (t: u64)
    requires
        millis < 10000,
    ensures
        t == clock_tenths(millis as nat),
{
    let s: u128 = (millis / 1000) as u128;
    let j: u128 = (millis % 1000) as u128;
    if j == 0 {
        return (10 * s) as u64;
    }
    let mut prod: u128 = j;
    let mut scale: u128 = 1;
    while prod < 4_503_599_627_370_496_000
        invariant
            1 <= prod < 9_007_199_254_740_992_000,
            1 <= scale <= prod,
            prod == j * scale,
            1 <= j <= 999,
            lifted_thousandths(prod as nat, scale as nat) == lifted_thousandths(j as nat, 1),
        decreases (if prod >= 4_503_599_627_370_496_000 { 0 } else { 4_503_599_627_370_496_000 - prod }),
    {
        proof {
            assert(lifted_thousandths(prod as nat, scale as nat) == lifted_thousandths(2 * prod as nat, 2 * scale as nat));
            assert(j * (scale * 2) == (j * scale) * 2) by (nonlinear_arith);
        }
        prod = prod * 2;
        scale = scale * 2;
    }
    let m = half_even_wide(prod, 1000);
    proof {
        assert(prod <= 999 * scale) by (nonlinear_arith)
            requires
                prod == j * scale,
                j <= 999,
        ;
        assert(scale >= 0x10_0000) by (nonlinear_arith)
            requires
                prod <= 999 * scale,
                prod >= 4_503_599_627_370_496_000,
        ;
        assert(prod / 1000 < scale);
        assert(m <= scale);
        assert(s * scale <= 9 * scale) by (nonlinear_arith)
            requires
                s <= 9,
        ;
    }
    let x: u128 = s * scale + m;
    let mut sp: u128 = 1;
    while x >= 0x20_0000_0000_0000 * sp
        invariant
            1 <= sp <= x,
            sp <= 0x10_0000,
            x <= 10 * scale,
            scale >= 0x10_0000,
            scale < 0x8000_0000_0000_0000,
            f64_spacing(x as nat, sp as nat) == f64_spacing(x as nat, 1),
        decreases x - sp,
    {
        proof {
            assert(f64_spacing(x as nat, sp as nat) == f64_spacing(x as nat, 2 * sp as nat));
        }
        sp = sp * 2;
    }
    let q = half_even_wide(x, sp);
    proof {
        assert(q * sp <= x + sp) by (nonlinear_arith)
            requires
                q <= x / sp + 1,
                sp > 0,
        {
            assert((x / sp) * sp <= x);
            assert(q * sp <= (x / sp + 1) * sp);
        }
    }
    let xr = q * sp;
    let t = half_even_wide(10 * xr, scale);
    proof {
        assert(10 * xr <= 110 * scale);
        vstd::arithmetic::div_mod::lemma_div_is_ordered((10 * xr) as int, (110 * scale) as int, scale as int);
        vstd::arithmetic::div_mod::lemma_div_by_multiple(110, scale as int);
        assert(t <= 111);
    }
    t as u64
}

} // verus!
