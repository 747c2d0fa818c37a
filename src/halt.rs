//! The two terminal handlers, as machines that never stop.
//!
//! A handler drives a set of `n` indicators, numbered in their enumeration
//! order, and a blocking delay. It is written here as a machine that yields
//! the next action on each call; whoever runs it performs the action and asks
//! for the next one, forever. Each machine's contract gives its `k`-th action
//! for every `k`, as one period of actions repeated without end.

use vstd::prelude::*;
use vstd::arithmetic::div_mod::{lemma_add_mod_noop, lemma_mod_multiples_vanish, lemma_mod_pos_bound, lemma_mod_self_0, lemma_small_mod};

verus! {

/// How long, in milliseconds, each phase of a pattern is held.
pub const BLINK_MS: u64 = 100;

/// One step of a terminal handler.
#[derive(Clone, Copy, Debug, PartialEq, Eq, Structural)]
pub enum Action {
    /// Turn on the indicator with this position in the enumeration.
    On(usize),
    /// Turn off the indicator with this position in the enumeration.
    Off(usize),
    /// Block for this many milliseconds.
    Delay(u64),
}

/// Turning on each of `n` indicators, in enumeration order.
pub open spec fn all_on(n: usize) -> Seq<Action> {
    Seq::new(n as nat, |i: int| Action::On(i as usize))
}

/// Turning off each of `n` indicators, in enumeration order.
pub open spec fn all_off(n: usize) -> Seq<Action> {
    Seq::new(n as nat, |i: int| Action::Off(i as usize))
}

/// One period of the error handler's blink over `n` indicators: all on,
/// hold, all off, hold.
pub open spec fn flash_period(n: usize) -> Seq<Action> {
    all_on(n).push(Action::Delay(BLINK_MS)) + all_off(n).push(Action::Delay(BLINK_MS))
}

/// The `k`-th action (counting from 0) of the error handler over `n` indicators.
pub open spec fn flash_action(n: usize, k: nat) -> Action {
    flash_period(n)[(k % flash_period(n).len()) as int]
}

proof fn lemma_mod_succ(k: nat, m: nat)
    requires
        m > 0,
    ensures
        (k + 1) % m == if k % m + 1 == m { 0 } else { k % m + 1 },
{
    lemma_add_mod_noop(k as int, 1, m as int);
    lemma_mod_pos_bound(k as int, m as int);
    if m == 1 {
        lemma_small_mod(0, 1);
        lemma_mod_self_0(1);
    } else {
        lemma_small_mod(1, m);
        if k % m + 1 < m {
            lemma_small_mod((k % m + 1) as nat, m);
        } else {
            lemma_mod_self_0(m as int);
        }
    }
}

/// The error handler: every indicator on, a hold, every indicator off, a
/// hold, and again.
pub struct FlashAllLeds {
    count: usize,
    lit: bool,
    index: usize,
    taken: Ghost<nat>,
}

impl FlashAllLeds {
    /// The number of indicators driven.
    pub closed spec fn count(&self) -> usize {
        self.count
    }

    /// The number of actions yielded so far.
    pub closed spec fn taken(&self) -> nat {
        self.taken@
    }

    spec fn position(&self) -> int {
        if self.lit {
            self.index as int
        } else {
            self.count + 1 + self.index
        }
    }

    /// The machine's position in the period matches the actions yielded.
    pub closed spec fn wf(&self) -> bool {
        &&& self.index <= self.count
        &&& self.position() == self.taken@ % flash_period(self.count).len()
    }

    /// A machine over `count` indicators that has yielded nothing yet.
    pub fn new(count: usize) -> (m: Self)
        ensures
            m.wf(),
            m.count() == count,
            m.taken() == 0,
    {
        let m = FlashAllLeds { count, lit: true, index: 0, taken: Ghost(0) };
        proof {
            lemma_small_mod(0, flash_period(count).len());
        }
        m
    }

    /// Yields the next action. The machine stays well formed, so it can be
    /// asked again without end.
    pub fn next_action(&mut self) -> (a: Action)
        requires
            old(self).wf(),
        ensures
            final(self).wf(),
            final(self).count() == old(self).count(),
            final(self).taken() == old(self).taken() + 1,
            a == flash_action(old(self).count(), old(self).taken()),
    {
        let ghost n = self.count;
        let ghost p = flash_period(n);
        let ghost k = self.taken@;
        let a = if self.index < self.count {
            if self.lit {
                Action::On(self.index)
            } else {
                Action::Off(self.index)
            }
        } else {
            Action::Delay(BLINK_MS)
        };
        proof {
            lemma_mod_succ(k, p.len());
        }
        if self.index < self.count {
            self.index = self.index + 1;
        } else {
            self.index = 0;
            self.lit = !self.lit;
        }
        self.taken = Ghost(k + 1);
        a
    }
}

/// One turn of the chase for the indicator at position `i`: on, hold, off, hold.
pub open spec fn chase_turn(i: usize) -> Seq<Action> {
    seq![Action::On(i), Action::Delay(BLINK_MS), Action::Off(i), Action::Delay(BLINK_MS)]
}

/// One period of the allocation-exhaustion handler's chase over `n`
/// indicators: a turn for each, in enumeration order. With no indicator it
/// is a lone hold, so that the handler still waits without end.
pub open spec fn chase_period(n: usize) -> Seq<Action> {
    if n == 0 {
        seq![Action::Delay(BLINK_MS)]
    } else {
        Seq::new(4 * n as nat, |k: int| chase_turn((k / 4) as usize)[k % 4])
    }
}

/// The `k`-th action (counting from 0) of the allocation-exhaustion handler
/// over `n` indicators.
pub open spec fn chase_action(n: usize, k: nat) -> Action {
    chase_period(n)[(k % chase_period(n).len()) as int]
}

proof fn lemma_quarters(i: int, ph: int)
    requires
        0 <= i,
        0 <= ph < 4,
    ensures
        (4 * i + ph) / 4 == i,
        (4 * i + ph) % 4 == ph,
{
    assert((4 * i + ph) / 4 == i && (4 * i + ph) % 4 == ph) by (nonlinear_arith)
        requires
            0 <= ph < 4,
            0 <= i,
    ;
}

/// The allocation-exhaustion handler: each indicator in turn is lit and
/// held, then put out and held, in enumeration order, cycling back to the
/// first after the last.
pub struct CycleLeds {
    count: usize,
    index: usize,
    phase: u8,
    taken: Ghost<nat>,
}

impl CycleLeds {
    /// The number of indicators driven.
    pub closed spec fn count(&self) -> usize {
        self.count
    }

    /// The number of actions yielded so far.
    pub closed spec fn taken(&self) -> nat {
        self.taken@
    }

    spec fn position(&self) -> int {
        4 * self.index + self.phase
    }

    /// The machine's position in the period matches the actions yielded.
    pub closed spec fn wf(&self) -> bool {
        &&& self.phase < 4
        &&& self.count == 0 ==> self.index == 0 && self.phase == 0
        &&& self.count > 0 ==> self.index < self.count
        &&& self.position() == self.taken@ % chase_period(self.count).len()
    }

    /// A machine over `count` indicators that has yielded nothing yet.
    pub fn new(count: usize) -> (m: Self)
        ensures
            m.wf(),
            m.count() == count,
            m.taken() == 0,
    {
        let m = CycleLeds { count, index: 0, phase: 0, taken: Ghost(0) };
        proof {
            lemma_small_mod(0, chase_period(count).len());
        }
        m
    }

    /// Yields the next action. The machine stays well formed, so it can be
    /// asked again without end, also over no indicator at all.
    pub fn next_action(&mut self) -> (a: Action)
        requires
            old(self).wf(),
        ensures
            final(self).wf(),
            final(self).count() == old(self).count(),
            final(self).taken() == old(self).taken() + 1,
            a == chase_action(old(self).count(), old(self).taken()),
    {
        let ghost n = self.count;
        let ghost p = chase_period(n);
        let ghost k = self.taken@;
        if self.count == 0 {
            proof {
                lemma_mod_succ(k, 1);
            }
            self.taken = Ghost(k + 1);
            return Action::Delay(BLINK_MS);
        }
        let a = if self.phase == 0 {
            Action::On(self.index)
        } else if self.phase == 2 {
            Action::Off(self.index)
        } else {
            Action::Delay(BLINK_MS)
        };
        proof {
            let i = self.index as int;
            let ph = self.phase as int;
            lemma_quarters(i, ph);
            lemma_mod_succ(k, p.len());
        }
        if self.phase < 3 {
            self.phase = self.phase + 1;
        } else {
            self.phase = 0;
            if self.index + 1 < self.count {
                self.index = self.index + 1;
            } else {
                self.index = 0;
            }
        }
        self.taken = Ghost(k + 1);
        a
    }
}

proof fn lemma_round_offset(m: nat, r: nat, j: nat)
    requires
        j < m,
    ensures
        (r * m + j) % m == j,
{
    lemma_mod_multiples_vanish(r as int, j as int, m as int);
    lemma_small_mod(j, m);
    assert(r * m == m * r) by (nonlinear_arith);
}

/// In every round of the error handler over `n` indicators, all of them are
/// turned on in enumeration order before any is turned off, the lit phase is
/// held for `BLINK_MS`, then all are turned off and that phase is held for
/// `BLINK_MS` too; round `r` starts at action `r * (2 * n + 2)`.
pub proof fn lemma_flash_round(n: usize, r: nat)
    ensures
        forall|i: int|
            0 <= i < n ==> #[trigger] flash_action(n, (r * (2 * n + 2) + i) as nat) == Action::On(
                i as usize,
            ),
        flash_action(n, (r * (2 * n + 2) + n) as nat) == Action::Delay(BLINK_MS),
        forall|i: int|
            0 <= i < n ==> #[trigger] flash_action(n, (r * (2 * n + 2) + n + 1 + i) as nat)
                == Action::Off(i as usize),
        flash_action(n, (r * (2 * n + 2) + 2 * n + 1) as nat) == Action::Delay(BLINK_MS),
{
    let m = (2 * n + 2) as nat;
    assert forall|i: int| 0 <= i < n implies #[trigger] flash_action(n, (r * m + i) as nat)
        == Action::On(i as usize) by {
        lemma_round_offset(m, r, i as nat);
    }
    lemma_round_offset(m, r, n as nat);
    assert forall|i: int| 0 <= i < n implies #[trigger] flash_action(n, (r * m + n + 1 + i) as nat)
        == Action::Off(i as usize) by {
        lemma_round_offset(m, r, (n + 1 + i) as nat);
    }
    lemma_round_offset(m, r, (2 * n + 1) as nat);
}

/// In every round of the allocation-exhaustion handler over `n > 0`
/// indicators, the indicators take turns in enumeration order, one lit at a
/// time: the turn of indicator `i` is on, hold for `BLINK_MS`, off, hold for
/// `BLINK_MS`. Round `r` starts at action `r * 4 * n`, so after the last
/// indicator the chase starts again from the first.
pub proof fn lemma_chase_round(n: usize, r: nat)
    requires
        n > 0,
    ensures
        forall|i: int|
            0 <= i < n ==> {
                &&& #[trigger] chase_action(n, (r * (4 * n) + 4 * i) as nat) == Action::On(i as usize)
                &&& chase_action(n, (r * (4 * n) + 4 * i + 1) as nat) == Action::Delay(BLINK_MS)
                &&& chase_action(n, (r * (4 * n) + 4 * i + 2) as nat) == Action::Off(i as usize)
                &&& chase_action(n, (r * (4 * n) + 4 * i + 3) as nat) == Action::Delay(BLINK_MS)
            },
{
    let m = (4 * n) as nat;
    assert forall|i: int| 0 <= i < n implies {
        &&& #[trigger] chase_action(n, (r * m + 4 * i) as nat) == Action::On(i as usize)
        &&& chase_action(n, (r * m + 4 * i + 1) as nat) == Action::Delay(BLINK_MS)
        &&& chase_action(n, (r * m + 4 * i + 2) as nat) == Action::Off(i as usize)
        &&& chase_action(n, (r * m + 4 * i + 3) as nat) == Action::Delay(BLINK_MS)
    } by {
        lemma_quarters(i, 0);
        lemma_quarters(i, 1);
        lemma_quarters(i, 2);
        lemma_quarters(i, 3);
        lemma_round_offset(m, r, (4 * i) as nat);
        lemma_round_offset(m, r, (4 * i + 1) as nat);
        lemma_round_offset(m, r, (4 * i + 2) as nat);
        lemma_round_offset(m, r, (4 * i + 3) as nat);
    }
}

/// With no indicator the allocation-exhaustion handler does nothing
/// visible: every one of its actions is a hold.
pub proof fn lemma_chase_without_indicators(k: nat)
    ensures
        chase_action(0, k) == Action::Delay(BLINK_MS),
{
    lemma_small_mod(0, 1);
    assert(k % 1 == 0) by (nonlinear_arith);
}

} // verus!
