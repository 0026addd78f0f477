//! The wait: a counter of elapsed time that advances by a fixed interval until
//! it has reached the total.
//!
//! The counter is not a clock. It adds one interval per step, whatever time the
//! step took, and stops at the first multiple of the interval that is not less
//! than the total. Where the interval does not divide the total, the count
//! therefore ends past the total, by less than one interval. The last progress
//! that is reported is the count before the last step: it lies before the
//! total, by at most one interval. Both are meant so; no last tick is added to
//! report the total itself.
//!
//! Nothing here sleeps or draws. The caller asks for a step, shows the tick that
//! it is handed, sleeps for the interval, and asks again until there is no tick.

use vstd::prelude::*;
use vstd::arithmetic::div_mod::lemma_fundamental_div_mod;
use vstd::arithmetic::div_mod::lemma_mod_pos_bound;
use crate::duration::Time;

verus! {

/// The interval between two ticks that callers use unless they have a reason
/// for another: one second, in milliseconds.
pub const REFRESH_INTERVAL_MILLIS: u64 = 1000;

/// A wait as a mathematical value. All three numbers are in milliseconds.
pub ghost struct WaitModel {
    /// The time counted so far.
    pub elapsed: nat,
    /// The time to wait.
    pub total: nat,
    /// The time that one step adds.
    pub interval: nat,
}

impl WaitModel {
    /// The wait over `total` in steps of `interval`, before its first step.
    pub open spec fn start(total: nat, interval: nat) -> WaitModel {
        WaitModel { elapsed: 0, total, interval }
    }

    /// Whether the interval is positive and the count less than one interval
    /// past the total.
    pub open spec fn wf(self) -> bool {
        &&& self.interval > 0
        &&& self.elapsed < self.total + self.interval
    }

    /// Whether the wait is still running: the count has not reached the total.
    pub open spec fn running(self) -> bool {
        self.elapsed < self.total
    }

    /// The wait after one step: one interval later while it runs, unchanged
    /// once it is done.
    pub open spec fn advance(self) -> WaitModel {
        if self.running() {
            WaitModel { elapsed: self.elapsed + self.interval, ..self }
        } else {
            self
        }
    }

    /// The wait after `n` steps.
    pub open spec fn after(self, n: nat) -> WaitModel
        decreases n,
    {
        if n == 0 {
            self
        } else {
            self.after((n - 1) as nat).advance()
        }
    }

    /// What a running wait reports before its next step.
    pub open spec fn tick(self) -> Tick {
        Tick {
            elapsed_millis: self.elapsed as u128,
            elapsed_secs: (self.elapsed / 1000) as u64,
            total_secs: (self.total / 1000) as u64,
        }
    }

    /// How many steps a wait over `total` takes in steps of `interval`: the
    /// quotient of the two, rounded up.
    pub open spec fn ticks_needed(total: nat, interval: nat) -> nat {
        ((total + interval - 1) / (interval as int)) as nat
    }
}

/// Where a wait stands.
#[derive(Clone, Copy, Debug, PartialEq, Eq, Structural)]
pub enum Phase {
    /// The count is less than the total.
    Running,
    /// The count has reached the total.
    Done,
}

/// What a running wait reports before each interval.
#[derive(Clone, Copy, Debug, PartialEq, Eq, Structural)]
pub struct Tick {
    /// The time counted so far, in milliseconds.
    pub elapsed_millis: u128,
    /// The time counted so far, in whole seconds.
    pub elapsed_secs: u64,
    /// The time to wait, in seconds.
    pub total_secs: u64,
}

/// A wait in progress.
#[derive(Debug)]
pub struct WaitState {
    elapsed_millis: u128,
    total_secs: u64,
    interval_millis: u64,
}

impl View for WaitState {
    type V = WaitModel;

    closed spec fn view(&self) -> WaitModel {
        WaitModel {
            elapsed: self.elapsed_millis as nat,
            total: self.total_secs as nat * 1000,
            interval: self.interval_millis as nat,
        }
    }
}

impl WaitState {
    #[verifier::type_invariant]
    spec fn inv(self) -> bool {
        self@.wf()
    }

    /// The wait over `total` in steps of `interval_millis` milliseconds, before
    /// its first step. There is none for an interval of zero, which would never
    /// advance.
    pub fn new(total: Time, interval_millis: u64) -> (state: Option<WaitState>)
        ensures
            interval_millis == 0 ==> state is None,
            interval_millis > 0 ==> state is Some && state->Some_0@ == WaitModel::start(
                total@ * 1000,
                interval_millis as nat,
            ),
    {
        if interval_millis == 0 {
            None
        } else {
            Some(WaitState { elapsed_millis: 0, total_secs: total.as_secs(), interval_millis })
        }
    }

    /// The time to wait, in milliseconds.
    pub fn total_millis(&self) -> (millis: u128)
        ensures
            millis == self@.total,
    {
        self.total_secs as u128 * 1000
    }

    /// The time counted so far, in milliseconds.
    pub fn elapsed_millis(&self) -> (millis: u128)
        ensures
            millis == self@.elapsed,
            self@.wf(),
    {
        proof {
            use_type_invariant(self);
        }
        self.elapsed_millis
    }

    /// The time that one step adds, in milliseconds: how long to sleep after a
    /// tick.
    pub fn interval_millis(&self) -> (millis: u64)
        ensures
            millis == self@.interval,
            millis > 0,
    {
        proof {
            use_type_invariant(self);
        }
        self.interval_millis
    }

    /// Where the wait stands.
    pub fn phase(&self) -> (phase: Phase)
        ensures
            phase == (if self@.running() {
                Phase::Running
            } else {
                Phase::Done
            }),
    {
        if self.elapsed_millis < self.total_millis() {
            Phase::Running
        } else {
            Phase::Done
        }
    }

    /// Takes one step.
    ///
    /// While the wait runs, returns the tick to report, with the count as it
    /// was before the step, and adds one interval to the count. Once the wait
    /// is done, returns `None` and changes nothing.
    pub fn step(&mut self) -> (tick: Option<Tick>)
        ensures
            final(self)@ == old(self)@.advance(),
            final(self)@.wf(),
            final(self)@.elapsed >= old(self)@.elapsed,
            tick == (if old(self)@.running() {
                Some(old(self)@.tick())
            } else {
                None
            }),
    {
        proof {
            use_type_invariant(&*self);
        }
        let total = self.total_millis();
        if self.elapsed_millis < total {
            let tick = Tick {
                elapsed_millis: self.elapsed_millis,
                elapsed_secs: (self.elapsed_millis / 1000) as u64,
                total_secs: self.total_secs,
            };
            self.elapsed_millis = self.elapsed_millis + self.interval_millis as u128;
            Some(tick)
        } else {
            None
        }
    }
}

/// The number of steps is the least whose intervals cover the total: that many
/// intervals reach the total, one fewer do not.
pub proof fn lemma_ticks_needed(total: nat, interval: nat)
    requires
        interval > 0,
    ensures
        (WaitModel::ticks_needed(total, interval) - 1) * interval < total,
        total <= WaitModel::ticks_needed(total, interval) * interval,
        total == 0 <==> WaitModel::ticks_needed(total, interval) == 0,
{
    let x = total + interval - 1;
    let d = interval as int;
    let n = x / d;
    lemma_fundamental_div_mod(x, d);
    lemma_mod_pos_bound(x, d);
    assert(n >= 0 && n * d == d * n && (n - 1) * d == d * n - d && (n == 0 <==> d * n < d))
        by (nonlinear_arith)
        requires
            d * n + (x % d) == x,
            0 <= x % d < d,
            x >= 0,
            d > 0,
    ;
}

/// While no more steps were taken than the wait needs, it has counted one
/// interval for each of them, and it runs until the last of them is taken.
pub proof fn lemma_elapsed_after(total: nat, interval: nat, k: nat)
    requires
        interval > 0,
        k <= WaitModel::ticks_needed(total, interval),
    ensures
        WaitModel::start(total, interval).after(k) == (WaitModel {
            elapsed: k * interval,
            total,
            interval,
        }),
        k < WaitModel::ticks_needed(total, interval) ==> WaitModel::start(total, interval).after(
            k,
        ).running(),
    decreases k,
{
    let n = WaitModel::ticks_needed(total, interval);
    lemma_ticks_needed(total, interval);
    if k > 0 {
        let j = (k - 1) as nat;
        lemma_elapsed_after(total, interval, j);
        assert(j * interval + interval == k * interval) by (nonlinear_arith)
            requires
                j + 1 == k,
        ;
    } else {
        assert(k * interval == 0) by (nonlinear_arith)
            requires
                k == 0,
        ;
    }
    if k < n {
        assert(k * interval <= (n - 1) * interval) by (nonlinear_arith)
            requires
                k <= n - 1,
        ;
    }
}

/// Once the wait has taken the steps that it needs, it is done, and further
/// steps change nothing.
pub proof fn lemma_done_stays(total: nat, interval: nat, k: nat)
    requires
        interval > 0,
        k >= WaitModel::ticks_needed(total, interval),
    ensures
        WaitModel::start(total, interval).after(k) == WaitModel::start(total, interval).after(
            WaitModel::ticks_needed(total, interval),
        ),
        !WaitModel::start(total, interval).after(k).running(),
    decreases k,
{
    let n = WaitModel::ticks_needed(total, interval);
    lemma_ticks_needed(total, interval);
    lemma_elapsed_after(total, interval, n);
    if k > n {
        lemma_done_stays(total, interval, (k - 1) as nat);
    }
}

/// A wait comes to its end, and on time. Over `total` in steps of `interval` it
/// takes as many steps as their quotient, rounded up. Before each of them it
/// runs, with one interval counted for each step taken before; after them it is
/// done and stays so, with a count that has reached the total and is less than
/// one interval past it. The last count that it reports, the one before its
/// last step, is less than the total and at most one interval short of it.
pub proof fn lemma_wait_terminates(total: nat, interval: nat)
    requires
        interval > 0,
    ensures
        ({
            let start = WaitModel::start(total, interval);
            let n = WaitModel::ticks_needed(total, interval);
            &&& forall|k: nat|
                k < n ==> (#[trigger] start.after(k)).running() && start.after(k).elapsed == k
                    * interval
            &&& forall|k: nat|
                k >= n ==> !(#[trigger] start.after(k)).running() && start.after(k).elapsed == n
                    * interval
            &&& total <= n * interval < total + interval
            &&& n > 0 ==> total - interval <= (n - 1) * interval < total
        }),
{
    let start = WaitModel::start(total, interval);
    let n = WaitModel::ticks_needed(total, interval);
    lemma_ticks_needed(total, interval);
    assert((n - 1) * interval == n * interval - interval) by (nonlinear_arith);
    assert forall|k: nat| k < n implies (#[trigger] start.after(k)).running() && start.after(
        k,
    ).elapsed == k * interval by {
        lemma_elapsed_after(total, interval, k);
    }
    assert forall|k: nat| k >= n implies !(#[trigger] start.after(k)).running() && start.after(
        k,
    ).elapsed == n * interval by {
        lemma_done_stays(total, interval, k);
        lemma_elapsed_after(total, interval, n);
    }
}

} // verus!
