use vstd::prelude::*;

use crate::time::Dtu;

pub mod after;
pub mod before;
pub mod cron;
pub mod dynamic;
pub mod ext;
pub mod iter;
pub mod never;
pub mod once;
pub mod or;
pub mod period;
pub mod then_schedule;
pub mod throttling;

pub use after::After;
pub use before::Before;
pub use cron::{Cron, CronError};
pub use dynamic::{DynSchedule, ScheduleDynBuilder};
pub use ext::{every, IntoSchedule, ScheduleExt};
pub use iter::Iter;
pub use never::Never;
pub use once::Once;
pub use or::Or;
pub use period::{Period, PeriodError};
pub use then_schedule::Then;
pub use throttling::Throttling;

verus! {

/// A lazy stream of fire-times.
///
/// A schedule is a state machine. Its state decides what `peek_next` reports
/// (`upcoming`), what `next` yields (`yielded`), and the states that `next`
/// and `forward_to` lead to (`advanced`, `forwarded`). The executable methods
/// are specified exactly by these four functions.
///
/// `not_before(floor)` says that from this state on the schedule reports no
/// instant earlier than `floor`, whatever is called on it. The laws below
/// relate it to the transitions; they hold of every well-formed state that is
/// `orderly`. A schedule is `exact` where it yields what it reports, which a
/// `Throttling` need not do: it reports the earliest instant that is allowed,
/// and yields the first instant of its inner schedule from there on, if there
/// is one. A schedule of this library is orderly unless it holds a `Then`
/// whose first side is not exact; of such a `Then` over orderly sides,
/// `lemma_then_yields_never_decrease` and `lemma_then_forward_skips` show the
/// same of what it yields.
pub trait Schedule: Sized {
    /// The invariant of the state.
    spec fn wf(&self) -> bool;

    /// The instant that `peek_next` reports.
    spec fn upcoming(&self) -> Option<Dtu>;

    /// The instant that `next` yields.
    spec fn yielded(&self) -> Option<Dtu>;

    /// The state that `next` leaves.
    spec fn advanced(&self) -> Self;

    /// The state that `forward_to(t)` leaves.
    spec fn forwarded(&self, t: Dtu) -> Self;

    /// No instant reported from this state on is earlier than `floor`.
    spec fn not_before(&self, floor: int) -> bool;

    /// The ordering laws hold of this state.
    spec fn orderly(&self) -> bool;

    /// The state is orderly, and what it reports is what it yields.
    spec fn exact(&self) -> bool;

    /// Whether the state is well-formed: what a caller that cannot see the
    /// invariant tests before it calls one of the three operations.
    fn is_wf(&self) -> (ok: bool)
        ensures
            ok == self.wf(),
    ;

    /// Looks at the next instant without consuming it; `None` when the
    /// schedule has terminated. The state is left as it was, so repeated calls
    /// report the same instant.
    fn peek_next(&mut self) -> (next: Option<Dtu>)
        requires
            old(self).wf(),
        ensures
            *final(self) == *old(self),
            next == old(self).upcoming(),
    ;

    /// Consumes and returns the next instant; `None` when the schedule has
    /// terminated. An orderly schedule reports nothing earlier from then on.
    fn next(&mut self) -> (next: Option<Dtu>)
        requires
            old(self).wf(),
        ensures
            final(self).wf(),
            next == old(self).yielded(),
            *final(self) == old(self).advanced(),
            old(self).orderly() ==> final(self).orderly(),
            old(self).orderly() ==> (next matches Some(y) ==> final(self).not_before(y@)),
    ;

    /// Skips every instant up to and including `t`: an orderly schedule
    /// reports only instants after `t` from then on.
    fn forward_to(&mut self, t: Dtu)
        requires
            old(self).wf(),
        ensures
            final(self).wf(),
            *final(self) == old(self).forwarded(t),
            old(self).orderly() ==> final(self).orderly(),
            old(self).orderly() ==> final(self).not_before(t@ + 1),
    ;

    /// Transitions keep the invariant, orderliness and exactness. An exact
    /// state yields what it reports, and skipping to an instant before the
    /// reported one changes nothing of what is reported.
    proof fn lemma_step(&self, t: Dtu)
        requires
            self.wf(),
        ensures
            self.advanced().wf(),
            self.forwarded(t).wf(),
            self.exact() ==> self.orderly(),
            self.orderly() ==> self.advanced().orderly() && self.forwarded(t).orderly(),
            self.exact() ==> self.advanced().exact() && self.forwarded(t).exact(),
            self.exact() ==> self.yielded() == self.upcoming(),
            self.exact() ==> (self.upcoming() matches Some(p) && t@ < p@ ==> self.forwarded(
                t,
            ).upcoming() == self.upcoming()),
    ;

    /// A floor bounds what is reported and what is yielded, and no transition
    /// lowers it.
    proof fn lemma_floor_holds(&self, floor: int, t: Dtu)
        requires
            self.wf(),
            self.orderly(),
            self.not_before(floor),
        ensures
            self.upcoming() matches Some(p) ==> floor <= p@,
            self.yielded() matches Some(y) ==> floor <= y@,
            self.advanced().not_before(floor),
            self.forwarded(t).not_before(floor),
    ;

    /// Where floors come from: a terminated schedule stays terminated, the
    /// reported instant is a floor, the yielded instant is a floor of the next
    /// state, and skipping past `t` leaves a floor just after `t`.
    proof fn lemma_floor_rises(&self, floor: int, t: Dtu)
        requires
            self.wf(),
            self.orderly(),
        ensures
            self.upcoming() is None ==> self.not_before(floor),
            self.yielded() is None ==> self.advanced().not_before(floor),
            self.upcoming() matches Some(p) ==> self.not_before(p@),
            self.yielded() matches Some(y) ==> self.advanced().not_before(y@),
            self.forwarded(t).not_before(t@ + 1),
    ;

    /// A floor can be lowered.
    proof fn lemma_floor_weakens(&self, floor: int, lower: int)
        requires
            self.not_before(floor),
            lower <= floor,
        ensures
            self.not_before(lower),
    ;
}

/// The state of `s` after `n` calls of `next`.
pub open spec fn nth_state<S: Schedule>(s: S, n: nat) -> S
    decreases n,
{
    if n == 0 {
        s
    } else {
        nth_state(s, (n - 1) as nat).advanced()
    }
}

/// What the call of `next` after `n` earlier ones yields.
pub open spec fn nth_yield<S: Schedule>(s: S, n: nat) -> Option<Dtu> {
    nth_state(s, n).yielded()
}

/// Every state that calls of `next` reach is well-formed and orderly.
pub proof fn lemma_nth_state_orderly<S: Schedule>(s: S, n: nat)
    requires
        s.wf(),
        s.orderly(),
    ensures
        nth_state(s, n).wf(),
        nth_state(s, n).orderly(),
    decreases n,
{
    if n > 0 {
        lemma_nth_state_orderly(s, (n - 1) as nat);
        nth_state(s, (n - 1) as nat).lemma_step(Dtu { nanos: 0 });
    }
}

/// A floor of a state is a floor of every state that calls of `next` reach.
pub proof fn lemma_nth_state_floor<S: Schedule>(s: S, floor: int, n: nat)
    requires
        s.wf(),
        s.orderly(),
        s.not_before(floor),
    ensures
        nth_state(s, n).not_before(floor),
    decreases n,
{
    if n > 0 {
        lemma_nth_state_floor(s, floor, (n - 1) as nat);
        lemma_nth_state_orderly(s, (n - 1) as nat);
        nth_state(s, (n - 1) as nat).lemma_floor_holds(floor, Dtu { nanos: 0 });
    }
}

/// Calls of `next` compose: `j` calls after `i` calls are `i + j` calls.
pub proof fn lemma_nth_state_splits<S: Schedule>(s: S, i: nat, j: nat)
    ensures
        nth_state(nth_state(s, i), j) == nth_state(s, i + j),
    decreases j,
{
    if j > 0 {
        lemma_nth_state_splits(s, i, (j - 1) as nat);
        assert(i + j - 1 == i + (j - 1));
    }
}

/// Monotonicity: the instants that successive calls of `next` yield never
/// decrease.
pub proof fn lemma_yields_never_decrease<S: Schedule>(s: S, i: nat, j: nat)
    requires
        s.wf(),
        s.orderly(),
        i <= j,
        nth_yield(s, i) is Some,
        nth_yield(s, j) is Some,
    ensures
        nth_yield(s, i).unwrap()@ <= nth_yield(s, j).unwrap()@,
{
    let si = nth_state(s, i);
    let y = si.yielded().unwrap();
    lemma_nth_state_orderly(s, i);
    if i < j {
        let rest = (j - i - 1) as nat;
        si.lemma_floor_rises(y@, y);
        si.lemma_step(y);
        lemma_nth_state_floor(si.advanced(), y@, rest);
        lemma_nth_state_orderly(si.advanced(), rest);
        lemma_nth_state_splits(s, i + 1, rest);
        assert(nth_state(s, i + 1) == si.advanced());
        assert(nth_state(si.advanced(), rest) == nth_state(s, j));
        nth_state(s, j).lemma_floor_holds(y@, y);
    }
}

/// Forward-skip: after `forward_to(t)` whatever is reported or yielded, now or
/// after further calls of `next`, lies strictly after `t`.
pub proof fn lemma_forward_skips<S: Schedule>(s: S, t: Dtu, n: nat)
    requires
        s.wf(),
        s.orderly(),
    ensures
        s.forwarded(t).upcoming() matches Some(p) ==> p@ > t@,
        nth_yield(s.forwarded(t), n) matches Some(y) ==> y@ > t@,
{
    let f = s.forwarded(t);
    s.lemma_step(t);
    s.lemma_floor_rises(t@ + 1, t);
    f.lemma_floor_holds(t@ + 1, t);
    lemma_nth_state_floor(f, t@ + 1, n);
    lemma_nth_state_orderly(f, n);
    nth_state(f, n).lemma_floor_holds(t@ + 1, t);
}

/// The reported instant never lies after the yielded one, and a schedule
/// that reports nothing yields nothing.
pub proof fn lemma_peek_bounds_next<S: Schedule>(s: S)
    requires
        s.wf(),
        s.orderly(),
    ensures
        s.upcoming() is None ==> s.yielded() is None,
        s.yielded() matches Some(y) ==> (s.upcoming() matches Some(p) && p@ <= y@),
{
    let zero = Dtu { nanos: 0 };
    match s.yielded() {
        Some(y) => {
            match s.upcoming() {
                Some(p) => {
                    s.lemma_floor_rises(p@, zero);
                    s.lemma_floor_holds(p@, zero);
                },
                None => {
                    s.lemma_floor_rises(y@ + 1, zero);
                    s.lemma_floor_holds(y@ + 1, zero);
                },
            }
        },
        None => {},
    }
}

/// A schedule that reports nothing stays so: it yields nothing, and reports
/// nothing after any transition.
pub proof fn lemma_terminated_stays<S: Schedule>(s: S, t: Dtu)
    requires
        s.wf(),
        s.orderly(),
        s.upcoming() is None,
    ensures
        s.yielded() is None,
        s.advanced().upcoming() is None,
        s.forwarded(t).upcoming() is None,
{
    lemma_peek_bounds_next(s);
    s.lemma_step(t);
    if let Some(q) = s.advanced().upcoming() {
        s.lemma_floor_rises(q@ + 1, t);
        s.lemma_floor_holds(q@ + 1, t);
        s.advanced().lemma_floor_holds(q@ + 1, t);
    }
    if let Some(q) = s.forwarded(t).upcoming() {
        s.lemma_floor_rises(q@ + 1, t);
        s.lemma_floor_holds(q@ + 1, t);
        s.forwarded(t).lemma_floor_holds(q@ + 1, t);
    }
}

/// Skips the instants up to and including `t` by calling `next` for each,
/// at most `limit` times, and returns how many were skipped. Where fewer than
/// `limit` were, the schedule reports nothing afterwards, or an instant after
/// `t`.
pub fn forward_to_default<S: Schedule>(schedule: &mut S, t: Dtu, limit: usize) -> (skipped: usize)
    requires
        old(schedule).wf(),
    ensures
        final(schedule).wf(),
        skipped <= limit,
        *final(schedule) == nth_state(*old(schedule), skipped as nat),
        forall|k: nat|
            k < skipped ==> (#[trigger] nth_state(*old(schedule), k).upcoming() matches Some(p)
                && p@ <= t@),
        skipped < limit ==> !(final(schedule).upcoming() matches Some(p) && p@ <= t@),
{
    let mut skipped: usize = 0;
    while skipped < limit
        invariant
            schedule.wf(),
            skipped <= limit,
            *schedule == nth_state(*old(schedule), skipped as nat),
            forall|k: nat|
                k < skipped ==> (#[trigger] nth_state(*old(schedule), k).upcoming() matches Some(p)
                    && p@ <= t@),
        decreases limit - skipped,
    {
        match schedule.peek_next() {
            Some(p) => {
                if p.nanos > t.nanos {
                    return skipped;
                }
            },
            None => {
                return skipped;
            },
        }
        schedule.next();
        skipped = skipped + 1;
    }
    skipped
}

} // verus!
