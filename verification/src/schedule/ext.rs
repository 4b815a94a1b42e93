use vstd::prelude::*;

use crate::schedule::after::After;
use crate::schedule::before::Before;
use crate::schedule::iter::{non_decreasing, sorted_instants, Iter};
use crate::schedule::once::Once;
use crate::schedule::or::Or;
use crate::schedule::period::{Period, PeriodError};
use crate::schedule::then_schedule::Then;
use crate::schedule::throttling::Throttling;
use crate::schedule::Schedule;
use crate::time::{Dtu, TimeDelta};

verus! {

/// Shortcuts that build combined schedules.
pub trait ScheduleExt: Schedule + Sized {
    /// Fires whenever this schedule or `other` does.
    fn or<S: Schedule>(self, other: S) -> (made: Or<Self, S>)
        ensures
            made.0 == self,
            made.1 == other,
    {
        Or::new(self, other)
    }

    /// Fires as this schedule does, but only after `time`.
    fn after(self, time: Dtu) -> (made: After<Self>)
        requires
            self.wf(),
        ensures
            made.wf(),
            made.after == time,
            made.inner == self.forwarded(time),
    {
        After::new(time, self)
    }

    /// Fires as this schedule does, but only before `time`.
    fn before(self, time: Dtu) -> (made: Before<Self>)
        ensures
            made.before == time,
            made.inner == self,
    {
        Before::new(time, self)
    }

    /// Fires as this schedule does until it terminates, and as `tail` does
    /// from then on.
    fn and_then<S: Schedule>(self, tail: S) -> (made: Then<Self, S>)
        ensures
            made.firstly == self,
            made.tail == tail,
    {
        Then::new(self, tail)
    }

    /// Fires as this schedule does, but no more often than once per
    /// `interval`.
    fn throttling(self, interval: TimeDelta) -> (made: Throttling<Self>)
        ensures
            made.inner == self,
            made.last_call is None,
            made.interval == interval,
    {
        Throttling::new(self, interval)
    }
}

impl<S: Schedule> ScheduleExt for S {
}

/// What can be turned into a schedule.
pub trait IntoSchedule {
    type Output: Schedule;

    fn into_schedule(self) -> Self::Output;
}

/// An instant is the schedule that fires once, at that instant.
impl IntoSchedule for Dtu {
    type Output = Once;

    fn into_schedule(self) -> (made: Once)
        ensures
            made.next == Some(self),
    {
        Once::new(self)
    }
}

/// A list of instants is the schedule that fires at each of them, the
/// earliest first.
impl IntoSchedule for Vec<Dtu> {
    type Output = Iter;

    fn into_schedule(self) -> (made: Iter)
        ensures
            made.wf(),
            made.pos == 0,
            non_decreasing(made.items@),
            made.items@.to_multiset() == self@.to_multiset(),
    {
        Iter::new(sorted_instants(&self))
    }
}

/// An array of instants is the schedule that fires at each of them, the
/// earliest first.
impl<const N: usize> IntoSchedule for [Dtu; N] {
    type Output = Iter;

    fn into_schedule(self) -> (made: Iter)
        ensures
            made.wf(),
            made.pos == 0,
            non_decreasing(made.items@),
            made.items@.to_multiset() == self@.to_multiset(),
    {
        let mut items: Vec<Dtu> = Vec::new();
        let mut i: usize = 0;
        while i < N
            invariant
                i <= N,
                items@ == self@.take(i as int),
            decreases N - i,
        {
            items.push(self[i]);
            proof {
                assert(self@.take(i as int).push(self@[i as int]) =~= self@.take(i + 1));
            }
            i = i + 1;
        }
        proof {
            assert(self@.take(N as int) =~= self@);
        }
        Iter::new(sorted_instants(&items))
    }
}

/// An instant that may be missing is the schedule that fires at it, or never.
impl IntoSchedule for Option<Dtu> {
    type Output = Iter;

    fn into_schedule(self) -> (made: Iter)
        ensures
            made.wf(),
            made.pos == 0,
            made.items@ == (match self {
                Some(t) => seq![t],
                None => Seq::<Dtu>::empty(),
            }),
    {
        let mut items: Vec<Dtu> = Vec::new();
        if let Some(t) = self {
            items.push(t);
        }
        Iter::new(items)
    }
}

/// A schedule is its own schedule.
impl<S: Schedule> IntoSchedule for S {
    type Output = S;

    fn into_schedule(self) -> (made: S)
        ensures
            made == self,
    {
        self
    }
}

/// The schedule that fires every `period`, from the current instant on; the
/// period must be positive.
pub fn every(period: TimeDelta) -> (made: Result<Period, PeriodError>)
    ensures
        period@ <= 0 ==> made == Err::<Period, PeriodError>(PeriodError::NotPositive),
        period@ > 0 ==> made is Ok,
        made matches Ok(p) ==> p.wf() && p.period == period && p.next is Some,
{
    let start = crate::time::now();
    Period::new_at(period, start, start)
}

} // verus!
