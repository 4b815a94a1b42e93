use vstd::prelude::*;

use crate::schedule::Schedule;
use crate::time::{representable, Dtu, TimeDelta, NANOS_MAX, NANOS_MIN};

verus! {

/// A schedule that lets `inner` fire no more often than once per `interval`:
/// after a fire at `last_call`, the next is the first of `inner` that lies at
/// `last_call + interval` or later.
#[derive(Debug, Clone, Copy, Hash, PartialEq, Eq)]
pub struct Throttling<S> {
    pub inner: S,
    pub last_call: Option<Dtu>,
    pub interval: TimeDelta,
}

/// The earliest instant at which a fire is allowed after one at `last`, if
/// there was one.
pub open spec fn allowed_from(last: Option<Dtu>, interval: TimeDelta) -> Option<int> {
    match last {
        Some(last) => Some(last@ + interval@),
        None => None,
    }
}

/// No instant that can be represented is allowed any more.
pub open spec fn is_blocked(last: Option<Dtu>, interval: TimeDelta) -> bool {
    allowed_from(last, interval) matches Some(m) && m > NANOS_MAX
}

/// The instant that the inner schedule is skipped to before it is asked: the
/// one just before the earliest allowed instant, where there is such a one.
pub open spec fn clearing_instant(last: Option<Dtu>, interval: TimeDelta) -> Option<Dtu> {
    match allowed_from(last, interval) {
        Some(m) if NANOS_MIN < m <= NANOS_MAX => Some(Dtu { nanos: (m - 1) as i128 }),
        _ => None,
    }
}

/// What a throttled schedule reports where its inner schedule reports
/// `inner`: the same, or the earliest allowed instant where that is later.
pub open spec fn throttled_peek(inner: Option<Dtu>, last: Option<Dtu>, interval: TimeDelta) -> Option<
    Dtu,
> {
    match (inner, allowed_from(last, interval)) {
        (None, _) => None,
        (Some(n), Some(m)) if n@ < m => if representable(m) {
            Some(Dtu { nanos: m as i128 })
        } else {
            None
        },
        (Some(n), _) => Some(n),
    }
}

/// How a throttled schedule prepares its inner schedule for the next fire.
#[derive(Debug, Clone, Copy)]
pub enum Clearing {
    /// Nothing is allowed any more: the schedule has terminated.
    Blocked,
    /// Everything is allowed: the inner schedule is asked as it is.
    Open,
    /// The inner schedule is skipped to this instant first.
    SkipTo(Dtu),
}

/// Decides how the inner schedule is prepared for the next fire.
pub fn clearing(last: Option<Dtu>, interval: TimeDelta) -> (decided: Clearing)
    ensures
        decided is Blocked <==> is_blocked(last, interval),
        decided matches Clearing::SkipTo(at) ==> clearing_instant(last, interval) == Some(at),
        decided is Open ==> clearing_instant(last, interval) is None,
        decided is Blocked ==> clearing_instant(last, interval) is None,
{
    match last {
        Some(last) => match last.checked_add(interval) {
            Some(m) => if m.nanos > i128::MIN {
                Clearing::SkipTo(Dtu { nanos: m.nanos - 1 })
            } else {
                Clearing::Open
            },
            None => if interval.nanos > 0 {
                Clearing::Blocked
            } else {
                Clearing::Open
            },
        },
        None => Clearing::Open,
    }
}

/// What a throttled schedule reports where its inner schedule reports
/// `inner`.
pub fn throttle_peek(inner: Option<Dtu>, last: Option<Dtu>, interval: TimeDelta) -> (next: Option<
    Dtu,
>)
    ensures
        next == throttled_peek(inner, last, interval),
{
    match inner {
        None => None,
        Some(n) => match last {
            Some(last) => match last.checked_add(interval) {
                Some(m) => if n.nanos < m.nanos {
                    Some(m)
                } else {
                    Some(n)
                },
                None => if interval.nanos > 0 {
                    None
                } else {
                    Some(n)
                },
            },
            None => Some(n),
        },
    }
}

impl<S: Schedule> Throttling<S> {
    /// `inner` throttled by `interval`; nothing has fired yet.
    pub fn new(inner: S, interval: TimeDelta) -> (made: Self)
        ensures
            made.inner == inner,
            made.last_call is None,
            made.interval == interval,
    {
        Self { inner, last_call: None, interval }
    }

    /// The earliest instant at which the next fire is allowed, if a fire has
    /// been recorded.
    pub open spec fn legal_from(&self) -> Option<int> {
        allowed_from(self.last_call, self.interval)
    }

    /// No instant that can be represented is allowed any more.
    pub open spec fn blocked(&self) -> bool {
        is_blocked(self.last_call, self.interval)
    }

    /// The inner schedule as `next` consults it: skipped to just before the
    /// earliest allowed instant.
    pub open spec fn cleared(&self) -> S {
        match clearing_instant(self.last_call, self.interval) {
            Some(at) => self.inner.forwarded(at),
            None => self.inner,
        }
    }
}

impl<S: Schedule> Schedule for Throttling<S> {
    open spec fn wf(&self) -> bool {
        self.inner.wf()
    }

    open spec fn upcoming(&self) -> Option<Dtu> {
        throttled_peek(self.inner.upcoming(), self.last_call, self.interval)
    }

    open spec fn yielded(&self) -> Option<Dtu> {
        if self.blocked() {
            None
        } else {
            self.cleared().yielded()
        }
    }

    open spec fn advanced(&self) -> Self {
        if self.blocked() {
            *self
        } else {
            Throttling {
                inner: self.cleared().advanced(),
                last_call: match self.cleared().yielded() {
                    Some(y) => Some(y),
                    None => self.last_call,
                },
                interval: self.interval,
            }
        }
    }

    open spec fn forwarded(&self, t: Dtu) -> Self {
        Throttling {
            inner: self.inner.forwarded(t),
            last_call: self.last_call,
            interval: self.interval,
        }
    }

    open spec fn not_before(&self, floor: int) -> bool {
        ||| self.inner.not_before(floor)
        ||| self.legal_from() matches Some(m) && floor <= m
        ||| self.blocked()
    }

    open spec fn orderly(&self) -> bool {
        self.inner.orderly()
    }

    open spec fn exact(&self) -> bool {
        false
    }

    fn is_wf(&self) -> (ok: bool) {
        self.inner.is_wf()
    }

    /// Reports what `inner` reports, or the earliest allowed instant where
    /// that is later.
    fn peek_next(&mut self) -> (next: Option<Dtu>) {
        let inner = self.inner.peek_next();
        throttle_peek(inner, self.last_call, self.interval)
    }

    /// Yields the first instant of `inner` that is allowed, and records it.
    fn next(&mut self) -> (next: Option<Dtu>)
        ensures
            old(self).orderly() && next is Some && old(self).last_call is Some ==> next.unwrap()@
                >= old(self).last_call.unwrap()@ + old(self).interval@,
            next matches Some(y) ==> final(self).last_call == Some(y),
            final(self).interval == old(self).interval,
    {
        match clearing(self.last_call, self.interval) {
            Clearing::Blocked => {
                return None;
            },
            Clearing::SkipTo(at) => {
                self.inner.forward_to(at);
            },
            Clearing::Open => {},
        }
        proof {
            let zero = Dtu { nanos: 0 };
            old(self).lemma_cleared(zero);
            if old(self).orderly() {
                if let Some(m) = old(self).legal_from() {
                    if NANOS_MIN < m <= NANOS_MAX {
                        old(self).cleared().lemma_floor_holds(m, zero);
                    }
                }
            }
        }
        let next = self.inner.next();
        if let Some(y) = next {
            self.last_call = Some(y);
        }
        next
    }

    fn forward_to(&mut self, t: Dtu) {
        self.inner.forward_to(t);
    }

    proof fn lemma_step(&self, t: Dtu) {
        self.inner.lemma_step(t);
        self.lemma_cleared(t);
    }

    proof fn lemma_floor_holds(&self, floor: int, t: Dtu) {
        self.lemma_cleared(t);
        let g = self.cleared();
        self.inner.lemma_step(t);
        if self.inner.not_before(floor) {
            self.inner.lemma_floor_holds(floor, t);
            match self.legal_from() {
                Some(m) if NANOS_MIN < m <= NANOS_MAX => {
                    self.inner.lemma_floor_holds(floor, Dtu { nanos: (m - 1) as i128 });
                },
                _ => {},
            }
            g.lemma_floor_holds(floor, t);
        } else if !self.blocked() {
            let m = self.legal_from().unwrap();
            // nothing before `m` is left in the inner schedule
            if m > NANOS_MIN {
                g.lemma_floor_weakens(m, floor);
                g.lemma_floor_holds(floor, t);
            } else {
                if let Some(y) = g.yielded() {
                    g.lemma_floor_rises(y@, t);
                    g.advanced().lemma_floor_weakens(y@, floor);
                }
            }
        }
    }

    proof fn lemma_floor_rises(&self, floor: int, t: Dtu) {
        self.lemma_cleared(t);
        self.inner.lemma_step(t);
        self.inner.lemma_floor_rises(floor, t);
        if let Some(n) = self.inner.upcoming() {
            self.inner.lemma_floor_rises(n@, t);
        }
        if !self.blocked() {
            let g = self.cleared();
            g.lemma_floor_rises(floor, t);
            if let Some(y) = g.yielded() {
                g.lemma_floor_rises(y@, t);
            }
        }
    }

    proof fn lemma_floor_weakens(&self, floor: int, lower: int) {
        if self.inner.not_before(floor) {
            self.inner.lemma_floor_weakens(floor, lower);
        }
    }
}

impl<S: Schedule> Throttling<S> {
    /// The cleared inner schedule is well-formed, as orderly as the inner one,
    /// and reports nothing before the earliest allowed instant.
    pub proof fn lemma_cleared(&self, t: Dtu)
        requires
            self.wf(),
        ensures
            self.cleared().wf(),
            self.cleared().advanced().wf(),
            self.inner.orderly() ==> self.cleared().orderly() && self.cleared().advanced().orderly(),
            self.inner.orderly() ==> (self.legal_from() matches Some(m) ==> (NANOS_MIN < m
                <= NANOS_MAX ==> self.cleared().not_before(m))),
    {
        match self.legal_from() {
            Some(m) if NANOS_MIN < m <= NANOS_MAX => {
                let at = Dtu { nanos: (m - 1) as i128 };
                self.inner.lemma_step(at);
                if self.inner.orderly() {
                    self.inner.lemma_floor_rises(m, at);
                }
            },
            _ => {
                self.inner.lemma_step(t);
            },
        }
        self.cleared().lemma_step(t);
    }
}

/// The lower bound of throttling: two instants that a throttled schedule
/// yields one after the other lie at least `interval` apart.
pub proof fn lemma_throttling_spacing<S: Schedule>(s: Throttling<S>)
    requires
        s.wf(),
        s.orderly(),
        s.yielded() is Some,
        s.advanced().yielded() is Some,
    ensures
        s.advanced().yielded().unwrap()@ - s.yielded().unwrap()@ >= s.interval@,
{
    let y1 = s.yielded().unwrap();
    let next = s.advanced();
    let zero = Dtu { nanos: 0 };
    s.lemma_step(zero);
    assert(next.last_call == Some(y1));
    assert(next.legal_from() == Some(y1@ + s.interval@));
    next.lemma_floor_holds(y1@ + s.interval@, zero);
}

} // verus!
