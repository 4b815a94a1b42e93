use vstd::prelude::*;

use crate::schedule::before::{capped, only_before};
use crate::schedule::cron::Cron;
use crate::schedule::iter::Iter;
use crate::schedule::once::Once;
use crate::schedule::or::{earlier_of, first_leads};
use crate::schedule::period::Period;
use crate::schedule::throttling::{
    allowed_from, clearing, clearing_instant, is_blocked, throttle_peek, throttled_peek, Clearing,
};
use crate::schedule::Schedule;
use crate::time::{Dtu, TimeDelta, NANOS_MAX, NANOS_MIN};

verus! {

/// A schedule whose shape is chosen while the program runs: one of the
/// primitive schedules, or a combinator over schedules of this type. Each
/// variant behaves as the schedule of the same name does.
#[derive(Debug)]
pub enum DynSchedule {
    Never,
    Once(Once),
    Period(Period),
    Iter(Iter),
    Cron(Cron),
    /// Fires whenever one of the two does.
    Or(Box<DynSchedule>, Box<DynSchedule>),
    /// Fires as the first does until that terminates, then as the second.
    Then(Box<DynSchedule>, Box<DynSchedule>),
    /// The schedule, which was skipped to the instant when this was built.
    After(Dtu, Box<DynSchedule>),
    /// Fires as the schedule does, strictly before the instant.
    Before(Dtu, Box<DynSchedule>),
    /// The schedule, the last fire, and the interval to keep between fires.
    Throttling(Box<DynSchedule>, Option<Dtu>, TimeDelta),
}

impl DynSchedule {
    /// The number of combinators in the schedule.
    pub open spec fn size(&self) -> nat
        decreases self,
    {
        match self {
            DynSchedule::Or(a, b) => 1 + a.size() + b.size(),
            DynSchedule::Then(a, b) => 1 + a.size() + b.size(),
            DynSchedule::After(_, s) => 1 + s.size(),
            DynSchedule::Before(_, s) => 1 + s.size(),
            DynSchedule::Throttling(s, _, _) => 1 + s.size(),
            _ => 0,
        }
    }

    /// Skipping keeps the shape of the schedule.
    pub proof fn lemma_size_forwarded(&self, t: Dtu)
        ensures
            self.forwarded(t).size() == self.size(),
        decreases self,
    {
        match self {
            DynSchedule::Or(a, b) => {
                a.lemma_size_forwarded(t);
                b.lemma_size_forwarded(t);
            },
            DynSchedule::Then(a, b) => {
                a.lemma_size_forwarded(t);
                b.lemma_size_forwarded(t);
            },
            DynSchedule::After(_, s) => {
                s.lemma_size_forwarded(t);
            },
            DynSchedule::Before(_, s) => {
                s.lemma_size_forwarded(t);
            },
            DynSchedule::Throttling(s, _, _) => {
                s.lemma_size_forwarded(t);
            },
            _ => {},
        }
    }

    /// Yielding keeps the shape of the schedule.
    pub proof fn lemma_size_advanced(&self)
        ensures
            self.advanced().size() == self.size(),
        decreases self.size(),
    {
        match self {
            DynSchedule::Or(a, b) => {
                a.lemma_size_advanced();
                b.lemma_size_advanced();
            },
            DynSchedule::Then(a, b) => {
                a.lemma_size_advanced();
                b.lemma_size_advanced();
                if let Some(y) = a.yielded() {
                    b.lemma_size_forwarded(y);
                }
            },
            DynSchedule::After(_, s) => {
                s.lemma_size_advanced();
            },
            DynSchedule::Before(_, s) => {
                s.lemma_size_advanced();
            },
            DynSchedule::Throttling(s, last, interval) => {
                match clearing_instant(*last, *interval) {
                    Some(at) => {
                        s.lemma_size_forwarded(at);
                        s.forwarded(at).lemma_size_advanced();
                    },
                    None => {
                        s.lemma_size_advanced();
                    },
                }
            },
            _ => {},
        }
    }

    /// A schedule that reports nothing reports nothing after it was skipped.
    proof fn lemma_stays_terminated(&self, t: Dtu)
        requires
            self.wf(),
            self.orderly(),
            self.upcoming() is None,
        ensures
            self.forwarded(t).upcoming() is None,
        decreases self.size(), 3int,
    {
        if let Some(q) = self.forwarded(t).upcoming() {
            self.lemma_size_forwarded(t);
            self.lemma_step(t);
            self.lemma_floor_rises(q@ + 1, t);
            self.lemma_floor_holds(q@ + 1, t);
            self.forwarded(t).lemma_floor_holds(q@ + 1, t);
        }
    }
}

impl Schedule for DynSchedule {
    open spec fn wf(&self) -> bool
        decreases self,
    {
        match self {
            DynSchedule::Never => true,
            DynSchedule::Once(s) => s.wf(),
            DynSchedule::Period(s) => s.wf(),
            DynSchedule::Iter(s) => s.wf(),
            DynSchedule::Cron(s) => s.wf(),
            DynSchedule::Or(a, b) => a.wf() && b.wf(),
            DynSchedule::Then(a, b) => a.wf() && b.wf(),
            DynSchedule::After(_, s) => s.wf(),
            DynSchedule::Before(_, s) => s.wf(),
            DynSchedule::Throttling(s, _, _) => s.wf(),
        }
    }

    open spec fn upcoming(&self) -> Option<Dtu>
        decreases self,
    {
        match self {
            DynSchedule::Never => None,
            DynSchedule::Once(s) => s.upcoming(),
            DynSchedule::Period(s) => s.upcoming(),
            DynSchedule::Iter(s) => s.upcoming(),
            DynSchedule::Cron(s) => s.upcoming(),
            DynSchedule::Or(a, b) => earlier_of(a.upcoming(), b.upcoming()),
            DynSchedule::Then(a, b) => match a.upcoming() {
                Some(p) => Some(p),
                None => b.upcoming(),
            },
            DynSchedule::After(_, s) => s.upcoming(),
            DynSchedule::Before(limit, s) => only_before(s.upcoming(), *limit),
            DynSchedule::Throttling(s, last, interval) => throttled_peek(
                s.upcoming(),
                *last,
                *interval,
            ),
        }
    }

    open spec fn yielded(&self) -> Option<Dtu>
        decreases self.size(),
    {
        match self {
            DynSchedule::Never => None,
            DynSchedule::Once(s) => s.yielded(),
            DynSchedule::Period(s) => s.yielded(),
            DynSchedule::Iter(s) => s.yielded(),
            DynSchedule::Cron(s) => s.yielded(),
            DynSchedule::Or(a, b) => earlier_of(a.upcoming(), b.upcoming()),
            DynSchedule::Then(a, b) => match a.yielded() {
                Some(y) => Some(y),
                None => b.yielded(),
            },
            DynSchedule::After(_, s) => s.yielded(),
            DynSchedule::Before(limit, s) => only_before(s.yielded(), *limit),
            DynSchedule::Throttling(s, last, interval) => if is_blocked(*last, *interval) {
                None
            } else {
                match clearing_instant(*last, *interval) {
                    Some(at) => {
                        proof {
                            s.lemma_size_forwarded(at);
                        }
                        s.forwarded(at).yielded()
                    },
                    None => s.yielded(),
                }
            },
        }
    }

    open spec fn advanced(&self) -> Self
        decreases self.size(),
    {
        match self {
            DynSchedule::Never => DynSchedule::Never,
            DynSchedule::Once(s) => DynSchedule::Once(s.advanced()),
            DynSchedule::Period(s) => DynSchedule::Period(s.advanced()),
            DynSchedule::Iter(s) => DynSchedule::Iter(s.advanced()),
            DynSchedule::Cron(s) => DynSchedule::Cron(s.advanced()),
            DynSchedule::Or(a, b) => if first_leads(a.upcoming(), b.upcoming()) {
                DynSchedule::Or(Box::new(a.advanced()), *b)
            } else if b.upcoming() is Some {
                DynSchedule::Or(*a, Box::new(b.advanced()))
            } else {
                *self
            },
            DynSchedule::Then(a, b) => match a.yielded() {
                Some(y) => DynSchedule::Then(Box::new(a.advanced()), Box::new(b.forwarded(y))),
                None => DynSchedule::Then(Box::new(a.advanced()), Box::new(b.advanced())),
            },
            DynSchedule::After(at, s) => DynSchedule::After(*at, Box::new(s.advanced())),
            DynSchedule::Before(limit, s) => DynSchedule::Before(*limit, Box::new(s.advanced())),
            DynSchedule::Throttling(s, last, interval) => if is_blocked(*last, *interval) {
                *self
            } else {
                match clearing_instant(*last, *interval) {
                    Some(at) => {
                        proof {
                            s.lemma_size_forwarded(at);
                        }
                        DynSchedule::Throttling(
                            Box::new(s.forwarded(at).advanced()),
                            match s.forwarded(at).yielded() {
                                Some(y) => Some(y),
                                None => *last,
                            },
                            *interval,
                        )
                    },
                    None => DynSchedule::Throttling(
                        Box::new(s.advanced()),
                        match s.yielded() {
                            Some(y) => Some(y),
                            None => *last,
                        },
                        *interval,
                    ),
                }
            },
        }
    }

    open spec fn forwarded(&self, t: Dtu) -> Self
        decreases self,
    {
        match self {
            DynSchedule::Never => DynSchedule::Never,
            DynSchedule::Once(s) => DynSchedule::Once(s.forwarded(t)),
            DynSchedule::Period(s) => DynSchedule::Period(s.forwarded(t)),
            DynSchedule::Iter(s) => DynSchedule::Iter(s.forwarded(t)),
            DynSchedule::Cron(s) => DynSchedule::Cron(s.forwarded(t)),
            DynSchedule::Or(a, b) => DynSchedule::Or(
                Box::new(a.forwarded(t)),
                Box::new(b.forwarded(t)),
            ),
            DynSchedule::Then(a, b) => DynSchedule::Then(
                Box::new(a.forwarded(t)),
                Box::new(b.forwarded(t)),
            ),
            DynSchedule::After(at, s) => DynSchedule::After(*at, Box::new(s.forwarded(t))),
            DynSchedule::Before(limit, s) => DynSchedule::Before(*limit, Box::new(s.forwarded(t))),
            DynSchedule::Throttling(s, last, interval) => DynSchedule::Throttling(
                Box::new(s.forwarded(t)),
                *last,
                *interval,
            ),
        }
    }

    open spec fn not_before(&self, floor: int) -> bool
        decreases self,
    {
        match self {
            DynSchedule::Never => true,
            DynSchedule::Once(s) => s.not_before(floor),
            DynSchedule::Period(s) => s.not_before(floor),
            DynSchedule::Iter(s) => s.not_before(floor),
            DynSchedule::Cron(s) => s.not_before(floor),
            DynSchedule::Or(a, b) => a.not_before(floor) && b.not_before(floor),
            DynSchedule::Then(a, b) => {
                &&& a.not_before(floor)
                &&& a.upcoming() is None ==> b.not_before(floor)
            },
            DynSchedule::After(_, s) => s.not_before(floor),
            DynSchedule::Before(limit, s) => s.not_before(capped(floor, *limit)),
            DynSchedule::Throttling(s, last, interval) => {
                ||| s.not_before(floor)
                ||| allowed_from(*last, *interval) matches Some(m) && floor <= m
                ||| is_blocked(*last, *interval)
            },
        }
    }

    open spec fn orderly(&self) -> bool
        decreases self,
    {
        match self {
            DynSchedule::Or(a, b) => a.orderly() && b.orderly(),
            DynSchedule::Then(a, b) => a.exact() && b.orderly(),
            DynSchedule::After(_, s) => s.orderly(),
            DynSchedule::Before(_, s) => s.orderly(),
            DynSchedule::Throttling(s, _, _) => s.orderly(),
            _ => true,
        }
    }

    open spec fn exact(&self) -> bool
        decreases self,
    {
        match self {
            DynSchedule::Or(a, b) => a.exact() && b.exact(),
            DynSchedule::Then(a, b) => a.exact() && b.exact(),
            DynSchedule::After(_, s) => s.exact(),
            DynSchedule::Before(_, s) => s.exact(),
            DynSchedule::Throttling(_, _, _) => false,
            _ => true,
        }
    }

    fn is_wf(&self) -> (ok: bool)
        decreases self,
    {
        match self {
            DynSchedule::Never => true,
            DynSchedule::Once(s) => s.is_wf(),
            DynSchedule::Period(s) => s.is_wf(),
            DynSchedule::Iter(s) => s.is_wf(),
            DynSchedule::Cron(s) => s.is_wf(),
            DynSchedule::Or(a, b) => a.is_wf() && b.is_wf(),
            DynSchedule::Then(a, b) => a.is_wf() && b.is_wf(),
            DynSchedule::After(_, s) => s.is_wf(),
            DynSchedule::Before(_, s) => s.is_wf(),
            DynSchedule::Throttling(s, _, _) => s.is_wf(),
        }
    }

    fn peek_next(&mut self) -> (next: Option<Dtu>)
        decreases old(self).size(),
    {
        match self {
            DynSchedule::Never => None,
            DynSchedule::Once(s) => s.peek_next(),
            DynSchedule::Period(s) => s.peek_next(),
            DynSchedule::Iter(s) => s.peek_next(),
            DynSchedule::Cron(s) => s.peek_next(),
            DynSchedule::Or(a, b) => {
                match (a.peek_next(), b.peek_next()) {
                    (None, None) => None,
                    (None, Some(y)) => Some(y),
                    (Some(x), None) => Some(x),
                    (Some(x), Some(y)) => Some(x.earliest(y)),
                }
            },
            DynSchedule::Then(a, b) => {
                match a.peek_next() {
                    Some(p) => Some(p),
                    None => b.peek_next(),
                }
            },
            DynSchedule::After(_, s) => s.peek_next(),
            DynSchedule::Before(limit, s) => {
                match s.peek_next() {
                    Some(c) => if c.nanos < limit.nanos {
                        Some(c)
                    } else {
                        None
                    },
                    None => None,
                }
            },
            DynSchedule::Throttling(s, last, interval) => {
                let inner = s.peek_next();
                throttle_peek(inner, *last, *interval)
            },
        }
    }

    fn next(&mut self) -> (next: Option<Dtu>)
        decreases old(self).size(),
    {
        proof {
            if self.orderly() {
                self.lemma_step(Dtu { nanos: 0 });
                self.lemma_floor_rises(0, Dtu { nanos: 0 });
            }
        }
        match self {
            DynSchedule::Never => None,
            DynSchedule::Once(s) => s.next(),
            DynSchedule::Period(s) => s.next(),
            DynSchedule::Iter(s) => s.next(),
            DynSchedule::Cron(s) => s.next(),
            DynSchedule::Or(a, b) => {
                match (a.peek_next(), b.peek_next()) {
                    (None, None) => None,
                    (None, Some(y)) => {
                        b.next();
                        Some(y)
                    },
                    (Some(x), None) => {
                        a.next();
                        Some(x)
                    },
                    (Some(x), Some(y)) => {
                        if x.nanos <= y.nanos {
                            a.next();
                            Some(x)
                        } else {
                            b.next();
                            Some(y)
                        }
                    },
                }
            },
            DynSchedule::Then(a, b) => {
                match a.next() {
                    Some(y) => {
                        b.forward_to(y);
                        Some(y)
                    },
                    None => b.next(),
                }
            },
            DynSchedule::After(_, s) => s.next(),
            DynSchedule::Before(limit, s) => {
                match s.next() {
                    Some(c) => if c.nanos < limit.nanos {
                        Some(c)
                    } else {
                        None
                    },
                    None => None,
                }
            },
            DynSchedule::Throttling(s, last, interval) => {
                match clearing(*last, *interval) {
                    Clearing::Blocked => None,
                    Clearing::SkipTo(at) => {
                        proof {
                            s.lemma_size_forwarded(at);
                        }
                        s.forward_to(at);
                        let next = s.next();
                        if let Some(y) = next {
                            *last = Some(y);
                        }
                        next
                    },
                    Clearing::Open => {
                        let next = s.next();
                        if let Some(y) = next {
                            *last = Some(y);
                        }
                        next
                    },
                }
            },
        }
    }

    fn forward_to(&mut self, t: Dtu)
        decreases old(self).size(),
    {
        proof {
            if self.orderly() {
                self.lemma_step(t);
                self.lemma_floor_rises(0, t);
            }
        }
        match self {
            DynSchedule::Never => {},
            DynSchedule::Once(s) => s.forward_to(t),
            DynSchedule::Period(s) => s.forward_to(t),
            DynSchedule::Iter(s) => s.forward_to(t),
            DynSchedule::Cron(s) => s.forward_to(t),
            DynSchedule::Or(a, b) => {
                a.forward_to(t);
                b.forward_to(t);
            },
            DynSchedule::Then(a, b) => {
                a.forward_to(t);
                b.forward_to(t);
            },
            DynSchedule::After(_, s) => s.forward_to(t),
            DynSchedule::Before(_, s) => s.forward_to(t),
            DynSchedule::Throttling(s, _, _) => s.forward_to(t),
        }
    }

    proof fn lemma_step(&self, t: Dtu)
        decreases self.size(), 2int,
    {
        match self {
            DynSchedule::Never => {},
            DynSchedule::Once(s) => s.lemma_step(t),
            DynSchedule::Period(s) => s.lemma_step(t),
            DynSchedule::Iter(s) => s.lemma_step(t),
            DynSchedule::Cron(s) => s.lemma_step(t),
            DynSchedule::Or(a, b) => {
                a.lemma_step(t);
                b.lemma_step(t);
                if self.exact() {
                    if let Some(p) = self.upcoming() {
                        if t@ < p@ {
                            if a.upcoming() is None {
                                a.lemma_stays_terminated(t);
                            }
                            if b.upcoming() is None {
                                b.lemma_stays_terminated(t);
                            }
                        }
                    }
                }
            },
            DynSchedule::Then(a, b) => {
                a.lemma_step(t);
                b.lemma_step(t);
                if let Some(y) = a.yielded() {
                    b.lemma_step(y);
                }
                if self.exact() {
                    if a.upcoming() is None {
                        a.lemma_stays_terminated(t);
                    }
                }
            },
            DynSchedule::After(_, s) => s.lemma_step(t),
            DynSchedule::Before(_, s) => s.lemma_step(t),
            DynSchedule::Throttling(s, last, interval) => {
                s.lemma_step(t);
                match clearing_instant(*last, *interval) {
                    Some(at) => {
                        s.lemma_step(at);
                        s.lemma_size_forwarded(at);
                        s.forwarded(at).lemma_step(t);
                    },
                    None => {},
                }
            },
        }
    }

    proof fn lemma_floor_holds(&self, floor: int, t: Dtu)
        decreases self.size(), 2int,
    {
        match self {
            DynSchedule::Never => {},
            DynSchedule::Once(s) => s.lemma_floor_holds(floor, t),
            DynSchedule::Period(s) => s.lemma_floor_holds(floor, t),
            DynSchedule::Iter(s) => s.lemma_floor_holds(floor, t),
            DynSchedule::Cron(s) => s.lemma_floor_holds(floor, t),
            DynSchedule::Or(a, b) => {
                a.lemma_floor_holds(floor, t);
                b.lemma_floor_holds(floor, t);
            },
            DynSchedule::Then(a, b) => {
                a.lemma_step(t);
                b.lemma_step(t);
                a.lemma_floor_holds(floor, t);
                match a.yielded() {
                    Some(y) => {
                        b.lemma_step(y);
                        b.lemma_floor_rises(floor, y);
                        b.lemma_size_forwarded(y);
                        b.forwarded(y).lemma_floor_weakens(y@ + 1, floor);
                    },
                    None => {
                        b.lemma_floor_holds(floor, t);
                    },
                }
                match a.upcoming() {
                    Some(p) => {
                        if a.forwarded(t).upcoming() is None {
                            assert(p@ <= t@);
                            b.lemma_floor_rises(floor, t);
                            b.lemma_size_forwarded(t);
                            b.forwarded(t).lemma_floor_weakens(t@ + 1, floor);
                        }
                    },
                    None => {
                        b.lemma_floor_holds(floor, t);
                    },
                }
            },
            DynSchedule::After(_, s) => s.lemma_floor_holds(floor, t),
            DynSchedule::Before(limit, s) => s.lemma_floor_holds(capped(floor, *limit), t),
            DynSchedule::Throttling(s, last, interval) => {
                s.lemma_step(t);
                let at = clearing_instant(*last, *interval);
                let g = match at {
                    Some(at) => s.forwarded(at),
                    None => **s,
                };
                if let Some(at) = at {
                    s.lemma_step(at);
                    s.lemma_size_forwarded(at);
                    s.lemma_floor_rises(at@ + 1, at);
                }
                if s.not_before(floor) {
                    s.lemma_floor_holds(floor, t);
                    if let Some(at) = at {
                        s.lemma_floor_holds(floor, at);
                    }
                    g.lemma_floor_holds(floor, t);
                } else if !is_blocked(*last, *interval) {
                    let m = allowed_from(*last, *interval).unwrap();
                    if m > NANOS_MIN {
                        g.lemma_floor_weakens(m, floor);
                        g.lemma_floor_holds(floor, t);
                    } else {
                        if let Some(y) = g.yielded() {
                            g.lemma_floor_rises(y@, t);
                            g.lemma_size_advanced();
                            g.advanced().lemma_floor_weakens(y@, floor);
                        }
                    }
                }
            },
        }
    }

    proof fn lemma_floor_rises(&self, floor: int, t: Dtu)
        decreases self.size(), 2int,
    {
        match self {
            DynSchedule::Never => {},
            DynSchedule::Once(s) => s.lemma_floor_rises(floor, t),
            DynSchedule::Period(s) => s.lemma_floor_rises(floor, t),
            DynSchedule::Iter(s) => s.lemma_floor_rises(floor, t),
            DynSchedule::Cron(s) => s.lemma_floor_rises(floor, t),
            DynSchedule::Or(a, b) => {
                a.lemma_floor_rises(floor, t);
                b.lemma_floor_rises(floor, t);
                if let Some(y) = self.yielded() {
                    match a.upcoming() {
                        Some(x) => {
                            a.lemma_floor_rises(x@, t);
                            a.lemma_floor_weakens(x@, y@);
                        },
                        None => {
                            a.lemma_floor_rises(y@, t);
                        },
                    }
                    match b.upcoming() {
                        Some(x) => {
                            b.lemma_floor_rises(x@, t);
                            b.lemma_floor_weakens(x@, y@);
                        },
                        None => {
                            b.lemma_floor_rises(y@, t);
                        },
                    }
                    a.lemma_floor_holds(y@, t);
                    b.lemma_floor_holds(y@, t);
                }
            },
            DynSchedule::Then(a, b) => {
                a.lemma_step(t);
                b.lemma_step(t);
                a.lemma_floor_rises(floor, t);
                b.lemma_floor_rises(floor, t);
                if let Some(p) = self.upcoming() {
                    a.lemma_floor_rises(p@, t);
                    b.lemma_floor_rises(p@, t);
                }
                match a.yielded() {
                    Some(y) => {
                        b.lemma_step(y);
                        a.lemma_floor_rises(y@, t);
                        b.lemma_floor_rises(y@, y);
                        b.lemma_size_forwarded(y);
                        b.forwarded(y).lemma_floor_weakens(y@ + 1, y@);
                    },
                    None => {
                        if let Some(y) = b.yielded() {
                            a.lemma_floor_rises(y@, t);
                            b.lemma_floor_rises(y@, t);
                        }
                    },
                }
            },
            DynSchedule::After(_, s) => s.lemma_floor_rises(floor, t),
            DynSchedule::Before(limit, s) => {
                let low = capped(floor, *limit);
                s.lemma_floor_rises(low, t);
                s.lemma_step(t);
                s.lemma_size_forwarded(t);
                s.lemma_size_advanced();
                if let Some(p) = s.upcoming() {
                    s.lemma_floor_rises(p@, t);
                    if p@ >= limit@ {
                        s.lemma_floor_weakens(p@, low);
                    }
                }
                if let Some(y) = s.yielded() {
                    s.lemma_floor_rises(y@, t);
                    if y@ >= limit@ {
                        s.advanced().lemma_floor_weakens(y@, low);
                    }
                }
                s.forwarded(t).lemma_floor_weakens(t@ + 1, capped(t@ + 1, *limit));
            },
            DynSchedule::Throttling(s, last, interval) => {
                s.lemma_step(t);
                s.lemma_floor_rises(floor, t);
                if let Some(n) = s.upcoming() {
                    s.lemma_floor_rises(n@, t);
                }
                if !is_blocked(*last, *interval) {
                    let at = clearing_instant(*last, *interval);
                    let g = match at {
                        Some(at) => s.forwarded(at),
                        None => **s,
                    };
                    if let Some(at) = at {
                        s.lemma_step(at);
                        s.lemma_size_forwarded(at);
                    }
                    g.lemma_floor_rises(floor, t);
                    if let Some(y) = g.yielded() {
                        g.lemma_floor_rises(y@, t);
                    }
                }
            },
        }
    }

    proof fn lemma_floor_weakens(&self, floor: int, lower: int)
        decreases self.size(), 2int,
    {
        match self {
            DynSchedule::Never => {},
            DynSchedule::Once(s) => s.lemma_floor_weakens(floor, lower),
            DynSchedule::Period(s) => s.lemma_floor_weakens(floor, lower),
            DynSchedule::Iter(s) => s.lemma_floor_weakens(floor, lower),
            DynSchedule::Cron(s) => s.lemma_floor_weakens(floor, lower),
            DynSchedule::Or(a, b) => {
                a.lemma_floor_weakens(floor, lower);
                b.lemma_floor_weakens(floor, lower);
            },
            DynSchedule::Then(a, b) => {
                a.lemma_floor_weakens(floor, lower);
                if a.upcoming() is None {
                    b.lemma_floor_weakens(floor, lower);
                }
            },
            DynSchedule::After(_, s) => s.lemma_floor_weakens(floor, lower),
            DynSchedule::Before(limit, s) => s.lemma_floor_weakens(
                capped(floor, *limit),
                capped(lower, *limit),
            ),
            DynSchedule::Throttling(s, _, _) => {
                if s.not_before(floor) {
                    s.lemma_floor_weakens(floor, lower);
                }
            },
        }
    }
}

/// The lower bound of throttling, for the dynamic variant: two instants that
/// a throttled schedule yields one after the other lie at least its interval
/// apart.
pub proof fn lemma_dyn_throttling_spacing(s: DynSchedule)
    requires
        s.wf(),
        s.orderly(),
        s is Throttling,
        s.yielded() is Some,
        s.advanced().yielded() is Some,
    ensures
        s.advanced().yielded().unwrap()@ - s.yielded().unwrap()@ >= s->Throttling_2@,
{
    let y1 = s.yielded().unwrap();
    let next = s.advanced();
    let zero = Dtu { nanos: 0 };
    s.lemma_step(zero);
    assert(next matches DynSchedule::Throttling(_, last, interval) && last == Some(y1) && interval
        == s->Throttling_2);
    next.lemma_floor_holds(y1@ + s->Throttling_2@, zero);
}

/// Builds a combined schedule step by step, starting from one schedule and
/// wrapping what has been built so far in one combinator per call.
#[derive(Debug)]
pub struct ScheduleDynBuilder {
    pub schedule: DynSchedule,
}

impl Default for ScheduleDynBuilder {
    /// The builder that starts from the schedule that never fires.
    fn default() -> (made: Self)
        ensures
            made.schedule == DynSchedule::Never,
    {
        Self { schedule: DynSchedule::Never }
    }
}

impl ScheduleDynBuilder {
    /// The builder that starts from `schedule`.
    pub fn new(schedule: DynSchedule) -> (made: Self)
        ensures
            made.schedule == schedule,
    {
        Self { schedule }
    }

    /// Replaces what has been built by what `map` makes of it.
    pub fn map<M: FnOnce(DynSchedule) -> DynSchedule>(self, map: M) -> (made: Self)
        requires
            map.requires((self.schedule,)),
        ensures
            map.ensures((self.schedule,), made.schedule),
    {
        Self { schedule: map(self.schedule) }
    }

    /// Fires whenever what has been built or `other` does.
    pub fn or(self, other: DynSchedule) -> (made: Self)
        ensures
            made.schedule == DynSchedule::Or(Box::new(self.schedule), Box::new(other)),
    {
        Self { schedule: DynSchedule::Or(Box::new(self.schedule), Box::new(other)) }
    }

    /// Fires as what has been built does, but only after `time`.
    pub fn after(self, time: Dtu) -> (made: Self)
        requires
            self.schedule.wf(),
        ensures
            made.schedule.wf(),
            made.schedule == DynSchedule::After(time, Box::new(self.schedule.forwarded(time))),
    {
        let mut schedule = self.schedule;
        schedule.forward_to(time);
        Self { schedule: DynSchedule::After(time, Box::new(schedule)) }
    }

    /// Fires as what has been built does, but only before `time`.
    pub fn before(self, time: Dtu) -> (made: Self)
        ensures
            made.schedule == DynSchedule::Before(time, Box::new(self.schedule)),
    {
        Self { schedule: DynSchedule::Before(time, Box::new(self.schedule)) }
    }

    /// Fires as what has been built does until that terminates, and as
    /// `tail` does from then on.
    pub fn and_then(self, tail: DynSchedule) -> (made: Self)
        ensures
            made.schedule == DynSchedule::Then(Box::new(self.schedule), Box::new(tail)),
    {
        Self { schedule: DynSchedule::Then(Box::new(self.schedule), Box::new(tail)) }
    }

    /// Fires as what has been built does, but no more often than once per
    /// `interval`.
    pub fn throttling(self, interval: TimeDelta) -> (made: Self)
        ensures
            made.schedule == DynSchedule::Throttling(Box::new(self.schedule), None, interval),
    {
        Self { schedule: DynSchedule::Throttling(Box::new(self.schedule), None, interval) }
    }

    /// The schedule that has been built.
    pub fn build(self) -> (schedule: DynSchedule)
        ensures
            schedule == self.schedule,
    {
        self.schedule
    }
}

impl DynSchedule {
    /// A builder that starts from this schedule.
    pub fn dyn_builder(self) -> (made: ScheduleDynBuilder)
        ensures
            made.schedule == self,
    {
        ScheduleDynBuilder::new(self)
    }
}

} // verus!
