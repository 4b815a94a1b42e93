use vstd::prelude::*;

use crate::schedule::Schedule;
use crate::time::{now, representable, Dtu, TimeDelta};

verus! {

/// Why a period schedule was not built.
#[derive(Debug, Clone, Copy, PartialEq, Eq, Structural)]
pub enum PeriodError {
    /// The period is zero or negative.
    NotPositive,
    /// The first instant lies a whole period or more in the past.
    Stale,
}

/// A schedule that fires at a fixed interval: at `next`, then one `period`
/// later, and so on for as long as the instant can be represented.
#[derive(Debug, Clone, Copy, Hash, PartialEq, Eq)]
pub struct Period {
    pub period: TimeDelta,
    pub next: Option<Dtu>,
}

/// Where a schedule that stands at `next` and steps by `period` stands after
/// it has skipped every instant up to `t`: the first of its instants after `t`.
pub open spec fn period_skip(next: int, period: int, t: int) -> int {
    t + period - (t - next) % period
}

/// `period_skip` is the smallest whole number of periods after `next` that
/// lies strictly after `t`.
pub proof fn lemma_period_skip(next: int, period: int, t: int)
    requires
        period > 0,
        next <= t,
    ensures
        period_skip(next, period, t) == next + ((t - next) / period + 1) * period,
        (t - next) / period + 1 >= 1,
        period_skip(next, period, t) > t,
        period_skip(next, period, t) - period <= t,
{
    let d = t - next;
    vstd::arithmetic::div_mod::lemma_fundamental_div_mod(d, period);
    vstd::arithmetic::div_mod::lemma_mod_bound(d, period);
    vstd::arithmetic::div_mod::lemma_div_pos_is_pos(d, period);
    assert(((d / period) + 1) * period == period * (d / period) + period) by (nonlinear_arith);
}

/// The remainder of `x` by the positive span `p`: the span `r` with
/// `0 <= r < p` that differs from `x` by a whole number of `p`.
pub fn time_mod(x: TimeDelta, p: TimeDelta) -> (r: TimeDelta)
    requires
        p@ > 0,
    ensures
        r@ == x@ % p@,
        0 <= r@ < p@,
{
    proof {
        vstd::arithmetic::div_mod::lemma_mod_bound(x@, p@);
    }
    match x.nanos.checked_rem_euclid(p.nanos) {
        Some(nanos) => TimeDelta { nanos },
        None => TimeDelta { nanos: 0 },
    }
}

impl Period {
    /// The schedule that fires at `from` and every `period` after it, as long
    /// as `period` is positive and `from` lies less than one period before
    /// `now`.
    pub fn new_at(period: TimeDelta, from: Dtu, now: Dtu) -> (made: Result<Self, PeriodError>)
        ensures
            period@ <= 0 ==> made == Err::<Self, PeriodError>(PeriodError::NotPositive),
            period@ > 0 && from@ <= now@ - period@ ==> made == Err::<Self, PeriodError>(
                PeriodError::Stale,
            ),
            period@ > 0 && from@ > now@ - period@ ==> made == Ok::<Self, PeriodError>(
                Period { period, next: Some(from) },
            ),
            made matches Ok(p) ==> p.wf(),
    {
        if period.nanos <= 0 {
            return Err(PeriodError::NotPositive);
        }
        let fresh = match now.checked_sub(period) {
            Some(limit) => from.nanos > limit.nanos,
            None => true,
        };
        if fresh {
            Ok(Period { period, next: Some(from) })
        } else {
            Err(PeriodError::Stale)
        }
    }

    /// The schedule that fires at `from` and every `period` after it. The
    /// period must be positive, and `from` must lie less than one period
    /// before the current instant.
    pub fn new(period: TimeDelta, from: Dtu) -> (made: Result<Self, PeriodError>)
        ensures
            period@ <= 0 <==> made == Err::<Self, PeriodError>(PeriodError::NotPositive),
            made matches Ok(p) ==> p == (Period { period, next: Some(from) }) && p.wf(),
    {
        Self::new_at(period, from, now())
    }

    /// The interval between two fires.
    pub fn period(&self) -> (period: TimeDelta)
        ensures
            period == self.period,
    {
        self.period
    }

    /// The instant of the next fire, if there is one.
    pub fn get_next(&self) -> (next: Option<Dtu>)
        ensures
            next == self.next,
    {
        self.next
    }
}

impl Schedule for Period {
    open spec fn wf(&self) -> bool {
        self.period@ > 0
    }

    open spec fn upcoming(&self) -> Option<Dtu> {
        self.next
    }

    open spec fn yielded(&self) -> Option<Dtu> {
        self.next
    }

    open spec fn advanced(&self) -> Self {
        match self.next {
            Some(n) if representable(n@ + self.period@) => Period {
                period: self.period,
                next: Some(Dtu { nanos: (n@ + self.period@) as i128 }),
            },
            _ => Period { period: self.period, next: None },
        }
    }

    open spec fn forwarded(&self, t: Dtu) -> Self {
        match self.next {
            Some(n) if n@ <= t@ => {
                let m = period_skip(n@, self.period@, t@);
                if representable(m) {
                    Period { period: self.period, next: Some(Dtu { nanos: m as i128 }) }
                } else {
                    Period { period: self.period, next: None }
                }
            },
            _ => *self,
        }
    }

    open spec fn not_before(&self, floor: int) -> bool {
        self.next matches Some(n) ==> floor <= n@
    }

    open spec fn orderly(&self) -> bool {
        true
    }

    open spec fn exact(&self) -> bool {
        true
    }

    fn is_wf(&self) -> (ok: bool) {
        self.period.nanos > 0
    }

    fn peek_next(&mut self) -> (next: Option<Dtu>) {
        self.next
    }

    fn next(&mut self) -> (next: Option<Dtu>) {
        let next = self.next;
        if let Some(n) = next {
            self.next = n.checked_add(self.period);
        }
        next
    }

    fn forward_to(&mut self, t: Dtu) {
        if let Some(n) = self.next {
            if n.nanos <= t.nanos {
                // (t - n) % p from the two remainders: t - n itself may not be representable
                let rt = time_mod(TimeDelta { nanos: t.nanos }, self.period);
                let rn = time_mod(TimeDelta { nanos: n.nanos }, self.period);
                let rest: i128 = if rt.nanos >= rn.nanos {
                    rt.nanos - rn.nanos
                } else {
                    rt.nanos - rn.nanos + self.period.nanos
                };
                proof {
                    let p = self.period@;
                    vstd::arithmetic::div_mod::lemma_sub_mod_noop(t@, n@, p);
                    if rt@ >= rn@ {
                        vstd::arithmetic::div_mod::lemma_small_mod((rt@ - rn@) as nat, p as nat);
                    } else {
                        vstd::arithmetic::div_mod::lemma_mod_add_multiples_vanish(rt@ - rn@, p);
                        vstd::arithmetic::div_mod::lemma_small_mod((rt@ - rn@ + p) as nat, p as nat);
                    }
                    assert(rest == (t@ - n@) % p);
                }
                let step = TimeDelta { nanos: self.period.nanos - rest };
                self.next = t.checked_add(step);
            }
        }
    }

    proof fn lemma_step(&self, t: Dtu) {
    }

    proof fn lemma_floor_holds(&self, floor: int, t: Dtu) {
        if let Some(n) = self.next {
            if n@ <= t@ {
                lemma_period_skip(n@, self.period@, t@);
            }
        }
    }

    proof fn lemma_floor_rises(&self, floor: int, t: Dtu) {
        if let Some(n) = self.next {
            if n@ <= t@ {
                lemma_period_skip(n@, self.period@, t@);
            }
        }
    }

    proof fn lemma_floor_weakens(&self, floor: int, lower: int) {
    }
}

} // verus!
