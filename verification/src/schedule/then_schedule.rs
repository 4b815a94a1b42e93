use vstd::prelude::*;

use crate::schedule::{
    lemma_forward_skips, lemma_nth_state_splits, lemma_terminated_stays, nth_state, nth_yield,
    Schedule,
};
use crate::time::Dtu;

verus! {

/// One schedule after another: fires as `firstly` does until that
/// terminates, and from then on as `tail` does, which resumes strictly after
/// the last instant that `firstly` yielded.
#[derive(Debug, Clone, Copy, Default, Hash, PartialEq, Eq)]
pub struct Then<F, T> {
    pub firstly: F,
    pub tail: T,
}

impl<F, T> Then<F, T> {
    /// `firstly` followed by `tail`.
    pub fn new(firstly: F, tail: T) -> (made: Self)
        ensures
            made.firstly == firstly,
            made.tail == tail,
    {
        Self { firstly, tail }
    }
}

impl<S0: Schedule, S1: Schedule> Schedule for Then<S0, S1> {
    open spec fn wf(&self) -> bool {
        self.firstly.wf() && self.tail.wf()
    }

    open spec fn upcoming(&self) -> Option<Dtu> {
        match self.firstly.upcoming() {
            Some(p) => Some(p),
            None => self.tail.upcoming(),
        }
    }

    open spec fn yielded(&self) -> Option<Dtu> {
        match self.firstly.yielded() {
            Some(y) => Some(y),
            None => self.tail.yielded(),
        }
    }

    open spec fn advanced(&self) -> Self {
        match self.firstly.yielded() {
            Some(y) => Then { firstly: self.firstly.advanced(), tail: self.tail.forwarded(y) },
            None => Then { firstly: self.firstly.advanced(), tail: self.tail.advanced() },
        }
    }

    open spec fn forwarded(&self, t: Dtu) -> Self {
        Then { firstly: self.firstly.forwarded(t), tail: self.tail.forwarded(t) }
    }

    open spec fn not_before(&self, floor: int) -> bool {
        &&& self.firstly.not_before(floor)
        &&& self.firstly.upcoming() is None ==> self.tail.not_before(floor)
    }

    open spec fn orderly(&self) -> bool {
        self.firstly.exact() && self.tail.orderly()
    }

    open spec fn exact(&self) -> bool {
        self.firstly.exact() && self.tail.exact()
    }

    fn is_wf(&self) -> (ok: bool) {
        self.firstly.is_wf() && self.tail.is_wf()
    }

    fn peek_next(&mut self) -> (next: Option<Dtu>) {
        match self.firstly.peek_next() {
            Some(p) => Some(p),
            None => self.tail.peek_next(),
        }
    }

    /// Yields what `firstly` yields and skips `tail` past it; once `firstly`
    /// yields nothing, yields what `tail` yields.
    fn next(&mut self) -> (next: Option<Dtu>)
        ensures
            final(self).firstly == old(self).firstly.advanced(),
            old(self).firstly.yielded() matches Some(y) ==> {
                &&& next == Some(y)
                &&& final(self).tail == old(self).tail.forwarded(y)
            },
            old(self).firstly.yielded() is None ==> {
                &&& next == old(self).tail.yielded()
                &&& final(self).tail == old(self).tail.advanced()
            },
    {
        proof {
            if self.orderly() {
                self.lemma_step(Dtu { nanos: 0 });
                self.lemma_floor_rises(0, Dtu { nanos: 0 });
            }
        }
        match self.firstly.next() {
            Some(y) => {
                self.tail.forward_to(y);
                Some(y)
            },
            None => self.tail.next(),
        }
    }

    fn forward_to(&mut self, t: Dtu) {
        proof {
            if self.orderly() {
                self.lemma_step(t);
                self.lemma_floor_rises(0, t);
            }
        }
        self.firstly.forward_to(t);
        self.tail.forward_to(t);
    }

    proof fn lemma_step(&self, t: Dtu) {
        self.firstly.lemma_step(t);
        self.tail.lemma_step(t);
        if let Some(y) = self.firstly.yielded() {
            self.tail.lemma_step(y);
        }
        if self.exact() {
            if self.firstly.upcoming() is None {
                lemma_terminated_stays(self.firstly, t);
            }
        }
    }

    proof fn lemma_floor_holds(&self, floor: int, t: Dtu) {
        let a = self.firstly;
        let b = self.tail;
        a.lemma_step(t);
        b.lemma_step(t);
        a.lemma_floor_holds(floor, t);
        match a.yielded() {
            Some(y) => {
                // the tail is skipped past an instant that the floor does not exceed
                b.lemma_step(y);
                b.lemma_floor_rises(floor, y);
                b.forwarded(y).lemma_floor_weakens(y@ + 1, floor);
            },
            None => {
                b.lemma_floor_holds(floor, t);
            },
        }
        match a.upcoming() {
            Some(p) => {
                // if skipping to `t` ends the first side, `t` reaches the reported instant
                if a.forwarded(t).upcoming() is None {
                    assert(p@ <= t@);
                    b.lemma_floor_rises(floor, t);
                    b.forwarded(t).lemma_floor_weakens(t@ + 1, floor);
                }
            },
            None => {
                b.lemma_floor_holds(floor, t);
            },
        }
    }

    proof fn lemma_floor_rises(&self, floor: int, t: Dtu) {
        let a = self.firstly;
        let b = self.tail;
        a.lemma_step(t);
        b.lemma_step(t);
        a.lemma_floor_rises(floor, t);
        b.lemma_floor_rises(floor, t);
        if let Some(p) = self.upcoming() {
            a.lemma_floor_rises(p@, t);
            b.lemma_floor_rises(p@, t);
        }
        match a.yielded() {
            Some(y) => {
                b.lemma_step(y);
                a.lemma_floor_rises(y@, t);
                b.lemma_floor_rises(y@, y);
                b.forwarded(y).lemma_floor_weakens(y@ + 1, y@);
            },
            None => {
                if let Some(y) = b.yielded() {
                    a.lemma_floor_rises(y@, t);
                    b.lemma_floor_rises(y@, t);
                }
            },
        }
    }

    proof fn lemma_floor_weakens(&self, floor: int, lower: int) {
        self.firstly.lemma_floor_weakens(floor, lower);
        if self.firstly.upcoming() is None {
            self.tail.lemma_floor_weakens(floor, lower);
        }
    }
}

/// Continuity of `Then`: it yields every instant that its first side yields,
/// and whatever its tail yields afterwards lies strictly after that instant.
/// An exact tail loses nothing by it: the instant that it reported, where
/// that lies after the one yielded, is the one that it still reports.
pub proof fn lemma_then_continues<S0: Schedule, S1: Schedule>(s: Then<S0, S1>, n: nat)
    requires
        s.wf(),
        s.tail.orderly(),
        s.firstly.yielded() is Some,
    ensures
        s.yielded() == s.firstly.yielded(),
        s.advanced().firstly == s.firstly.advanced(),
        s.advanced().tail.upcoming() matches Some(p) ==> p@ > s.firstly.yielded().unwrap()@,
        s.tail.exact() ==> (s.tail.upcoming() matches Some(p) ==> (p@
            > s.firstly.yielded().unwrap()@ ==> s.advanced().tail.upcoming() == s.tail.upcoming())),
        nth_yield(s.advanced().tail, n) matches Some(y) ==> y@
            > s.firstly.yielded().unwrap()@,
{
    let y = s.firstly.yielded().unwrap();
    lemma_forward_skips(s.tail, y, n);
    s.tail.lemma_step(y);
}

/// Whether neither side of `s` reports an instant before `floor`.
pub open spec fn sides_not_before<S0: Schedule, S1: Schedule>(s: Then<S0, S1>, floor: int) -> bool {
    s.firstly.not_before(floor) && s.tail.not_before(floor)
}

/// Whether `s` is well-formed and both of its sides are orderly. The first
/// side need not be exact: it may be throttled.
pub open spec fn sides_orderly<S0: Schedule, S1: Schedule>(s: Then<S0, S1>) -> bool {
    s.wf() && s.firstly.orderly() && s.tail.orderly()
}

/// After a yield neither side reports an instant before the one yielded, and
/// a floor of both sides bounds the yield and stays a floor of both.
pub proof fn lemma_then_sides<S0: Schedule, S1: Schedule>(s: Then<S0, S1>, floor: int)
    requires
        sides_orderly(s),
    ensures
        sides_orderly(s.advanced()),
        s.yielded() matches Some(y) ==> sides_not_before(s.advanced(), y@),
        sides_not_before(s, floor) ==> sides_not_before(s.advanced(), floor),
        sides_not_before(s, floor) ==> (s.yielded() matches Some(y) ==> floor <= y@),
{
    let a = s.firstly;
    let b = s.tail;
    let zero = Dtu { nanos: 0 };
    a.lemma_step(zero);
    b.lemma_step(zero);
    match a.yielded() {
        Some(y) => {
            b.lemma_step(y);
            a.lemma_floor_rises(y@, y);
            b.lemma_floor_rises(y@, y);
            b.forwarded(y).lemma_floor_weakens(y@ + 1, y@);
            if sides_not_before(s, floor) {
                a.lemma_floor_holds(floor, y);
                b.lemma_floor_holds(floor, y);
            }
        },
        None => {
            if let Some(y) = b.yielded() {
                a.lemma_floor_rises(y@, zero);
                b.lemma_floor_rises(y@, zero);
            }
            if sides_not_before(s, floor) {
                a.lemma_floor_holds(floor, zero);
                b.lemma_floor_holds(floor, zero);
            }
        },
    }
}

/// A floor of both sides is one in every state that calls of `next` reach.
pub proof fn lemma_then_sides_stay<S0: Schedule, S1: Schedule>(s: Then<S0, S1>, floor: int, n: nat)
    requires
        sides_orderly(s),
    ensures
        sides_orderly(nth_state(s, n)),
        sides_not_before(s, floor) ==> sides_not_before(nth_state(s, n), floor),
    decreases n,
{
    if n > 0 {
        lemma_then_sides_stay(s, floor, (n - 1) as nat);
        lemma_then_sides(nth_state(s, (n - 1) as nat), floor);
    }
}

/// Monotonicity of `Then` over orderly sides: the instants that successive
/// calls of `next` yield never decrease, also where the first side is
/// throttled and the state as a whole is not orderly.
pub proof fn lemma_then_yields_never_decrease<S0: Schedule, S1: Schedule>(
    s: Then<S0, S1>,
    i: nat,
    j: nat,
)
    requires
        sides_orderly(s),
        i <= j,
        nth_yield(s, i) is Some,
        nth_yield(s, j) is Some,
    ensures
        nth_yield(s, i).unwrap()@ <= nth_yield(s, j).unwrap()@,
{
    let si = nth_state(s, i);
    let y = si.yielded().unwrap();
    lemma_then_sides_stay(s, 0, i);
    if i < j {
        let rest = (j - i - 1) as nat;
        lemma_then_sides(si, 0);
        lemma_then_sides_stay(si.advanced(), y@, rest);
        lemma_nth_state_splits(s, i + 1, rest);
        assert(nth_state(s, i + 1) == si.advanced());
        assert(nth_state(si.advanced(), rest) == nth_state(s, j));
        lemma_then_sides(nth_state(s, j), y@);
    }
}

/// Forward-skip of `Then` over orderly sides: after `forward_to(t)` whatever
/// is yielded lies strictly after `t`, also where the first side is throttled.
pub proof fn lemma_then_forward_skips<S0: Schedule, S1: Schedule>(s: Then<S0, S1>, t: Dtu, n: nat)
    requires
        sides_orderly(s),
    ensures
        nth_yield(s.forwarded(t), n) matches Some(y) ==> y@ > t@,
{
    let f = s.forwarded(t);
    s.firstly.lemma_step(t);
    s.tail.lemma_step(t);
    s.firstly.lemma_floor_rises(t@ + 1, t);
    s.tail.lemma_floor_rises(t@ + 1, t);
    lemma_then_sides_stay(f, t@ + 1, n);
    lemma_then_sides(nth_state(f, n), t@ + 1);
}

} // verus!
