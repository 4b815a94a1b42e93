use vstd::prelude::*;

use crate::schedule::{lemma_terminated_stays, Schedule};
use crate::time::Dtu;

verus! {

/// The union of two schedules: fires whenever one of them does.
pub struct Or<S0, S1>(pub S0, pub S1);

impl<S0, S1> Or<S0, S1> {
    /// The union of `s0` and `s1`.
    pub fn new(s0: S0, s1: S1) -> (or: Self)
        ensures
            or.0 == s0,
            or.1 == s1,
    {
        Self(s0, s1)
    }
}

/// The earlier of two reported instants; the first when they are equal, and
/// the one that is there when the other side has terminated.
pub open spec fn earlier_of(a: Option<Dtu>, b: Option<Dtu>) -> Option<Dtu> {
    match (a, b) {
        (None, None) => None,
        (None, Some(y)) => Some(y),
        (Some(x), None) => Some(x),
        (Some(x), Some(y)) => if x@ <= y@ {
            Some(x)
        } else {
            Some(y)
        },
    }
}

/// Whether the first side produces the earlier instant: it reports one, and
/// the second side reports none or a later or equal one.
pub open spec fn first_leads(a: Option<Dtu>, b: Option<Dtu>) -> bool {
    match (a, b) {
        (Some(x), Some(y)) => x@ <= y@,
        (Some(_), None) => true,
        _ => false,
    }
}

impl<S0: Schedule, S1: Schedule> Schedule for Or<S0, S1> {
    open spec fn wf(&self) -> bool {
        self.0.wf() && self.1.wf()
    }

    open spec fn upcoming(&self) -> Option<Dtu> {
        earlier_of(self.0.upcoming(), self.1.upcoming())
    }

    open spec fn yielded(&self) -> Option<Dtu> {
        earlier_of(self.0.upcoming(), self.1.upcoming())
    }

    open spec fn advanced(&self) -> Self {
        if first_leads(self.0.upcoming(), self.1.upcoming()) {
            Or(self.0.advanced(), self.1)
        } else if self.1.upcoming() is Some {
            Or(self.0, self.1.advanced())
        } else {
            *self
        }
    }

    open spec fn forwarded(&self, t: Dtu) -> Self {
        Or(self.0.forwarded(t), self.1.forwarded(t))
    }

    open spec fn not_before(&self, floor: int) -> bool {
        self.0.not_before(floor) && self.1.not_before(floor)
    }

    open spec fn orderly(&self) -> bool {
        self.0.orderly() && self.1.orderly()
    }

    open spec fn exact(&self) -> bool {
        self.0.exact() && self.1.exact()
    }

    fn is_wf(&self) -> (ok: bool) {
        self.0.is_wf() && self.1.is_wf()
    }

    fn peek_next(&mut self) -> (next: Option<Dtu>) {
        match (self.0.peek_next(), self.1.peek_next()) {
            (None, None) => None,
            (None, Some(y)) => Some(y),
            (Some(x), None) => Some(x),
            (Some(x), Some(y)) => Some(x.earliest(y)),
        }
    }

    /// Yields the earlier of the two reported instants and consumes only the
    /// side that reported it, the first side when both report the same.
    fn next(&mut self) -> (next: Option<Dtu>)
        ensures
            next == earlier_of(old(self).0.upcoming(), old(self).1.upcoming()),
            first_leads(old(self).0.upcoming(), old(self).1.upcoming()) ==> {
                &&& final(self).0 == old(self).0.advanced()
                &&& final(self).1 == old(self).1
            },
            !first_leads(old(self).0.upcoming(), old(self).1.upcoming()) && next is Some ==> {
                &&& final(self).0 == old(self).0
                &&& final(self).1 == old(self).1.advanced()
            },
            next is None ==> *final(self) == *old(self),
    {
        proof {
            if self.orderly() {
                self.lemma_step(Dtu { nanos: 0 });
                self.lemma_floor_rises(0, Dtu { nanos: 0 });
            }
        }
        match (self.0.peek_next(), self.1.peek_next()) {
            (None, None) => None,
            (None, Some(y)) => {
                self.1.next();
                Some(y)
            },
            (Some(x), None) => {
                self.0.next();
                Some(x)
            },
            (Some(x), Some(y)) => {
                if x.nanos <= y.nanos {
                    self.0.next();
                    Some(x)
                } else {
                    self.1.next();
                    Some(y)
                }
            },
        }
    }

    fn forward_to(&mut self, t: Dtu) {
        self.0.forward_to(t);
        self.1.forward_to(t);
    }

    proof fn lemma_step(&self, t: Dtu) {
        self.0.lemma_step(t);
        self.1.lemma_step(t);
        if self.exact() {
            if let Some(p) = self.upcoming() {
                if t@ < p@ {
                    if self.0.upcoming() is None {
                        lemma_terminated_stays(self.0, t);
                    }
                    if self.1.upcoming() is None {
                        lemma_terminated_stays(self.1, t);
                    }
                }
            }
        }
    }

    proof fn lemma_floor_holds(&self, floor: int, t: Dtu) {
        self.0.lemma_floor_holds(floor, t);
        self.1.lemma_floor_holds(floor, t);
    }

    proof fn lemma_floor_rises(&self, floor: int, t: Dtu) {
        self.0.lemma_floor_rises(floor, t);
        self.1.lemma_floor_rises(floor, t);
        if let Some(y) = self.yielded() {
            // each side keeps the yielded instant as a floor
            match self.0.upcoming() {
                Some(x) => {
                    self.0.lemma_floor_rises(x@, t);
                    self.0.lemma_floor_weakens(x@, y@);
                },
                None => {
                    self.0.lemma_floor_rises(y@, t);
                },
            }
            match self.1.upcoming() {
                Some(x) => {
                    self.1.lemma_floor_rises(x@, t);
                    self.1.lemma_floor_weakens(x@, y@);
                },
                None => {
                    self.1.lemma_floor_rises(y@, t);
                },
            }
            self.0.lemma_floor_holds(y@, t);
            self.1.lemma_floor_holds(y@, t);
        }
    }

    proof fn lemma_floor_weakens(&self, floor: int, lower: int) {
        self.0.lemma_floor_weakens(floor, lower);
        self.1.lemma_floor_weakens(floor, lower);
    }
}

} // verus!
