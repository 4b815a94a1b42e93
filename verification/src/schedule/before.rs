use vstd::prelude::*;

use crate::schedule::Schedule;
use crate::time::Dtu;

verus! {

/// A schedule that fires only before a given instant.
#[derive(Debug, Clone, Copy, Hash, PartialEq, Eq)]
pub struct Before<S> {
    pub before: Dtu,
    pub inner: S,
}

/// `candidate` where it lies strictly before `limit`, nothing otherwise.
pub open spec fn only_before(candidate: Option<Dtu>, limit: Dtu) -> Option<Dtu> {
    match candidate {
        Some(c) if c@ < limit@ => Some(c),
        _ => None,
    }
}

/// The lower of a floor and the limit of a `Before`.
pub open spec fn capped(floor: int, limit: Dtu) -> int {
    if floor <= limit@ {
        floor
    } else {
        limit@
    }
}

impl<S: Schedule> Before<S> {
    /// `inner` cut off at `before`: it terminates where `inner` would fire at
    /// `before` or later.
    pub fn new(before: Dtu, inner: S) -> (made: Self)
        ensures
            made.before == before,
            made.inner == inner,
    {
        Self { before, inner }
    }

    /// The instant from which on the schedule no longer fires.
    pub fn before(&self) -> (before: Dtu)
        ensures
            before == self.before,
    {
        self.before
    }
}

impl<S: Schedule> Schedule for Before<S> {
    open spec fn wf(&self) -> bool {
        self.inner.wf()
    }

    open spec fn upcoming(&self) -> Option<Dtu> {
        only_before(self.inner.upcoming(), self.before)
    }

    open spec fn yielded(&self) -> Option<Dtu> {
        only_before(self.inner.yielded(), self.before)
    }

    open spec fn advanced(&self) -> Self {
        Before { before: self.before, inner: self.inner.advanced() }
    }

    open spec fn forwarded(&self, t: Dtu) -> Self {
        Before { before: self.before, inner: self.inner.forwarded(t) }
    }

    open spec fn not_before(&self, floor: int) -> bool {
        self.inner.not_before(capped(floor, self.before))
    }

    open spec fn orderly(&self) -> bool {
        self.inner.orderly()
    }

    open spec fn exact(&self) -> bool {
        self.inner.exact()
    }

    fn is_wf(&self) -> (ok: bool) {
        self.inner.is_wf()
    }

    fn peek_next(&mut self) -> (next: Option<Dtu>) {
        match self.inner.peek_next() {
            Some(c) => if c.nanos < self.before.nanos {
                Some(c)
            } else {
                None
            },
            None => None,
        }
    }

    /// Yields what `inner` yields where that lies strictly before the limit,
    /// and nothing otherwise.
    fn next(&mut self) -> (next: Option<Dtu>)
        ensures
            next matches Some(y) ==> y@ < old(self).before@,
            final(self).before == old(self).before,
    {
        match self.inner.next() {
            Some(c) => if c.nanos < self.before.nanos {
                Some(c)
            } else {
                None
            },
            None => None,
        }
    }

    fn forward_to(&mut self, t: Dtu) {
        proof {
            if self.orderly() {
                self.lemma_step(t);
                self.lemma_floor_rises(0, t);
            }
        }
        self.inner.forward_to(t)
    }

    proof fn lemma_step(&self, t: Dtu) {
        self.inner.lemma_step(t);
    }

    proof fn lemma_floor_holds(&self, floor: int, t: Dtu) {
        self.inner.lemma_floor_holds(capped(floor, self.before), t);
    }

    proof fn lemma_floor_rises(&self, floor: int, t: Dtu) {
        let low = capped(floor, self.before);
        self.inner.lemma_floor_rises(low, t);
        self.inner.lemma_step(t);
        if let Some(p) = self.inner.upcoming() {
            self.inner.lemma_floor_rises(p@, t);
            if p@ >= self.before@ {
                self.inner.lemma_floor_weakens(p@, low);
            }
        }
        if let Some(y) = self.inner.yielded() {
            self.inner.lemma_floor_rises(y@, t);
            if y@ >= self.before@ {
                self.inner.advanced().lemma_floor_weakens(y@, low);
            }
        }
        self.inner.forwarded(t).lemma_floor_weakens(t@ + 1, capped(t@ + 1, self.before));
    }

    proof fn lemma_floor_weakens(&self, floor: int, lower: int) {
        self.inner.lemma_floor_weakens(capped(floor, self.before), capped(lower, self.before));
    }
}

} // verus!
