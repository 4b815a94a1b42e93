use vstd::prelude::*;

use crate::schedule::Schedule;
use crate::time::Dtu;

verus! {

/// A schedule that fires only after a given instant.
#[derive(Debug, Clone, Copy, Hash, PartialEq, Eq)]
pub struct After<S> {
    pub after: Dtu,
    pub inner: S,
}

impl<S: Schedule> After<S> {
    /// `inner` with every instant up to and including `after` skipped.
    pub fn new(after: Dtu, inner: S) -> (made: Self)
        requires
            inner.wf(),
        ensures
            made.wf(),
            made.after == after,
            made.inner == inner.forwarded(after),
    {
        let mut inner = inner;
        inner.forward_to(after);
        Self { after, inner }
    }

    /// The instant after which the schedule fires.
    pub fn after(&self) -> (after: Dtu)
        ensures
            after == self.after,
    {
        self.after
    }
}

impl<S: Schedule> Schedule for After<S> {
    open spec fn wf(&self) -> bool {
        self.inner.wf()
    }

    open spec fn upcoming(&self) -> Option<Dtu> {
        self.inner.upcoming()
    }

    open spec fn yielded(&self) -> Option<Dtu> {
        self.inner.yielded()
    }

    open spec fn advanced(&self) -> Self {
        After { after: self.after, inner: self.inner.advanced() }
    }

    open spec fn forwarded(&self, t: Dtu) -> Self {
        After { after: self.after, inner: self.inner.forwarded(t) }
    }

    open spec fn not_before(&self, floor: int) -> bool {
        self.inner.not_before(floor)
    }

    open spec fn orderly(&self) -> bool {
        self.inner.orderly()
    }

    open spec fn exact(&self) -> bool {
        self.inner.exact()
    }

    fn is_wf(&self) -> (ok: bool) {
        self.inner.is_wf()
    }

    fn peek_next(&mut self) -> (next: Option<Dtu>) {
        self.inner.peek_next()
    }

    fn next(&mut self) -> (next: Option<Dtu>) {
        self.inner.next()
    }

    fn forward_to(&mut self, t: Dtu) {
        self.inner.forward_to(t)
    }

    proof fn lemma_step(&self, t: Dtu) {
        self.inner.lemma_step(t);
    }

    proof fn lemma_floor_holds(&self, floor: int, t: Dtu) {
        self.inner.lemma_floor_holds(floor, t);
    }

    proof fn lemma_floor_rises(&self, floor: int, t: Dtu) {
        self.inner.lemma_floor_rises(floor, t);
    }

    proof fn lemma_floor_weakens(&self, floor: int, lower: int) {
        self.inner.lemma_floor_weakens(floor, lower);
    }
}

} // verus!
