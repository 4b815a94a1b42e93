use vstd::prelude::*;

use crate::schedule::Schedule;
use crate::time::Dtu;

verus! {

/// A schedule that fires once, at `next`, and then terminates.
#[derive(Debug, Clone, Copy, Default, Hash, PartialEq, Eq)]
pub struct Once {
    pub next: Option<Dtu>,
}

impl Once {
    /// The schedule that fires at `next` and never again.
    pub fn new(next: Dtu) -> (once: Self)
        ensures
            once.next == Some(next),
    {
        Self { next: Some(next) }
    }
}

impl Schedule for Once {
    open spec fn wf(&self) -> bool {
        true
    }

    open spec fn upcoming(&self) -> Option<Dtu> {
        self.next
    }

    open spec fn yielded(&self) -> Option<Dtu> {
        self.next
    }

    open spec fn advanced(&self) -> Self {
        Once { next: None }
    }

    open spec fn forwarded(&self, t: Dtu) -> Self {
        match self.next {
            Some(n) if n@ <= t@ => Once { next: None },
            _ => *self,
        }
    }

    open spec fn not_before(&self, floor: int) -> bool {
        self.next matches Some(n) ==> floor <= n@
    }

    open spec fn orderly(&self) -> bool {
        true
    }

    open spec fn exact(&self) -> bool {
        true
    }

    fn is_wf(&self) -> (ok: bool) {
        true
    }

    fn peek_next(&mut self) -> (next: Option<Dtu>) {
        self.next
    }

    fn next(&mut self) -> (next: Option<Dtu>) {
        let next = self.next;
        self.next = None;
        next
    }

    fn forward_to(&mut self, t: Dtu) {
        if let Some(n) = self.next {
            if n.nanos <= t.nanos {
                self.next = None;
            }
        }
    }

    proof fn lemma_step(&self, t: Dtu) {
    }

    proof fn lemma_floor_holds(&self, floor: int, t: Dtu) {
    }

    proof fn lemma_floor_rises(&self, floor: int, t: Dtu) {
    }

    proof fn lemma_floor_weakens(&self, floor: int, lower: int) {
    }
}

} // verus!
