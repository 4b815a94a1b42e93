use vstd::prelude::*;

use crate::schedule::Schedule;
use crate::time::Dtu;

verus! {

/// A schedule that never fires: the neutral element of `or`.
#[derive(Debug, Clone, Copy, Default)]
pub struct Never;

impl Schedule for Never {
    open spec fn wf(&self) -> bool {
        true
    }

    open spec fn upcoming(&self) -> Option<Dtu> {
        None
    }

    open spec fn yielded(&self) -> Option<Dtu> {
        None
    }

    open spec fn advanced(&self) -> Self {
        *self
    }

    open spec fn forwarded(&self, t: Dtu) -> Self {
        *self
    }

    open spec fn not_before(&self, floor: int) -> bool {
        true
    }

    open spec fn orderly(&self) -> bool {
        true
    }

    open spec fn exact(&self) -> bool {
        true
    }

    fn is_wf(&self) -> (ok: bool) {
        true
    }

    fn peek_next(&mut self) -> (next: Option<Dtu>) {
        None
    }

    fn next(&mut self) -> (next: Option<Dtu>) {
        None
    }

    fn forward_to(&mut self, t: Dtu) {
    }

    proof fn lemma_step(&self, t: Dtu) {
    }

    proof fn lemma_floor_holds(&self, floor: int, t: Dtu) {
    }

    proof fn lemma_floor_rises(&self, floor: int, t: Dtu) {
    }

    proof fn lemma_floor_weakens(&self, floor: int, lower: int) {
    }
}

} // verus!
