use vstd::prelude::*;

use crate::schedule::Schedule;
use crate::time::Dtu;

verus! {

/// Whether the instants of `s` never decrease.
pub open spec fn non_decreasing(s: Seq<Dtu>) -> bool {
    forall|i: int, j: int| 0 <= i <= j < s.len() ==> s[i]@ <= s[j]@
}

/// The first position from `pos` on whose instant lies after `t`, or the
/// length of `s` when there is none.
pub open spec fn first_after(s: Seq<Dtu>, pos: int, t: int) -> int
    decreases s.len() - pos,
{
    if 0 <= pos < s.len() && s[pos]@ <= t {
        first_after(s, pos + 1, t)
    } else {
        pos
    }
}

/// `first_after` stays within the sequence, skips only instants up to `t`,
/// and stops at an instant after `t`.
pub proof fn lemma_first_after(s: Seq<Dtu>, pos: int, t: int)
    requires
        0 <= pos <= s.len(),
    ensures
        pos <= first_after(s, pos, t) <= s.len(),
        forall|k: int| pos <= k < first_after(s, pos, t) ==> s[k]@ <= t,
        first_after(s, pos, t) < s.len() ==> s[first_after(s, pos, t)]@ > t,
    decreases s.len() - pos,
{
    if pos < s.len() && s[pos]@ <= t {
        lemma_first_after(s, pos + 1, t);
    }
}

/// Whether the instants of `items` never decrease.
pub fn is_non_decreasing(items: &Vec<Dtu>) -> (ok: bool)
    ensures
        ok == non_decreasing(items@),
{
    let mut i: usize = 1;
    while i < items.len()
        invariant
            1 <= i,
            forall|a: int, b: int| 0 <= a <= b < i && b < items@.len() ==> items@[a]@ <= items@[b]@,
        decreases items.len() - i,
    {
        if items[i - 1].nanos > items[i].nanos {
            return false;
        }
        proof {
            assert forall|a: int, b: int| 0 <= a <= b < i + 1 && b < items@.len() implies items@[a]@
                <= items@[b]@ by {
                if b == i && a < i {
                    assert(items@[a]@ <= items@[i - 1]@);
                }
            }
        }
        i = i + 1;
    }
    true
}

/// The instants of `items` in non-decreasing order. Equal instants keep the
/// order in which they came.
pub fn sorted_instants(items: &Vec<Dtu>) -> (out: Vec<Dtu>)
    ensures
        non_decreasing(out@),
        out@.to_multiset() == items@.to_multiset(),
{
    let mut out: Vec<Dtu> = Vec::new();
    let mut i: usize = 0;
    proof {
        assert(out@ =~= items@.take(0));
    }
    while i < items.len()
        invariant
            i <= items.len(),
            non_decreasing(out@),
            out@.to_multiset() == items@.take(i as int).to_multiset(),
        decreases items.len() - i,
    {
        let item = items[i];
        let mut at: usize = out.len();
        while at > 0 && out[at - 1].nanos > item.nanos
            invariant
                at <= out.len(),
                forall|k: int| at <= k < out.len() ==> out[k]@ > item@,
            decreases at,
        {
            at = at - 1;
        }
        proof {
            vstd::seq_lib::to_multiset_insert(out@, at as int, item);
            vstd::seq_lib::to_multiset_build(items@.take(i as int), item);
            assert(items@.take(i as int).push(item) =~= items@.take(i + 1));
            let grown = out@.insert(at as int, item);
            assert forall|a: int, b: int| 0 <= a <= b < grown.len() implies grown[a]@ <= grown[b]@ by {
                let pa = if a < at { a } else { a - 1 };
                let pb = if b < at { b } else { b - 1 };
                if a != at && b != at {
                    assert(out@[pa]@ <= out@[pb]@);
                } else if a == at && b != at {
                    assert(out@[pb]@ > item@);
                } else if b == at && a != at {
                    if at > 0 {
                        assert(out@[pa]@ <= out@[at - 1]@);
                    }
                }
            }
        }
        out.insert(at, item);
        i = i + 1;
    }
    proof {
        assert(items@.take(items.len() as int) =~= items@);
    }
    out
}

/// A schedule that fires at each instant of a list, in order.
#[derive(Debug, Clone)]
pub struct Iter {
    pub items: Vec<Dtu>,
    pub pos: usize,
}

impl Iter {
    /// The schedule that fires at each instant of `items`, which never
    /// decrease.
    pub fn new(items: Vec<Dtu>) -> (iter: Self)
        requires
            non_decreasing(items@),
        ensures
            iter.wf(),
            iter.items == items,
            iter.pos == 0,
    {
        Iter { items, pos: 0 }
    }
}

impl Schedule for Iter {
    open spec fn wf(&self) -> bool {
        &&& self.pos <= self.items.len()
        &&& non_decreasing(self.items@)
    }

    open spec fn upcoming(&self) -> Option<Dtu> {
        if self.pos < self.items.len() {
            Some(self.items[self.pos as int])
        } else {
            None
        }
    }

    open spec fn yielded(&self) -> Option<Dtu> {
        self.upcoming()
    }

    open spec fn advanced(&self) -> Self {
        if self.pos < self.items.len() {
            Iter { items: self.items, pos: (self.pos + 1) as usize }
        } else {
            *self
        }
    }

    open spec fn forwarded(&self, t: Dtu) -> Self {
        Iter { items: self.items, pos: first_after(self.items@, self.pos as int, t@) as usize }
    }

    open spec fn not_before(&self, floor: int) -> bool {
        self.pos < self.items.len() ==> floor <= self.items[self.pos as int]@
    }

    open spec fn orderly(&self) -> bool {
        true
    }

    open spec fn exact(&self) -> bool {
        true
    }

    fn is_wf(&self) -> (ok: bool) {
        self.pos <= self.items.len() && is_non_decreasing(&self.items)
    }

    fn peek_next(&mut self) -> (next: Option<Dtu>) {
        if self.pos < self.items.len() {
            Some(self.items[self.pos])
        } else {
            None
        }
    }

    fn next(&mut self) -> (next: Option<Dtu>) {
        if self.pos < self.items.len() {
            let item = self.items[self.pos];
            self.pos = self.pos + 1;
            Some(item)
        } else {
            None
        }
    }

    fn forward_to(&mut self, t: Dtu) {
        let ghost start = self.pos as int;
        while self.pos < self.items.len() && self.items[self.pos].nanos <= t.nanos
            invariant
                self.items == old(self).items,
                start <= self.pos <= self.items.len(),
                first_after(self.items@, start, t@) == first_after(self.items@, self.pos as int, t@),
            decreases self.items.len() - self.pos,
        {
            self.pos = self.pos + 1;
        }
        proof {
            lemma_first_after(self.items@, self.pos as int, t@);
        }
    }

    proof fn lemma_step(&self, t: Dtu) {
        lemma_first_after(self.items@, self.pos as int, t@);
    }

    proof fn lemma_floor_holds(&self, floor: int, t: Dtu) {
        lemma_first_after(self.items@, self.pos as int, t@);
    }

    proof fn lemma_floor_rises(&self, floor: int, t: Dtu) {
        lemma_first_after(self.items@, self.pos as int, t@);
    }

    proof fn lemma_floor_weakens(&self, floor: int, lower: int) {
    }
}

} // verus!
