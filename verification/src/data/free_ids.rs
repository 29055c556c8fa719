//! Freed identifiers, handed out again smallest first.

use vstd::prelude::*;

verus! {

/// Whether `least` is the smallest member of `ids`.
pub open spec fn is_least(ids: Set<usize>, least: usize) -> bool {
    ids.contains(least) && forall|other: usize| ids.contains(other) ==> least <= other
}

/// A min-priority collection of identifiers: a list in strictly descending
/// order, so that the smallest is at its end.
pub struct FreeIds {
    ids: Vec<usize>,
}

impl View for FreeIds {
    type V = Set<usize>;

    closed spec fn view(&self) -> Set<usize> {
        self.ids@.to_set()
    }
}

impl FreeIds {
    /// The list is in strictly descending order.
    pub closed spec fn wf(&self) -> bool {
        forall|i: int, j: int| 0 <= i < j < self.ids@.len() ==> self.ids@[i] > self.ids@[j]
    }

    /// How many identifiers are held.
    pub closed spec fn spec_len(&self) -> nat {
        self.ids@.len()
    }

    /// The view is a finite set, as large as the list is long.
    pub proof fn lemma_len(&self)
        requires
            self.wf(),
        ensures
            self@.finite(),
            self@.len() == self.spec_len(),
    {
        vstd::seq_lib::seq_to_set_is_finite(self.ids@);
        self.ids@.unique_seq_to_set();
    }

    /// The empty collection.
    pub fn new() -> (s: Self)
        ensures
            s.wf(),
            s@ == Set::<usize>::empty(),
    {
        let s = FreeIds { ids: Vec::new() };
        assert(s.ids@.to_set() =~= Set::<usize>::empty());
        s
    }

    /// Adds an identifier that is not held yet.
    pub fn push(&mut self, id: usize)
        requires
            old(self).wf(),
            !old(self)@.contains(id),
        ensures
            final(self).wf(),
            final(self)@ == old(self)@.insert(id),
            final(self).spec_len() == old(self).spec_len() + 1,
    {
        let mut at: usize = 0;
        while at < self.ids.len() && self.ids[at] > id
            invariant
                self.ids@ == old(self).ids@,
                at <= self.ids@.len(),
                forall|i: int| 0 <= i < at ==> self.ids@[i] > id,
            decreases self.ids@.len() - at,
        {
            at = at + 1;
        }
        proof {
            let before = self.ids@;
            assert forall|j: int| at <= j < before.len() implies before[j] < id by {
                assert(before.contains(before[j]));
                assert(before[at as int] <= id);
            }
        }
        self.ids.insert(at, id);
        proof {
            let before = old(self).ids@;
            let after = self.ids@;
            assert(after == before.insert(at as int, id));
            assert forall|x: usize| after.contains(x) <==> (before.contains(x) || x == id) by {
                if after.contains(x) {
                    let j = choose|j: int| 0 <= j < after.len() && after[j] == x;
                    if j < at {
                        assert(before[j] == x);
                    } else if j > at {
                        assert(before[j - 1] == x);
                    }
                }
                if before.contains(x) {
                    let j = choose|j: int| 0 <= j < before.len() && before[j] == x;
                    if j < at {
                        assert(after[j] == x);
                    } else {
                        assert(after[j + 1] == x);
                    }
                }
                if x == id {
                    assert(after[at as int] == x);
                }
            }
            assert(self@ =~= old(self)@.insert(id));
        }
    }

    /// Takes the smallest identifier out, if there is one.
    pub fn pop(&mut self) -> (least: Option<usize>)
        requires
            old(self).wf(),
        ensures
            final(self).wf(),
            match least {
                Some(id) => {
                    &&& is_least(old(self)@, id)
                    &&& final(self)@ == old(self)@.remove(id)
                    &&& final(self).spec_len() + 1 == old(self).spec_len()
                },
                None => old(self)@ == Set::<usize>::empty() && final(self)@ == old(self)@,
            },
    {
        let least = self.ids.pop();
        proof {
            let before = old(self).ids@;
            let after = self.ids@;
            match least {
                Some(id) => {
                    let last = before.len() - 1;
                    assert(before[last] == id);
                    assert(after == before.drop_last());
                    assert(before.contains(id));
                    assert forall|other: usize| before.contains(other) implies id <= other by {
                        let j = choose|j: int| 0 <= j < before.len() && before[j] == other;
                        if j < last {
                            assert(before[j] > before[last]);
                        }
                    }
                    assert forall|x: usize|
                        after.contains(x) <==> (before.contains(x) && x != id) by {
                        if after.contains(x) {
                            let j = choose|j: int| 0 <= j < after.len() && after[j] == x;
                            assert(before[j] == x);
                            assert(before[j] > before[last]);
                        }
                        if before.contains(x) && x != id {
                            let j = choose|j: int| 0 <= j < before.len() && before[j] == x;
                            assert(after[j] == x);
                        }
                    }
                    assert(self@ =~= old(self)@.remove(id));
                },
                None => {
                    assert(old(self)@ =~= Set::<usize>::empty());
                },
            }
        }
        least
    }
}

} // verus!
