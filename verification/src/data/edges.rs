//! The set of connections that leave one node.

use vstd::prelude::*;

use crate::data::Connection;

verus! {

/// A set of connections, kept as a list in which nothing occurs twice.
pub struct ConnectionSet {
    items: Vec<Connection>,
}

impl View for ConnectionSet {
    type V = Set<Connection>;

    closed spec fn view(&self) -> Set<Connection> {
        self.items@.to_set()
    }
}

impl ConnectionSet {
    /// Nothing occurs twice.
    pub closed spec fn wf(&self) -> bool {
        self.items@.no_duplicates()
    }

    /// The empty set.
    pub fn new() -> (s: Self)
        ensures
            s.wf(),
            s@ == Set::<Connection>::empty(),
    {
        let s = ConnectionSet { items: Vec::new() };
        assert(s.items@.to_set() =~= Set::<Connection>::empty());
        s
    }

    /// The place of `conn` in the list, if it is there.
    fn position(&self, conn: Connection) -> (at: Option<usize>)
        ensures
            match at {
                Some(i) => i < self.items@.len() && self.items@[i as int] == conn,
                None => !self.items@.contains(conn),
            },
    {
        let mut i: usize = 0;
        while i < self.items.len()
            invariant
                i <= self.items@.len(),
                forall|j: int| 0 <= j < i ==> self.items@[j] != conn,
            decreases self.items@.len() - i,
        {
            if self.items[i] == conn {
                return Some(i);
            }
            i = i + 1;
        }
        None
    }

    /// Adds `conn` and says whether it was new.
    pub fn insert(&mut self, conn: Connection) -> (fresh: bool)
        requires
            old(self).wf(),
        ensures
            final(self).wf(),
            final(self)@ == old(self)@.insert(conn),
            fresh == !old(self)@.contains(conn),
    {
        match self.position(conn) {
            Some(_) => {
                assert(self@ =~= self@.insert(conn));
                false
            },
            None => {
                self.items.push(conn);
                proof {
                    let before = old(self).items@;
                    assert(self.items@ == before.push(conn));
                    assert forall|c: Connection|
                        self.items@.contains(c) <==> (before.contains(c) || c == conn) by {
                        if before.contains(c) {
                            let i = choose|i: int| 0 <= i < before.len() && before[i] == c;
                            assert(self.items@[i] == c);
                        }
                        if c == conn {
                            assert(self.items@[before.len() as int] == c);
                        }
                    }
                    assert(self@ =~= old(self)@.insert(conn));
                }
                true
            },
        }
    }

    /// Takes `conn` out and says whether it was there.
    pub fn remove(&mut self, conn: Connection) -> (found: bool)
        requires
            old(self).wf(),
        ensures
            final(self).wf(),
            final(self)@ == old(self)@.remove(conn),
            found == old(self)@.contains(conn),
    {
        match self.position(conn) {
            Some(i) => {
                self.items.remove(i);
                proof {
                    let before = old(self).items@;
                    assert(self.items@ == before.remove(i as int));
                    assert forall|c: Connection|
                        self.items@.contains(c) <==> (before.contains(c) && c != conn) by {
                        if self.items@.contains(c) {
                            let j = choose|j: int|
                                0 <= j < self.items@.len() && self.items@[j] == c;
                            if j < i {
                                assert(before[j] == c);
                            } else {
                                assert(before[j + 1] == c);
                            }
                        }
                        if before.contains(c) && c != conn {
                            let j = choose|j: int| 0 <= j < before.len() && before[j] == c;
                            if j < i {
                                assert(self.items@[j] == c);
                            } else {
                                assert(self.items@[j - 1] == c);
                            }
                        }
                    }
                    assert(self@ =~= old(self)@.remove(conn));
                }
                true
            },
            None => {
                assert(self@ =~= self@.remove(conn));
                false
            },
        }
    }

    /// The connections as a list without repeats.
    pub fn to_vec(&self) -> (v: Vec<Connection>)
        requires
            self.wf(),
        ensures
            v@.no_duplicates(),
            v@.to_set() == self@,
    {
        let mut v: Vec<Connection> = Vec::new();
        let mut i: usize = 0;
        while i < self.items.len()
            invariant
                i <= self.items@.len(),
                v@ == self.items@.take(i as int),
            decreases self.items@.len() - i,
        {
            v.push(self.items[i]);
            proof {
                assert(self.items@.take(i + 1) == self.items@.take(i as int).push(
                    self.items@[i as int],
                ));
            }
            i = i + 1;
        }
        proof {
            assert(self.items@.take(self.items@.len() as int) == self.items@);
        }
        v
    }
}

} // verus!
