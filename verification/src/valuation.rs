//! Partial truth assignments.

use vstd::prelude::*;

verus! {

/// The assignment that a list of bindings denotes: a later binding of a label
/// replaces an earlier one.
pub open spec fn bindings(s: Seq<(char, bool)>) -> Map<char, bool>
    decreases s.len(),
{
    if s.len() == 0 {
        Map::empty()
    } else {
        bindings(s.drop_last()).insert(s.last().0, s.last().1)
    }
}

/// A partial truth assignment: a finite map from atom labels to truth values.
#[derive(Debug)]
pub struct Valuation {
    entries: Vec<(char, bool)>,
}

impl View for Valuation {
    type V = Map<char, bool>;

    open spec fn view(&self) -> Map<char, bool> {
        bindings(self.bound())
    }
}

impl Clone for Valuation {
    fn clone(&self) -> (r: Self)
        ensures
            r.bound() == self.bound(),
            r@ == self@,
    {
        Valuation { entries: self.entries() }
    }
}

impl Valuation {
    /// The bindings in the order in which they were made.
    pub closed spec fn bound(&self) -> Seq<(char, bool)> {
        self.entries@
    }

    /// The assignment that binds nothing.
    pub fn new() -> (r: Self)
        ensures
            r.bound() == Seq::<(char, bool)>::empty(),
            r@ == Map::<char, bool>::empty(),
    {
        Valuation { entries: Vec::new() }
    }

    /// Binds `c` to `b`, replacing an earlier binding of `c`.
    pub fn insert(&mut self, c: char, b: bool)
        ensures
            final(self).bound() == old(self).bound().push((c, b)),
            final(self)@ == old(self)@.insert(c, b),
    {
        self.entries.push((c, b));
        assert(self.entries@.drop_last() == old(self).entries@);
    }

    /// The truth value bound to `c`, if there is one.
    pub fn get(&self, c: char) -> (r: Option<bool>)
        ensures
            r == (if self@.contains_key(c) {
                Some(self@[c])
            } else {
                None
            }),
    {
        let mut i: usize = self.entries.len();
        assert(self.entries@.subrange(0, i as int) == self.entries@);
        while i > 0
            invariant
                i <= self.entries.len(),
                self@.contains_key(c) == bindings(self.entries@.subrange(0, i as int)).contains_key(
                    c,
                ),
                self@.contains_key(c) ==> self@[c] == bindings(
                    self.entries@.subrange(0, i as int),
                )[c],
            decreases i,
        {
            proof {
                assert(self.entries@.subrange(0, i as int).drop_last()
                    == self.entries@.subrange(0, i - 1));
            }
            i = i - 1;
            if self.entries[i].0 == c {
                return Some(self.entries[i].1);
            }
        }
        None
    }

    /// The bindings in the order in which they were made. Where a label
    /// occurs twice, the later binding counts.
    pub fn entries(&self) -> (r: Vec<(char, bool)>)
        ensures
            r@ == self.bound(),
    {
        let mut r: Vec<(char, bool)> = Vec::new();
        let mut i: usize = 0;
        while i < self.entries.len()
            invariant
                i <= self.entries.len(),
                r@ == self.entries@.subrange(0, i as int),
            decreases self.entries.len() - i,
        {
            r.push((self.entries[i].0, self.entries[i].1));
            i = i + 1;
        }
        assert(r@ == self.entries@);
        r
    }
}

} // verus!
