//! Structural queries on formulas: atoms, eliminable occurrences,
//! subformulas.

use crate::axioms::{has_key, lemma_inserted_sorted, Axioms};
use crate::logic::Logic;
use vstd::prelude::*;

verus! {

/// `acc` followed by `c`, unless `acc` already holds `c`.
pub open spec fn noted(acc: Seq<char>, c: char) -> Seq<char> {
    if acc.contains(c) {
        acc
    } else {
        acc.push(c)
    }
}

impl Logic {
    /// The labels of the atoms that occur in the formula.
    pub open spec fn atoms(self) -> Set<char>
        decreases self,
    {
        match self {
            Logic::Base(c) => set![c],
            Logic::Cont => Set::empty(),
            Logic::Not(p) => p.atoms(),
            Logic::And(l, r) => l.atoms().union(r.atoms()),
            Logic::Or(l, r) => l.atoms().union(r.atoms()),
            Logic::To(l, r) => l.atoms().union(r.atoms()),
        }
    }

    /// `acc` followed by the atoms of the formula that `acc` lacks, each once,
    /// in the order of their first occurrence from left to right.
    pub open spec fn atoms_after(self, acc: Seq<char>) -> Seq<char>
        decreases self,
    {
        match self {
            Logic::Base(c) => noted(acc, c),
            Logic::Cont => acc,
            Logic::Not(p) => p.atoms_after(acc),
            Logic::And(l, r) => r.atoms_after(l.atoms_after(acc)),
            Logic::Or(l, r) => r.atoms_after(l.atoms_after(acc)),
            Logic::To(l, r) => r.atoms_after(l.atoms_after(acc)),
        }
    }

    /// The atoms of the formula, each once, in the order of their first
    /// occurrence from left to right.
    pub open spec fn atom_list(self) -> Seq<char> {
        self.atoms_after(Seq::empty())
    }

    /// The occurrences of `refer` in the formula that a chain of eliminations
    /// can reach: see [`Logic::has`].
    pub open spec fn spec_has(self, refer: Logic) -> Seq<Logic>
        decreases self,
    {
        let head = if self == refer {
            seq![self]
        } else {
            Seq::empty()
        };
        let tail = match self {
            Logic::Base(_) => Seq::empty(),
            Logic::Cont => seq![Logic::Cont],
            Logic::Not(p) => if refer == *p {
                seq![self]
            } else {
                p.spec_has(refer)
            },
            Logic::And(l, r) => if refer == *l || refer == *r {
                seq![self]
            } else {
                l.spec_has(refer) + r.spec_has(refer)
            },
            Logic::Or(l, r) => if l.spec_has(refer).len() > 0 && r.spec_has(refer).len() > 0 {
                seq![self]
            } else {
                Seq::empty()
            },
            Logic::To(_, r) => if refer == *r {
                seq![self]
            } else {
                r.spec_has(refer)
            },
        };
        head + tail
    }

    /// The subformulas of the formula, the formula itself among them.
    pub open spec fn subformulas(self) -> Set<Logic>
        decreases self,
    {
        match self {
            Logic::Base(_) => set![self],
            Logic::Cont => set![self],
            Logic::Not(p) => p.subformulas().insert(self),
            Logic::And(l, r) => l.subformulas().union(r.subformulas()).insert(self),
            Logic::Or(l, r) => l.subformulas().union(r.subformulas()).insert(self),
            Logic::To(l, r) => l.subformulas().union(r.subformulas()).insert(self),
        }
    }

    /// Adds the subformulas of the formula to the sorted list `acc`.
    fn gather(&self, acc: Axioms) -> (r: Axioms)
        ensures
            forall|x: Logic| has_key(r@, x) <==> has_key(acc@, x) || self.subformulas().contains(x),
        decreases *self,
    {
        let acc = match acc.insert(self, 0) {
            Some(next) => {
                proof {
                    lemma_inserted_sorted(acc@, *self, 0);
                }
                next
            },
            None => acc,
        };
        match self {
            Logic::Base(_) => acc,
            Logic::Cont => acc,
            Logic::Not(p) => p.gather(acc),
            Logic::And(l, r) => r.gather(l.gather(acc)),
            Logic::Or(l, r) => r.gather(l.gather(acc)),
            Logic::To(l, r) => r.gather(l.gather(acc)),
        }
    }

    /// Lists the subformulas of the formula, each once, in the listing order:
    /// shallower formulas first, formulas of one height in structural order.
    pub fn children(&self) -> (r: Vec<Logic>)
        ensures
            forall|i: int, j: int|
                0 <= i < j < r@.len() ==> (#[trigger] r@[i]).spec_precedes(#[trigger] r@[j]),
            forall|x: Logic| r@.contains(x) <==> self.subformulas().contains(x),
    {
        let found = self.gather(Axioms::new());
        let n = found.len();
        let mut r: Vec<Logic> = Vec::new();
        let mut i: usize = 0;
        while i < n
            invariant
                i <= n,
                n == found@.len(),
                r@.len() == i,
                forall|j: int| 0 <= j < i ==> (#[trigger] r@[j]) == found@[j].0,
            decreases n - i,
        {
            r.push(found.logic(i).clone());
            i = i + 1;
        }
        proof {
            assert forall|x: Logic| r@.contains(x) <==> self.subformulas().contains(x) by {
                if r@.contains(x) {
                    let j = choose|j: int| 0 <= j < r@.len() && r@[j] == x;
                    assert(found@[j].0 == x);
                    assert(has_key(found@, x));
                }
                if has_key(found@, x) {
                    let j = choose|j: int| 0 <= j < found@.len() && (#[trigger] found@[j]).0 == x;
                    assert(r@[j] == x);
                }
                assert(!has_key(Seq::<(Logic, usize)>::empty(), x));
            }
            assert forall|i: int, j: int| 0 <= i < j < r@.len() implies (#[trigger] r@[i]).spec_precedes(
                #[trigger] r@[j],
            ) by {
                assert(found@[i].0.spec_precedes(found@[j].0));
            }
        }
        r
    }

    /// Appends to `acc` the atoms of the formula that it lacks.
    fn note_atoms(&self, acc: &mut Vec<char>)
        ensures
            final(acc)@ == self.atoms_after(old(acc)@),
        decreases *self,
    {
        match self {
            Logic::Base(c) => {
                let mut i: usize = 0;
                let mut found = false;
                while i < acc.len()
                    invariant
                        i <= acc.len(),
                        found == acc@.subrange(0, i as int).contains(*c),
                    decreases acc.len() - i,
                {
                    if acc[i] == *c {
                        found = true;
                    }
                    assert(acc@.subrange(0, i + 1) == acc@.subrange(0, i as int).push(acc@[i as int]));
                    assert forall|x: char|
                        acc@.subrange(0, i as int).push(acc@[i as int]).contains(x) == (
                        acc@.subrange(0, i as int).contains(x) || x == acc@[i as int]) by {
                        let s = acc@.subrange(0, i as int);
                        let t = s.push(acc@[i as int]);
                        if s.contains(x) {
                            let j = choose|j: int| 0 <= j < s.len() && s[j] == x;
                            assert(t[j] == x);
                        }
                        if x == acc@[i as int] {
                            assert(t[s.len() as int] == x);
                        }
                    }
                    i = i + 1;
                }
                assert(acc@.subrange(0, i as int) == acc@);
                if !found {
                    acc.push(*c);
                }
            },
            Logic::Cont => {},
            Logic::Not(p) => p.note_atoms(acc),
            Logic::And(l, r) => {
                l.note_atoms(acc);
                r.note_atoms(acc);
            },
            Logic::Or(l, r) => {
                l.note_atoms(acc);
                r.note_atoms(acc);
            },
            Logic::To(l, r) => {
                l.note_atoms(acc);
                r.note_atoms(acc);
            },
        }
    }

    /// Lists the atoms of the formula, each once, in the order of their first
    /// occurrence from left to right.
    pub fn base_set(&self) -> (r: Vec<char>)
        ensures
            r@ == self.atom_list(),
            r@.no_duplicates(),
            r@.to_set() == self.atoms(),
    {
        let mut acc: Vec<char> = Vec::new();
        self.note_atoms(&mut acc);
        proof {
            lemma_atoms_after(*self, Seq::empty());
            assert(Seq::<char>::empty().to_set() =~= Set::<char>::empty());
            assert(acc@.to_set() =~= self.atoms());
        }
        acc
    }

    /// Searches the formula for occurrences of `refer` that eliminations can
    /// reach: through the operand of a negation, either side of a
    /// conjunction, the right side of an implication, and through a
    /// disjunction only when both sides hold one. Each match is reported as
    /// the outermost subformula that witnesses it; falsity always reports
    /// itself.
    pub fn has<'a>(&'a self, refer: &Logic) -> (r: Vec<&'a Logic>)
        ensures
            r@.len() == self.spec_has(*refer).len(),
            forall|i: int| 0 <= i < r@.len() ==> *r@[i] == self.spec_has(*refer)[i],
        decreases *self,
    {
        let mut vec: Vec<&'a Logic> = Vec::new();
        if self.same(refer) {
            vec.push(self);
        }
        match self {
            Logic::Base(_) => {},
            Logic::Cont => vec.push(self),
            Logic::Not(p) => {
                if refer.same(p) {
                    vec.push(self);
                } else {
                    let mut inner = p.has(refer);
                    vec.append(&mut inner);
                }
            },
            Logic::And(l, r) => {
                if refer.same(l) || refer.same(r) {
                    vec.push(self);
                } else {
                    let mut left = l.has(refer);
                    let mut right = r.has(refer);
                    vec.append(&mut left);
                    vec.append(&mut right);
                }
            },
            Logic::Or(l, r) => {
                if l.has(refer).len() > 0 && r.has(refer).len() > 0 {
                    vec.push(self);
                }
            },
            Logic::To(_, r) => {
                if refer.same(r) {
                    vec.push(self);
                } else {
                    let mut inner = r.has(refer);
                    vec.append(&mut inner);
                }
            },
        }
        vec
    }
}

/// Listing the atoms that `acc` lacks keeps `acc` free of repetitions and adds
/// exactly the atoms of the formula.
pub(crate) proof fn lemma_atoms_after(f: Logic, acc: Seq<char>)
    requires
        acc.no_duplicates(),
    ensures
        f.atoms_after(acc).no_duplicates(),
        f.atoms_after(acc).to_set() =~= acc.to_set().union(f.atoms()),
    decreases f,
{
    match f {
        Logic::Base(c) => {
            if !acc.contains(c) {
                let t = acc.push(c);
                assert forall|x: char| t.contains(x) == (acc.contains(x) || x == c) by {
                    if acc.contains(x) {
                        let j = choose|j: int| 0 <= j < acc.len() && acc[j] == x;
                        assert(t[j] == x);
                    }
                    if x == c {
                        assert(t[acc.len() as int] == x);
                    }
                }
            }
        },
        Logic::Cont => {},
        Logic::Not(p) => lemma_atoms_after(*p, acc),
        Logic::And(l, r) => {
            lemma_atoms_after(*l, acc);
            lemma_atoms_after(*r, l.atoms_after(acc));
        },
        Logic::Or(l, r) => {
            lemma_atoms_after(*l, acc);
            lemma_atoms_after(*r, l.atoms_after(acc));
        },
        Logic::To(l, r) => {
            lemma_atoms_after(*l, acc);
            lemma_atoms_after(*r, l.atoms_after(acc));
        },
    }
}

/// Every formula that the search for an occurrence reports is a subformula of
/// the formula that was searched.
pub proof fn lemma_has_subformulas(f: Logic, refer: Logic)
    ensures
        forall|i: int|
            0 <= i < f.spec_has(refer).len() ==> f.subformulas().contains(
                #[trigger] f.spec_has(refer)[i],
            ),
    decreases f,
{
    let found = f.spec_has(refer);
    let head = if f == refer {
        seq![f]
    } else {
        Seq::empty()
    };
    assert(f.subformulas().contains(f));
    match f {
        Logic::Base(_) => {
            assert(found =~= head);
        },
        Logic::Cont => {
            assert(found =~= head + seq![f]);
        },
        Logic::Not(p) => {
            lemma_has_subformulas(*p, refer);
            let tail = if refer == *p {
                seq![f]
            } else {
                p.spec_has(refer)
            };
            assert(found =~= head + tail);
            assert forall|i: int| 0 <= i < found.len() implies f.subformulas().contains(
                #[trigger] found[i],
            ) by {
                if i >= head.len() && refer != *p {
                    assert(found[i] == p.spec_has(refer)[i - head.len()]);
                }
            }
        },
        Logic::And(l, r) => {
            lemma_has_subformulas(*l, refer);
            lemma_has_subformulas(*r, refer);
            let a = l.spec_has(refer);
            let b = r.spec_has(refer);
            let tail = if refer == *l || refer == *r {
                seq![f]
            } else {
                a + b
            };
            assert(found =~= head + tail);
            assert forall|i: int| 0 <= i < found.len() implies f.subformulas().contains(
                #[trigger] found[i],
            ) by {
                if i >= head.len() && !(refer == *l || refer == *r) {
                    let j = i - head.len();
                    if j < a.len() {
                        assert(found[i] == a[j]);
                    } else {
                        assert(found[i] == b[j - a.len()]);
                    }
                }
            }
        },
        Logic::Or(l, r) => {
            let tail = if l.spec_has(refer).len() > 0 && r.spec_has(refer).len() > 0 {
                seq![f]
            } else {
                Seq::empty()
            };
            assert(found =~= head + tail);
        },
        Logic::To(_, r) => {
            lemma_has_subformulas(*r, refer);
            let tail = if refer == *r {
                seq![f]
            } else {
                r.spec_has(refer)
            };
            assert(found =~= head + tail);
            assert forall|i: int| 0 <= i < found.len() implies f.subformulas().contains(
                #[trigger] found[i],
            ) by {
                if i >= head.len() && refer != *r {
                    assert(found[i] == r.spec_has(refer)[i - head.len()]);
                }
            }
        },
    }
}

} // verus!
