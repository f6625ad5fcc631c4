//! Classical truth, partial evaluation and the classical validity check.

use crate::logic::Logic;
use crate::query::lemma_atoms_after;
use crate::valuation::{bindings, Valuation};
use vstd::prelude::*;
use vstd::string::StringExecFns;

verus! {

/// The truth value of the atom `c` under `v`; an atom that `v` leaves
/// unbound counts as false.
pub open spec fn truth(v: Map<char, bool>, c: char) -> bool {
    v.contains_key(c) && v[c]
}

/// `v` gives every atom that `w` binds the truth value that `w` binds it to.
pub open spec fn agrees(v: Map<char, bool>, w: Map<char, bool>) -> bool {
    forall|c: char| w.contains_key(c) ==> truth(v, c) == #[trigger] w[c]
}

/// Why a formula is not classically valid.
#[derive(Debug)]
pub enum CheckError {
    /// The formula, and a partial assignment under which it is false however
    /// the remaining atoms are chosen.
    TurnsOutFalse(Logic, Valuation),
}

/// One binding in words: the label between quotes, a colon, and the truth
/// value.
pub open spec fn binding_text(e: (char, bool)) -> Seq<char> {
    seq!['\'', e.0, '\''] + (if e.1 {
        ": true"@
    } else {
        ": false"@
    })
}

/// The bindings in words, in their order, with a comma and a blank between
/// two of them.
pub open spec fn bindings_text(s: Seq<(char, bool)>) -> Seq<char>
    decreases s.len(),
{
    if s.len() == 0 {
        Seq::empty()
    } else if s.len() == 1 {
        binding_text(s[0])
    } else {
        bindings_text(s.drop_last()) + ", "@ + binding_text(s.last())
    }
}

impl CheckError {
    /// The failure in words: the formula in the console form, and the
    /// bindings under which it is false.
    pub open spec fn message(self) -> Seq<char> {
        match self {
            CheckError::TurnsOutFalse(logic, val) => logic.spec_text()
                + " turns out false when: {"@ + bindings_text(val.bound()) + "}"@,
        }
    }

    /// The failure in words.
    pub fn to_string(&self) -> (r: String)
        ensures
            r@ == self.message(),
    {
        match self {
            CheckError::TurnsOutFalse(logic, val) => {
                let mut out = logic.to_string();
                out.append(" turns out false when: {");
                let ghost head = out@;
                let entries = val.entries();
                let mut i: usize = 0;
                while i < entries.len()
                    invariant
                        i <= entries.len(),
                        out@ == head + bindings_text(entries@.subrange(0, i as int)),
                    decreases entries.len() - i,
                {
                    let ghost before = entries@.subrange(0, i as int);
                    let ghost e = entries@[i as int];
                    assert(entries@.subrange(0, i + 1).drop_last() == before);
                    if i > 0 {
                        out.append(", ");
                    }
                    out.push('\'');
                    out.push(entries[i].0);
                    out.push('\'');
                    if entries[i].1 {
                        out.append(": true");
                    } else {
                        out.append(": false");
                    }
                    assert(out@ =~= head + bindings_text(entries@.subrange(0, i + 1))) by {
                        if i > 0 {
                            assert(out@ =~= head + (bindings_text(before) + ", "@ + binding_text(
                                e,
                            )));
                        } else {
                            assert(bindings_text(before) =~= Seq::<char>::empty());
                            assert(out@ =~= head + binding_text(e));
                        }
                    }
                    i = i + 1;
                }
                assert(entries@.subrange(0, i as int) == entries@);
                out.append("}");
                assert(out@ =~= self.message());
                out
            },
        }
    }
}

impl Logic {
    /// Classical truth of the formula under the assignment `v`.
    pub open spec fn holds(self, v: Map<char, bool>) -> bool
        decreases self,
    {
        match self {
            Logic::Base(c) => truth(v, c),
            Logic::Cont => false,
            Logic::Not(p) => !p.holds(v),
            Logic::And(l, r) => l.holds(v) && r.holds(v),
            Logic::Or(l, r) => l.holds(v) || r.holds(v),
            Logic::To(l, r) => l.holds(v) ==> r.holds(v),
        }
    }

    /// The formula is true under every assignment.
    pub open spec fn valid(self) -> bool {
        forall|v: Map<char, bool>| self.holds(v)
    }

    /// Whether falsity occurs nowhere in the formula.
    pub open spec fn cont_free(self) -> bool
        decreases self,
    {
        match self {
            Logic::Base(_) => true,
            Logic::Cont => false,
            Logic::Not(p) => p.cont_free(),
            Logic::And(l, r) => l.cont_free() && r.cont_free(),
            Logic::Or(l, r) => l.cont_free() && r.cont_free(),
            Logic::To(l, r) => l.cont_free() && r.cont_free(),
        }
    }

    /// Partial evaluation under `v`: `None` where the formula is true however
    /// the unbound atoms are chosen, `Some(Cont)` where it is false however
    /// they are chosen, and otherwise the simplified formula that remains.
    pub open spec fn spec_eval_part(self, v: Map<char, bool>) -> Option<Logic>
        decreases self,
    {
        match self {
            Logic::Base(c) => if v.contains_key(c) {
                if v[c] {
                    None
                } else {
                    Some(Logic::Cont)
                }
            } else {
                Some(Logic::Base(c))
            },
            Logic::Cont => Some(Logic::Cont),
            Logic::Not(p) => match p.spec_eval_part(v) {
                None => Some(Logic::Cont),
                Some(g) => if g is Cont {
                    None
                } else {
                    Some(Logic::Not(Box::new(g)))
                },
            },
            Logic::And(l, r) => {
                let a = l.spec_eval_part(v);
                let b = r.spec_eval_part(v);
                if a == Some(Logic::Cont) || b == Some(Logic::Cont) {
                    Some(Logic::Cont)
                } else if a is None {
                    b
                } else if b is None {
                    a
                } else {
                    Some(Logic::And(Box::new(a->0), Box::new(b->0)))
                }
            },
            Logic::Or(l, r) => {
                let a = l.spec_eval_part(v);
                let b = r.spec_eval_part(v);
                if a is None || b is None {
                    None
                } else if a == Some(Logic::Cont) {
                    b
                } else if b == Some(Logic::Cont) {
                    a
                } else {
                    Some(Logic::Or(Box::new(a->0), Box::new(b->0)))
                }
            },
            Logic::To(l, r) => {
                let a = l.spec_eval_part(v);
                let b = r.spec_eval_part(v);
                if a == Some(Logic::Cont) || b is None {
                    None
                } else if a is None {
                    b
                } else if b == Some(Logic::Cont) {
                    Some(Logic::Not(Box::new(a->0)))
                } else {
                    Some(Logic::To(Box::new(a->0), Box::new(b->0)))
                }
            },
        }
    }

    /// The outcome of binding the atom `c` to `b` and searching on: `None`
    /// where no assignment with that binding makes the formula false, else
    /// the assignment that the search finds.
    pub open spec fn branch(self, c: char, b: bool) -> Option<Seq<(char, bool)>>
        decreases self.atoms().len(), 0nat,
    {
        let one = Map::<char, bool>::empty().insert(c, b);
        match self.spec_eval_part(one) {
            None => None,
            Some(g) => if g is Cont {
                Some(seq![(c, b)])
            } else if g.atoms().len() < self.atoms().len() {
                match g.falsifier() {
                    None => None,
                    Some(w) => Some(w.push((c, b))),
                }
            } else {
                None
            },
        }
    }

    /// The bindings that the validity check reports: `None` where the
    /// formula is classically valid. The check binds the leftmost atom of
    /// the formula, first to true and then to false, and goes on with what
    /// partial evaluation leaves of the formula. The binding made last is
    /// listed first.
    pub open spec fn falsifier(self) -> Option<Seq<(char, bool)>>
        decreases self.atoms().len(), 1nat,
    {
        if self.atom_list().len() == 0 {
            match self.spec_eval_part(Map::empty()) {
                None => None,
                Some(_) => Some(Seq::empty()),
            }
        } else {
            let c = self.atom_list()[0];
            match self.branch(c, true) {
                Some(w) => Some(w),
                None => self.branch(c, false),
            }
        }
    }

    /// Evaluates the formula as far as the assignment `map` decides it.
    pub fn eval_part(&self, map: &Valuation) -> (r: Option<Logic>)
        ensures
            r == self.spec_eval_part(map@),
        decreases *self,
    {
        match self {
            Logic::Base(c) => match map.get(*c) {
                Some(b) => {
                    if b {
                        None
                    } else {
                        Some(Logic::Cont)
                    }
                },
                None => Some(Logic::Base(*c)),
            },
            Logic::Cont => Some(Logic::Cont),
            Logic::Not(p) => match p.eval_part(map) {
                Some(Logic::Cont) => None,
                Some(g) => Some(Logic::Not(Box::new(g))),
                None => Some(Logic::Cont),
            },
            Logic::And(l, r) => match (l.eval_part(map), r.eval_part(map)) {
                (Some(Logic::Cont), _) => Some(Logic::Cont),
                (_, Some(Logic::Cont)) => Some(Logic::Cont),
                (None, right) => right,
                (left, None) => left,
                (Some(left), Some(right)) => Some(Logic::And(Box::new(left), Box::new(right))),
            },
            Logic::Or(l, r) => match (l.eval_part(map), r.eval_part(map)) {
                (None, _) => None,
                (_, None) => None,
                (Some(Logic::Cont), right) => right,
                (left, Some(Logic::Cont)) => left,
                (Some(left), Some(right)) => Some(Logic::Or(Box::new(left), Box::new(right))),
            },
            Logic::To(l, r) => match (l.eval_part(map), r.eval_part(map)) {
                (Some(Logic::Cont), _) => None,
                (_, None) => None,
                (None, right) => right,
                (Some(left), Some(Logic::Cont)) => Some(Logic::Not(Box::new(left))),
                (Some(left), Some(right)) => Some(Logic::To(Box::new(left), Box::new(right))),
            },
        }
    }

    /// Binds the atom `c` to `b` and searches on for an assignment that makes
    /// the formula false.
    fn check_branch(&self, c: char, b: bool) -> (r: Option<Valuation>)
        requires
            self.atoms().contains(c),
        ensures
            match self.branch(c, b) {
                None => r is None,
                Some(w) => r matches Some(val) && val.bound() == w,
            },
        decreases self.atoms().len(), 0nat,
    {
        let mut map = Valuation::new();
        map.insert(c, b);
        proof {
            lemma_residual_shrinks(*self, c, b);
        }
        match self.eval_part(&map) {
            None => None,
            Some(Logic::Cont) => Some(map),
            Some(g) => match g.check_all() {
                Ok(()) => None,
                Err(CheckError::TurnsOutFalse(_, mut w)) => {
                    w.insert(c, b);
                    Some(w)
                },
            },
        }
    }

    /// Decides whether the formula is classically valid. A formula that is
    /// not comes back with a partial assignment under which it is false
    /// however the remaining atoms are chosen.
    pub fn check_all(&self) -> (r: Result<(), CheckError>)
        ensures
            r is Ok <==> self.valid(),
            match self.falsifier() {
                None => r is Ok,
                Some(w) => r matches Err(CheckError::TurnsOutFalse(g, val)) && g == *self
                    && val.bound() == w,
            },
            r matches Err(CheckError::TurnsOutFalse(_, val)) ==> val@.dom().subset_of(
                self.atoms(),
            ) && forall|v: Map<char, bool>| agrees(v, val@) ==> !self.holds(v),
        decreases self.atoms().len(), 1nat,
    {
        proof {
            lemma_falsifier(*self);
            lemma_atoms_finite(*self);
        }
        let atoms = self.base_set();
        if atoms.len() == 0 {
            let map = Valuation::new();
            match self.eval_part(&map) {
                None => Ok(()),
                Some(_) => Err(CheckError::TurnsOutFalse(self.clone(), map)),
            }
        } else {
            let c = atoms[0];
            match self.check_branch(c, true) {
                Some(w) => Err(CheckError::TurnsOutFalse(self.clone(), w)),
                None => match self.check_branch(c, false) {
                    Some(w) => Err(CheckError::TurnsOutFalse(self.clone(), w)),
                    None => Ok(()),
                },
            }
        }
    }
}

/// What partial evaluation leaves is falsity or holds no falsity, and its
/// atoms are atoms of the formula that the assignment leaves unbound.
pub proof fn lemma_eval_part_residual(f: Logic, v: Map<char, bool>)
    ensures
        f.spec_eval_part(v) matches Some(g) ==> (g is Cont || g.cont_free()) && g.atoms().subset_of(
            f.atoms().difference(v.dom()),
        ),
    decreases f,
{
    match f {
        Logic::Base(_) => {},
        Logic::Cont => {},
        Logic::Not(p) => lemma_eval_part_residual(*p, v),
        Logic::And(l, r) => {
            lemma_eval_part_residual(*l, v);
            lemma_eval_part_residual(*r, v);
        },
        Logic::Or(l, r) => {
            lemma_eval_part_residual(*l, v);
            lemma_eval_part_residual(*r, v);
        },
        Logic::To(l, r) => {
            lemma_eval_part_residual(*l, v);
            lemma_eval_part_residual(*r, v);
        },
    }
}

/// Partial evaluation is sound: under every assignment that agrees with the
/// partial one, `None` means true, and what remains has the truth value of
/// the formula.
pub proof fn lemma_eval_part_sound(f: Logic, v: Map<char, bool>, w: Map<char, bool>)
    requires
        agrees(w, v),
    ensures
        match f.spec_eval_part(v) {
            None => f.holds(w),
            Some(g) => g.holds(w) == f.holds(w),
        },
    decreases f,
{
    match f {
        Logic::Base(c) => {
            if v.contains_key(c) {
                assert(truth(w, c) == v[c]);
            }
        },
        Logic::Cont => {},
        Logic::Not(p) => lemma_eval_part_sound(*p, v, w),
        Logic::And(l, r) => {
            lemma_eval_part_sound(*l, v, w);
            lemma_eval_part_sound(*r, v, w);
        },
        Logic::Or(l, r) => {
            lemma_eval_part_sound(*l, v, w);
            lemma_eval_part_sound(*r, v, w);
        },
        Logic::To(l, r) => {
            lemma_eval_part_sound(*l, v, w);
            lemma_eval_part_sound(*r, v, w);
        },
    }
}

/// The atoms of a formula are finitely many, and as many as its list of atoms
/// is long.
pub(crate) proof fn lemma_atoms_finite(f: Logic)
    ensures
        f.atoms().finite(),
        f.atoms().len() == f.atom_list().len(),
        f.atom_list().len() > 0 ==> f.atoms().contains(f.atom_list()[0]),
        f.cont_free() ==> f.atom_list().len() > 0,
{
    lemma_atoms_after(f, Seq::empty());
    assert(Seq::<char>::empty().to_set() =~= Set::<char>::empty());
    assert(f.atom_list().to_set() =~= f.atoms());
    f.atom_list().unique_seq_to_set();
    vstd::seq_lib::seq_to_set_is_finite(f.atom_list());
    if f.atom_list().len() > 0 {
        assert(f.atom_list().contains(f.atom_list()[0]));
    }
    if f.cont_free() {
        let c = lemma_cont_free_has_atom(f);
        assert(f.atom_list().to_set().contains(c));
        assert(f.atom_list().contains(c));
    }
}

/// A formula without falsity holds an atom: the result is one.
pub(crate) proof fn lemma_cont_free_has_atom(f: Logic) -> (c: char)
    requires
        f.cont_free(),
    ensures
        f.atoms().contains(c),
    decreases f,
{
    match f {
        Logic::Base(c) => c,
        Logic::Cont => 'A',
        Logic::Not(p) => lemma_cont_free_has_atom(*p),
        Logic::And(l, r) => lemma_cont_free_has_atom(*l),
        Logic::Or(l, r) => lemma_cont_free_has_atom(*l),
        Logic::To(l, r) => lemma_cont_free_has_atom(*l),
    }
}

/// Binding an atom of the formula leaves a formula with fewer atoms.
pub(crate) proof fn lemma_residual_shrinks(f: Logic, c: char, b: bool)
    requires
        f.atoms().contains(c),
    ensures
        f.spec_eval_part(Map::<char, bool>::empty().insert(c, b)) matches Some(g) ==> g.atoms().len()
            < f.atoms().len(),
{
    let one = Map::<char, bool>::empty().insert(c, b);
    lemma_eval_part_residual(f, one);
    lemma_atoms_finite(f);
    if let Some(g) = f.spec_eval_part(one) {
        lemma_atoms_finite(g);
        assert(one.dom().contains(c));
        assert(g.atoms().subset_of(f.atoms().remove(c)));
        vstd::set_lib::lemma_len_subset(g.atoms(), f.atoms().remove(c));
    }
}


/// What the search below one binding finds: without a result, the formula is
/// true under every assignment that gives `c` the value `b`; a result binds
/// atoms of the formula only, and the formula is false under every
/// assignment that agrees with it.
pub(crate) proof fn lemma_branch(f: Logic, c: char, b: bool)
    requires
        f.atoms().contains(c),
    ensures
        f.branch(c, b) is None ==> forall|v: Map<char, bool>| truth(v, c) == b ==> f.holds(v),
        f.branch(c, b) matches Some(w) ==> bindings(w).dom().subset_of(f.atoms()) && forall|
            v: Map<char, bool>,
        | agrees(v, bindings(w)) ==> !f.holds(v),
    decreases f.atoms().len(), 0nat,
{
    let one = Map::<char, bool>::empty().insert(c, b);
    lemma_residual_shrinks(f, c, b);
    lemma_eval_part_residual(f, one);
    assert forall|v: Map<char, bool>| truth(v, c) == b implies agrees(v, one) by {}
    match f.spec_eval_part(one) {
        None => {
            assert forall|v: Map<char, bool>| truth(v, c) == b implies f.holds(v) by {
                lemma_eval_part_sound(f, one, v);
            }
        },
        Some(g) => {
            if g is Cont {
                assert(seq![(c, b)].drop_last() =~= Seq::<(char, bool)>::empty());
                assert(bindings(seq![(c, b)]) == one) by {
                    reveal_with_fuel(bindings, 2);
                }
                assert(one.dom() =~= set![c]);
                assert forall|v: Map<char, bool>| agrees(v, one) implies !f.holds(v) by {
                    lemma_eval_part_sound(f, one, v);
                }
            } else {
                lemma_falsifier(g);
                match g.falsifier() {
                    None => {
                        assert forall|v: Map<char, bool>| truth(v, c) == b implies f.holds(v) by {
                            lemma_eval_part_sound(f, one, v);
                            assert(g.holds(v));
                        }
                    },
                    Some(s0) => {
                        let w0 = bindings(s0);
                        assert(s0.push((c, b)).drop_last() == s0);
                        let w = w0.insert(c, b);
                        assert(bindings(s0.push((c, b))) == w);
                        assert(one.dom().contains(c));
                        assert(!g.atoms().contains(c));
                        assert(!w0.dom().contains(c));
                        assert(w.dom() =~= w0.dom().insert(c));
                        assert forall|v: Map<char, bool>| agrees(v, w) implies !f.holds(v) by {
                            assert(w.contains_key(c));
                            assert(truth(v, c) == w[c]);
                            assert forall|d: char| w0.contains_key(d) implies truth(v, d)
                                == #[trigger] w0[d] by {
                                assert(w.contains_key(d));
                                assert(w[d] == w0[d]);
                            }
                            assert(agrees(v, w0));
                            lemma_eval_part_sound(f, one, v);
                        }
                    },
                }
            }
        },
    }
}

/// The validity check is right: it reports no assignment exactly where the
/// formula is classically valid, and an assignment that it reports binds
/// atoms of the formula only and makes the formula false, however the atoms
/// that it leaves unbound are chosen.
pub proof fn lemma_falsifier(f: Logic)
    ensures
        f.falsifier() is None <==> f.valid(),
        f.falsifier() matches Some(w) ==> bindings(w).dom().subset_of(f.atoms()) && forall|
            v: Map<char, bool>,
        | agrees(v, bindings(w)) ==> !f.holds(v),
    decreases f.atoms().len(), 1nat,
{
    lemma_atoms_finite(f);
    let none = Map::<char, bool>::empty();
    if f.atom_list().len() == 0 {
        lemma_eval_part_residual(f, none);
        assert(f.atoms() =~= Set::<char>::empty()) by {
            if f.atoms().len() != 0 {
            }
        }
        match f.spec_eval_part(none) {
            None => {
                assert forall|v: Map<char, bool>| f.holds(v) by {
                    lemma_eval_part_sound(f, none, v);
                }
            },
            Some(g) => {
                if g.cont_free() {
                    let c = lemma_cont_free_has_atom(g);
                    assert(f.atoms().contains(c));
                }
                assert(g is Cont);
                assert(bindings(Seq::empty()) == none);
                assert forall|v: Map<char, bool>| agrees(v, none) implies !f.holds(v) by {
                    lemma_eval_part_sound(f, none, v);
                }
                assert(agrees(none, none));
                assert(!f.holds(none));
            },
        }
    } else {
        let c = f.atom_list()[0];
        lemma_branch(f, c, true);
        lemma_branch(f, c, false);
        match f.branch(c, true) {
            Some(w) => {
                assert(agrees(bindings(w), bindings(w)));
                assert(!f.holds(bindings(w)));
            },
            None => {
                match f.branch(c, false) {
                    Some(w) => {
                        assert(agrees(bindings(w), bindings(w)));
                        assert(!f.holds(bindings(w)));
                    },
                    None => {
                        assert forall|v: Map<char, bool>| f.holds(v) by {
                            if truth(v, c) {
                            } else {
                            }
                        }
                    },
                }
            },
        }
    }
}

} // verus!
