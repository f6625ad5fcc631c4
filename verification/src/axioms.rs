//! The assumptions that are available at a point of a proof.

use crate::logic::{lemma_precedes_irreflexive, lemma_precedes_total, lemma_precedes_transitive, Logic};
use vstd::prelude::*;

verus! {

/// Whether the formulas of `s` stand in the listing order, each before the
/// next. No formula then occurs twice.
pub open spec fn sorted(s: Seq<(Logic, usize)>) -> bool {
    forall|i: int, j: int| 0 <= i < j < s.len() ==> (#[trigger] s[i]).0.spec_precedes(
        (#[trigger] s[j]).0,
    )
}

/// Whether `k` is assumed in `s`.
pub open spec fn has_key(s: Seq<(Logic, usize)>, k: Logic) -> bool {
    exists|i: int| 0 <= i < s.len() && (#[trigger] s[i]).0 == k
}

/// The number of leading entries of `s` whose formula is listed before `k`:
/// the place of `k` in `s`.
pub open spec fn slot(s: Seq<(Logic, usize)>, k: Logic) -> int
    decreases s.len(),
{
    if s.len() > 0 && s[0].0.spec_precedes(k) {
        1 + slot(s.drop_first(), k)
    } else {
        0
    }
}

/// `s` with the assumption `k`, marked `m`, at its place.
pub open spec fn inserted(s: Seq<(Logic, usize)>, k: Logic, m: usize) -> Seq<(Logic, usize)> {
    s.insert(slot(s, k), (k, m))
}

/// The place of `k` is `i` where the entries before `i` are listed before
/// `k` and the entry at `i`, if there is one, is not.
pub(crate) proof fn lemma_slot(s: Seq<(Logic, usize)>, k: Logic, i: int)
    requires
        0 <= i <= s.len(),
        forall|j: int| 0 <= j < i ==> (#[trigger] s[j]).0.spec_precedes(k),
        i < s.len() ==> !s[i].0.spec_precedes(k),
    ensures
        slot(s, k) == i,
    decreases s.len(),
{
    if i > 0 {
        let t = s.drop_first();
        assert forall|j: int| 0 <= j < i - 1 implies (#[trigger] t[j]).0.spec_precedes(k) by {
            assert(t[j] == s[j + 1]);
        }
        if i - 1 < t.len() {
            assert(t[i - 1] == s[i]);
        }
        assert(s[0].0.spec_precedes(k));
        lemma_slot(t, k, i - 1);
    }
}

/// The place of `k` lies within `s`, the entries before it are listed
/// before `k`, and the entry at it is not.
pub(crate) proof fn lemma_slot_bounds(s: Seq<(Logic, usize)>, k: Logic)
    ensures
        0 <= slot(s, k) <= s.len(),
        forall|j: int| 0 <= j < slot(s, k) ==> (#[trigger] s[j]).0.spec_precedes(k),
        slot(s, k) < s.len() ==> !s[slot(s, k)].0.spec_precedes(k),
    decreases s.len(),
{
    if s.len() > 0 && s[0].0.spec_precedes(k) {
        let t = s.drop_first();
        lemma_slot_bounds(t, k);
        assert forall|j: int| 0 <= j < slot(s, k) implies (#[trigger] s[j]).0.spec_precedes(
            k,
        ) by {
            if j > 0 {
                assert(t[j - 1] == s[j]);
            }
        }
        if slot(s, k) < s.len() {
            assert(t[slot(t, k)] == s[slot(s, k)]);
        }
    }
}

/// In a sorted list an assumed formula stands at its place.
pub(crate) proof fn lemma_slot_finds(s: Seq<(Logic, usize)>, k: Logic)
    requires
        sorted(s),
    ensures
        has_key(s, k) <==> slot(s, k) < s.len() && s[slot(s, k)].0 == k,
{
    lemma_slot_bounds(s, k);
    let p = slot(s, k);
    if has_key(s, k) {
        let i = choose|i: int| 0 <= i < s.len() && (#[trigger] s[i]).0 == k;
        lemma_precedes_irreflexive(k);
        if i < p {
            assert(s[i].0.spec_precedes(k));
        } else if i > p {
            assert(s[p].0.spec_precedes(s[i].0));
        }
    }
}

/// A sorted list stays sorted when a formula that it lacks is put at its
/// place.
pub proof fn lemma_inserted_sorted(s: Seq<(Logic, usize)>, k: Logic, m: usize)
    requires
        sorted(s),
        !has_key(s, k),
    ensures
        sorted(inserted(s, k, m)),
        has_key(inserted(s, k, m), k),
        inserted(s, k, m).len() == s.len() + 1,
        forall|x: Logic| has_key(inserted(s, k, m), x) <==> x == k || has_key(s, x),
{
    lemma_slot_bounds(s, k);
    let p = slot(s, k);
    let t = inserted(s, k, m);
    assert(t[p] == (k, m));
    assert forall|i: int, j: int| 0 <= i < j < t.len() implies (#[trigger] t[i]).0.spec_precedes(
        (#[trigger] t[j]).0,
    ) by {
        if j < p {
            assert(t[i] == s[i] && t[j] == s[j]);
        } else if j == p {
            assert(t[i] == s[i]);
        } else if i == p {
            assert(t[j] == s[j - 1]);
            assert(!s[p].0.spec_precedes(k));
            assert(s[p].0 != k);
            lemma_precedes_total(k, s[p].0);
            if j - 1 > p {
                assert(s[p].0.spec_precedes(s[j - 1].0));
                lemma_precedes_transitive(k, s[p].0, s[j - 1].0);
            }
        } else if i < p {
            assert(t[i] == s[i] && t[j] == s[j - 1]);
        } else {
            assert(t[i] == s[i - 1] && t[j] == s[j - 1]);
        }
    }
    assert forall|x: Logic| has_key(t, x) <==> x == k || has_key(s, x) by {
        if has_key(t, x) {
            let i = choose|i: int| 0 <= i < t.len() && (#[trigger] t[i]).0 == x;
            if i < p {
                assert(s[i].0 == x);
            } else if i > p {
                assert(s[i - 1].0 == x);
            }
        }
        if has_key(s, x) {
            let i = choose|i: int| 0 <= i < s.len() && (#[trigger] s[i]).0 == x;
            if i < p {
                assert(t[i].0 == x);
            } else {
                assert(t[i + 1].0 == x);
            }
        }
    }
}

/// The assumptions available at a point of a proof: formulas, each with the
/// marker of the inference that assumed it. No formula is assumed twice, and
/// the assumptions stand in the listing order of their formulas: shallower
/// formulas first, formulas of one height in structural order.
#[derive(Debug)]
pub struct Axioms {
    entries: Vec<(Logic, usize)>,
}

impl View for Axioms {
    type V = Seq<(Logic, usize)>;

    closed spec fn view(&self) -> Seq<(Logic, usize)> {
        self.entries@
    }
}

impl Clone for Axioms {
    fn clone(&self) -> (r: Self)
        ensures
            r@ == self@,
    {
        proof {
            use_type_invariant(self);
        }
        Axioms { entries: self.entries() }
    }
}

impl Axioms {
    #[verifier::type_invariant]
    spec fn well_formed(&self) -> bool {
        sorted(self.entries@)
    }

    /// No assumptions.
    pub fn new() -> (r: Self)
        ensures
            r@ == Seq::<(Logic, usize)>::empty(),
    {
        Axioms { entries: Vec::new() }
    }

    /// The assumptions in their order, each with its marker.
    pub fn entries(&self) -> (r: Vec<(Logic, usize)>)
        ensures
            r@ == self@,
    {
        let mut entries: Vec<(Logic, usize)> = Vec::new();
        let mut i: usize = 0;
        while i < self.entries.len()
            invariant
                i <= self.entries.len(),
                entries@ == self.entries@.subrange(0, i as int),
            decreases self.entries.len() - i,
        {
            entries.push((self.entries[i].0.clone(), self.entries[i].1));
            i = i + 1;
        }
        assert(entries@ == self.entries@);
        entries
    }

    /// The number of assumptions; they are sorted.
    pub fn len(&self) -> (r: usize)
        ensures
            r == self@.len(),
            sorted(self@),
    {
        proof {
            use_type_invariant(self);
        }
        self.entries.len()
    }

    /// The formula of the assumption at place `i`.
    pub(crate) fn logic(&self, i: usize) -> (r: &Logic)
        requires
            i < self@.len(),
        ensures
            *r == self@[i as int].0,
    {
        &self.entries[i].0
    }

    /// The marker of the assumption at place `i`.
    pub(crate) fn marker(&self, i: usize) -> (r: usize)
        requires
            i < self@.len(),
        ensures
            r == self@[i as int].1,
    {
        self.entries[i].1
    }

    /// Whether the two hold the same assumptions under the same markers.
    pub fn same(&self, other: &Axioms) -> (r: bool)
        ensures
            r == (self@ == other@),
    {
        if self.entries.len() != other.entries.len() {
            return false;
        }
        let mut i: usize = 0;
        while i < self.entries.len()
            invariant
                i <= self.entries.len(),
                self.entries.len() == other.entries.len(),
                self.entries@.subrange(0, i as int) == other.entries@.subrange(0, i as int),
            decreases self.entries.len() - i,
        {
            if !self.entries[i].0.same(&other.entries[i].0) || self.entries[i].1
                != other.entries[i].1 {
                assert(self.entries@[i as int] != other.entries@[i as int]);
                return false;
            }
            assert(self.entries@.subrange(0, i + 1) == self.entries@.subrange(0, i as int).push(
                self.entries@[i as int],
            ));
            assert(other.entries@.subrange(0, i + 1) == other.entries@.subrange(0, i as int).push(
                other.entries@[i as int],
            ));
            i = i + 1;
        }
        assert(self.entries@.subrange(0, i as int) == self.entries@);
        assert(other.entries@.subrange(0, i as int) == other.entries@);
        true
    }

    /// The place of `k` among the assumptions.
    fn place(&self, k: &Logic) -> (r: usize)
        ensures
            r == slot(self@, *k),
            r <= self@.len(),
    {
        let mut i: usize = 0;
        while i < self.entries.len() && self.entries[i].0.precedes(k)
            invariant
                i <= self.entries.len(),
                forall|j: int| 0 <= j < i ==> (#[trigger] self.entries@[j]).0.spec_precedes(*k),
            decreases self.entries.len() - i,
        {
            i = i + 1;
        }
        proof {
            lemma_slot(self.entries@, *k, i as int);
        }
        i
    }

    /// The marker under which `k` is assumed, if it is.
    pub fn find(&self, k: &Logic) -> (r: Option<usize>)
        ensures
            r is Some <==> has_key(self@, *k),
            r matches Some(m) ==> self@.contains((*k, m)),
    {
        proof {
            use_type_invariant(self);
            lemma_slot_finds(self.entries@, *k);
        }
        let p = self.place(k);
        if p < self.entries.len() && self.entries[p].0.same(k) {
            assert(self@[p as int] == (*k, self.entries[p as int].1));
            Some(self.entries[p].1)
        } else {
            None
        }
    }

    /// The assumptions with `k` added under the marker `m`; `None` where `k`
    /// is assumed already.
    pub fn insert(&self, k: &Logic, m: usize) -> (r: Option<Axioms>)
        ensures
            sorted(self@),
            r is None <==> has_key(self@, *k),
            r matches Some(a) ==> a@ == inserted(self@, *k, m) && sorted(a@),
    {
        proof {
            use_type_invariant(self);
            lemma_slot_finds(self.entries@, *k);
        }
        let p = self.place(k);
        if p < self.entries.len() && self.entries[p].0.same(k) {
            None
        } else {
            proof {
                lemma_inserted_sorted(self.entries@, *k, m);
            }
            let mut entries = self.entries();
            entries.insert(p, (k.clone(), m));
            Some(Axioms { entries })
        }
    }
}

} // verus!
