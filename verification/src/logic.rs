//! Propositional formulas and their structural queries.

use vstd::prelude::*;

verus! {

/// A propositional formula: an immutable tree over atoms, falsity, negation,
/// conjunction, disjunction and implication.
#[derive(Debug, Hash)]
pub enum Logic {
    /// A propositional atom, labelled by a letter.
    Base(char),
    /// Falsity.
    Cont,
    /// Negation.
    Not(Box<Logic>),
    /// Conjunction.
    And(Box<Logic>, Box<Logic>),
    /// Disjunction.
    Or(Box<Logic>, Box<Logic>),
    /// Implication.
    To(Box<Logic>, Box<Logic>),
}

impl PartialEq for Logic {
    fn eq(&self, other: &Self) -> (r: bool) {
        self.same(other)
    }
}

impl vstd::std_specs::cmp::PartialEqSpecImpl for Logic {
    open spec fn obeys_eq_spec() -> bool {
        true
    }

    open spec fn eq_spec(&self, other: &Self) -> bool {
        *self == *other
    }
}

impl Eq for Logic {}

impl Clone for Logic {
    fn clone(&self) -> (r: Self)
        ensures
            r == *self,
        decreases *self,
    {
        match self {
            Logic::Base(c) => Logic::Base(*c),
            Logic::Cont => Logic::Cont,
            Logic::Not(p) => Logic::Not(Box::new((**p).clone())),
            Logic::And(l, r) => Logic::And(Box::new((**l).clone()), Box::new((**r).clone())),
            Logic::Or(l, r) => Logic::Or(Box::new((**l).clone()), Box::new((**r).clone())),
            Logic::To(l, r) => Logic::To(Box::new((**l).clone()), Box::new((**r).clone())),
        }
    }
}

/// The larger of two naturals.
pub open spec fn larger(a: nat, b: nat) -> nat {
    if a >= b {
        a
    } else {
        b
    }
}

/// A natural number cut off at the largest `usize`.
pub open spec fn capped(n: nat) -> nat {
    if n <= usize::MAX {
        n
    } else {
        usize::MAX as nat
    }
}

/// The formula that a connective makes of `l` and `r`: a conjunction for
/// `kind` 2, a disjunction for `kind` 3, and an implication otherwise.
pub open spec fn joined(kind: int, l: Logic, r: Logic) -> Logic {
    if kind == 2 {
        Logic::And(Box::new(l), Box::new(r))
    } else if kind == 3 {
        Logic::Or(Box::new(l), Box::new(r))
    } else {
        Logic::To(Box::new(l), Box::new(r))
    }
}

impl Logic {
    /// Height of the formula tree; atoms and falsity have height 0.
    pub open spec fn spec_depth(self) -> nat
        decreases self,
    {
        match self {
            Logic::Base(_) => 0,
            Logic::Cont => 0,
            Logic::Not(p) => p.spec_depth() + 1,
            Logic::And(l, r) => larger(l.spec_depth(), r.spec_depth()) + 1,
            Logic::Or(l, r) => larger(l.spec_depth(), r.spec_depth()) + 1,
            Logic::To(l, r) => larger(l.spec_depth(), r.spec_depth()) + 1,
        }
    }

    /// Number of nodes of the formula tree.
    pub open spec fn spec_size(self) -> nat
        decreases self,
    {
        match self {
            Logic::Base(_) => 1,
            Logic::Cont => 1,
            Logic::Not(p) => p.spec_size() + 1,
            Logic::And(l, r) => l.spec_size() + r.spec_size() + 1,
            Logic::Or(l, r) => l.spec_size() + r.spec_size() + 1,
            Logic::To(l, r) => l.spec_size() + r.spec_size() + 1,
        }
    }

    /// Position of the variant in the declaration of the type.
    pub open spec fn tag(self) -> nat {
        match self {
            Logic::Base(_) => 0,
            Logic::Cont => 1,
            Logic::Not(_) => 2,
            Logic::And(_, _) => 3,
            Logic::Or(_, _) => 4,
            Logic::To(_, _) => 5,
        }
    }

    /// Structural strict order: by variant, then by the operands from left to
    /// right; atoms by their letter.
    pub open spec fn spec_before(self, other: Logic) -> bool
        decreases self,
    {
        match (self, other) {
            (Logic::Base(a), Logic::Base(b)) => (a as u32) < (b as u32),
            (Logic::Not(a), Logic::Not(b)) => a.spec_before(*b),
            (Logic::And(a, b), Logic::And(c, d)) => a.spec_before(*c) || (*a == *c
                && b.spec_before(*d)),
            (Logic::Or(a, b), Logic::Or(c, d)) => a.spec_before(*c) || (*a == *c && b.spec_before(
                *d,
            )),
            (Logic::To(a, b), Logic::To(c, d)) => a.spec_before(*c) || (*a == *c && b.spec_before(
                *d,
            )),
            _ => self.tag() < other.tag(),
        }
    }

    /// The order in which formulas are listed: shallower formulas first, and
    /// formulas of one height in structural order.
    pub open spec fn spec_precedes(self, other: Logic) -> bool {
        let a = capped(self.spec_depth());
        let b = capped(other.spec_depth());
        a < b || (a == b && self.spec_before(other))
    }

    /// Structural equality.
    pub fn same(&self, other: &Logic) -> (r: bool)
        ensures
            r == (*self == *other),
        decreases *self,
    {
        match (self, other) {
            (Logic::Base(a), Logic::Base(b)) => *a == *b,
            (Logic::Cont, Logic::Cont) => true,
            (Logic::Not(a), Logic::Not(b)) => a.same(b),
            (Logic::And(a, b), Logic::And(c, d)) => a.same(c) && b.same(d),
            (Logic::Or(a, b), Logic::Or(c, d)) => a.same(c) && b.same(d),
            (Logic::To(a, b), Logic::To(c, d)) => a.same(c) && b.same(d),
            _ => false,
        }
    }

    /// Height of the formula tree, cut off at the largest `usize`.
    pub fn depth(&self) -> (r: usize)
        ensures
            r == capped(self.spec_depth()),
        decreases *self,
    {
        match self {
            Logic::Base(_) => 0,
            Logic::Cont => 0,
            Logic::Not(p) => p.depth().saturating_add(1),
            Logic::And(l, r) => {
                let a = l.depth();
                let b = r.depth();
                if a >= b {
                    a.saturating_add(1)
                } else {
                    b.saturating_add(1)
                }
            },
            Logic::Or(l, r) => {
                let a = l.depth();
                let b = r.depth();
                if a >= b {
                    a.saturating_add(1)
                } else {
                    b.saturating_add(1)
                }
            },
            Logic::To(l, r) => {
                let a = l.depth();
                let b = r.depth();
                if a >= b {
                    a.saturating_add(1)
                } else {
                    b.saturating_add(1)
                }
            },
        }
    }

    /// Number of nodes of the formula tree, cut off at the largest `usize`.
    pub fn size(&self) -> (r: usize)
        ensures
            r == capped(self.spec_size()),
        decreases *self,
    {
        match self {
            Logic::Base(_) => 1,
            Logic::Cont => 1,
            Logic::Not(p) => p.size().saturating_add(1),
            Logic::And(l, r) => l.size().saturating_add(r.size()).saturating_add(1),
            Logic::Or(l, r) => l.size().saturating_add(r.size()).saturating_add(1),
            Logic::To(l, r) => l.size().saturating_add(r.size()).saturating_add(1),
        }
    }

    /// Whether a parent never needs to parenthesise this formula: atoms,
    /// falsity and negations.
    pub fn is_low(&self) -> (r: bool)
        ensures
            r == (self is Base || self is Cont || self is Not),
    {
        match self {
            Logic::Base(_) => true,
            Logic::Cont => true,
            Logic::Not(_) => true,
            _ => false,
        }
    }

    /// Structural strict order.
    pub fn before(&self, other: &Logic) -> (r: bool)
        ensures
            r == self.spec_before(*other),
        decreases *self,
    {
        match (self, other) {
            (Logic::Base(a), Logic::Base(b)) => *a < *b,
            (Logic::Not(a), Logic::Not(b)) => a.before(b),
            (Logic::And(a, b), Logic::And(c, d)) => a.before(c) || (a.same(c) && b.before(d)),
            (Logic::Or(a, b), Logic::Or(c, d)) => a.before(c) || (a.same(c) && b.before(d)),
            (Logic::To(a, b), Logic::To(c, d)) => a.before(c) || (a.same(c) && b.before(d)),
            _ => self.variant() < other.variant(),
        }
    }

    /// Position of the variant in the declaration of the type.
    pub fn variant(&self) -> (r: u8)
        ensures
            r == self.tag(),
    {
        match self {
            Logic::Base(_) => 0,
            Logic::Cont => 1,
            Logic::Not(_) => 2,
            Logic::And(_, _) => 3,
            Logic::Or(_, _) => 4,
            Logic::To(_, _) => 5,
        }
    }

    /// Whether this formula is listed before `other`.
    pub fn precedes(&self, other: &Logic) -> (r: bool)
        ensures
            r == self.spec_precedes(*other),
    {
        let a = self.depth();
        let b = other.depth();
        a < b || (a == b && self.before(other))
    }
}

/// The structural order never places a formula before itself.
pub proof fn lemma_before_irreflexive(a: Logic)
    ensures
        !a.spec_before(a),
    decreases a,
{
    match a {
        Logic::Not(p) => lemma_before_irreflexive(*p),
        Logic::And(l, r) => {
            lemma_before_irreflexive(*l);
            lemma_before_irreflexive(*r);
        },
        Logic::Or(l, r) => {
            lemma_before_irreflexive(*l);
            lemma_before_irreflexive(*r);
        },
        Logic::To(l, r) => {
            lemma_before_irreflexive(*l);
            lemma_before_irreflexive(*r);
        },
        _ => {},
    }
}

/// Of two different formulas the structural order places one before the other.
pub proof fn lemma_before_total(a: Logic, b: Logic)
    ensures
        a == b || a.spec_before(b) || b.spec_before(a),
    decreases a,
{
    match (a, b) {
        (Logic::Base(x), Logic::Base(y)) => {
            assert(x as u32 == y as u32 ==> x == y);
        },
        (Logic::Not(p), Logic::Not(q)) => lemma_before_total(*p, *q),
        (Logic::And(l, r), Logic::And(m, s)) => {
            lemma_before_total(*l, *m);
            lemma_before_total(*r, *s);
        },
        (Logic::Or(l, r), Logic::Or(m, s)) => {
            lemma_before_total(*l, *m);
            lemma_before_total(*r, *s);
        },
        (Logic::To(l, r), Logic::To(m, s)) => {
            lemma_before_total(*l, *m);
            lemma_before_total(*r, *s);
        },
        _ => {},
    }
}

/// The structural order is transitive.
pub proof fn lemma_before_transitive(a: Logic, b: Logic, c: Logic)
    requires
        a.spec_before(b),
        b.spec_before(c),
    ensures
        a.spec_before(c),
    decreases a,
{
    match (a, b, c) {
        (Logic::Not(p), Logic::Not(q), Logic::Not(r)) => lemma_before_transitive(*p, *q, *r),
        (Logic::And(l1, r1), Logic::And(l2, r2), Logic::And(l3, r3)) => {
            if l1.spec_before(*l2) && l2.spec_before(*l3) {
                lemma_before_transitive(*l1, *l2, *l3);
            } else if l1 == l2 && l2 == l3 {
                lemma_before_transitive(*r1, *r2, *r3);
            }
        },
        (Logic::Or(l1, r1), Logic::Or(l2, r2), Logic::Or(l3, r3)) => {
            if l1.spec_before(*l2) && l2.spec_before(*l3) {
                lemma_before_transitive(*l1, *l2, *l3);
            } else if l1 == l2 && l2 == l3 {
                lemma_before_transitive(*r1, *r2, *r3);
            }
        },
        (Logic::To(l1, r1), Logic::To(l2, r2), Logic::To(l3, r3)) => {
            if l1.spec_before(*l2) && l2.spec_before(*l3) {
                lemma_before_transitive(*l1, *l2, *l3);
            } else if l1 == l2 && l2 == l3 {
                lemma_before_transitive(*r1, *r2, *r3);
            }
        },
        _ => {},
    }
}

/// The listing order goes by height: a formula is listed before every formula
/// that is higher.
pub proof fn lemma_shallower_precedes(a: Logic, b: Logic)
    requires
        a.spec_depth() < b.spec_depth(),
        a.spec_depth() < usize::MAX,
    ensures
        a.spec_precedes(b),
{
}

/// Atoms and falsity are listed before every formula with a connective.
pub proof fn lemma_leaves_first(a: Logic, b: Logic)
    requires
        a is Base || a is Cont,
        !(b is Base || b is Cont),
    ensures
        a.spec_precedes(b),
{
}

/// The listing order never places a formula before itself.
pub proof fn lemma_precedes_irreflexive(a: Logic)
    ensures
        !a.spec_precedes(a),
{
    lemma_before_irreflexive(a);
}

/// Of two different formulas the listing order places one before the other.
pub proof fn lemma_precedes_total(a: Logic, b: Logic)
    ensures
        a == b || a.spec_precedes(b) || b.spec_precedes(a),
{
    lemma_before_total(a, b);
}

/// The listing order is transitive.
pub proof fn lemma_precedes_transitive(a: Logic, b: Logic, c: Logic)
    requires
        a.spec_precedes(b),
        b.spec_precedes(c),
    ensures
        a.spec_precedes(c),
{
    if capped(a.spec_depth()) == capped(b.spec_depth()) && capped(b.spec_depth()) == capped(
        c.spec_depth(),
    ) {
        lemma_before_transitive(a, b, c);
    }
}

} // verus!
