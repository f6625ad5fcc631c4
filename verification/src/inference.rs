//! Natural-deduction proofs: the tree of inferences and the rules that each
//! node has to follow.

use crate::axioms::{has_key, inserted, Axioms};
use crate::logic::Logic;
use vstd::prelude::*;

verus! {

/// How an inference is drawn, with the inferences that it is drawn from.
#[derive(Debug)]
pub enum InferenceType {
    /// Use of an assumption: the marker of the inference that assumed it.
    Axiom(usize),
    /// An inference from one premise: the introduction of an implication or
    /// a negation, the elimination of a conjunction or of falsity, or the
    /// introduction of a disjunction.
    UnaryInf(Box<Inference>),
    /// An inference from two premises: the introduction of a conjunction, or
    /// the elimination of an implication or a negation.
    BinaryInf(Box<Inference>, Box<Inference>),
    /// The elimination of a disjunction: the disjunction, and the conclusion
    /// drawn from either side.
    TrinaryInf(Box<Inference>, Box<Inference>, Box<Inference>),
}

/// A node of a proof tree: one line of a proof figure.
#[derive(Debug)]
pub struct Inference {
    /// The conclusion.
    pub logic: Logic,
    /// The assumptions available at this node.
    pub axioms: Axioms,
    /// The marker of this node. Assumptions that this node makes for its
    /// premises carry it, and so does every use of them.
    pub marker: usize,
    /// The rule and the premises.
    pub inference: InferenceType,
}

/// The rule of a node of a proof tree, with its premises.
pub enum Rule {
    /// Use of an assumption: the marker of the inference that assumed it.
    Axiom(usize),
    /// An inference from one premise.
    Unary(Box<Derivation>),
    /// An inference from two premises.
    Binary(Box<Derivation>, Box<Derivation>),
    /// The elimination of a disjunction.
    Ternary(Box<Derivation>, Box<Derivation>, Box<Derivation>),
}

/// A proof tree as a mathematical value: what an [`Inference`] stands for.
pub struct Derivation {
    /// The conclusion.
    pub logic: Logic,
    /// The assumptions available at this node, in their order.
    pub axioms: Seq<(Logic, usize)>,
    /// The marker of this node.
    pub marker: usize,
    /// The rule and the premises.
    pub rule: Rule,
}

impl InferenceType {
    /// The rule that the value stands for.
    pub open spec fn model(self) -> Rule
        decreases self,
    {
        match self {
            InferenceType::Axiom(r) => Rule::Axiom(r),
            InferenceType::UnaryInf(a) => Rule::Unary(Box::new(a.model())),
            InferenceType::BinaryInf(a, b) => Rule::Binary(
                Box::new(a.model()),
                Box::new(b.model()),
            ),
            InferenceType::TrinaryInf(a, b, c) => Rule::Ternary(
                Box::new(a.model()),
                Box::new(b.model()),
                Box::new(c.model()),
            ),
        }
    }
}

impl Inference {
    /// The proof tree that the value stands for.
    pub open spec fn model(self) -> Derivation
        decreases self,
    {
        Derivation {
            logic: self.logic,
            axioms: self.axioms@,
            marker: self.marker,
            rule: self.inference.model(),
        }
    }
}

impl Clone for Inference {
    fn clone(&self) -> (r: Self)
        ensures
            r@ == self@,
        decreases *self,
    {
        let inference = match &self.inference {
            InferenceType::Axiom(m) => InferenceType::Axiom(*m),
            InferenceType::UnaryInf(a) => InferenceType::UnaryInf(Box::new((**a).clone())),
            InferenceType::BinaryInf(a, b) => InferenceType::BinaryInf(
                Box::new((**a).clone()),
                Box::new((**b).clone()),
            ),
            InferenceType::TrinaryInf(a, b, c) => InferenceType::TrinaryInf(
                Box::new((**a).clone()),
                Box::new((**b).clone()),
                Box::new((**c).clone()),
            ),
        };
        Inference {
            logic: self.logic.clone(),
            axioms: self.axioms.clone(),
            marker: self.marker,
            inference,
        }
    }
}

impl View for Inference {
    type V = Derivation;

    open spec fn view(&self) -> Derivation {
        self.model()
    }
}

impl Derivation {
    /// The node concludes an implication from a proof of its right side under
    /// the added assumption of its left side.
    pub open spec fn introduces_to(self, c: Derivation) -> bool {
        self.logic matches Logic::To(l, r) && c.logic == *r && !has_key(self.axioms, *l)
            && c.axioms == inserted(self.axioms, *l, self.marker)
    }

    /// The node concludes a negation from a proof of falsity under the added
    /// assumption of the negated formula.
    pub open spec fn introduces_not(self, c: Derivation) -> bool {
        self.logic matches Logic::Not(p) && c.logic == Logic::Cont && !has_key(self.axioms, *p)
            && c.axioms == inserted(self.axioms, *p, self.marker)
    }

    /// The node concludes one side of a conjunction.
    pub open spec fn eliminates_and(self, c: Derivation) -> bool {
        c.axioms == self.axioms && (c.logic matches Logic::And(l, r) && (self.logic == *l
            || self.logic == *r))
    }

    /// The node concludes a disjunction from one of its sides.
    pub open spec fn introduces_or(self, c: Derivation) -> bool {
        c.axioms == self.axioms && (self.logic matches Logic::Or(l, r) && (c.logic == *l || c.logic
            == *r))
    }

    /// The node concludes anything from falsity.
    pub open spec fn eliminates_cont(self, c: Derivation) -> bool {
        c.axioms == self.axioms && c.logic == Logic::Cont
    }

    /// The node concludes a conjunction from its two sides.
    pub open spec fn introduces_and(self, a: Derivation, b: Derivation) -> bool {
        self.logic == Logic::And(Box::new(a.logic), Box::new(b.logic))
    }

    /// The node concludes the right side of an implication `b` from its left
    /// side `a`.
    pub open spec fn eliminates_to(self, a: Derivation, b: Derivation) -> bool {
        b.logic == Logic::To(Box::new(a.logic), Box::new(self.logic))
    }

    /// The node concludes falsity from a formula `a` and its negation `b`.
    pub open spec fn eliminates_not(self, a: Derivation, b: Derivation) -> bool {
        self.logic == Logic::Cont && b.logic == Logic::Not(Box::new(a.logic))
    }

    /// The node concludes from a disjunction `a` what `b` concludes under the
    /// added assumption of its left side and `c` under that of its right
    /// side.
    pub open spec fn eliminates_or(self, a: Derivation, b: Derivation, c: Derivation) -> bool {
        a.axioms == self.axioms && b.logic == self.logic && c.logic == self.logic && (
        a.logic matches Logic::Or(l, r) && !has_key(self.axioms, *l) && !has_key(self.axioms, *r)
            && b.axioms == inserted(self.axioms, *l, self.marker) && c.axioms == inserted(
            self.axioms,
            *r,
            self.marker,
        ))
    }

    /// The node follows from its premises by one rule of natural deduction,
    /// and each premise has the assumptions that the rule gives it.
    pub open spec fn follows(self) -> bool {
        match self.rule {
            Rule::Axiom(m) => self.axioms.contains((self.logic, m)),
            Rule::Unary(c) => self.introduces_to(*c) || self.introduces_not(*c)
                || self.eliminates_and(*c) || self.introduces_or(*c) || self.eliminates_cont(*c),
            Rule::Binary(a, b) => a.axioms == self.axioms && b.axioms == self.axioms && (
            self.introduces_and(*a, *b) || self.eliminates_to(*a, *b) || self.eliminates_not(
                *a,
                *b,
            )),
            Rule::Ternary(a, b, c) => self.eliminates_or(*a, *b, *c),
        }
    }

    /// Every node of the tree follows from its premises.
    pub open spec fn valid(self) -> bool
        decreases self,
    {
        self.follows() && match self.rule {
            Rule::Axiom(_) => true,
            Rule::Unary(c) => c.valid(),
            Rule::Binary(a, b) => a.valid() && b.valid(),
            Rule::Ternary(a, b, c) => a.valid() && b.valid() && c.valid(),
        }
    }

    /// The markers of the nodes of the tree.
    pub open spec fn markers(self) -> Set<usize>
        decreases self,
    {
        match self.rule {
            Rule::Axiom(_) => set![self.marker],
            Rule::Unary(a) => a.markers().insert(self.marker),
            Rule::Binary(a, b) => a.markers().union(b.markers()).insert(self.marker),
            Rule::Ternary(a, b, c) => a.markers().union(b.markers()).union(c.markers()).insert(
                self.marker,
            ),
        }
    }

    /// No two nodes of the tree have the same marker.
    pub open spec fn distinct(self) -> bool
        decreases self,
    {
        match self.rule {
            Rule::Axiom(_) => true,
            Rule::Unary(a) => a.distinct() && !a.markers().contains(self.marker),
            Rule::Binary(a, b) => a.distinct() && b.distinct() && a.markers().disjoint(
                b.markers(),
            ) && !a.markers().contains(self.marker) && !b.markers().contains(self.marker),
            Rule::Ternary(a, b, c) => a.distinct() && b.distinct() && c.distinct()
                && a.markers().disjoint(b.markers()) && a.markers().disjoint(c.markers())
                && b.markers().disjoint(c.markers()) && !a.markers().contains(self.marker)
                && !b.markers().contains(self.marker) && !c.markers().contains(self.marker),
        }
    }

    /// Whether some use of an assumption in the tree refers to the marker
    /// `m`.
    pub open spec fn uses(self, m: usize) -> bool
        decreases self,
    {
        match self.rule {
            Rule::Axiom(r) => r == m,
            Rule::Unary(c) => c.uses(m),
            Rule::Binary(a, b) => a.uses(m) || b.uses(m),
            Rule::Ternary(a, b, c) => a.uses(m) || b.uses(m) || c.uses(m),
        }
    }

    /// Every use of an assumption in the tree refers to an assumption of
    /// `scope` or to one that a node of the tree above it makes: the
    /// assumption has the formula that the use concludes, and the marker that
    /// the use refers to.
    pub open spec fn discharged(self, scope: Set<(Logic, usize)>) -> bool
        decreases self,
    {
        match self.rule {
            Rule::Axiom(m) => scope.contains((self.logic, m)),
            Rule::Unary(c) => if c.axioms == self.axioms {
                c.discharged(scope)
            } else {
                match self.logic {
                    Logic::To(l, _) => c.discharged(scope.insert((*l, self.marker))),
                    Logic::Not(p) => c.discharged(scope.insert((*p, self.marker))),
                    _ => false,
                }
            },
            Rule::Binary(a, b) => a.discharged(scope) && b.discharged(scope),
            Rule::Ternary(a, b, c) => a.discharged(scope) && match a.logic {
                Logic::Or(l, r) => b.discharged(scope.insert((*l, self.marker))) && c.discharged(
                    scope.insert((*r, self.marker)),
                ),
                _ => false,
            },
        }
    }
}

/// In a tree whose nodes all follow from their premises, every use of an
/// assumption refers to an assumption of the root or to one that a node above
/// the use makes.
pub proof fn lemma_discharged(d: Derivation, scope: Set<(Logic, usize)>)
    requires
        d.valid(),
        forall|e: (Logic, usize)| d.axioms.contains(e) ==> scope.contains(e),
    ensures
        d.discharged(scope),
    decreases d,
{
    match d.rule {
        Rule::Axiom(_) => {},
        Rule::Unary(c) => {
            if c.axioms == d.axioms {
                lemma_discharged(*c, scope);
            } else {
                match d.logic {
                    Logic::To(l, _) => {
                        lemma_inserted_contains(d.axioms, *l, d.marker);
                        lemma_discharged(*c, scope.insert((*l, d.marker)));
                    },
                    Logic::Not(p) => {
                        lemma_inserted_contains(d.axioms, *p, d.marker);
                        lemma_discharged(*c, scope.insert((*p, d.marker)));
                    },
                    _ => {},
                }
            }
        },
        Rule::Binary(a, b) => {
            lemma_discharged(*a, scope);
            lemma_discharged(*b, scope);
        },
        Rule::Ternary(a, b, c) => {
            lemma_discharged(*a, scope);
            match a.logic {
                Logic::Or(l, r) => {
                    lemma_inserted_contains(d.axioms, *l, d.marker);
                    lemma_inserted_contains(d.axioms, *r, d.marker);
                    lemma_discharged(*b, scope.insert((*l, d.marker)));
                    lemma_discharged(*c, scope.insert((*r, d.marker)));
                },
                _ => {},
            }
        },
    }
}

/// The assumptions after an addition are the added one and those before it.
pub(crate) proof fn lemma_inserted_contains(s: Seq<(Logic, usize)>, k: Logic, m: usize)
    ensures
        forall|e: (Logic, usize)| inserted(s, k, m).contains(e) <==> e == (k, m) || s.contains(e),
{
    crate::axioms::lemma_slot_bounds(s, k);
    let p = crate::axioms::slot(s, k);
    let t = inserted(s, k, m);
    assert forall|e: (Logic, usize)| t.contains(e) <==> e == (k, m) || s.contains(e) by {
        if t.contains(e) {
            let i = choose|i: int| 0 <= i < t.len() && t[i] == e;
            if i < p {
                assert(s[i] == e);
            } else if i > p {
                assert(s[i - 1] == e);
            }
        }
        if s.contains(e) {
            let i = choose|i: int| 0 <= i < s.len() && s[i] == e;
            if i < p {
                assert(t[i] == e);
            } else {
                assert(t[i + 1] == e);
            }
        }
        if e == (k, m) {
            assert(t[p] == e);
        }
    }
}

/// Every assumption of `s` is true under the assignment `v`.
pub open spec fn all_hold(s: Seq<(Logic, usize)>, v: Map<char, bool>) -> bool {
    forall|e: (Logic, usize)| s.contains(e) ==> (#[trigger] e.0).holds(v)
}

/// Natural deduction is sound for classical truth: where every node of a tree
/// follows from its premises, the conclusion of the tree is true under every
/// assignment under which the assumptions of its root are true.
pub proof fn lemma_sound(d: Derivation, v: Map<char, bool>)
    requires
        d.valid(),
        all_hold(d.axioms, v),
    ensures
        d.logic.holds(v),
    decreases d,
{
    match d.rule {
        Rule::Axiom(m) => {
            assert((d.logic, m).0.holds(v));
        },
        Rule::Unary(c) => {
            if d.introduces_to(*c) {
                let l = *d.logic->To_0;
                if l.holds(v) {
                    lemma_inserted_contains(d.axioms, l, d.marker);
                    lemma_sound(*c, v);
                }
            } else if d.introduces_not(*c) {
                let p = *d.logic->Not_0;
                if p.holds(v) {
                    lemma_inserted_contains(d.axioms, p, d.marker);
                    lemma_sound(*c, v);
                }
            } else {
                lemma_sound(*c, v);
            }
        },
        Rule::Binary(a, b) => {
            lemma_sound(*a, v);
            lemma_sound(*b, v);
        },
        Rule::Ternary(a, b, c) => {
            lemma_sound(*a, v);
            let l = *a.logic->Or_0;
            let r = *a.logic->Or_1;
            lemma_inserted_contains(d.axioms, l, d.marker);
            lemma_inserted_contains(d.axioms, r, d.marker);
            if l.holds(v) {
                lemma_sound(*b, v);
            } else {
                lemma_sound(*c, v);
            }
        },
    }
}

/// What a tree proves from no assumptions is classically valid.
pub proof fn lemma_theorems_valid(d: Derivation)
    requires
        d.valid(),
        d.axioms.len() == 0,
    ensures
        d.logic.valid(),
{
    assert forall|v: Map<char, bool>| d.logic.holds(v) by {
        lemma_sound(d, v);
    }
}

} // verus!
