//! The search is sound: what it finds is a proof of the goal, every node of
//! which follows from its premises, and whose nodes have markers of their
//! own.

use crate::axioms::has_key;
use crate::inference::{lemma_discharged, lemma_theorems_valid, Derivation, Rule};
use crate::logic::Logic;
use crate::search::{bump, depth_bound, Found, Target, Trail};
use vstd::prelude::*;

verus! {

/// What was found, if anything, is a proof of the goal `t`: every node
/// follows from its premises, and the root concludes the formula of the goal
/// from the assumptions of the goal.
pub open spec fn proves(f: Found, t: Target) -> bool {
    f matches Ok((d, _)) ==> d.valid() && d.logic == t.logic && d.axioms == t.axioms
}

/// A goal that is marked `own` can be searched at the marker `next`: while
/// markers are left, `own` was handed out before `next`.
pub open spec fn marked(own: usize, next: usize) -> bool {
    next < usize::MAX ==> own < next
}

/// A proof that the search can go on from, at the marker `next` and below a
/// goal that is marked `own`: while markers are left, its markers are
/// pairwise distinct, were handed out before `next`, and are not `own`.
pub open spec fn settled(i: Derivation, own: usize, next: usize) -> bool {
    next < usize::MAX ==> own < next && i.distinct() && forall|m: usize| #[trigger]
        i.markers().contains(m) ==> m < next && m != own
}

/// What was found, if anything, has fresh markers: the least unused marker is
/// not below `next`, and while markers are left, the markers of the proof are
/// pairwise distinct, and each is among `taken`, is `own`, or was handed out
/// from `next` on.
pub open spec fn fresh(f: Found, taken: Set<usize>, own: usize, next: usize) -> bool {
    f matches Ok((d, n)) ==> next <= n && (n < usize::MAX ==> d.distinct() && forall|m: usize| #[trigger]
        d.markers().contains(m) ==> taken.contains(m) || m == own || next <= m < n)
}

/// The search for a proof of a goal is sound, and it hands out fresh markers.
pub proof fn lemma_solve(t: Target, next: usize, fuel: nat, trail: Trail)
    ensures
        proves(t.solve(next, fuel, trail), t),
        marked(t.marker, next) ==> fresh(t.solve(next, fuel, trail), Set::empty(), t.marker, next),
    decreases fuel, 0nat, 0nat,
{
    if fuel == 0 || trail.contains((t.logic, t.axioms)) {
    } else {
        let inner = trail.push((t.logic, t.axioms));
        lemma_use_axioms(t, 0, next, (fuel - 1) as nat, inner);
        lemma_infer_logic(t, next, (fuel - 1) as nat, inner);
    }
}

/// Reaching a goal from one of the assumptions is sound.
pub proof fn lemma_use_axioms(t: Target, from: nat, next: usize, fuel: nat, trail: Trail)
    ensures
        proves(t.use_axioms(from, next, fuel, trail), t),
        marked(t.marker, next) ==> fresh(
            t.use_axioms(from, next, fuel, trail),
            Set::empty(),
            t.marker,
            next,
        ),
    decreases fuel, 2nat, t.axioms.len() - from,
{
    if from < t.axioms.len() {
        let (logic, marker) = t.axioms[from as int];
        let leaf = t.problem(logic, next).infer(Rule::Axiom(marker));
        assert(leaf.follows()) by {
            assert(t.axioms[from as int] == (leaf.logic, marker));
        }
        assert(leaf.markers() == set![next]);
        lemma_use_logic(leaf, t, bump(next), fuel, trail);
        lemma_use_axioms(t, from + 1, next, fuel, trail);
        if marked(t.marker, next) {
            assert(settled(leaf, t.marker, bump(next)));
            let f = leaf.use_logic(t, bump(next), fuel, trail);
            if f is Ok && f->Ok_0.1 < usize::MAX {
                let d = f->Ok_0.0;
                assert forall|m: usize| #[trigger] d.markers().contains(m) implies m == t.marker
                    || next <= m < f->Ok_0.1 by {
                    if leaf.markers().contains(m) {
                    }
                }
            }
        }
    }
}

/// The introduction of the main connective of a goal is sound.
pub proof fn lemma_infer_logic(t: Target, next: usize, fuel: nat, trail: Trail)
    ensures
        proves(t.infer_logic(next, fuel, trail), t),
        marked(t.marker, next) ==> fresh(
            t.infer_logic(next, fuel, trail),
            Set::empty(),
            t.marker,
            next,
        ),
    decreases fuel, 1nat, 1nat,
{
    match t.logic {
        Logic::Not(p) => lemma_infer_not(t, *p, next, fuel, trail),
        Logic::And(l, r) => lemma_infer_and(t, *l, *r, next, fuel, trail),
        Logic::Or(l, r) => lemma_infer_or(t, *l, *r, next, fuel, trail),
        Logic::To(l, r) => lemma_infer_to(t, *l, *r, next, fuel, trail),
        _ => {},
    }
}

/// The introduction of a negation is sound.
pub proof fn lemma_infer_not(t: Target, logic: Logic, next: usize, fuel: nat, trail: Trail)
    requires
        t.logic == Logic::Not(Box::new(logic)),
    ensures
        proves(t.infer_not(logic, next, fuel, trail), t),
        marked(t.marker, next) ==> fresh(
            t.infer_not(logic, next, fuel, trail),
            Set::empty(),
            t.marker,
            next,
        ),
    decreases fuel, 1nat, 0nat,
{
    if !has_key(t.axioms, logic) {
        let c = t.assuming(Logic::Cont, logic, next);
        lemma_solve(c, bump(next), fuel, trail);
        lemma_wrapped(t, c.solve(bump(next), fuel, trail), next);
    }
}

/// The introduction of an implication is sound.
pub proof fn lemma_infer_to(
    t: Target,
    left: Logic,
    right: Logic,
    next: usize,
    fuel: nat,
    trail: Trail,
)
    requires
        t.logic == Logic::To(Box::new(left), Box::new(right)),
    ensures
        proves(t.infer_to(left, right, next, fuel, trail), t),
        marked(t.marker, next) ==> fresh(
            t.infer_to(left, right, next, fuel, trail),
            Set::empty(),
            t.marker,
            next,
        ),
    decreases fuel, 1nat, 0nat,
{
    if !has_key(t.axioms, left) {
        let c = t.assuming(right, left, next);
        lemma_solve(c, bump(next), fuel, trail);
        lemma_wrapped(t, c.solve(bump(next), fuel, trail), next);
    }
}

/// A proof with fresh markers that was searched for at the marker after
/// `next`, for a goal that is marked `next`, keeps fresh markers as the one
/// premise of an inference that concludes `t`.
proof fn lemma_wrapped(t: Target, f: Found, next: usize)
    requires
        marked(t.marker, next) ==> fresh(f, Set::empty(), next, bump(next)),
    ensures
        f matches Ok((d, n)) ==> (marked(t.marker, next) ==> fresh(
            Ok::<(Derivation, usize), crate::search::SolveError>(
                (t.infer(Rule::Unary(Box::new(d))), n),
            ),
            Set::empty(),
            t.marker,
            next,
        )),
{
    if f is Ok && marked(t.marker, next) {
        let d = f->Ok_0.0;
        let n = f->Ok_0.1;
        if n < usize::MAX {
            assert(!d.markers().contains(t.marker));
            let node = t.infer(Rule::Unary(Box::new(d)));
            assert(node.markers() == d.markers().insert(t.marker));
            assert forall|m: usize| #[trigger] node.markers().contains(m) implies m == t.marker
                || next <= m < n by {
                if d.markers().contains(m) {
                }
            }
        }
    }
}

/// The introduction of a conjunction is sound.
pub proof fn lemma_infer_and(
    t: Target,
    left: Logic,
    right: Logic,
    next: usize,
    fuel: nat,
    trail: Trail,
)
    requires
        t.logic == Logic::And(Box::new(left), Box::new(right)),
    ensures
        proves(t.infer_and(left, right, next, fuel, trail), t),
        marked(t.marker, next) ==> fresh(
            t.infer_and(left, right, next, fuel, trail),
            Set::empty(),
            t.marker,
            next,
        ),
    decreases fuel, 1nat, 0nat,
{
    let p0 = t.problem(left, next);
    let p1 = t.problem(right, bump(next));
    lemma_solve(p0, bump(bump(next)), fuel, trail);
    if let Ok((i0, n0)) = p0.solve(bump(bump(next)), fuel, trail) {
        lemma_solve(p1, n0, fuel, trail);
        if let Ok((i1, n1)) = p1.solve(n0, fuel, trail) {
            let node = t.infer(Rule::Binary(Box::new(i0), Box::new(i1)));
            if marked(t.marker, next) && n1 < usize::MAX {
                assert(!i0.markers().contains(t.marker));
                assert(!i1.markers().contains(t.marker));
                assert(i0.markers().disjoint(i1.markers()));
                assert(node.markers() == i0.markers().union(i1.markers()).insert(t.marker));
                assert forall|m: usize| #[trigger] node.markers().contains(m) implies m
                    == t.marker || next <= m < n1 by {
                    if i0.markers().contains(m) {
                    }
                    if i1.markers().contains(m) {
                    }
                }
            }
        }
    }
}

/// The introduction of a disjunction is sound.
pub proof fn lemma_infer_or(
    t: Target,
    left: Logic,
    right: Logic,
    next: usize,
    fuel: nat,
    trail: Trail,
)
    requires
        t.logic == Logic::Or(Box::new(left), Box::new(right)),
    ensures
        proves(t.infer_or(left, right, next, fuel, trail), t),
        marked(t.marker, next) ==> fresh(
            t.infer_or(left, right, next, fuel, trail),
            Set::empty(),
            t.marker,
            next,
        ),
    decreases fuel, 1nat, 0nat,
{
    lemma_solve(t.problem(left, next), bump(next), fuel, trail);
    lemma_solve(t.problem(right, next), bump(next), fuel, trail);
    lemma_wrapped(t, t.problem(left, next).solve(bump(next), fuel, trail), next);
    lemma_wrapped(t, t.problem(right, next).solve(bump(next), fuel, trail), next);
}

/// Going on from a proof to a goal is sound.
pub proof fn lemma_use_logic(i: Derivation, t: Target, next: usize, fuel: nat, trail: Trail)
    requires
        i.valid(),
        i.axioms == t.axioms,
    ensures
        proves(i.use_logic(t, next, fuel, trail), t),
        settled(i, t.marker, next) ==> fresh(
            i.use_logic(t, next, fuel, trail),
            i.markers(),
            t.marker,
            next,
        ),
    decreases fuel, 1nat, 2 * i.logic.spec_depth() + 1,
{
    if i.logic != t.logic {
        match i.logic {
            Logic::Cont => {
                if settled(i, t.marker, next) && next < usize::MAX {
                    assert(!i.markers().contains(t.marker));
                }
            },
            Logic::Not(p) => lemma_use_not(i, t, *p, next, fuel, trail),
            Logic::And(l, r) => lemma_use_and(i, t, *l, *r, next, fuel, trail),
            Logic::Or(l, r) => lemma_use_or(i, t, *l, *r, next, fuel, trail),
            Logic::To(l, r) => lemma_use_to(i, t, *l, *r, next, fuel, trail),
            _ => {},
        }
    }
}

/// A proof `i0` that was searched for behind the proof `i` makes, with `i`,
/// the two premises of an inference with fresh markers, from which the search
/// can go on.
proof fn lemma_paired(i: Derivation, i0: Derivation, node: Derivation, own: usize, next: usize, n: usize)
    requires
        settled(i, own, next),
        fresh(
            Ok::<(Derivation, usize), crate::search::SolveError>((i0, n)),
            Set::empty(),
            next,
            bump(bump(next)),
        ),
        node.rule == Rule::Binary(Box::new(i0), Box::new(i)),
        node.marker == bump(next),
    ensures
        settled(node, own, n),
        n < usize::MAX ==> forall|m: usize| #[trigger]
            node.markers().contains(m) ==> i.markers().contains(m) || next <= m < n,
{
    if n < usize::MAX {
        let taken = i.markers();
        assert(!i0.markers().contains(bump(next)));
        assert(!taken.contains(bump(next)));
        assert(i0.markers().disjoint(taken));
        assert(node.markers() == i0.markers().union(taken).insert(bump(next)));
        assert(node.distinct());
        assert forall|m: usize| #[trigger] node.markers().contains(m) implies (m < n && m != own
            && (taken.contains(m) || next <= m < n)) by {
            if i0.markers().contains(m) {
            }
            if taken.contains(m) {
            }
        }
    }
}

/// What the search finds from the inference `node`, which was built on the
/// proof `i`, has fresh markers as seen from `i`.
proof fn lemma_carried(f: Found, node: Derivation, i: Derivation, own: usize, next: usize, n: usize)
    requires
        next <= n,
        fresh(f, node.markers(), own, n),
        n < usize::MAX ==> forall|m: usize| #[trigger]
            node.markers().contains(m) ==> i.markers().contains(m) || next <= m < n,
    ensures
        fresh(f, i.markers(), own, next),
{
    if f is Ok && f->Ok_0.1 < usize::MAX {
        let d = f->Ok_0.0;
        let last = f->Ok_0.1;
        assert forall|m: usize| #[trigger] d.markers().contains(m) implies i.markers().contains(m)
            || m == own || next <= m < last by {
            if node.markers().contains(m) {
            }
        }
    }
}

/// The elimination of a negation is sound.
pub proof fn lemma_use_not(
    i: Derivation,
    t: Target,
    logic: Logic,
    next: usize,
    fuel: nat,
    trail: Trail,
)
    requires
        i.valid(),
        i.axioms == t.axioms,
        i.logic == Logic::Not(Box::new(logic)),
    ensures
        proves(i.use_not(t, logic, next, fuel, trail), t),
        settled(i, t.marker, next) ==> fresh(
            i.use_not(t, logic, next, fuel, trail),
            i.markers(),
            t.marker,
            next,
        ),
    decreases fuel, 1nat, 2 * i.logic.spec_depth(),
{
    if t.logic != logic {
        let p0 = i.problem(logic, next);
        lemma_solve(p0, bump(bump(next)), fuel, trail);
        if let Ok((i0, n)) = p0.solve(bump(bump(next)), fuel, trail) {
            let node = i.problem(Logic::Cont, bump(next)).infer(
                Rule::Binary(Box::new(i0), Box::new(i)),
            );
            lemma_use_logic(node, t, n, fuel, trail);
            if settled(i, t.marker, next) {
                lemma_paired(i, i0, node, t.marker, next, n);
                lemma_carried(node.use_logic(t, n, fuel, trail), node, i, t.marker, next, n);
            }
        }
    }
}

/// The elimination of an implication is sound.
pub proof fn lemma_use_to(
    i: Derivation,
    t: Target,
    left: Logic,
    right: Logic,
    next: usize,
    fuel: nat,
    trail: Trail,
)
    requires
        i.valid(),
        i.axioms == t.axioms,
        i.logic == Logic::To(Box::new(left), Box::new(right)),
    ensures
        proves(i.use_to(t, left, right, next, fuel, trail), t),
        settled(i, t.marker, next) ==> fresh(
            i.use_to(t, left, right, next, fuel, trail),
            i.markers(),
            t.marker,
            next,
        ),
    decreases fuel, 1nat, 2 * i.logic.spec_depth(),
{
    if t.logic != left {
        let p0 = i.problem(left, next);
        lemma_solve(p0, bump(bump(next)), fuel, trail);
        if let Ok((i0, n)) = p0.solve(bump(bump(next)), fuel, trail) {
            let node = i.problem(right, bump(next)).infer(
                Rule::Binary(Box::new(i0), Box::new(i)),
            );
            lemma_use_logic(node, t, n, fuel, trail);
            if settled(i, t.marker, next) {
                lemma_paired(i, i0, node, t.marker, next, n);
                lemma_carried(node.use_logic(t, n, fuel, trail), node, i, t.marker, next, n);
            }
        }
    }
}

/// The elimination of a conjunction is sound.
pub proof fn lemma_use_and(
    i: Derivation,
    t: Target,
    left: Logic,
    right: Logic,
    next: usize,
    fuel: nat,
    trail: Trail,
)
    requires
        i.valid(),
        i.axioms == t.axioms,
        i.logic == Logic::And(Box::new(left), Box::new(right)),
    ensures
        proves(i.use_and(t, left, right, next, fuel, trail), t),
        settled(i, t.marker, next) ==> fresh(
            i.use_and(t, left, right, next, fuel, trail),
            i.markers(),
            t.marker,
            next,
        ),
    decreases fuel, 1nat, 2 * i.logic.spec_depth(),
{
    let a = i.problem(left, next).infer(Rule::Unary(Box::new(i)));
    let b = i.problem(right, next).infer(Rule::Unary(Box::new(i)));
    lemma_use_logic(a, t, bump(next), fuel, trail);
    lemma_use_logic(b, t, bump(next), fuel, trail);
    if settled(i, t.marker, next) {
        assert(a.markers() == i.markers().insert(next));
        assert(b.markers() == i.markers().insert(next));
        if next < usize::MAX {
            assert(!i.markers().contains(next));
        }
        assert(bump(next) < usize::MAX ==> forall|m: usize| #[trigger]
            a.markers().contains(m) ==> i.markers().contains(m) || next <= m < bump(next));
        assert(bump(next) < usize::MAX ==> forall|m: usize| #[trigger]
            b.markers().contains(m) ==> i.markers().contains(m) || next <= m < bump(next));
        lemma_carried(a.use_logic(t, bump(next), fuel, trail), a, i, t.marker, next, bump(next));
        lemma_carried(b.use_logic(t, bump(next), fuel, trail), b, i, t.marker, next, bump(next));
    }
}

/// The elimination of a disjunction is sound.
pub proof fn lemma_use_or(
    i: Derivation,
    t: Target,
    left: Logic,
    right: Logic,
    next: usize,
    fuel: nat,
    trail: Trail,
)
    requires
        i.valid(),
        i.axioms == t.axioms,
        i.logic == Logic::Or(Box::new(left), Box::new(right)),
    ensures
        proves(i.use_or(t, left, right, next, fuel, trail), t),
        settled(i, t.marker, next) ==> fresh(
            i.use_or(t, left, right, next, fuel, trail),
            i.markers(),
            t.marker,
            next,
        ),
    decreases fuel, 1nat, 2 * i.logic.spec_depth(),
{
    if !has_key(t.axioms, left) && !has_key(t.axioms, right) {
        let p1 = t.assuming(t.logic, left, next);
        let p2 = t.assuming(t.logic, right, bump(next));
        lemma_solve(p1, bump(bump(next)), fuel, trail);
        if let Ok((i1, n1)) = p1.solve(bump(bump(next)), fuel, trail) {
            lemma_solve(p2, n1, fuel, trail);
            if let Ok((i2, n2)) = p2.solve(n1, fuel, trail) {
                let node = t.infer(Rule::Ternary(Box::new(i), Box::new(i1), Box::new(i2)));
                if settled(i, t.marker, next) && n2 < usize::MAX {
                    let taken = i.markers();
                    assert(!taken.contains(t.marker));
                    assert(!i1.markers().contains(t.marker));
                    assert(!i2.markers().contains(t.marker));
                    assert(taken.disjoint(i1.markers()));
                    assert(taken.disjoint(i2.markers()));
                    assert(i1.markers().disjoint(i2.markers()));
                    assert(node.markers() == taken.union(i1.markers()).union(
                        i2.markers(),
                    ).insert(t.marker));
                    assert forall|m: usize| #[trigger] node.markers().contains(m) implies taken.contains(
                        m,
                    ) || m == t.marker || next <= m < n2 by {
                        if i1.markers().contains(m) {
                        }
                        if i2.markers().contains(m) {
                        }
                    }
                }
            }
        }
    }
}

/// What the search finds for a formula is a proof of the formula: every
/// node follows from its premises by a rule of natural deduction, the root
/// concludes the formula from no assumptions, and every assumption in use
/// is made by a node above its use. A formula that has a proof is
/// classically valid. The nodes of the proof have markers of their own, as
/// long as the search handed out fewer markers than there are.
pub proof fn lemma_search_sound(g: Logic)
    ensures
        g.search() matches Ok((d, n)) ==> d.valid() && d.logic == g && d.axioms.len() == 0
            && d.discharged(Set::empty()) && g.valid() && (n < usize::MAX ==> d.distinct()),
{
    lemma_solve(g.root(), bump(0), depth_bound(g, 0), Seq::empty());
    if let Ok((d, n)) = g.search() {
        lemma_discharged(d, Set::empty());
        lemma_theorems_valid(d);
    }
}

} // verus!
