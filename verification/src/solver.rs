//! The solver: searches for a natural-deduction proof of a formula.

use crate::axioms::{has_key, Axioms};
use crate::check::CheckError;
use crate::inference::{Derivation, Inference, InferenceType, Rule};
use crate::logic::Logic;
use crate::search::{bump, depth_bound, Found, SolveError, Target, Trail};
use crate::sound::{lemma_infer_logic, lemma_search_sound, lemma_solve};
use vstd::prelude::*;

verus! {

/// A goal of the search: a formula to prove, the assumptions at hand, and the
/// marker of the inference that will conclude the formula.
#[derive(Debug)]
pub struct Problem {
    logic: Logic,
    axioms: Axioms,
    marker: usize,
}

impl View for Problem {
    type V = Target;

    closed spec fn view(&self) -> Target {
        Target { logic: self.logic, axioms: self.axioms@, marker: self.marker }
    }
}

/// What the solver returns: a proof with the least marker that is still
/// unused, or the reason why there is none.
pub type SolveResult = Result<(Inference, usize), SolveError>;

/// The executable result stands for the mathematical one.
pub open spec fn found(r: SolveResult, f: Found) -> bool {
    match (r, f) {
        (Ok((i, n)), Ok((d, m))) => i@ == d && n == m,
        (Err(e), Err(f)) => e == f,
        _ => false,
    }
}

/// The goals that the search is working on, innermost first.
enum Seen<'a> {
    Start,
    Step(&'a Seen<'a>, &'a Logic, &'a Axioms),
}

impl<'a> Seen<'a> {
    spec fn trail(self) -> Trail
        decreases self,
    {
        match self {
            Seen::Start => Seq::empty(),
            Seen::Step(rest, logic, axioms) => rest.trail().push((*logic, axioms@)),
        }
    }

    /// Whether the search is working on `logic` under `axioms` already.
    fn holds(&self, logic: &Logic, axioms: &Axioms) -> (r: bool)
        ensures
            r == self.trail().contains((*logic, axioms@)),
        decreases *self,
    {
        match self {
            Seen::Start => false,
            Seen::Step(rest, l, a) => {
                let here = l.same(logic) && a.same(axioms);
                let before = rest.holds(logic, axioms);
                proof {
                    let s = rest.trail();
                    let e = (**l, a@);
                    let x = (*logic, axioms@);
                    let t = s.push(e);
                    if s.contains(x) {
                        let j = choose|j: int| 0 <= j < s.len() && s[j] == x;
                        assert(t[j] == x);
                    }
                    if e == x {
                        assert(t[s.len() as int] == x);
                    }
                }
                here || before
            },
        }
    }
}

/// The marker after `n`.
fn next_marker(n: usize) -> (r: usize)
    ensures
        r == bump(n),
{
    n.saturating_add(1)
}

impl Problem {
    /// The goal to prove `logic` from no assumptions.
    pub fn new(logic: &Logic) -> (r: Self)
        ensures
            r@ == (Target { logic: *logic, axioms: Seq::empty(), marker: 0 }),
    {
        Problem { logic: logic.clone(), axioms: Axioms::new(), marker: 0 }
    }

    /// The goal `logic` under the assumptions of this goal.
    fn problem(&self, logic: &Logic, marker: usize) -> (r: Problem)
        ensures
            r@ == self@.problem(*logic, marker),
    {
        Problem { logic: logic.clone(), axioms: self.axioms.clone(), marker }
    }

    /// The goal `logic` under the assumptions of this goal and `k`; the
    /// failure where `k` is assumed already.
    fn assuming(&self, logic: &Logic, k: &Logic, marker: usize) -> (r: Result<Problem, SolveError>)
        ensures
            match r {
                Ok(p) => !has_key(self@.axioms, *k) && p@ == self@.assuming(*logic, *k, marker),
                Err(e) => has_key(self@.axioms, *k) && e == SolveError::InternalInvariant(*k),
            },
    {
        match self.axioms.insert(k, self.marker) {
            Some(axioms) => Ok(Problem { logic: logic.clone(), axioms, marker }),
            None => Err(SolveError::InternalInvariant(k.clone())),
        }
    }

    /// The inference that concludes this goal by `inference`.
    fn infer(&self, inference: InferenceType) -> (r: Inference)
        ensures
            r@ == self@.infer(inference.model()),
    {
        Inference {
            logic: self.logic.clone(),
            axioms: self.axioms.clone(),
            marker: self.marker,
            inference,
        }
    }

    /// The failure to prove this goal.
    fn err(&self) -> (r: SolveError)
        ensures
            Err::<(Derivation, usize), SolveError>(r) == self@.err(),
    {
        SolveError::InferError(self.logic.clone())
    }

    /// The depth to which the search for a proof of the goal goes: four times
    /// the number of nodes of the formula and of assumptions.
    pub fn bound(&self) -> (r: usize)
        ensures
            r == depth_bound(self@.logic, self@.axioms.len()),
    {
        let sum = self.logic.size().saturating_add(self.axioms.len());
        if sum > usize::MAX / 4 {
            usize::MAX
        } else {
            sum * 4
        }
    }

    /// Searches for a proof of the goal, to the depth that [`depth_bound`]
    /// gives. Markers are handed out from the one after the marker of the
    /// goal. A proof that comes back concludes the formula of the goal from
    /// the assumptions of the goal, and every node of it follows from its
    /// premises.
    pub fn solve(self) -> (r: Result<Inference, SolveError>)
        ensures
            match self@.solve(
                bump(self@.marker),
                depth_bound(self@.logic, self@.axioms.len()),
                Seq::empty(),
            ) {
                Ok((d, n)) => r matches Ok(i) && i@ == d && (n < usize::MAX ==> d.distinct()),
                Err(e) => r == Err::<Inference, SolveError>(e),
            },
            r matches Ok(i) ==> i@.valid() && i@.logic == self@.logic && i@.axioms == self@.axioms,
    {
        proof {
            lemma_solve(
                self@,
                bump(self@.marker),
                depth_bound(self@.logic, self@.axioms.len()),
                Seq::empty(),
            );
        }
        let fuel = self.bound();
        match self.search(next_marker(self.marker), fuel, &Seen::Start) {
            Ok((i, _)) => Ok(i),
            Err(e) => Err(e),
        }
    }

    /// Searches for a proof of the goal to depth `fuel`.
    fn search(&self, next: usize, fuel: usize, seen: &Seen) -> (r: SolveResult)
        ensures
            found(r, self@.solve(next, fuel as nat, seen.trail())),
        decreases fuel, 0nat, 0nat,
    {
        if fuel == 0 || seen.holds(&self.logic, &self.axioms) {
            return Err(self.err());
        }
        let seen = Seen::Step(seen, &self.logic, &self.axioms);
        match self.use_axioms(next, fuel - 1, &seen) {
            Ok(f) => Ok(f),
            Err(_) => match self.infer_logic(next, fuel - 1, &seen) {
                Ok(f) => Ok(f),
                Err(_) => Err(self.err()),
            },
        }
    }

    /// Tries to reach the goal from each assumption in turn.
    fn use_axioms(&self, next: usize, fuel: usize, seen: &Seen) -> (r: SolveResult)
        ensures
            found(r, self@.use_axioms(0, next, fuel as nat, seen.trail())),
        decreases fuel, 2nat, self@.axioms.len(),
    {
        let n = self.axioms.len();
        let mut i: usize = 0;
        while i < n
            invariant
                i <= n,
                n == self@.axioms.len(),
                self@.use_axioms(0, next, fuel as nat, seen.trail()) == self@.use_axioms(
                    i as nat,
                    next,
                    fuel as nat,
                    seen.trail(),
                ),
            decreases n - i,
        {
            let leaf = self.problem(self.axioms.logic(i), next).infer(
                InferenceType::Axiom(self.axioms.marker(i)),
            );
            match leaf.use_logic(self, next_marker(next), fuel, seen) {
                Ok(f) => {
                    return Ok(f);
                },
                Err(_) => {},
            }
            i = i + 1;
        }
        Err(self.err())
    }

    /// Introduces the main connective of the goal.
    fn infer_logic(&self, next: usize, fuel: usize, seen: &Seen) -> (r: SolveResult)
        ensures
            found(r, self@.infer_logic(next, fuel as nat, seen.trail())),
        decreases fuel, 1nat, 1nat,
    {
        match &self.logic {
            Logic::Not(p) => self.infer_not(p, next, fuel, seen),
            Logic::And(l, r) => self.infer_and(l, r, next, fuel, seen),
            Logic::Or(l, r) => self.infer_or(l, r, next, fuel, seen),
            Logic::To(l, r) => self.infer_to(l, r, next, fuel, seen),
            _ => Err(self.err()),
        }
    }

    /// Introduces a negation: assumes `logic` and proves falsity.
    fn infer_not(&self, logic: &Logic, next: usize, fuel: usize, seen: &Seen) -> (r: SolveResult)
        requires
            self@.logic == Logic::Not(Box::new(*logic)),
        ensures
            found(r, self@.infer_not(*logic, next, fuel as nat, seen.trail())),
        decreases fuel, 1nat, 0nat,
    {
        let p = self.assuming(&Logic::Cont, logic, next)?;
        let (i, n) = p.search(next_marker(next), fuel, seen)?;
        Ok((self.infer(InferenceType::UnaryInf(Box::new(i))), n))
    }

    /// Introduces a conjunction: proves both sides.
    fn infer_and(&self, left: &Logic, right: &Logic, next: usize, fuel: usize, seen: &Seen) -> (r:
        SolveResult)
        requires
            self@.logic == Logic::And(Box::new(*left), Box::new(*right)),
        ensures
            found(r, self@.infer_and(*left, *right, next, fuel as nat, seen.trail())),
        decreases fuel, 1nat, 0nat,
    {
        let p0 = self.problem(left, next);
        let p1 = self.problem(right, next_marker(next));
        let (i0, n0) = p0.search(next_marker(next_marker(next)), fuel, seen)?;
        let (i1, n1) = p1.search(n0, fuel, seen)?;
        Ok((self.infer(InferenceType::BinaryInf(Box::new(i0), Box::new(i1))), n1))
    }

    /// Introduces a disjunction: proves the left side or, where that fails,
    /// the right side.
    fn infer_or(&self, left: &Logic, right: &Logic, next: usize, fuel: usize, seen: &Seen) -> (r:
        SolveResult)
        requires
            self@.logic == Logic::Or(Box::new(*left), Box::new(*right)),
        ensures
            found(r, self@.infer_or(*left, *right, next, fuel as nat, seen.trail())),
        decreases fuel, 1nat, 0nat,
    {
        match self.problem(left, next).search(next_marker(next), fuel, seen) {
            Ok((i, n)) => Ok((self.infer(InferenceType::UnaryInf(Box::new(i))), n)),
            Err(_) => match self.problem(right, next).search(next_marker(next), fuel, seen) {
                Ok((i, n)) => Ok((self.infer(InferenceType::UnaryInf(Box::new(i))), n)),
                Err(_) => Err(self.err()),
            },
        }
    }

    /// Introduces an implication: assumes the left side and proves the right
    /// side.
    fn infer_to(&self, left: &Logic, right: &Logic, next: usize, fuel: usize, seen: &Seen) -> (r:
        SolveResult)
        requires
            self@.logic == Logic::To(Box::new(*left), Box::new(*right)),
        ensures
            found(r, self@.infer_to(*left, *right, next, fuel as nat, seen.trail())),
        decreases fuel, 1nat, 0nat,
    {
        let p = self.assuming(right, left, next)?;
        let (i, n) = p.search(next_marker(next), fuel, seen)?;
        Ok((self.infer(InferenceType::UnaryInf(Box::new(i))), n))
    }
}

impl Inference {
    /// The goal `logic` under the assumptions of this proof.
    fn problem(&self, logic: &Logic, marker: usize) -> (r: Problem)
        ensures
            r@ == self@.problem(*logic, marker),
    {
        Problem { logic: logic.clone(), axioms: self.axioms.clone(), marker }
    }

    /// The failure to go on from this proof.
    fn err(&self) -> (r: SolveError)
        ensures
            Err::<(Derivation, usize), SolveError>(r) == self@.err(),
    {
        SolveError::InferError(self.logic.clone())
    }

    /// Extends this proof to a proof of `target`.
    fn use_logic(self, target: &Problem, next: usize, fuel: usize, seen: &Seen) -> (r:
        SolveResult)
        ensures
            found(r, self@.use_logic(target@, next, fuel as nat, seen.trail())),
        decreases fuel, 1nat, 2 * self@.logic.spec_depth() + 1,
    {
        if self.logic.same(&target.logic) {
            return Ok((self, next));
        }
        match &self.logic {
            Logic::Cont => self.use_cont(target, next),
            Logic::Not(p) => {
                let p = (**p).clone();
                self.use_not(target, &p, next, fuel, seen)
            },
            Logic::And(l, r) => {
                let l = (**l).clone();
                let r = (**r).clone();
                self.use_and(target, &l, &r, next, fuel, seen)
            },
            Logic::Or(l, r) => {
                let l = (**l).clone();
                let r = (**r).clone();
                self.use_or(target, &l, &r, next, fuel, seen)
            },
            Logic::To(l, r) => {
                let l = (**l).clone();
                let r = (**r).clone();
                self.use_to(target, &l, &r, next, fuel, seen)
            },
            _ => Err(self.err()),
        }
    }

    /// Eliminates falsity: anything follows.
    fn use_cont(self, target: &Problem, next: usize) -> (r: SolveResult)
        requires
            self@.logic == Logic::Cont,
        ensures
            found(r, self@.use_cont(target@, next)),
    {
        Ok((target.infer(InferenceType::UnaryInf(Box::new(self))), next))
    }

    /// Eliminates the negation of `logic`.
    fn use_not(self, target: &Problem, logic: &Logic, next: usize, fuel: usize, seen: &Seen) -> (r:
        SolveResult)
        requires
            self@.logic == Logic::Not(Box::new(*logic)),
        ensures
            found(r, self@.use_not(target@, *logic, next, fuel as nat, seen.trail())),
        decreases fuel, 1nat, 2 * self@.logic.spec_depth(),
    {
        if target.logic.same(logic) {
            return Err(self.err());
        }
        let p0 = self.problem(logic, next);
        let p = self.problem(&Logic::Cont, next_marker(next));
        let (i0, n) = p0.search(next_marker(next_marker(next)), fuel, seen)?;
        let i = p.infer(InferenceType::BinaryInf(Box::new(i0), Box::new(self)));
        i.use_logic(target, n, fuel, seen)
    }

    /// Eliminates a conjunction: goes on from the left side or, where that
    /// fails, from the right side.
    fn use_and(
        self,
        target: &Problem,
        left: &Logic,
        right: &Logic,
        next: usize,
        fuel: usize,
        seen: &Seen,
    ) -> (r: SolveResult)
        requires
            self@.logic == Logic::And(Box::new(*left), Box::new(*right)),
        ensures
            found(r, self@.use_and(target@, *left, *right, next, fuel as nat, seen.trail())),
        decreases fuel, 1nat, 2 * self@.logic.spec_depth(),
    {
        let i = self.problem(left, next).infer(InferenceType::UnaryInf(Box::new(self.clone())));
        match i.use_logic(target, next_marker(next), fuel, seen) {
            Ok(f) => Ok(f),
            Err(_) => {
                let e = self.err();
                let i = self.problem(right, next).infer(InferenceType::UnaryInf(Box::new(self)));
                match i.use_logic(target, next_marker(next), fuel, seen) {
                    Ok(f) => Ok(f),
                    Err(_) => Err(e),
                }
            },
        }
    }

    /// Eliminates a disjunction: proves the goal under the added assumption
    /// of either side.
    fn use_or(
        self,
        target: &Problem,
        left: &Logic,
        right: &Logic,
        next: usize,
        fuel: usize,
        seen: &Seen,
    ) -> (r: SolveResult)
        requires
            self@.logic == Logic::Or(Box::new(*left), Box::new(*right)),
        ensures
            found(r, self@.use_or(target@, *left, *right, next, fuel as nat, seen.trail())),
        decreases fuel, 1nat, 2 * self@.logic.spec_depth(),
    {
        let p1 = target.assuming(&target.logic, left, next)?;
        let p2 = target.assuming(&target.logic, right, next_marker(next))?;
        let (i1, n1) = p1.search(next_marker(next_marker(next)), fuel, seen)?;
        let (i2, n2) = p2.search(n1, fuel, seen)?;
        Ok(
            (
                target.infer(InferenceType::TrinaryInf(Box::new(self), Box::new(i1), Box::new(i2))),
                n2,
            ),
        )
    }

    /// Eliminates an implication: proves its left side and goes on from its
    /// right side.
    fn use_to(
        self,
        target: &Problem,
        left: &Logic,
        right: &Logic,
        next: usize,
        fuel: usize,
        seen: &Seen,
    ) -> (r: SolveResult)
        requires
            self@.logic == Logic::To(Box::new(*left), Box::new(*right)),
        ensures
            found(r, self@.use_to(target@, *left, *right, next, fuel as nat, seen.trail())),
        decreases fuel, 1nat, 2 * self@.logic.spec_depth(),
    {
        if target.logic.same(left) {
            return Err(self.err());
        }
        let p0 = self.problem(left, next);
        let p = self.problem(right, next_marker(next));
        let (i0, n) = p0.search(next_marker(next_marker(next)), fuel, seen)?;
        let i = p.infer(InferenceType::BinaryInf(Box::new(i0), Box::new(self)));
        i.use_logic(target, n, fuel, seen)
    }
}

impl Problem {
    /// The goal to prove `logic` from `axioms`, with the marker `marker`.
    pub fn under(logic: &Logic, axioms: Axioms, marker: usize) -> (r: Self)
        ensures
            r@ == (Target { logic: *logic, axioms: axioms@, marker }),
    {
        Problem { logic: logic.clone(), axioms, marker }
    }

    /// One step of the search alone: introduces the main connective of the
    /// goal and searches for the proofs that the rule asks for, to the depth
    /// that [`depth_bound`] gives.
    pub fn introduce(&self) -> (r: Result<Inference, SolveError>)
        ensures
            match self@.infer_logic(
                bump(self@.marker),
                depth_bound(self@.logic, self@.axioms.len()),
                Seq::empty(),
            ) {
                Ok((d, _)) => r matches Ok(i) && i@ == d,
                Err(e) => r == Err::<Inference, SolveError>(e),
            },
            r matches Ok(i) ==> i@.valid() && i@.logic == self@.logic && i@.axioms == self@.axioms,
    {
        proof {
            lemma_infer_logic(
                self@,
                bump(self@.marker),
                depth_bound(self@.logic, self@.axioms.len()),
                Seq::empty(),
            );
        }
        let fuel = self.bound();
        match self.infer_logic(next_marker(self.marker), fuel, &Seen::Start) {
            Ok((i, _)) => Ok(i),
            Err(e) => Err(e),
        }
    }
}

impl Logic {
    /// `r` is the answer of the solver for the formula: the assignment that
    /// the validity check reports, where it reports one; else what the
    /// search finds.
    pub open spec fn solved(self, r: Result<Inference, SolveError>) -> bool {
        match self.falsifier() {
            Some(w) => r matches Err(SolveError::CheckError(CheckError::TurnsOutFalse(g, val)))
                && g == self && val.bound() == w,
            None => match self.search() {
                Ok((d, _)) => r matches Ok(i) && i@ == d,
                Err(e) => r == Err::<Inference, SolveError>(e),
            },
        }
    }

    /// Proves the formula from no assumptions. A formula that is not
    /// classically valid has no proof and is refused with an assignment that
    /// makes it false. For a valid formula the search may still fail. A proof
    /// that comes back is a proof of the formula: every node follows from
    /// its premises by a rule of natural deduction, the root concludes the
    /// formula from no assumptions, and every assumption in use is made by a
    /// node above its use. Its nodes have markers of their own, as long as
    /// the search handed out fewer markers than there are.
    pub fn solve(&self) -> (r: Result<Inference, SolveError>)
        ensures
            self.solved(r),
            r matches Ok(i) ==> i@.valid() && i@.logic == *self && i@.axioms.len() == 0
                && i@.discharged(Set::empty()) && self.valid(),
            r matches Ok(i) ==> (self.search() matches Ok((_, n)) && (n < usize::MAX
                ==> i@.distinct())),
            r matches Err(SolveError::CheckError(_)) <==> !self.valid(),
    {
        match self.check_all() {
            Err(e) => Err(SolveError::CheckError(e)),
            Ok(()) => {
                proof {
                    lemma_search_sound(*self);
                }
                Problem::new(self).solve()
            },
        }
    }
}

/// The solver is a function of the formula: two answers for one formula are
/// the same proof, or the same failure.
pub proof fn lemma_solve_deterministic(
    g: Logic,
    r1: Result<Inference, SolveError>,
    r2: Result<Inference, SolveError>,
)
    requires
        g.solved(r1),
        g.solved(r2),
    ensures
        match (r1, r2) {
            (Ok(a), Ok(b)) => a@ == b@,
            (
                Err(SolveError::CheckError(CheckError::TurnsOutFalse(f1, v1))),
                Err(SolveError::CheckError(CheckError::TurnsOutFalse(f2, v2))),
            ) => f1 == f2 && v1.bound() == v2.bound(),
            (Err(a), Err(b)) => a == b,
            _ => false,
        },
{
}

/// The introduction of a disjunction prefers the left side: where the left
/// side can be proved, the proof of the disjunction is the introduction from
/// that proof, whether or not the right side can be proved too.
pub proof fn lemma_or_prefers_left(
    t: Target,
    left: Logic,
    right: Logic,
    next: usize,
    fuel: nat,
    trail: Trail,
)
    requires
        t.problem(left, next).solve(bump(next), fuel, trail) is Ok,
    ensures
        ({
            let (d, n) = t.problem(left, next).solve(bump(next), fuel, trail)->Ok_0;
            t.infer_or(left, right, next, fuel, trail) == Ok::<(Derivation, usize), SolveError>(
                (t.infer(Rule::Unary(Box::new(d))), n),
            )
        }),
{
}

/// A disjunction that is to be proved from no assumptions is proved by its
/// left side where that can be proved.
pub proof fn lemma_or_prefers_left_at_root(
    t: Target,
    left: Logic,
    right: Logic,
    next: usize,
    fuel: nat,
    trail: Trail,
)
    requires
        t.logic == Logic::Or(Box::new(left), Box::new(right)),
        t.axioms.len() == 0,
        fuel > 0,
        !trail.contains((t.logic, t.axioms)),
        t.problem(left, next).solve(
            bump(next),
            (fuel - 1) as nat,
            trail.push((t.logic, t.axioms)),
        ) is Ok,
    ensures
        ({
            let (d, n) = t.problem(left, next).solve(
                bump(next),
                (fuel - 1) as nat,
                trail.push((t.logic, t.axioms)),
            )->Ok_0;
            t.solve(next, fuel, trail) == Ok::<(Derivation, usize), SolveError>(
                (t.infer(Rule::Unary(Box::new(d))), n),
            )
        }),
{
    let inner = trail.push((t.logic, t.axioms));
    assert(t.use_axioms(0, next, (fuel - 1) as nat, inner) is Err);
    assert(t.infer_logic(next, (fuel - 1) as nat, inner) == t.infer_or(
        left,
        right,
        next,
        (fuel - 1) as nat,
        inner,
    ));
}

/// A formula that is assumed already is not assumed again: the introduction
/// of an implication or a negation, and the elimination of a disjunction,
/// fail on it.
pub proof fn lemma_duplicate_refused(
    t: Target,
    i: Derivation,
    left: Logic,
    right: Logic,
    next: usize,
    fuel: nat,
    trail: Trail,
)
    requires
        has_key(t.axioms, left),
    ensures
        t.infer_to(left, right, next, fuel, trail) == Err::<(Derivation, usize), SolveError>(
            SolveError::InternalInvariant(left),
        ),
        t.infer_not(left, next, fuel, trail) == Err::<(Derivation, usize), SolveError>(
            SolveError::InternalInvariant(left),
        ),
        i.use_or(t, left, right, next, fuel, trail) == Err::<(Derivation, usize), SolveError>(
            SolveError::InternalInvariant(left),
        ),
{
}

} // verus!
