//! The proof search as a mathematical function: what the solver computes.

use crate::axioms::{has_key, inserted};
use crate::check::CheckError;
use crate::inference::{Derivation, Rule};
use crate::logic::Logic;
use vstd::prelude::*;
use vstd::string::StringExecFns;

verus! {

/// Why no proof was found.
#[derive(Debug)]
pub enum SolveError {
    /// The search found no proof of the formula. The formula may still be
    /// provable.
    InferError(Logic),
    /// The formula is not classically valid, so it has no proof.
    CheckError(CheckError),
    /// The formula was to be assumed while it was assumed already.
    InternalInvariant(Logic),
}

impl SolveError {
    /// The failure in words.
    pub open spec fn message(self) -> Seq<char> {
        match self {
            SolveError::InferError(logic) => "could not infer: "@ + logic.spec_text(),
            SolveError::CheckError(e) => e.message(),
            SolveError::InternalInvariant(logic) => "assumed twice: "@ + logic.spec_text(),
        }
    }

    /// The failure in words.
    pub fn to_string(&self) -> (r: String)
        ensures
            r@ == self.message(),
    {
        match self {
            SolveError::InferError(logic) => {
                let mut out = String::from_str("could not infer: ");
                logic.write_text(false, &mut out);
                out
            },
            SolveError::CheckError(e) => e.to_string(),
            SolveError::InternalInvariant(logic) => {
                let mut out = String::from_str("assumed twice: ");
                logic.write_text(false, &mut out);
                out
            },
        }
    }
}

/// A goal of the search as a mathematical value: the formula to prove, the
/// assumptions at hand, and the marker of the inference that will conclude
/// it.
pub struct Target {
    /// The formula to prove.
    pub logic: Logic,
    /// The assumptions at hand, in their order.
    pub axioms: Seq<(Logic, usize)>,
    /// The marker of the inference that will conclude the formula.
    pub marker: usize,
}

/// The goals that the search is working on: each a formula with the
/// assumptions under which it is to be proved.
pub type Trail = Seq<(Logic, Seq<(Logic, usize)>)>;

/// A proof, with the least marker that is still unused; or the reason why
/// there is none.
pub type Found = Result<(Derivation, usize), SolveError>;

/// The marker after `n`. The largest `usize` is its own successor: markers
/// are fresh as long as fewer than that many were handed out.
pub open spec fn bump(n: usize) -> usize {
    if n < usize::MAX {
        (n + 1) as usize
    } else {
        n
    }
}

/// The depth to which the search for a proof of `logic` from `assumed`
/// assumptions goes: four times the number of nodes of the formula and of
/// assumptions, cut off at the largest `usize`.
pub open spec fn depth_bound(logic: Logic, assumed: nat) -> nat {
    crate::logic::capped(4 * (logic.spec_size() + assumed))
}

impl Target {
    /// The inference that concludes this goal by `rule`.
    pub open spec fn infer(self, rule: Rule) -> Derivation {
        Derivation { logic: self.logic, axioms: self.axioms, marker: self.marker, rule }
    }

    /// The goal `logic` under the assumptions of this goal, with the marker
    /// `marker`.
    pub open spec fn problem(self, logic: Logic, marker: usize) -> Target {
        Target { logic, axioms: self.axioms, marker }
    }

    /// The goal `logic` under the assumptions of this goal and `k`, which is
    /// assumed under the marker of this goal.
    pub open spec fn assuming(self, logic: Logic, k: Logic, marker: usize) -> Target {
        Target { logic, axioms: inserted(self.axioms, k, self.marker), marker }
    }

    /// The failure to prove this goal.
    pub open spec fn err(self) -> Found {
        Err(SolveError::InferError(self.logic))
    }

    /// Searches for a proof of the goal. The search gives up at depth `fuel`
    /// and on a goal that it is working on already (`trail`). It first tries
    /// to reach the goal from each assumption in turn, then to introduce the
    /// main connective of the goal.
    pub open spec fn solve(self, next: usize, fuel: nat, trail: Trail) -> Found
        decreases fuel, 0nat, 0nat,
    {
        if fuel == 0 || trail.contains((self.logic, self.axioms)) {
            self.err()
        } else {
            let trail = trail.push((self.logic, self.axioms));
            match self.use_axioms(0, next, (fuel - 1) as nat, trail) {
                Ok(found) => Ok(found),
                Err(_) => match self.infer_logic(next, (fuel - 1) as nat, trail) {
                    Ok(found) => Ok(found),
                    Err(_) => self.err(),
                },
            }
        }
    }

    /// Tries the assumptions from place `from` on, in their order: the first
    /// from which the goal can be reached gives the proof.
    pub open spec fn use_axioms(self, from: nat, next: usize, fuel: nat, trail: Trail) -> Found
        decreases fuel, 2nat, self.axioms.len() - from,
    {
        if from >= self.axioms.len() {
            self.err()
        } else {
            let (logic, marker) = self.axioms[from as int];
            let leaf = self.problem(logic, next).infer(Rule::Axiom(marker));
            match leaf.use_logic(self, bump(next), fuel, trail) {
                Ok(found) => Ok(found),
                Err(_) => self.use_axioms(from + 1, next, fuel, trail),
            }
        }
    }

    /// Introduces the main connective of the goal.
    pub open spec fn infer_logic(self, next: usize, fuel: nat, trail: Trail) -> Found
        decreases fuel, 1nat, 1nat,
    {
        match self.logic {
            Logic::Not(p) => self.infer_not(*p, next, fuel, trail),
            Logic::And(l, r) => self.infer_and(*l, *r, next, fuel, trail),
            Logic::Or(l, r) => self.infer_or(*l, *r, next, fuel, trail),
            Logic::To(l, r) => self.infer_to(*l, *r, next, fuel, trail),
            _ => self.err(),
        }
    }

    /// Introduces a negation: assumes `logic` and proves falsity.
    pub open spec fn infer_not(self, logic: Logic, next: usize, fuel: nat, trail: Trail) -> Found
        decreases fuel, 1nat, 0nat,
    {
        if has_key(self.axioms, logic) {
            Err(SolveError::InternalInvariant(logic))
        } else {
            match self.assuming(Logic::Cont, logic, next).solve(bump(next), fuel, trail) {
                Ok((i, n)) => Ok((self.infer(Rule::Unary(Box::new(i))), n)),
                Err(e) => Err(e),
            }
        }
    }

    /// Introduces a conjunction: proves both sides.
    pub open spec fn infer_and(
        self,
        left: Logic,
        right: Logic,
        next: usize,
        fuel: nat,
        trail: Trail,
    ) -> Found
        decreases fuel, 1nat, 0nat,
    {
        match self.problem(left, next).solve(bump(bump(next)), fuel, trail) {
            Ok((i0, n0)) => match self.problem(right, bump(next)).solve(n0, fuel, trail) {
                Ok((i1, n1)) => Ok((self.infer(Rule::Binary(Box::new(i0), Box::new(i1))), n1)),
                Err(e) => Err(e),
            },
            Err(e) => Err(e),
        }
    }

    /// Introduces a disjunction: proves the left side or, where that fails,
    /// the right side.
    pub open spec fn infer_or(
        self,
        left: Logic,
        right: Logic,
        next: usize,
        fuel: nat,
        trail: Trail,
    ) -> Found
        decreases fuel, 1nat, 0nat,
    {
        match self.problem(left, next).solve(bump(next), fuel, trail) {
            Ok((i, n)) => Ok((self.infer(Rule::Unary(Box::new(i))), n)),
            Err(_) => match self.problem(right, next).solve(bump(next), fuel, trail) {
                Ok((i, n)) => Ok((self.infer(Rule::Unary(Box::new(i))), n)),
                Err(_) => self.err(),
            },
        }
    }

    /// Introduces an implication: assumes the left side and proves the right
    /// side.
    pub open spec fn infer_to(
        self,
        left: Logic,
        right: Logic,
        next: usize,
        fuel: nat,
        trail: Trail,
    ) -> Found
        decreases fuel, 1nat, 0nat,
    {
        if has_key(self.axioms, left) {
            Err(SolveError::InternalInvariant(left))
        } else {
            match self.assuming(right, left, next).solve(bump(next), fuel, trail) {
                Ok((i, n)) => Ok((self.infer(Rule::Unary(Box::new(i))), n)),
                Err(e) => Err(e),
            }
        }
    }
}

impl Derivation {
    /// The failure to go on from this proof.
    pub open spec fn err(self) -> Found {
        Err(SolveError::InferError(self.logic))
    }

    /// The goal `logic` under the assumptions of this proof, with the marker
    /// `marker`.
    pub open spec fn problem(self, logic: Logic, marker: usize) -> Target {
        Target { logic, axioms: self.axioms, marker }
    }

    /// Extends this proof to a proof of `target`: it is one already, or the
    /// main connective of its conclusion is eliminated.
    pub open spec fn use_logic(self, target: Target, next: usize, fuel: nat, trail: Trail) -> Found
        decreases fuel, 1nat, 2 * self.logic.spec_depth() + 1,
    {
        if self.logic == target.logic {
            Ok((self, next))
        } else {
            match self.logic {
                Logic::Cont => self.use_cont(target, next),
                Logic::Not(p) => self.use_not(target, *p, next, fuel, trail),
                Logic::And(l, r) => self.use_and(target, *l, *r, next, fuel, trail),
                Logic::Or(l, r) => self.use_or(target, *l, *r, next, fuel, trail),
                Logic::To(l, r) => self.use_to(target, *l, *r, next, fuel, trail),
                _ => self.err(),
            }
        }
    }

    /// Eliminates falsity: anything follows.
    pub open spec fn use_cont(self, target: Target, next: usize) -> Found {
        Ok((target.infer(Rule::Unary(Box::new(self))), next))
    }

    /// Eliminates the negation of `logic`: proves `logic`, concludes
    /// falsity, and goes on from there. Not tried where `logic` is the goal
    /// itself.
    pub open spec fn use_not(
        self,
        target: Target,
        logic: Logic,
        next: usize,
        fuel: nat,
        trail: Trail,
    ) -> Found
        decreases fuel, 1nat, 2 * self.logic.spec_depth(),
    {
        if target.logic == logic || self.logic != Logic::Not(Box::new(logic)) {
            self.err()
        } else {
            match self.problem(logic, next).solve(bump(bump(next)), fuel, trail) {
                Ok((i0, n)) => self.problem(Logic::Cont, bump(next)).infer(
                    Rule::Binary(Box::new(i0), Box::new(self)),
                ).use_logic(target, n, fuel, trail),
                Err(e) => Err(e),
            }
        }
    }

    /// Eliminates a conjunction: goes on from the left side or, where that
    /// fails, from the right side.
    pub open spec fn use_and(
        self,
        target: Target,
        left: Logic,
        right: Logic,
        next: usize,
        fuel: nat,
        trail: Trail,
    ) -> Found
        decreases fuel, 1nat, 2 * self.logic.spec_depth(),
    {
        if self.logic != Logic::And(Box::new(left), Box::new(right)) {
            self.err()
        } else {
            match self.problem(left, next).infer(Rule::Unary(Box::new(self))).use_logic(
                target,
                bump(next),
                fuel,
                trail,
            ) {
                Ok(found) => Ok(found),
                Err(_) => match self.problem(right, next).infer(
                    Rule::Unary(Box::new(self)),
                ).use_logic(target, bump(next), fuel, trail) {
                    Ok(found) => Ok(found),
                    Err(_) => self.err(),
                },
            }
        }
    }

    /// Eliminates a disjunction: proves the goal once under the added
    /// assumption of the left side and once under that of the right side.
    /// Both assumptions carry the marker of the goal.
    pub open spec fn use_or(
        self,
        target: Target,
        left: Logic,
        right: Logic,
        next: usize,
        fuel: nat,
        trail: Trail,
    ) -> Found
        decreases fuel, 1nat, 2 * self.logic.spec_depth(),
    {
        if has_key(target.axioms, left) {
            Err(SolveError::InternalInvariant(left))
        } else if has_key(target.axioms, right) {
            Err(SolveError::InternalInvariant(right))
        } else {
            match target.assuming(target.logic, left, next).solve(bump(bump(next)), fuel, trail) {
                Ok((i1, n1)) => match target.assuming(target.logic, right, bump(next)).solve(
                    n1,
                    fuel,
                    trail,
                ) {
                    Ok((i2, n2)) => Ok(
                        (
                            target.infer(Rule::Ternary(Box::new(self), Box::new(i1), Box::new(i2))),
                            n2,
                        ),
                    ),
                    Err(e) => Err(e),
                },
                Err(e) => Err(e),
            }
        }
    }

    /// Eliminates an implication: proves its left side, concludes its right
    /// side, and goes on from there. Not tried where the left side is the
    /// goal itself.
    pub open spec fn use_to(
        self,
        target: Target,
        left: Logic,
        right: Logic,
        next: usize,
        fuel: nat,
        trail: Trail,
    ) -> Found
        decreases fuel, 1nat, 2 * self.logic.spec_depth(),
    {
        if target.logic == left || self.logic != Logic::To(Box::new(left), Box::new(right)) {
            self.err()
        } else {
            match self.problem(left, next).solve(bump(bump(next)), fuel, trail) {
                Ok((i0, n)) => self.problem(right, bump(next)).infer(
                    Rule::Binary(Box::new(i0), Box::new(self)),
                ).use_logic(target, n, fuel, trail),
                Err(e) => Err(e),
            }
        }
    }
}

impl Logic {
    /// The goal to prove the formula from no assumptions.
    pub open spec fn root(self) -> Target {
        Target { logic: self, axioms: Seq::empty(), marker: 0 }
    }

    /// What the search for a proof of the formula from no assumptions finds.
    pub open spec fn search(self) -> Found {
        self.root().solve(bump(0), depth_bound(self, 0), Seq::empty())
    }
}

} // verus!
