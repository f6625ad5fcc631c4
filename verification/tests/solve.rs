use prop_logic::axioms::Axioms;
use prop_logic::inference::{Inference, InferenceType};
use prop_logic::search::SolveError;
use prop_logic::solver::Problem;
use prop_logic::{CheckError, Logic, TeX};

fn atom(c: char) -> Logic {
    Logic::Base(c)
}

fn to(l: Logic, r: Logic) -> Logic {
    Logic::To(Box::new(l), Box::new(r))
}

fn not(p: Logic) -> Logic {
    Logic::Not(Box::new(p))
}

fn and(l: Logic, r: Logic) -> Logic {
    Logic::And(Box::new(l), Box::new(r))
}

fn or(l: Logic, r: Logic) -> Logic {
    Logic::Or(Box::new(l), Box::new(r))
}

/// The assumptions of `parent` with `k` added under the marker of `parent`.
fn extended(parent: &Inference, k: &Logic) -> Option<Axioms> {
    parent.axioms.insert(k, parent.marker)
}

/// Checks that every node follows from its premises by a rule of natural
/// deduction, and counts the nodes.
fn check(p: &Inference) -> usize {
    match &p.inference {
        InferenceType::Axiom(m) => {
            assert_eq!(p.axioms.find(&p.logic), Some(*m), "no such assumption: {}", p.logic.to_string());
            1
        }
        InferenceType::UnaryInf(c) => {
            let plain = c.axioms.same(&p.axioms);
            let to_intro = match &p.logic {
                Logic::To(l, r) => {
                    c.logic == **r && extended(p, l).map_or(false, |a| a.same(&c.axioms))
                }
                _ => false,
            };
            let not_intro = match &p.logic {
                Logic::Not(q) => {
                    c.logic == Logic::Cont && extended(p, q).map_or(false, |a| a.same(&c.axioms))
                }
                _ => false,
            };
            let and_elim = plain
                && match &c.logic {
                    Logic::And(l, r) => p.logic == **l || p.logic == **r,
                    _ => false,
                };
            let or_intro = plain
                && match &p.logic {
                    Logic::Or(l, r) => c.logic == **l || c.logic == **r,
                    _ => false,
                };
            let cont_elim = plain && c.logic == Logic::Cont;
            assert!(
                to_intro || not_intro || and_elim || or_intro || cont_elim,
                "no rule gives {} from {}",
                p.logic.to_string(),
                c.logic.to_string()
            );
            1 + check(c)
        }
        InferenceType::BinaryInf(a, b) => {
            assert!(a.axioms.same(&p.axioms) && b.axioms.same(&p.axioms));
            let and_intro = p.logic == and(a.logic.clone(), b.logic.clone());
            let to_elim = b.logic == to(a.logic.clone(), p.logic.clone());
            let not_elim = p.logic == Logic::Cont && b.logic == not(a.logic.clone());
            assert!(
                and_intro || to_elim || not_elim,
                "no rule gives {} from {} and {}",
                p.logic.to_string(),
                a.logic.to_string(),
                b.logic.to_string()
            );
            1 + check(a) + check(b)
        }
        InferenceType::TrinaryInf(a, b, c) => {
            assert!(a.axioms.same(&p.axioms));
            assert_eq!(b.logic, p.logic);
            assert_eq!(c.logic, p.logic);
            match &a.logic {
                Logic::Or(l, r) => {
                    assert!(extended(p, l).unwrap().same(&b.axioms));
                    assert!(extended(p, r).unwrap().same(&c.axioms));
                }
                other => panic!("not a disjunction: {}", other.to_string()),
            }
            1 + check(a) + check(b) + check(c)
        }
    }
}

/// The markers of the nodes of a proof, a node before its premises.
fn markers(p: &Inference, acc: &mut Vec<usize>) {
    acc.push(p.marker);
    match &p.inference {
        InferenceType::Axiom(_) => {}
        InferenceType::UnaryInf(a) => markers(a, acc),
        InferenceType::BinaryInf(a, b) => {
            markers(a, acc);
            markers(b, acc);
        }
        InferenceType::TrinaryInf(a, b, c) => {
            markers(a, acc);
            markers(b, acc);
            markers(c, acc);
        }
    }
}

fn provable() -> Vec<Logic> {
    vec![
        to(atom('A'), atom('A')),
        to(atom('A'), to(atom('B'), atom('A'))),
        to(
            and(to(atom('A'), atom('C')), to(atom('B'), atom('C'))),
            to(or(atom('A'), atom('B')), atom('C')),
        ),
        to(
            and(to(atom('A'), atom('C')), to(atom('B'), atom('D'))),
            to(or(atom('A'), atom('B')), or(atom('C'), atom('D'))),
        ),
        to(atom('A'), not(not(atom('A')))),
        to(to(atom('A'), not(atom('B'))), to(atom('B'), not(atom('A')))),
        to(or(atom('A'), atom('B')), or(atom('B'), atom('A'))),
        to(and(atom('A'), atom('B')), and(atom('B'), atom('A'))),
        to(Logic::Cont, atom('A')),
        not(Logic::Cont),
        to(
            to(or(atom('A'), atom('B')), atom('C')),
            and(to(atom('A'), atom('C')), to(atom('B'), atom('C'))),
        ),
        to(not(or(atom('A'), atom('B'))), and(not(atom('A')), not(atom('B')))),
        to(and(not(atom('A')), not(atom('B'))), not(or(atom('A'), atom('B')))),
        not(not(or(atom('A'), not(atom('A'))))),
        to(to(and(atom('A'), atom('B')), atom('C')), to(atom('A'), to(atom('B'), atom('C')))),
        to(to(atom('A'), atom('B')), to(not(atom('B')), not(atom('A')))),
        to(
            and(
                and(to(atom('A'), atom('B')), to(atom('B'), atom('C'))),
                and(to(atom('C'), atom('D')), to(atom('D'), atom('A'))),
            ),
            to(atom('D'), atom('C')),
        ),
        to(
            and(to(atom('A'), atom('B')), or(atom('C'), not(atom('B')))),
            to(atom('A'), or(atom('C'), Logic::Cont)),
        ),
    ]
}

#[test]
fn every_node_of_a_proof_follows_from_its_premises() {
    for goal in provable() {
        let proof = goal.solve().unwrap();
        assert_eq!(proof.logic, goal);
        assert_eq!(proof.axioms.len(), 0);
        assert!(check(&proof) >= 2);
        assert!(goal.check_all().is_ok());
    }
}

#[test]
fn markers_of_a_proof_are_pairwise_distinct() {
    for goal in provable() {
        let proof = goal.solve().unwrap();
        let mut all = Vec::new();
        markers(&proof, &mut all);
        let mut sorted = all.clone();
        sorted.sort();
        sorted.dedup();
        assert_eq!(sorted.len(), all.len());
        assert_eq!(proof.marker, 0);
    }
}

#[test]
fn solving_twice_gives_the_same_proof() {
    for goal in provable() {
        let first = goal.solve().unwrap();
        let second = goal.clone().solve().unwrap();
        assert_eq!(format!("{:?}", first), format!("{:?}", second));
        assert_eq!(first.to_string(), second.to_string());
        assert_eq!(first.tex(), second.tex());
    }
}

#[test]
fn an_atom_is_not_classically_valid() {
    match atom('A').solve() {
        Err(SolveError::CheckError(CheckError::TurnsOutFalse(f, v))) => {
            assert_eq!(f, atom('A'));
            assert_eq!(v.entries(), vec![('A', false)]);
        }
        other => panic!("unexpected: {:?}", other),
    }
}

#[test]
fn identity_is_an_introduction_over_an_axiom() {
    let goal = to(atom('A'), atom('A'));
    let proof = goal.solve().unwrap();
    assert_eq!(proof.logic, goal);
    assert_eq!(proof.axioms.len(), 0);
    assert_eq!(proof.marker, 0);
    match &proof.inference {
        InferenceType::UnaryInf(leaf) => {
            assert_eq!(leaf.logic, atom('A'));
            assert_eq!(leaf.axioms.entries(), vec![(atom('A'), 0)]);
            assert_eq!(leaf.marker, 2);
            assert!(matches!(leaf.inference, InferenceType::Axiom(0)));
        }
        other => panic!("unexpected rule: {:?}", other),
    }
    assert_eq!(proof.to_string(), "A → A : 1\n+ A from: 1\n");
}

#[test]
fn a_disjunction_is_proved_by_its_left_side() {
    let left = to(atom('A'), atom('A'));
    let right = to(atom('B'), atom('B'));
    let proof = or(left.clone(), right).solve().unwrap();
    match &proof.inference {
        InferenceType::UnaryInf(side) => assert_eq!(side.logic, left),
        other => panic!("unexpected rule: {:?}", other),
    }
    let proof = or(atom('B'), to(atom('A'), atom('A'))).solve().unwrap();
    match &proof.inference {
        InferenceType::UnaryInf(side) => assert_eq!(side.logic, to(atom('A'), atom('A'))),
        other => panic!("unexpected rule: {:?}", other),
    }
}

#[test]
fn a_formula_is_not_assumed_twice() {
    let axioms = Axioms::new().insert(&atom('A'), 7).unwrap();
    let goal = to(atom('A'), atom('B'));
    match Problem::under(&goal, axioms.clone(), 0).introduce() {
        Err(SolveError::InternalInvariant(f)) => assert_eq!(f, atom('A')),
        other => panic!("unexpected: {:?}", other),
    }
    match Problem::under(&not(atom('A')), axioms.clone(), 0).introduce() {
        Err(SolveError::InternalInvariant(f)) => assert_eq!(f, atom('A')),
        other => panic!("unexpected: {:?}", other),
    }
    match Problem::under(&goal, axioms, 0).solve() {
        Err(SolveError::InferError(f)) => assert_eq!(f, goal),
        other => panic!("unexpected: {:?}", other),
    }
}

#[test]
fn introduction_needs_a_connective() {
    match Problem::new(&atom('A')).introduce() {
        Err(SolveError::InferError(f)) => assert_eq!(f, atom('A')),
        other => panic!("unexpected: {:?}", other),
    }
    match Problem::new(&Logic::Cont).introduce() {
        Err(SolveError::InferError(f)) => assert_eq!(f, Logic::Cont),
        other => panic!("unexpected: {:?}", other),
    }
    let both = and(to(atom('A'), atom('A')), not(Logic::Cont));
    let proof = Problem::new(&both).introduce().unwrap();
    assert!(matches!(proof.inference, InferenceType::BinaryInf(_, _)));
    assert_eq!(check(&proof), 5);
}

#[test]
fn a_goal_is_reached_from_an_assumption() {
    let axioms = Axioms::new()
        .insert(&and(atom('A'), to(atom('A'), atom('B'))), 3)
        .unwrap();
    let proof = Problem::under(&atom('B'), axioms, 5).solve().unwrap();
    assert_eq!(proof.logic, atom('B'));
    assert_eq!(proof.axioms.len(), 1);
    assert_eq!(
        proof.to_string(),
        "B\n+ A\n| + A ∧ (A → B) from: 0\n+ A → B\n  + A ∧ (A → B) from: 0\n"
    );
    assert_eq!(check(&proof), 5);
}

#[test]
fn double_negation_elimination_is_out_of_reach() {
    let goal = to(not(not(atom('A'))), atom('A'));
    assert!(goal.check_all().is_ok());
    match goal.solve() {
        Err(SolveError::InferError(f)) => assert_eq!(f, goal),
        other => panic!("unexpected: {:?}", other),
    }
    for goal in [
        or(atom('A'), not(atom('A'))),
        to(to(to(atom('A'), atom('B')), atom('A')), atom('A')),
        or(to(atom('A'), atom('B')), to(atom('B'), atom('A'))),
    ] {
        match goal.solve() {
            Err(SolveError::InferError(f)) => assert_eq!(f, goal),
            other => panic!("unexpected: {:?}", other),
        }
    }
}

#[test]
fn a_contradiction_is_not_classically_valid() {
    let goal = and(atom('A'), not(atom('A')));
    match goal.solve() {
        Err(SolveError::CheckError(CheckError::TurnsOutFalse(f, v))) => {
            assert_eq!(f, goal);
            assert_eq!(v.entries(), vec![('A', true)]);
        }
        other => panic!("unexpected: {:?}", other),
    }
}

#[test]
fn solve_errors_in_words() {
    let e = to(not(not(atom('A'))), atom('A')).solve().unwrap_err();
    assert_eq!(e.to_string(), "could not infer: ¬ ¬ A → A");
    let e = atom('A').solve().unwrap_err();
    assert_eq!(e.to_string(), "A turns out false when: {'A': false}");
    let axioms = Axioms::new().insert(&atom('A'), 7).unwrap();
    let e = Problem::under(&to(atom('A'), atom('B')), axioms, 0)
        .introduce()
        .unwrap_err();
    assert_eq!(e.to_string(), "assumed twice: A");
}

#[test]
fn weakening_nests_introductions() {
    let proof = Logic::new("A \\to (B \\to A)").unwrap().solve().unwrap();
    assert_eq!(proof.to_string(), "A → B → A : 1\n+ B → A\n  + A from: 1\n");
    assert_eq!(
        proof.tex(),
        "\\AxiomC{$[A]_{1}$}\n\\UnaryInfC{$B \\to A$}\n\\RightLabel{\\scriptsize 1}\n\\UnaryInfC{$A \\to B \\to A$}\n"
    );
}

#[test]
fn proof_by_cases_eliminates_the_disjunction() {
    let proof = Logic::new("(A \\to C) \\land (B \\to C) \\to (A \\lor B \\to C)")
        .unwrap()
        .solve()
        .unwrap();
    let expected = "\
(A → C) ∧ (B → C) → A ∨ B → C : 1
+ A ∨ B → C : 2
  + C : 3
    + A ∨ B from: 2
    + C
    | + A from: 3
    | + A → C
    |   + (A → C) ∧ (B → C) from: 1
    + C
      + B from: 3
      + B → C
        + (A → C) ∧ (B → C) from: 1
";
    assert_eq!(proof.to_string(), expected);
    let expected = "\
\\AxiomC{$[A \\lor B]_{2}$}
\\AxiomC{$[A]_{3}$}
\\AxiomC{$[(A \\to C) \\land (B \\to C)]_{1}$}
\\UnaryInfC{$A \\to C$}
\\BinaryInfC{$C$}
\\AxiomC{$[B]_{3}$}
\\AxiomC{$[(A \\to C) \\land (B \\to C)]_{1}$}
\\UnaryInfC{$B \\to C$}
\\BinaryInfC{$C$}
\\RightLabel{\\scriptsize 3}
\\TrinaryInfC{$C$}
\\RightLabel{\\scriptsize 2}
\\UnaryInfC{$A \\lor B \\to C$}
\\RightLabel{\\scriptsize 1}
\\UnaryInfC{$(A \\to C) \\land (B \\to C) \\to A \\lor B \\to C$}
";
    assert_eq!(proof.tex(), expected);
    assert_eq!(proof.numbering().len(), 3);
}

#[test]
fn proof_by_cases_with_an_introduction_on_each_branch() {
    let proof = Logic::new("((A \\to C) \\land (B \\to D)) \\to ((A \\lor B) \\to (C \\lor D))")
        .unwrap()
        .solve()
        .unwrap();
    let expected = "\
(A → C) ∧ (B → D) → A ∨ B → C ∨ D : 1
+ A ∨ B → C ∨ D : 2
  + C ∨ D : 3
    + A ∨ B from: 2
    + C ∨ D
    | + C
    |   + A from: 3
    |   + A → C
    |     + (A → C) ∧ (B → D) from: 1
    + C ∨ D
      + D
        + B from: 3
        + B → D
          + (A → C) ∧ (B → D) from: 1
";
    assert_eq!(proof.to_string(), expected);
}

#[test]
fn double_negation_introduction() {
    let proof = Logic::new("A \\to \\lnot \\lnot A").unwrap().solve().unwrap();
    assert_eq!(
        proof.to_string(),
        "A → ¬ ¬ A : 1\n+ ¬ ¬ A : 2\n  + ⊥\n    + A from: 1\n    + ¬ A from: 2\n"
    );
    assert_eq!(
        proof.tex(),
        "\\AxiomC{$[A]_{1}$}\n\\AxiomC{$[\\lnot A]_{2}$}\n\\BinaryInfC{$\\perp$}\n\\RightLabel{\\scriptsize 2}\n\\UnaryInfC{$\\lnot \\lnot A$}\n\\RightLabel{\\scriptsize 1}\n\\UnaryInfC{$A \\to \\lnot \\lnot A$}\n"
    );
}

#[test]
fn contraposition() {
    let proof = Logic::new("(A \\to \\lnot B) \\to (B \\to \\lnot A)")
        .unwrap()
        .solve()
        .unwrap();
    let expected = "\
(A → ¬ B) → B → ¬ A : 1
+ B → ¬ A : 2
  + ¬ A : 3
    + ⊥
      + B from: 2
      + ¬ B
        + A from: 3
        + A → ¬ B from: 1
";
    assert_eq!(proof.to_string(), expected);
}

#[test]
fn falsity_proves_anything() {
    let proof = to(Logic::Cont, atom('A')).solve().unwrap();
    assert_eq!(proof.to_string(), "⊥ → A : 1\n+ A\n  + ⊥ from: 1\n");
    let proof = not(Logic::Cont).solve().unwrap();
    assert_eq!(proof.to_string(), "¬ ⊥ : 1\n+ ⊥ from: 1\n");
    assert_eq!(
        proof.tex(),
        "\\AxiomC{$[\\perp]_{1}$}\n\\RightLabel{\\scriptsize 1}\n\\UnaryInfC{$\\lnot \\perp$}\n"
    );
}

#[test]
fn assumptions_are_tried_in_the_listing_order() {
    let axioms = Axioms::new()
        .insert(&and(atom('B'), atom('A')), 1)
        .unwrap()
        .insert(&and(atom('A'), atom('C')), 2)
        .unwrap();
    let proof = Problem::under(&atom('A'), axioms, 9).solve().unwrap();
    assert_eq!(proof.to_string(), "A\n+ A ∧ C from: 0\n");
    match &proof.inference {
        InferenceType::UnaryInf(leaf) => assert!(matches!(leaf.inference, InferenceType::Axiom(2))),
        other => panic!("unexpected rule: {:?}", other),
    }
}

#[test]
fn the_search_goes_four_levels_deep_for_each_node_and_assumption() {
    assert_eq!(Problem::new(&atom('A')).bound(), 4);
    assert_eq!(Problem::new(&to(atom('A'), atom('A'))).bound(), 12);
    let axioms = Axioms::new()
        .insert(&atom('A'), 1)
        .unwrap()
        .insert(&atom('B'), 2)
        .unwrap();
    assert_eq!(Problem::under(&not(atom('A')), axioms, 0).bound(), 16);
}

/// Checks that every use of an assumption refers to an assumption that a
/// node above it made, with the formula that the use concludes.
fn discharged(p: &Inference, scope: &mut Vec<(Logic, usize)>) {
    match &p.inference {
        InferenceType::Axiom(m) => {
            assert!(
                scope.contains(&(p.logic.clone(), *m)),
                "{} is not assumed above its use",
                p.logic.to_string()
            );
        }
        InferenceType::UnaryInf(c) => {
            if c.axioms.same(&p.axioms) {
                discharged(c, scope);
            } else {
                let key = match &p.logic {
                    Logic::To(l, _) => (**l).clone(),
                    Logic::Not(q) => (**q).clone(),
                    other => panic!("{} assumes nothing", other.to_string()),
                };
                scope.push((key, p.marker));
                discharged(c, scope);
                scope.pop();
            }
        }
        InferenceType::BinaryInf(a, b) => {
            discharged(a, scope);
            discharged(b, scope);
        }
        InferenceType::TrinaryInf(a, b, c) => {
            discharged(a, scope);
            match &a.logic {
                Logic::Or(l, r) => {
                    scope.push(((**l).clone(), p.marker));
                    discharged(b, scope);
                    scope.pop();
                    scope.push(((**r).clone(), p.marker));
                    discharged(c, scope);
                    scope.pop();
                }
                other => panic!("not a disjunction: {}", other.to_string()),
            }
        }
    }
}

#[test]
fn every_assumption_in_use_is_made_above_its_use() {
    for goal in provable() {
        let proof = goal.solve().unwrap();
        let mut scope = Vec::new();
        discharged(&proof, &mut scope);
        assert!(scope.is_empty());
    }
}
