use prop_logic::axioms::Axioms;
use prop_logic::inference::{Inference, InferenceType};
use prop_logic::{Logic, TeX};

fn atom(c: char) -> Logic {
    Logic::Base(c)
}

fn to(l: Logic, r: Logic) -> Logic {
    Logic::To(Box::new(l), Box::new(r))
}

fn node(logic: Logic, axioms: &Axioms, marker: usize, inference: InferenceType) -> Inference {
    Inference {
        logic,
        axioms: axioms.clone(),
        marker,
        inference,
    }
}

#[test]
fn markers_in_use_are_numbered_in_the_order_of_printing() {
    let goal = Logic::new("(A \\to B) \\land (C \\lor \\lnot B) \\to (A \\to C \\lor \\perp )").unwrap();
    let proof = goal.solve().unwrap();
    let live = proof.numbering();
    assert_eq!(live.len(), 3);
    let text = proof.to_string();
    let tex = proof.tex();
    for n in 1..=3 {
        assert_eq!(text.matches(&format!(" : {}\n", n)).count(), 1);
        assert_eq!(tex.matches(&format!("\\RightLabel{{\\scriptsize {}}}\n", n)).count(), 1);
        assert_eq!(
            text.matches(&format!(" from: {}\n", n)).count(),
            tex.matches(&format!("]_{{{}}}$}}\n", n)).count()
        );
    }
    assert_eq!(text.matches(" : ").count(), 3);
    assert_eq!(tex.matches("\\RightLabel").count(), 3);
    let expected = "\
(A → B) ∧ (C ∨ ¬ B) → A → C ∨ ⊥ : 1
+ A → C ∨ ⊥ : 2
  + C ∨ ¬ B
  | + (A → B) ∧ (C ∨ ¬ B) from: 1
  + A → C ∨ ⊥
  | + C ∨ ⊥
  |   + C from: 2
  + A → C ∨ ⊥ : 3
    + C ∨ ⊥
      + ⊥
        + B
        | + A from: 3
        | + A → B
        |   + (A → B) ∧ (C ∨ ¬ B) from: 1
        + ¬ B from: 2
";
    assert_eq!(text, expected);
}

#[test]
fn a_marker_that_is_not_in_use_gets_no_number() {
    let proof = to(atom('A'), to(atom('B'), atom('A'))).solve().unwrap();
    assert_eq!(proof.numbering(), vec![proof.marker]);
    assert!(proof.live());
    match &proof.inference {
        InferenceType::UnaryInf(inner) => {
            assert!(!inner.live());
            assert!(inner.uses(proof.marker));
            assert!(!inner.uses(inner.marker));
        }
        other => panic!("unexpected rule: {:?}", other),
    }
}

#[test]
fn a_use_of_an_assumption_from_outside_the_tree_is_numbered_zero() {
    let axioms = Axioms::new().insert(&atom('A'), 4).unwrap();
    let leaf = node(atom('A'), &axioms, 5, InferenceType::Axiom(4));
    assert_eq!(leaf.to_string(), "A from: 0\n");
    assert_eq!(leaf.tex(), "\\AxiomC{$[A]_{0}$}\n");
    assert_eq!(leaf.numbering(), Vec::<usize>::new());
}

#[test]
fn numbers_have_all_their_digits() {
    let none = Axioms::new();
    let mut proof = node(atom('A'), &none, 1, InferenceType::Axiom(12));
    for m in 2..=13 {
        proof = node(atom('A'), &none, m, InferenceType::UnaryInf(Box::new(proof)));
    }
    let mut top = node(atom('A'), &none, 100, InferenceType::Axiom(100));
    for m in (2..=13).rev() {
        let leaf = node(atom('B'), &none, 200 + m, InferenceType::Axiom(m));
        top = node(
            atom('A'),
            &none,
            m,
            InferenceType::BinaryInf(Box::new(leaf), Box::new(top)),
        );
    }
    let live = top.numbering();
    assert_eq!(live, (2..=13).collect::<Vec<usize>>());
    let text = top.to_string();
    assert!(text.starts_with("A : 1\n+ B from: 1\n+ A : 2\n  + B from: 2\n"));
    assert!(text.contains("A : 10\n"));
    assert!(text.contains("+ B from: 12\n"));
    let tex = top.tex();
    assert!(tex.contains("\\AxiomC{$[B]_{11}$}\n"));
    assert!(tex.ends_with("\\RightLabel{\\scriptsize 1}\n\\BinaryInfC{$A$}\n"));
    assert_eq!(proof.numbering(), vec![12]);
    assert!(proof.to_string().ends_with("+ A from: 1\n"));
}

#[test]
fn print_indents_below_each_premise() {
    let none = Axioms::new();
    let leaf = |c: char| node(atom(c), &none, 0, InferenceType::Axiom(9));
    let pair = node(
        atom('P'),
        &none,
        1,
        InferenceType::BinaryInf(Box::new(leaf('A')), Box::new(leaf('B'))),
    );
    let triple = node(
        atom('T'),
        &none,
        2,
        InferenceType::TrinaryInf(Box::new(pair), Box::new(leaf('C')), Box::new(leaf('D'))),
    );
    let live = triple.numbering();
    let mut out = String::from("#");
    triple.print(&mut out, "..", &live);
    assert_eq!(
        out,
        "#T\n..+ P\n..| + A from: 0\n..| + B from: 0\n..+ C from: 0\n..+ D from: 0\n"
    );
    let mut out = String::new();
    triple.print_tex(&mut out, &live);
    assert_eq!(
        out,
        "\\AxiomC{$[A]_{0}$}\n\\AxiomC{$[B]_{0}$}\n\\BinaryInfC{$P$}\n\\AxiomC{$[C]_{0}$}\n\\AxiomC{$[D]_{0}$}\n\\TrinaryInfC{$T$}\n"
    );
}

#[test]
fn clone_keeps_the_proof() {
    let proof = to(atom('A'), atom('A')).solve().unwrap();
    let copy = proof.clone();
    assert_eq!(format!("{:?}", proof), format!("{:?}", copy));
}
