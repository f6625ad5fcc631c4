use prop_logic::{Logic, TeX};

fn atom(c: char) -> Logic {
    Logic::Base(c)
}

fn to(l: Logic, r: Logic) -> Logic {
    Logic::To(Box::new(l), Box::new(r))
}

fn not(p: Logic) -> Logic {
    Logic::Not(Box::new(p))
}

fn and(l: Logic, r: Logic) -> Logic {
    Logic::And(Box::new(l), Box::new(r))
}

fn or(l: Logic, r: Logic) -> Logic {
    Logic::Or(Box::new(l), Box::new(r))
}

#[test]
fn leaves_and_signs() {
    assert_eq!(atom('A').tex(), "A");
    assert_eq!(atom('A').to_string(), "A");
    assert_eq!(Logic::Cont.tex(), "\\perp");
    assert_eq!(Logic::Cont.to_string(), "⊥");
    assert_eq!(not(atom('A')).tex(), "\\lnot A");
    assert_eq!(not(atom('A')).to_string(), "¬ A");
    assert_eq!(and(atom('A'), atom('B')).tex(), "A \\land B");
    assert_eq!(and(atom('A'), atom('B')).to_string(), "A ∧ B");
    assert_eq!(or(atom('A'), atom('B')).tex(), "A \\lor B");
    assert_eq!(or(atom('A'), atom('B')).to_string(), "A ∨ B");
    assert_eq!(to(atom('A'), atom('B')).tex(), "A \\to B");
    assert_eq!(to(atom('A'), atom('B')).to_string(), "A → B");
}

#[test]
fn low_operands_are_never_bracketed() {
    assert_eq!(not(not(Logic::Cont)).tex(), "\\lnot \\lnot \\perp");
    assert_eq!(and(not(atom('A')), Logic::Cont).to_string(), "¬ A ∧ ⊥");
    assert_eq!(or(atom('A'), not(atom('B'))).to_string(), "A ∨ ¬ B");
    assert_eq!(to(not(atom('A')), Logic::Cont).tex(), "\\lnot A \\to \\perp");
}

#[test]
fn operands_of_negation_conjunction_and_disjunction_are_bracketed() {
    assert_eq!(not(and(atom('A'), atom('B'))).tex(), "\\lnot (A \\land B)");
    assert_eq!(not(to(atom('A'), atom('B'))).to_string(), "¬ (A → B)");
    assert_eq!(
        and(and(atom('A'), atom('B')), or(atom('C'), atom('D'))).to_string(),
        "(A ∧ B) ∧ (C ∨ D)"
    );
    assert_eq!(
        or(to(atom('A'), atom('B')), and(atom('C'), atom('D'))).tex(),
        "(A \\to B) \\lor (C \\land D)"
    );
    assert_eq!(and(atom('A'), to(atom('B'), atom('C'))).to_string(), "A ∧ (B → C)");
}

#[test]
fn implication_brackets_only_an_implication_on_its_left() {
    assert_eq!(to(atom('A'), to(atom('B'), atom('C'))).tex(), "A \\to B \\to C");
    assert_eq!(to(to(atom('A'), atom('B')), atom('C')).tex(), "(A \\to B) \\to C");
    assert_eq!(
        to(and(atom('A'), atom('B')), or(atom('C'), atom('D'))).to_string(),
        "A ∧ B → C ∨ D"
    );
    assert_eq!(
        to(to(atom('A'), atom('B')), to(atom('C'), atom('D'))).to_string(),
        "(A → B) → C → D"
    );
}

#[test]
fn write_text_appends() {
    let mut out = String::from("> ");
    or(atom('A'), Logic::Cont).write_text(true, &mut out);
    out.push(';');
    or(atom('A'), Logic::Cont).write_text(false, &mut out);
    assert_eq!(out, "> A \\lor \\perp;A ∨ ⊥");
}

#[test]
fn text_is_read_back_as_the_same_formula() {
    let samples = vec![
        to(to(atom('A'), atom('B')), to(atom('C'), atom('D'))),
        and(atom('A'), and(atom('B'), atom('C'))),
        or(atom('A'), or(not(atom('B')), atom('C'))),
        to(and(atom('A'), atom('B')), not(or(atom('C'), atom('D')))),
        not(not(to(atom('A'), atom('B')))),
    ];
    for f in samples {
        assert_eq!(Logic::new(&f.to_string()).unwrap(), f);
    }
}
