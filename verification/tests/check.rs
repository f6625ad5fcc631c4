use prop_logic::{CheckError, Logic, Valuation};

fn atom(c: char) -> Logic {
    Logic::Base(c)
}

fn to(l: Logic, r: Logic) -> Logic {
    Logic::To(Box::new(l), Box::new(r))
}

fn not(p: Logic) -> Logic {
    Logic::Not(Box::new(p))
}

fn and(l: Logic, r: Logic) -> Logic {
    Logic::And(Box::new(l), Box::new(r))
}

fn or(l: Logic, r: Logic) -> Logic {
    Logic::Or(Box::new(l), Box::new(r))
}

fn val(pairs: &[(char, bool)]) -> Valuation {
    let mut v = Valuation::new();
    for (c, b) in pairs {
        v.insert(*c, *b);
    }
    v
}

#[test]
fn valuation_binds_and_rebinds() {
    let mut v = Valuation::new();
    assert_eq!(v.get('A'), None);
    v.insert('A', true);
    v.insert('B', false);
    assert_eq!(v.get('A'), Some(true));
    assert_eq!(v.get('B'), Some(false));
    assert_eq!(v.get('C'), None);
    v.insert('A', false);
    assert_eq!(v.get('A'), Some(false));
    assert_eq!(v.entries(), vec![('A', true), ('B', false), ('A', false)]);
    let w = v.clone();
    assert_eq!(w.entries(), v.entries());
}

#[test]
fn eval_part_of_atoms_and_falsity() {
    let t = val(&[('A', true), ('B', false)]);
    assert_eq!(atom('A').eval_part(&t), None);
    assert_eq!(atom('B').eval_part(&t), Some(Logic::Cont));
    assert_eq!(atom('C').eval_part(&t), Some(atom('C')));
    assert_eq!(Logic::Cont.eval_part(&t), Some(Logic::Cont));
}

#[test]
fn eval_part_of_negation() {
    let t = val(&[('A', true), ('B', false)]);
    assert_eq!(not(atom('B')).eval_part(&t), None);
    assert_eq!(not(atom('A')).eval_part(&t), Some(Logic::Cont));
    assert_eq!(not(atom('C')).eval_part(&t), Some(not(atom('C'))));
    assert_eq!(not(Logic::Cont).eval_part(&t), None);
}

#[test]
fn eval_part_of_conjunction() {
    let t = val(&[('A', true), ('B', false)]);
    assert_eq!(and(atom('B'), atom('C')).eval_part(&t), Some(Logic::Cont));
    assert_eq!(and(atom('C'), atom('B')).eval_part(&t), Some(Logic::Cont));
    assert_eq!(and(atom('A'), atom('C')).eval_part(&t), Some(atom('C')));
    assert_eq!(and(atom('C'), atom('A')).eval_part(&t), Some(atom('C')));
    assert_eq!(and(atom('A'), atom('A')).eval_part(&t), None);
    assert_eq!(and(atom('C'), atom('D')).eval_part(&t), Some(and(atom('C'), atom('D'))));
}

#[test]
fn eval_part_of_disjunction() {
    let t = val(&[('A', true), ('B', false)]);
    assert_eq!(or(atom('A'), atom('C')).eval_part(&t), None);
    assert_eq!(or(atom('C'), atom('A')).eval_part(&t), None);
    assert_eq!(or(atom('B'), atom('C')).eval_part(&t), Some(atom('C')));
    assert_eq!(or(atom('C'), atom('B')).eval_part(&t), Some(atom('C')));
    assert_eq!(or(atom('B'), atom('B')).eval_part(&t), Some(Logic::Cont));
    assert_eq!(or(atom('C'), atom('D')).eval_part(&t), Some(or(atom('C'), atom('D'))));
}

#[test]
fn eval_part_of_implication() {
    let t = val(&[('A', true), ('B', false)]);
    assert_eq!(to(atom('B'), atom('C')).eval_part(&t), None);
    assert_eq!(to(atom('C'), atom('A')).eval_part(&t), None);
    assert_eq!(to(atom('A'), atom('C')).eval_part(&t), Some(atom('C')));
    assert_eq!(to(atom('A'), atom('B')).eval_part(&t), Some(Logic::Cont));
    assert_eq!(to(atom('C'), atom('B')).eval_part(&t), Some(not(atom('C'))));
    assert_eq!(to(atom('C'), atom('D')).eval_part(&t), Some(to(atom('C'), atom('D'))));
}

#[test]
fn eval_part_under_no_binding_keeps_a_formula_without_falsity() {
    let f = to(and(atom('A'), not(atom('B'))), or(atom('C'), atom('A')));
    assert_eq!(f.eval_part(&Valuation::new()), Some(f.clone()));
}

#[test]
fn check_all_accepts_valid_formulas() {
    assert!(to(atom('A'), atom('A')).check_all().is_ok());
    assert!(or(atom('A'), not(atom('A'))).check_all().is_ok());
    assert!(to(to(to(atom('A'), atom('B')), atom('A')), atom('A')).check_all().is_ok());
    assert!(to(not(not(atom('A'))), atom('A')).check_all().is_ok());
    assert!(to(Logic::Cont, Logic::Cont).check_all().is_ok());
    assert!(not(Logic::Cont).check_all().is_ok());
    assert!(to(and(atom('A'), atom('B')), or(atom('B'), atom('C'))).check_all().is_ok());
}

#[test]
fn check_all_reports_the_first_falsifying_bindings() {
    match atom('A').check_all() {
        Err(CheckError::TurnsOutFalse(f, v)) => {
            assert_eq!(f, atom('A'));
            assert_eq!(v.entries(), vec![('A', false)]);
        }
        Ok(()) => panic!("an atom is not valid"),
    }
    match and(atom('A'), not(atom('A'))).check_all() {
        Err(CheckError::TurnsOutFalse(f, v)) => {
            assert_eq!(f, and(atom('A'), not(atom('A'))));
            assert_eq!(v.entries(), vec![('A', true)]);
        }
        Ok(()) => panic!("a contradiction is not valid"),
    }
    match to(atom('A'), atom('B')).check_all() {
        Err(CheckError::TurnsOutFalse(f, v)) => {
            assert_eq!(f, to(atom('A'), atom('B')));
            assert_eq!(v.entries(), vec![('B', false), ('A', true)]);
            assert_eq!(v.get('A'), Some(true));
            assert_eq!(v.get('B'), Some(false));
        }
        Ok(()) => panic!("not valid"),
    }
    match Logic::Cont.check_all() {
        Err(CheckError::TurnsOutFalse(f, v)) => {
            assert_eq!(f, Logic::Cont);
            assert_eq!(v.entries(), vec![]);
        }
        Ok(()) => panic!("falsity is not valid"),
    }
}

#[test]
fn check_all_agrees_with_truth_tables() {
    fn holds(f: &Logic, a: bool, b: bool, c: bool) -> bool {
        match f {
            Logic::Base('A') => a,
            Logic::Base('B') => b,
            Logic::Base(_) => c,
            Logic::Cont => false,
            Logic::Not(p) => !holds(p, a, b, c),
            Logic::And(l, r) => holds(l, a, b, c) && holds(r, a, b, c),
            Logic::Or(l, r) => holds(l, a, b, c) || holds(r, a, b, c),
            Logic::To(l, r) => !holds(l, a, b, c) || holds(r, a, b, c),
        }
    }
    let leaves = vec![atom('A'), atom('B'), atom('C'), Logic::Cont];
    let mut pool: Vec<Logic> = leaves.clone();
    for l in &leaves {
        pool.push(not(l.clone()));
        for r in &leaves {
            pool.push(and(l.clone(), r.clone()));
            pool.push(or(l.clone(), r.clone()));
            pool.push(to(l.clone(), r.clone()));
        }
    }
    let small = pool.clone();
    for l in small.iter().take(20) {
        for r in small.iter().skip(10).take(20) {
            pool.push(to(l.clone(), r.clone()));
            pool.push(or(not(l.clone()), r.clone()));
        }
    }
    for f in &pool {
        let mut valid = true;
        for bits in 0..8 {
            if !holds(f, bits & 1 != 0, bits & 2 != 0, bits & 4 != 0) {
                valid = false;
            }
        }
        match f.check_all() {
            Ok(()) => assert!(valid, "{} was accepted", f.to_string()),
            Err(CheckError::TurnsOutFalse(g, v)) => {
                assert!(!valid, "{} was refused", f.to_string());
                assert_eq!(&g, f);
                for bits in 0..8 {
                    let (a, b, c) = (bits & 1 != 0, bits & 2 != 0, bits & 4 != 0);
                    let agrees = v.get('A').map_or(true, |x| x == a)
                        && v.get('B').map_or(true, |x| x == b)
                        && v.get('C').map_or(true, |x| x == c);
                    if agrees {
                        assert!(!holds(f, a, b, c));
                    }
                }
            }
        }
    }
}

#[test]
fn check_error_in_words() {
    let e = to(atom('A'), atom('B')).check_all().unwrap_err();
    assert_eq!(e.to_string(), "A → B turns out false when: {'B': false, 'A': true}");
    let e = Logic::Cont.check_all().unwrap_err();
    assert_eq!(e.to_string(), "⊥ turns out false when: {}");
    let e = atom('A').check_all().unwrap_err();
    assert_eq!(e.to_string(), "A turns out false when: {'A': false}");
}
