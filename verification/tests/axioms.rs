use prop_logic::axioms::Axioms;
use prop_logic::Logic;

fn atom(c: char) -> Logic {
    Logic::Base(c)
}

fn to(l: Logic, r: Logic) -> Logic {
    Logic::To(Box::new(l), Box::new(r))
}

fn not(p: Logic) -> Logic {
    Logic::Not(Box::new(p))
}

#[test]
fn assumptions_stand_in_the_listing_order() {
    let a = Axioms::new();
    assert_eq!(a.len(), 0);
    let a = a.insert(&to(atom('A'), atom('B')), 1).unwrap();
    let a = a.insert(&atom('B'), 2).unwrap();
    let a = a.insert(&not(not(atom('A'))), 3).unwrap();
    let a = a.insert(&atom('A'), 4).unwrap();
    let a = a.insert(&not(atom('A')), 5).unwrap();
    assert_eq!(
        a.entries(),
        vec![
            (atom('A'), 4),
            (atom('B'), 2),
            (not(atom('A')), 5),
            (to(atom('A'), atom('B')), 1),
            (not(not(atom('A'))), 3),
        ]
    );
    assert_eq!(a.len(), 5);
}

#[test]
fn a_formula_is_assumed_once() {
    let a = Axioms::new().insert(&atom('A'), 1).unwrap();
    assert!(a.insert(&atom('A'), 2).is_none());
    assert!(a.insert(&atom('A'), 1).is_none());
    assert_eq!(a.entries(), vec![(atom('A'), 1)]);
    assert!(a.insert(&atom('B'), 1).is_some());
}

#[test]
fn find_gives_the_marker() {
    let a = Axioms::new()
        .insert(&atom('B'), 7)
        .unwrap()
        .insert(&not(atom('B')), 9)
        .unwrap();
    assert_eq!(a.find(&atom('B')), Some(7));
    assert_eq!(a.find(&not(atom('B'))), Some(9));
    assert_eq!(a.find(&atom('A')), None);
    assert_eq!(Axioms::new().find(&atom('A')), None);
}

#[test]
fn same_compares_formulas_and_markers() {
    let a = Axioms::new().insert(&atom('A'), 1).unwrap();
    let b = Axioms::new().insert(&atom('A'), 1).unwrap();
    let c = Axioms::new().insert(&atom('A'), 2).unwrap();
    let d = a.insert(&atom('B'), 1).unwrap();
    assert!(a.same(&b));
    assert!(a.same(&a.clone()));
    assert!(!a.same(&c));
    assert!(!a.same(&d));
    assert!(!a.same(&Axioms::new()));
}
