use prop_logic::parser::{and, base, chars, cont, not, or, paren, parse, term, to, ErrorKind};
use prop_logic::Logic;
use prop_logic::Logic::{And, Base, Cont, Not, Or, To};

#[test]
fn test_base() {
    assert_eq!(base("A").unwrap(), ("", Base('A')));
}

#[test]
fn test_paren() {
    assert_eq!(paren("(A)").unwrap(), ("", Base('A')));
}

#[test]
fn test_not() {
    assert_eq!(not("\\lnot A").unwrap(), ("", Not(Box::new(Base('A')))));
}

#[test]
fn test_and() {
    assert_eq!(
        and("A \\land B").unwrap(),
        ("", And(Box::new(Base('A')), Box::new(Base('B'))))
    );
}

#[test]
fn test_or() {
    assert_eq!(
        or("A \\lor B").unwrap(),
        ("", Or(Box::new(Base('A')), Box::new(Base('B'))))
    );
}

#[test]
fn test_to() {
    assert_eq!(
        to("A \\to B").unwrap(),
        ("", To(Box::new(Base('A')), Box::new(Base('B'))))
    );
}

#[test]
fn test_parse() {
    assert_eq!(
        parse("(A \\lor B \\to C) \\to ((A \\to C) \\land (B \\to C))").unwrap(),
        (
            "",
            To(
                Box::new(To(
                    Box::new(Or(Box::new(Base('A')), Box::new(Base('B')))),
                    Box::new(Base('C'))
                )),
                Box::new(And(
                    Box::new(To(Box::new(Base('A')), Box::new(Base('C')))),
                    Box::new(To(Box::new(Base('B')), Box::new(Base('C'))))
                ))
            )
        )
    );
    assert_eq!(
        parse("A to not not A").unwrap(),
        (
            "",
            To(
                Box::new(Base('A')),
                Box::new(Not(Box::new(Not(Box::new(Base('A'))))))
            )
        )
    );
}

#[test]
fn chars_of_a_text() {
    assert_eq!(chars("A → ⊥"), vec!['A', ' ', '→', ' ', '⊥']);
    assert_eq!(chars(""), Vec::<char>::new());
}

#[test]
fn base_takes_one_capital_letter() {
    assert_eq!(base("Z9").unwrap(), ("9", Base('Z')));
    assert_eq!(base("AB").unwrap(), ("B", Base('A')));
    let e = base("a").unwrap_err();
    assert_eq!((e.input.as_str(), e.code), ("a", ErrorKind::OneOf));
    let e = base("").unwrap_err();
    assert_eq!((e.input.as_str(), e.code), ("", ErrorKind::OneOf));
    let e = base(" A").unwrap_err();
    assert_eq!((e.input.as_str(), e.code), (" A", ErrorKind::OneOf));
}

#[test]
fn cont_has_three_signs() {
    assert_eq!(cont("\\perp ").unwrap(), ("", Cont));
    assert_eq!(cont("cont").unwrap(), ("", Cont));
    assert_eq!(cont("⊥").unwrap(), ("", Cont));
    assert_eq!(cont("⊥ → A").unwrap(), (" → A", Cont));
    let e = cont("\\perp").unwrap_err();
    assert_eq!((e.input.as_str(), e.code), ("\\perp", ErrorKind::Tag));
}

#[test]
fn connectives_have_three_signs_each() {
    let na = Not(Box::new(Base('A')));
    assert_eq!(not("not A").unwrap(), ("", na.clone()));
    assert_eq!(not("¬A").unwrap(), ("", na.clone()));
    assert_eq!(not("\\lnot  \tA").unwrap(), ("", na.clone()));
    let ab = And(Box::new(Base('A')), Box::new(Base('B')));
    assert_eq!(and("A and B").unwrap(), ("", ab.clone()));
    assert_eq!(and("A∧B").unwrap(), ("", ab.clone()));
    let ob = Or(Box::new(Base('A')), Box::new(Base('B')));
    assert_eq!(or("A or B").unwrap(), ("", ob.clone()));
    assert_eq!(or("A ∨\nB").unwrap(), ("", ob.clone()));
    let tb = To(Box::new(Base('A')), Box::new(Base('B')));
    assert_eq!(to("A to B").unwrap(), ("", tb.clone()));
    assert_eq!(to("A→B").unwrap(), ("", tb.clone()));
}

#[test]
fn connectives_group_to_the_right() {
    assert_eq!(
        Logic::new("A \\land B \\land C").unwrap(),
        And(
            Box::new(Base('A')),
            Box::new(And(Box::new(Base('B')), Box::new(Base('C'))))
        )
    );
    assert_eq!(
        Logic::new("A \\lor B \\lor C").unwrap(),
        Or(
            Box::new(Base('A')),
            Box::new(Or(Box::new(Base('B')), Box::new(Base('C'))))
        )
    );
    assert_eq!(
        Logic::new("A \\to B \\to C").unwrap(),
        To(
            Box::new(Base('A')),
            Box::new(To(Box::new(Base('B')), Box::new(Base('C'))))
        )
    );
    assert_eq!(
        Logic::new("A \\land B \\to C \\lor D").unwrap(),
        To(
            Box::new(And(Box::new(Base('A')), Box::new(Base('B')))),
            Box::new(Or(Box::new(Base('C')), Box::new(Base('D'))))
        )
    );
}

#[test]
fn conjunction_and_disjunction_do_not_mix_without_brackets() {
    assert_eq!(
        parse("A \\land B \\lor C").unwrap(),
        (" \\lor C", And(Box::new(Base('A')), Box::new(Base('B'))))
    );
    assert_eq!(
        parse("A \\land (B \\lor C)").unwrap(),
        (
            "",
            And(
                Box::new(Base('A')),
                Box::new(Or(Box::new(Base('B')), Box::new(Base('C'))))
            )
        )
    );
}

#[test]
fn what_follows_the_formula_is_handed_back() {
    assert_eq!(parse("A \\to").unwrap(), (" \\to", Base('A')));
    assert_eq!(parse("A B").unwrap(), (" B", Base('A')));
    assert_eq!(term("¬ A ∧ B").unwrap(), (" ∧ B", Not(Box::new(Base('A')))));
    assert_eq!(Logic::new("A)").unwrap(), Base('A'));
}

#[test]
fn brackets_take_blanks_inside() {
    assert_eq!(paren("( \t A \n )B").unwrap(), ("B", Base('A')));
    let e = paren("A").unwrap_err();
    assert_eq!((e.input.as_str(), e.code), ("A", ErrorKind::Char));
    let e = paren("(A").unwrap_err();
    assert_eq!((e.input.as_str(), e.code), ("", ErrorKind::Char));
    let e = paren("(A ]").unwrap_err();
    assert_eq!((e.input.as_str(), e.code), ("]", ErrorKind::Char));
    let e = paren("(a)").unwrap_err();
    assert_eq!((e.input.as_str(), e.code), ("a)", ErrorKind::Tag));
}

#[test]
fn failures_name_the_place_and_what_was_expected() {
    let e = parse("").unwrap_err();
    assert_eq!((e.input.as_str(), e.code), ("", ErrorKind::Tag));
    let e = parse("a").unwrap_err();
    assert_eq!((e.input.as_str(), e.code), ("a", ErrorKind::Tag));
    let e = parse("(A").unwrap_err();
    assert_eq!((e.input.as_str(), e.code), ("(A", ErrorKind::Tag));
    let e = Logic::new("\\lnot b").unwrap_err();
    assert_eq!((e.input.as_str(), e.code), ("b", ErrorKind::Tag));
    let e = and("A \\lor B").unwrap_err();
    assert_eq!((e.input.as_str(), e.code), ("\\lor B", ErrorKind::Tag));
    let e = and("A \\land b").unwrap_err();
    assert_eq!((e.input.as_str(), e.code), ("b", ErrorKind::Tag));
    let e = to("A").unwrap_err();
    assert_eq!((e.input.as_str(), e.code), ("", ErrorKind::Tag));
    assert_eq!(e.to_string(), "Parsing Error: Tag at: ");
    let e = base("x y").unwrap_err();
    assert_eq!(e.to_string(), "Parsing Error: OneOf at: x y");
    let e = paren("x").unwrap_err();
    assert_eq!(e.to_string(), "Parsing Error: Char at: x");
}

#[test]
fn from_str_reads_a_formula() {
    let f: Logic = "A \\to \\perp ".parse().unwrap();
    assert_eq!(f, To(Box::new(Base('A')), Box::new(Cont)));
    assert!("?".parse::<Logic>().is_err());
}
