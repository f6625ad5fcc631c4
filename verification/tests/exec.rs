use prop_logic::exec::{exec, Action, Args, ExecError};
use prop_logic::parser::ErrorKind;
use prop_logic::search::SolveError;
use prop_logic::{CheckError, Logic};

#[test]
fn exec_writes_the_tree_or_the_markup() {
    assert_eq!(exec("A \\to A", false).unwrap(), "A → A : 1\n+ A from: 1\n");
    assert_eq!(
        exec("A \\to A", true).unwrap(),
        "\\AxiomC{$[A]_{1}$}\n\\RightLabel{\\scriptsize 1}\n\\UnaryInfC{$A \\to A$}\n"
    );
    assert_eq!(
        exec("A and B to B and A\n", false).unwrap(),
        "A ∧ B → B ∧ A : 1\n+ B ∧ A\n  + B\n  | + A ∧ B from: 1\n  + A\n    + A ∧ B from: 1\n"
    );
}

#[test]
fn exec_reports_each_kind_of_failure() {
    match exec("a", false) {
        Err(ExecError::ParseError(e)) => {
            assert_eq!(e.input, "a");
            assert_eq!(e.code, ErrorKind::Tag);
        }
        other => panic!("unexpected: {:?}", other),
    }
    match exec("A \\land \\lnot A", false) {
        Err(ExecError::CheckError(CheckError::TurnsOutFalse(f, v))) => {
            assert_eq!(f, Logic::new("A \\land \\lnot A").unwrap());
            assert_eq!(v.entries(), vec![('A', true)]);
        }
        other => panic!("unexpected: {:?}", other),
    }
    match exec("\\lnot \\lnot A \\to A", true) {
        Err(ExecError::SolveError(SolveError::InferError(f))) => {
            assert_eq!(f, Logic::new("\\lnot \\lnot A \\to A").unwrap());
        }
        other => panic!("unexpected: {:?}", other),
    }
}

#[test]
fn exec_errors_in_words() {
    assert_eq!(
        exec("(A", false).unwrap_err().to_string(),
        "error when parsing:\nParsing Error: Tag at: (A"
    );
    assert_eq!(
        exec("A", false).unwrap_err().to_string(),
        "error when checking:\nA turns out false when: {'A': false}"
    );
    assert_eq!(
        exec("A or not A", false).unwrap_err().to_string(),
        "error when solving:\ncould not infer: A ∨ ¬ A"
    );
}

fn args(input: Option<&str>, tex: bool) -> Args {
    Args {
        input: input.map(|s| s.to_string()),
        tex,
        out: None,
    }
}

#[test]
fn a_given_text_is_answered_once() {
    match args(Some("A \\to A"), false).begin() {
        Action::Write { text, again } => {
            assert_eq!(text, "A → A : 1\n+ A from: 1\n");
            assert!(!again);
        }
        other => panic!("unexpected: {:?}", other),
    }
    match args(Some("quit"), true).begin() {
        Action::Fail(ExecError::ParseError(e)) => assert_eq!(e.input, "quit"),
        other => panic!("unexpected: {:?}", other),
    }
    assert!(matches!(args(None, false).begin(), Action::Ask));
}

#[test]
fn lines_are_answered_until_quit() {
    let a = args(None, true);
    match a.answer("A \\to A\n") {
        Action::Write { text, again } => {
            assert_eq!(
                text,
                "\\AxiomC{$[A]_{1}$}\n\\RightLabel{\\scriptsize 1}\n\\UnaryInfC{$A \\to A$}\n"
            );
            assert!(again);
        }
        other => panic!("unexpected: {:?}", other),
    }
    assert!(matches!(a.answer("quit\n"), Action::Quit));
    assert!(matches!(a.answer("quitting"), Action::Quit));
    assert!(matches!(
        a.answer(" quit"),
        Action::Fail(ExecError::ParseError(_))
    ));
    assert!(matches!(
        a.answer("A\n"),
        Action::Fail(ExecError::CheckError(_))
    ));
    assert!(matches!(a.answer("qui"), Action::Fail(ExecError::ParseError(_))));
}
