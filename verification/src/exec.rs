//! From text to text: reads a formula, proves it, and writes the proof.

use crate::check::CheckError;
use crate::logic::Logic;
use crate::parser::{chars, eat, spec_parse, tag_at, ErrorKind, ParseLogicError};
use crate::search::SolveError;
use crate::solver::Problem;
use crate::TeX;
use vstd::prelude::*;
use vstd::string::StringExecFns;

verus! {

/// Why a text was not answered with a proof.
#[derive(Debug)]
pub enum ExecError {
    /// The text is not a formula.
    ParseError(ParseLogicError),
    /// The formula is not classically valid.
    CheckError(CheckError),
    /// No proof of the formula was found.
    SolveError(SolveError),
}

impl ExecError {
    /// The failure in words.
    pub open spec fn message(self) -> Seq<char> {
        match self {
            ExecError::ParseError(e) => "error when parsing:\n"@ + e.message(),
            ExecError::CheckError(e) => "error when checking:\n"@ + e.message(),
            ExecError::SolveError(e) => "error when solving:\n"@ + e.message(),
        }
    }

    /// The failure in words.
    pub fn to_string(&self) -> (r: String)
        ensures
            r@ == self.message(),
    {
        match self {
            ExecError::ParseError(e) => {
                let mut out = String::from_str("error when parsing:\n");
                out.append(e.to_string().as_str());
                out
            },
            ExecError::CheckError(e) => {
                let mut out = String::from_str("error when checking:\n");
                out.append(e.to_string().as_str());
                out
            },
            ExecError::SolveError(e) => {
                let mut out = String::from_str("error when solving:\n");
                out.append(e.to_string().as_str());
                out
            },
        }
    }
}

/// An answer as a mathematical value.
pub enum Outcome {
    /// The proof as text.
    Text(Seq<char>),
    /// No formula stands at the start of the text: the text from the place of
    /// the failure on, and what was expected there.
    NoParse(Seq<char>, ErrorKind),
    /// The formula is not classically valid: the formula, and the bindings
    /// under which it is false.
    Invalid(Logic, Seq<(char, bool)>),
    /// The search found no proof.
    NoProof(SolveError),
}

/// The answer that a result stands for.
pub open spec fn outcome_of(r: Result<String, ExecError>) -> Outcome {
    match r {
        Ok(s) => Outcome::Text(s@),
        Err(ExecError::ParseError(e)) => Outcome::NoParse(e.input@, e.code),
        Err(ExecError::CheckError(CheckError::TurnsOutFalse(g, val))) => Outcome::Invalid(
            g,
            val.bound(),
        ),
        Err(ExecError::SolveError(e)) => Outcome::NoProof(e),
    }
}

/// The answer to the text `input`: the failure to read a formula at its
/// start; for a formula that is not classically valid, the bindings that the
/// validity check reports; the failure of the search; or the proof that the
/// search finds, as TeX markup where `tex` holds and as a tree for the
/// console where it does not.
pub open spec fn outcome(input: Seq<char>, tex: bool) -> Outcome {
    match spec_parse(input, 0) {
        Err((q, k)) => Outcome::NoParse(input.skip(q as int), k),
        Ok((f, _)) => match f.falsifier() {
            Some(w) => Outcome::Invalid(f, w),
            None => match f.search() {
                Err(e) => Outcome::NoProof(e),
                Ok((d, _)) => Outcome::Text(
                    if tex {
                        d.spec_tex()
                    } else {
                        d.spec_text()
                    },
                ),
            },
        },
    }
}

/// Reads the formula at the start of `input`, proves it, and writes the proof:
/// as TeX markup where `tex` holds, else as a tree for the console.
pub fn exec(input: &str, tex: bool) -> (r: Result<String, ExecError>)
    ensures
        outcome_of(r) == outcome(input@, tex),
{
    let logic = match Logic::new(input) {
        Ok(logic) => logic,
        Err(e) => {
            return Err(ExecError::ParseError(e));
        },
    };
    match logic.check_all() {
        Ok(()) => {},
        Err(e) => {
            return Err(ExecError::CheckError(e));
        },
    }
    let inference = match Problem::new(&logic).solve() {
        Ok(inference) => inference,
        Err(e) => {
            return Err(ExecError::SolveError(e));
        },
    };
    Ok(
        if tex {
            inference.tex()
        } else {
            inference.to_string()
        },
    )
}

/// What the command line asks for.
#[derive(Debug)]
pub struct Args {
    /// The text to answer; without it, texts are asked for one after another.
    pub input: Option<String>,
    /// Whether proofs are written as TeX markup.
    pub tex: bool,
    /// The file that answers are written to; without it, they are printed.
    pub out: Option<String>,
}

/// What the program does next.
#[derive(Debug)]
pub enum Action {
    /// Ask for a text, and hand it to [`Args::answer`].
    Ask,
    /// Write the answer; then ask for the next text where `again` holds,
    /// and end where it does not.
    Write { text: String, again: bool },
    /// End.
    Quit,
    /// End with the failure.
    Fail(ExecError),
}

/// A step as a mathematical value.
pub enum Step {
    /// Ask for a text.
    Ask,
    /// Write the text, and ask for the next one where the flag holds.
    Write(Seq<char>, bool),
    /// End.
    Quit,
    /// End with the failure.
    Fail(Outcome),
}

impl View for Action {
    type V = Step;

    open spec fn view(&self) -> Step {
        match *self {
            Action::Ask => Step::Ask,
            Action::Write { text, again } => Step::Write(text@, again),
            Action::Quit => Step::Quit,
            Action::Fail(e) => Step::Fail(outcome_of(Err(e))),
        }
    }
}

/// The step that an answer leads to: it is written, or it ends the program.
pub open spec fn step_after(o: Outcome, again: bool) -> Step {
    match o {
        Outcome::Text(s) => Step::Write(s, again),
        _ => Step::Fail(o),
    }
}

impl Args {
    /// The first step: the answer to the text that was given, or the request
    /// for one.
    pub fn begin(&self) -> (a: Action)
        ensures
            a@ == (match self.input {
                Some(input) => step_after(outcome(input@, self.tex), false),
                None => Step::Ask,
            }),
    {
        match &self.input {
            Some(input) => match exec(input.as_str(), self.tex) {
                Ok(text) => Action::Write { text, again: false },
                Err(e) => Action::Fail(e),
            },
            None => Action::Ask,
        }
    }

    /// The step after a text was asked for and `line` came: the end where it
    /// begins with `quit`, else the answer to it.
    pub fn answer(&self, line: &str) -> (a: Action)
        ensures
            a@ == (if tag_at(line@, 0, "quit"@) is Some {
                Step::Quit
            } else {
                step_after(outcome(line@, self.tex), true)
            }),
    {
        let v = chars(line);
        if eat(&v, 0, "quit").is_some() {
            return Action::Quit;
        }
        match exec(line, self.tex) {
            Ok(text) => Action::Write { text, again: true },
            Err(e) => Action::Fail(e),
        }
    }
}

} // verus!
