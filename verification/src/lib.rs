//! Natural-deduction proof search for propositional logic.
//!
//! A formula ([`Logic`]) is read from text ([`parser`]), checked for
//! classical validity ([`check`]) and handed to the solver ([`solver`]),
//! which searches for a proof tree ([`inference`]) built from the
//! introduction and elimination rules of the connectives. The proof is
//! written as an indented tree or as TeX markup ([`print`]).
//!
//! What the solver computes is stated as a mathematical function in
//! [`search`]; the rules that every node of a proof follows are stated in
//! [`inference`].

use vstd::prelude::*;

pub mod axioms;
pub mod check;
pub mod exec;
pub mod inference;
pub mod logic;
pub mod parser;
pub mod print;
pub mod query;
pub mod search;
pub mod solver;
pub mod sound;
pub mod text;
pub mod valuation;

pub use axioms::Axioms;
pub use check::CheckError;
pub use exec::{exec, Action, Args, ExecError};
pub use inference::{Inference, InferenceType};
pub use logic::Logic;
pub use parser::{parse, ParseLogicError};
pub use search::SolveError;
pub use solver::Problem;
pub use valuation::Valuation;

verus! {

/// Values that can be written as TeX markup.
pub trait TeX {
    /// The value in TeX markup.
    fn tex(&self) -> String;
}

} // verus!
