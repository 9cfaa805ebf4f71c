//! Architecture-conformance rules: a small rule language, a package-pattern matcher and
//! an executor that checks parsed rules against a structural model of a code base.
use vstd::prelude::*;

pub mod ast;
pub mod domain;
pub mod executor;
pub mod model_builder;
pub mod package_matcher;
pub mod package_unify;
pub mod parser;
pub mod rule_error;
pub mod str_support;
pub mod text;

use crate::domain::{files_view, CodeFile};
use crate::executor::{exec, indices_view, run_all, Evaluation};
use crate::package_matcher::PatternError;
use crate::parser::{document, parse, ParseError};
use crate::rule_error::errors_view;

verus! {

/// Why a rule document could not be evaluated.
#[derive(Clone, Debug)]
pub enum GuardError {
    /// The rule text does not match the grammar.
    Parse(ParseError),
    /// A package pattern of a rule cannot be compiled.
    Pattern(PatternError),
}

/// Parses `rule_text` and evaluates its rules against `models`: the violations and the
/// rules without evaluation, in rule order, or why that could not be done.
pub fn evaluate(rule_text: &str, models: Vec<CodeFile>) -> (r: Result<Evaluation, GuardError>)
    ensures
        document(rule_text@) is None <==> r matches Err(GuardError::Parse(_)),
        document(rule_text@) matches Some(rules) ==> {
            let run = run_all(rules, files_view(models@));
            &&& (run.failed is None <==> r is Ok)
            &&& (r matches Ok(ev) ==> errors_view(ev.errors@) == run.errors
                && indices_view(ev.skipped@) == run.skipped)
            &&& (r matches Err(GuardError::Pattern(e)) ==> run.failed == Some(e.pattern@))
        },
{
    match parse(rule_text) {
        Ok(rules) => {
            match exec(rules, models) {
                Ok(ev) => Ok(ev),
                Err(e) => Err(GuardError::Pattern(e)),
            }
        },
        Err(e) => Err(GuardError::Parse(e)),
    }
}

} // verus!
