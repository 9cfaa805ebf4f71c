//! Violation records produced by the executor.
use crate::ast::strings_view;
use vstd::prelude::*;

verus! {

/// What kind of mismatch a violation reports.
#[derive(Clone, Copy, Debug, PartialEq, Eq, Structural)]
pub enum MismatchType {
    Unclassified,
    Access,
    FileName,
    FileSize,
}

/// One violation of one rule.
#[derive(Clone, Debug, PartialEq, Eq)]
pub struct RuleErrorMsg {
    pub expected: String,
    pub actual: String,
    pub mismatch_type: MismatchType,
    pub msg: String,
    /// One entry per offending element.
    pub items: Vec<String>,
    /// Zero-based position of the rule in the rule document.
    pub rule_index: usize,
}

/// A violation, with its texts as characters.
pub ghost struct ErrorView {
    pub expected: Seq<char>,
    pub actual: Seq<char>,
    pub mismatch_type: MismatchType,
    pub msg: Seq<char>,
    pub items: Seq<Seq<char>>,
    pub rule_index: nat,
}

impl View for RuleErrorMsg {
    type V = ErrorView;

    open spec fn view(&self) -> ErrorView {
        ErrorView {
            expected: self.expected@,
            actual: self.actual@,
            mismatch_type: self.mismatch_type,
            msg: self.msg@,
            items: strings_view(self.items@),
            rule_index: self.rule_index as nat,
        }
    }
}

/// The views of a sequence of violations.
pub open spec fn errors_view(v: Seq<RuleErrorMsg>) -> Seq<ErrorView> {
    v.map_values(|e: RuleErrorMsg| e@)
}

impl RuleErrorMsg {
    /// An empty violation of the given kind for the rule at `index`.
    pub fn new(mismatch_type: MismatchType, index: usize) -> (r: RuleErrorMsg)
        ensures
            r@ == (ErrorView {
                expected: Seq::empty(),
                actual: Seq::empty(),
                mismatch_type,
                msg: Seq::empty(),
                items: Seq::empty(),
                rule_index: index as nat,
            }),
    {
        let r = RuleErrorMsg {
            expected: String::new(),
            actual: String::new(),
            mismatch_type,
            msg: String::new(),
            items: Vec::new(),
            rule_index: index,
        };
        proof {
            assert(strings_view(r.items@) =~= Seq::empty());
        }
        r
    }
}

} // verus!
