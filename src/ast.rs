//! The parsed form of a rule.
use vstd::prelude::*;

verus! {

/// Whether a declaration is an ordinary rule or a layer declaration.
#[derive(Clone, Copy, Debug, PartialEq, Eq, Structural)]
pub enum RuleType {
    Normal,
    Layer,
}

/// The kind of element a rule speaks of.
#[derive(Clone, Copy, Debug, PartialEq, Eq, Structural)]
pub enum RuleLevel {
    Package,
    Module,
    Function,
    Class,
    Struct,
    File,
}

/// Which part of the model a rule applies to.
#[derive(Clone, Debug, PartialEq, Eq)]
pub enum RuleScope {
    All,
    PathDefine(String),
    Extend(String),
    Assignable(String),
    Implementation(String),
    MatchRegex(String),
}

/// The property of the scoped elements that a rule asserts on.
#[derive(Debug, PartialEq, Eq)]
pub enum Expr {
    Call(FunctionCall),
    PropsCall(Vec<String>),
    Identifier(String),
}

/// A function call, with keyed arguments in the order they were written.
#[derive(Debug, PartialEq, Eq)]
pub struct FunctionCall {
    /// The name of the function.
    pub name: String,
    /// The arguments, as key and value.
    pub args: Vec<(String, Expr)>,
}

impl FunctionCall {
    /// A call of `name` with no arguments.
    pub fn new(name: String) -> (r: FunctionCall)
        ensures
            r.name == name,
            r.args@.len() == 0,
    {
        FunctionCall { name, args: Vec::new() }
    }
}

/// Comparison, logical, string and package operators.
#[derive(Clone, Copy, Debug, PartialEq, Eq, Structural)]
pub enum Operator {
    /// `>`
    Gt,
    /// `>=`
    Gte,
    /// `<`
    Lt,
    /// `<=`
    Lte,
    /// `=`
    Eq,
    /// `!=`
    NotEq,
    /// `and`
    And,
    /// `or`
    Or,
    /// `not` or `!`: inverts the operator that follows it.
    Not,
    StartsWith,
    Endswith,
    Contains,
    ResideIn,
    Accessed,
    DependBy,
}

/// The right-hand side of a rule.
#[derive(Clone, Debug, PartialEq, Eq)]
pub enum RuleAssert {
    Empty,
    Stringed(String),
    Leveled(RuleLevel, String),
    Sized(usize),
    ArrayStringed(Vec<String>),
}

/// One rule of a rule document.
#[derive(Debug, PartialEq, Eq)]
pub struct GuardRule {
    pub ty: RuleType,
    pub level: RuleLevel,
    pub scope: RuleScope,
    pub expr: Expr,
    pub ops: Vec<Operator>,
    pub assert: RuleAssert,
}

/// A scope, with its text as characters.
pub ghost enum ScopeView {
    All,
    PathDefine(Seq<char>),
    Extend(Seq<char>),
    Assignable(Seq<char>),
    Implementation(Seq<char>),
    MatchRegex(Seq<char>),
}

/// An expression; of a call, its name and each argument's key with the text of its
/// value when that value is an identifier.
pub ghost enum ExprView {
    Call(Seq<char>, Seq<(Seq<char>, Seq<char>)>),
    PropsCall(Seq<Seq<char>>),
    Identifier(Seq<char>),
}

/// An assertion, with its texts as characters.
pub ghost enum AssertView {
    Empty,
    Stringed(Seq<char>),
    Leveled(RuleLevel, Seq<char>),
    Sized(nat),
    ArrayStringed(Seq<Seq<char>>),
}

/// A rule, with its texts as characters.
pub ghost struct RuleView {
    pub ty: RuleType,
    pub level: RuleLevel,
    pub scope: ScopeView,
    pub expr: ExprView,
    pub ops: Seq<Operator>,
    pub assert: AssertView,
}

/// What every rule's operators look like: at least one, with `Not` only in front and
/// then followed by exactly one operator that is not `Not`.
pub open spec fn ops_well_formed(ops: Seq<Operator>) -> bool {
    &&& ops.len() >= 1
    &&& forall|i: int| 0 < i < ops.len() ==> ops[i] != Operator::Not
    &&& ops[0] == Operator::Not ==> ops.len() == 2
}

/// The characters of each string.
pub open spec fn strings_view(v: Seq<String>) -> Seq<Seq<char>> {
    v.map_values(|s: String| s@)
}

impl View for RuleScope {
    type V = ScopeView;

    open spec fn view(&self) -> ScopeView {
        match self {
            RuleScope::All => ScopeView::All,
            RuleScope::PathDefine(s) => ScopeView::PathDefine(s@),
            RuleScope::Extend(s) => ScopeView::Extend(s@),
            RuleScope::Assignable(s) => ScopeView::Assignable(s@),
            RuleScope::Implementation(s) => ScopeView::Implementation(s@),
            RuleScope::MatchRegex(s) => ScopeView::MatchRegex(s@),
        }
    }
}

/// The text of an identifier expression, empty for the other forms.
pub open spec fn identifier_text(e: Expr) -> Seq<char> {
    match e {
        Expr::Identifier(s) => s@,
        _ => Seq::empty(),
    }
}

/// The keys and identifier texts of call arguments.
pub open spec fn args_view(args: Seq<(String, Expr)>) -> Seq<(Seq<char>, Seq<char>)> {
    args.map_values(|a: (String, Expr)| (a.0@, identifier_text(a.1)))
}

impl View for Expr {
    type V = ExprView;

    open spec fn view(&self) -> ExprView {
        match self {
            Expr::Call(c) => ExprView::Call(c.name@, args_view(c.args@)),
            Expr::PropsCall(v) => ExprView::PropsCall(strings_view(v@)),
            Expr::Identifier(s) => ExprView::Identifier(s@),
        }
    }
}

impl View for RuleAssert {
    type V = AssertView;

    open spec fn view(&self) -> AssertView {
        match self {
            RuleAssert::Empty => AssertView::Empty,
            RuleAssert::Stringed(s) => AssertView::Stringed(s@),
            RuleAssert::Leveled(l, s) => AssertView::Leveled(*l, s@),
            RuleAssert::Sized(n) => AssertView::Sized(*n as nat),
            RuleAssert::ArrayStringed(v) => AssertView::ArrayStringed(strings_view(v@)),
        }
    }
}

impl View for GuardRule {
    type V = RuleView;

    open spec fn view(&self) -> RuleView {
        RuleView {
            ty: self.ty,
            level: self.level,
            scope: self.scope@,
            expr: self.expr@,
            ops: self.ops@,
            assert: self.assert@,
        }
    }
}

/// The views of a sequence of rules.
pub open spec fn rules_view(v: Seq<GuardRule>) -> Seq<RuleView> {
    v.map_values(|r: GuardRule| r@)
}

} // verus!
