//! Evaluates parsed rules against a structural model and collects violations.
use crate::ast::{
    strings_view, rules_view, AssertView, Expr, ExprView, GuardRule, Operator, RuleAssert,
    RuleLevel, RuleScope, RuleType, RuleView, ScopeView,
};
use crate::domain::{files_view, ClassView, CodeClass, CodeFile, FileView};
use crate::package_matcher::{package_matches, pattern_valid, PackageMatcher, PatternError};
use crate::rule_error::{errors_view, ErrorView, MismatchType, RuleErrorMsg};
use crate::text::{
    chars_of, contains_chars, decimal, decimal_chars, ends_with_chars, has_infix, has_prefix,
    has_suffix, push_all, push_str, starts_with_chars, string_from_chars,
};
use vstd::prelude::*;

verus! {

// ---------------------------------------------------------------------------------------
// What evaluation means
// ---------------------------------------------------------------------------------------

/// The operator a rule applies and whether a leading `Not` inverts it. A rule without
/// operators, or with `Not` alone or twice, has none.
pub open spec fn primary_op(ops: Seq<Operator>) -> Option<(Operator, bool)> {
    if ops.len() == 0 {
        None
    } else if ops[0] == Operator::Not {
        if ops.len() >= 2 && ops[1] != Operator::Not {
            Some((ops[1], true))
        } else {
            None
        }
    } else {
        Some((ops[0], false))
    }
}

/// Which classes a class rule looks at.
pub ghost enum ClassFilter {
    Every,
    InPackage(Seq<char>),
    Implementing(Seq<char>),
}

pub open spec fn file_selected(f: FileView, filt: ClassFilter) -> bool {
    match filt {
        ClassFilter::InPackage(p) => package_matches(p, f.package),
        _ => true,
    }
}

pub open spec fn class_selected(c: ClassView, filt: ClassFilter) -> bool {
    match filt {
        ClassFilter::Implementing(n) => c.implements.contains(n),
        _ => true,
    }
}

/// The classes of `cs` that the filter keeps, in order.
pub open spec fn pick_classes(cs: Seq<ClassView>, filt: ClassFilter) -> Seq<ClassView>
    decreases cs.len(),
{
    if cs.len() == 0 {
        Seq::empty()
    } else {
        let rest = pick_classes(cs.drop_last(), filt);
        if class_selected(cs.last(), filt) {
            rest.push(cs.last())
        } else {
            rest
        }
    }
}

/// The classes of all files that the filter keeps, file by file.
pub open spec fn select_classes(files: Seq<FileView>, filt: ClassFilter) -> Seq<ClassView>
    decreases files.len(),
{
    if files.len() == 0 {
        Seq::empty()
    } else {
        select_classes(files.drop_last(), filt) + if file_selected(files.last(), filt) {
            pick_classes(files.last().classes, filt)
        } else {
            Seq::empty()
        }
    }
}

/// The number of files whose package matches `p`.
pub open spec fn count_in_package(files: Seq<FileView>, p: Seq<char>) -> nat
    decreases files.len(),
{
    if files.len() == 0 {
        0
    } else {
        count_in_package(files.drop_last(), p) + if package_matches(p, files.last().package) {
            1nat
        } else {
            0nat
        }
    }
}

/// `actual <op> expected` for the size operators.
pub open spec fn size_holds(op: Operator, actual: nat, expected: nat) -> bool {
    match op {
        Operator::Gt => actual > expected,
        Operator::Gte => actual >= expected,
        Operator::Lt => actual < expected,
        Operator::Lte => actual <= expected,
        _ => actual == expected,
    }
}

pub open spec fn is_size_op(op: Operator) -> bool {
    op == Operator::Gt || op == Operator::Gte || op == Operator::Lt || op == Operator::Lte
        || op == Operator::Eq
}

pub open spec fn is_name_op(op: Operator) -> bool {
    op == Operator::StartsWith || op == Operator::Endswith || op == Operator::Contains
}

pub open spec fn op_symbol(op: Operator) -> Seq<char> {
    match op {
        Operator::Gt => ">"@,
        Operator::Gte => ">="@,
        Operator::Lt => "<"@,
        Operator::Lte => "<="@,
        _ => "="@,
    }
}

pub open spec fn op_label(op: Operator) -> Seq<char> {
    match op {
        Operator::StartsWith => "startsWith"@,
        Operator::Endswith => "endsWith"@,
        Operator::Contains => "contains"@,
        _ => "resideIn"@,
    }
}

/// The message of a failed size assertion.
pub open spec fn size_msg(op: Operator, actual: nat, expected: nat) -> Seq<char> {
    "file.len = "@ + decimal(actual) + ", expected: len "@ + op_symbol(op) + " "@ + decimal(
        expected,
    )
}

/// What `{:?}` writes for a string: the text between double quotes, with quotes,
/// backslashes and control characters escaped.
pub uninterp spec fn debug_text(s: Seq<char>) -> Seq<char>;

/// Relies on `<str as Debug>::fmt`: the quoted, escaped form depends on the characters
/// alone.
#[verifier::external_body]
fn debug_quoted(s: &str) -> (r: String)
    ensures
        r@ == debug_text(s@),
{
    format!("{:?}", s)
}

/// `label: ` followed by the Debug form of `text`.
pub open spec fn quoted_msg(label: Seq<char>, text: Seq<char>) -> Seq<char> {
    label + ": "@ + debug_text(text)
}

/// How a class is named in a violation's items.
pub open spec fn item_text(c: ClassView) -> Seq<char> {
    "path: "@ + c.package + ", name: "@ + c.name
}

/// The size violation, if `op` is a comparison and the (possibly inverted) comparison
/// fails; never one for another operator.
pub open spec fn size_violation(op: Operator, negated: bool, actual: nat, expected: nat, index: nat) -> Option<ErrorView> {
    if !is_size_op(op) || size_holds(op, actual, expected) != negated {
        None
    } else {
        Some(
            ErrorView {
                expected: decimal(expected),
                actual: decimal(actual),
                mismatch_type: MismatchType::FileSize,
                msg: size_msg(op, actual, expected),
                items: Seq::empty(),
                rule_index: index,
            },
        )
    }
}

pub open spec fn name_holds(op: Operator, expected: Seq<char>, name: Seq<char>) -> bool {
    match op {
        Operator::StartsWith => has_prefix(name, expected),
        Operator::Endswith => has_suffix(name, expected),
        _ => has_infix(name, expected),
    }
}

/// The classes whose name fails the (possibly inverted) string predicate.
pub open spec fn name_items(cs: Seq<ClassView>, op: Operator, negated: bool, expected: Seq<char>) -> Seq<Seq<char>>
    decreases cs.len(),
{
    if cs.len() == 0 {
        Seq::empty()
    } else {
        let rest = name_items(cs.drop_last(), op, negated, expected);
        if name_holds(op, expected, cs.last().name) != negated {
            rest
        } else {
            rest.push(item_text(cs.last()))
        }
    }
}

/// The classes whose package fails the (possibly inverted) containment in `p`.
pub open spec fn reside_items(cs: Seq<ClassView>, negated: bool, p: Seq<char>) -> Seq<Seq<char>>
    decreases cs.len(),
{
    if cs.len() == 0 {
        Seq::empty()
    } else {
        let rest = reside_items(cs.drop_last(), negated, p);
        if package_matches(p, cs.last().package) != negated {
            rest
        } else {
            rest.push(item_text(cs.last()))
        }
    }
}

/// One violation listing `items`, or none when there are none.
pub open spec fn items_violation(kind: MismatchType, msg: Seq<char>, items: Seq<Seq<char>>, index: nat) -> Option<ErrorView> {
    if items.len() == 0 {
        None
    } else {
        Some(
            ErrorView {
                expected: Seq::empty(),
                actual: Seq::empty(),
                mismatch_type: kind,
                msg,
                items,
                rule_index: index,
            },
        )
    }
}

/// Some pattern of `ps` matches `t`.
pub open spec fn matches_any(ps: Seq<Seq<char>>, t: Seq<char>) -> bool {
    exists|k: int| 0 <= k < ps.len() && package_matches(ps[k], t)
}

/// Some file whose package matches one of `ps` has path `path`.
pub open spec fn path_allowed(files: Seq<FileView>, ps: Seq<Seq<char>>, path: Seq<char>) -> bool {
    exists|j: int| 0 <= j < files.len() && files[j].path == path && matches_any(ps, files[j].package)
}

/// Some import matches `target`.
pub open spec fn imports_match(target: Seq<char>, imports: Seq<Seq<char>>) -> bool {
    exists|k: int| 0 <= k < imports.len() && package_matches(target, imports[k])
}

/// The paths of the files with an import matching `target` whose access is not (or, when
/// negated, is) allowed by `ps`; `all` is the whole model.
pub open spec fn access_items(all: Seq<FileView>, files: Seq<FileView>, target: Seq<char>, ps: Seq<Seq<char>>, negated: bool) -> Seq<Seq<char>>
    decreases files.len(),
{
    if files.len() == 0 {
        Seq::empty()
    } else {
        let rest = access_items(all, files.drop_last(), target, ps, negated);
        let f = files.last();
        if imports_match(target, f.imports) && path_allowed(all, ps, f.path) == negated {
            rest.push(f.path)
        } else {
            rest
        }
    }
}

/// What evaluating one rule gives.
pub ghost enum Outcome {
    /// The rule's shape has no evaluation.
    Skipped,
    /// The rule was evaluated, with at most one violation.
    Checked(Option<ErrorView>),
    /// A pattern of the rule could not be compiled.
    Failed(Seq<char>),
}

/// The first pattern of `ps` that cannot be compiled, if any.
pub open spec fn first_invalid(ps: Seq<Seq<char>>) -> Option<Seq<char>>
    decreases ps.len(),
{
    if ps.len() == 0 {
        None
    } else if !pattern_valid(ps[0]) {
        Some(ps[0])
    } else {
        first_invalid(ps.drop_first())
    }
}

pub open spec fn is_dot(p: Seq<char>) -> bool {
    p == "."@
}

/// A package rule: `len` or `file.len` of the files that a quoted path selects (`"."`
/// for all of them), against a size. Other scopes, and no scope, have no evaluation.
pub open spec fn package_outcome(rule: RuleView, index: nat, files: Seq<FileView>) -> Outcome {
    match primary_op(rule.ops) {
        Some((op, negated)) => {
            let shape_ok = is_size_op(op) && rule.assert is Sized && (rule.expr == ExprView::PropsCall(
                seq!["len"@],
            ) || rule.expr == ExprView::PropsCall(seq!["file"@, "len"@]));
            if !shape_ok {
                Outcome::Skipped
            } else {
                let expected = rule.assert->Sized_0;
                match rule.scope {
                    ScopeView::PathDefine(p) => if is_dot(p) {
                        Outcome::Checked(size_violation(op, negated, files.len(), expected, index))
                    } else if !pattern_valid(p) {
                        Outcome::Failed(p)
                    } else {
                        Outcome::Checked(
                            size_violation(op, negated, count_in_package(files, p), expected, index),
                        )
                    },
                    _ => Outcome::Skipped,
                }
            }
        },
        None => Outcome::Skipped,
    }
}

/// The class filter of a scope: a quoted path (`"."` for every class) or `implementation`.
/// Other scopes, and no scope, select nothing to evaluate.
pub open spec fn class_filter(scope: ScopeView) -> Option<ClassFilter> {
    match scope {
        ScopeView::PathDefine(p) => if is_dot(p) {
            Some(ClassFilter::Every)
        } else {
            Some(ClassFilter::InPackage(p))
        },
        ScopeView::Implementation(n) => Some(ClassFilter::Implementing(n)),
        _ => None,
    }
}

/// The patterns of an access assertion.
pub open spec fn access_patterns(a: AssertView) -> Option<Seq<Seq<char>>> {
    match a {
        AssertView::Stringed(s) => Some(seq![s]),
        AssertView::ArrayStringed(v) => Some(v),
        _ => None,
    }
}

/// An access rule: files importing from the scope's package must be among the allowed ones.
pub open spec fn access_outcome(rule: RuleView, index: nat, files: Seq<FileView>, op: Operator, negated: bool) -> Outcome {
    if op != Operator::Accessed || !(rule.scope is PathDefine) || access_patterns(rule.assert) is None {
        Outcome::Skipped
    } else {
        let target = rule.scope->PathDefine_0;
        let ps = access_patterns(rule.assert)->Some_0;
        if !pattern_valid(target) {
            Outcome::Failed(target)
        } else if first_invalid(ps) is Some {
            Outcome::Failed(first_invalid(ps)->Some_0)
        } else {
            Outcome::Checked(
                items_violation(
                    MismatchType::Access,
                    Seq::empty(),
                    access_items(files, files, target, ps, negated),
                    index,
                ),
            )
        }
    }
}

/// The shapes of class rules that are evaluated on the selected classes.
pub ghost enum ClassCheck {
    Len(nat),
    Name(Seq<char>),
    Reside(Seq<char>),
}

pub open spec fn class_check(rule: RuleView, op: Operator) -> Option<ClassCheck> {
    if rule.expr == ExprView::PropsCall(seq!["len"@]) && is_size_op(op) && rule.assert is Sized {
        Some(ClassCheck::Len(rule.assert->Sized_0))
    } else if rule.expr == ExprView::PropsCall(seq!["name"@]) && is_name_op(op)
        && rule.assert is Stringed {
        Some(ClassCheck::Name(rule.assert->Stringed_0))
    } else if rule.expr == ExprView::Identifier(Seq::empty()) && op == Operator::ResideIn
        && rule.assert is Leveled {
        Some(ClassCheck::Reside(rule.assert->Leveled_1))
    } else {
        None
    }
}

/// The filter's own pattern, if it has one that cannot be compiled.
pub open spec fn filter_invalid(filt: ClassFilter) -> bool {
    match filt {
        ClassFilter::InPackage(p) => !pattern_valid(p),
        _ => false,
    }
}

pub open spec fn check_outcome(check: ClassCheck, cs: Seq<ClassView>, op: Operator, negated: bool, index: nat) -> Outcome {
    match check {
        ClassCheck::Len(n) => Outcome::Checked(size_violation(op, negated, cs.len(), n, index)),
        ClassCheck::Name(s) => Outcome::Checked(
            items_violation(
                MismatchType::FileName,
                quoted_msg(op_label(op), s),
                name_items(cs, op, negated, s),
                index,
            ),
        ),
        ClassCheck::Reside(p) => if !pattern_valid(p) {
            Outcome::Failed(p)
        } else {
            Outcome::Checked(
                items_violation(
                    MismatchType::FileName,
                    quoted_msg(op_label(op), p),
                    reside_items(cs, negated, p),
                    index,
                ),
            )
        },
    }
}

/// A class rule: an access rule, or a check on the classes that the scope selects.
pub open spec fn class_outcome(rule: RuleView, index: nat, files: Seq<FileView>) -> Outcome {
    match primary_op(rule.ops) {
        Some((op, negated)) => if op == Operator::Accessed || op == Operator::DependBy {
            access_outcome(rule, index, files, op, negated)
        } else {
            match (class_check(rule, op), class_filter(rule.scope)) {
                (Some(check), Some(filt)) => if filter_invalid(filt) {
                    Outcome::Failed(filt->InPackage_0)
                } else {
                    check_outcome(check, select_classes(files, filt), op, negated, index)
                },
                _ => Outcome::Skipped,
            }
        },
        None => Outcome::Skipped,
    }
}

/// The outcome of the rule at position `index`.
pub open spec fn rule_outcome(rule: RuleView, index: nat, files: Seq<FileView>) -> Outcome {
    if rule.ty == RuleType::Layer {
        Outcome::Skipped
    } else {
        match rule.level {
            RuleLevel::Package => package_outcome(rule, index, files),
            RuleLevel::Class => class_outcome(rule, index, files),
            _ => Outcome::Skipped,
        }
    }
}

/// The result of evaluating a prefix of the rules in order.
pub ghost struct RunView {
    pub errors: Seq<ErrorView>,
    pub skipped: Seq<nat>,
    pub failed: Option<Seq<char>>,
}

/// Evaluates the first `n` rules in order, stopping at the first pattern that fails.
pub open spec fn run_prefix(rules: Seq<RuleView>, files: Seq<FileView>, n: nat) -> RunView
    decreases n,
{
    if n == 0 {
        RunView { errors: Seq::empty(), skipped: Seq::empty(), failed: None }
    } else {
        let prev = run_prefix(rules, files, (n - 1) as nat);
        if prev.failed is Some || n > rules.len() {
            prev
        } else {
            match rule_outcome(rules[n - 1], (n - 1) as nat, files) {
                Outcome::Skipped => RunView { skipped: prev.skipped.push((n - 1) as nat), ..prev },
                Outcome::Checked(Some(e)) => RunView { errors: prev.errors.push(e), ..prev },
                Outcome::Checked(None) => prev,
                Outcome::Failed(p) => RunView { failed: Some(p), ..prev },
            }
        }
    }
}

/// Evaluates all rules.
pub open spec fn run_all(rules: Seq<RuleView>, files: Seq<FileView>) -> RunView {
    run_prefix(rules, files, rules.len())
}

// ---------------------------------------------------------------------------------------
// Evaluation
// ---------------------------------------------------------------------------------------

/// The view of an optional violation.
pub open spec fn opt_error_view(o: Option<RuleErrorMsg>) -> Option<ErrorView> {
    match o {
        Some(e) => Some(e@),
        None => None,
    }
}

/// The outcome that an evaluation result stands for: `Ok(None)` for a rule without
/// evaluation, `Ok(Some(_))` for an evaluated one.
pub open spec fn outcome_of(r: Result<Option<Option<RuleErrorMsg>>, PatternError>) -> Outcome {
    match r {
        Ok(None) => Outcome::Skipped,
        Ok(Some(o)) => Outcome::Checked(opt_error_view(o)),
        Err(e) => Outcome::Failed(e.pattern@),
    }
}

/// The views of a sequence of class references.
pub open spec fn class_refs_view(v: Seq<&CodeClass>) -> Seq<ClassView> {
    v.map_values(|c: &CodeClass| c@)
}

fn text_is(s: &String, lit: &str) -> (r: bool)
    ensures
        r == (s@ == lit@),
{
    let l = lit.to_owned();
    *s == l
}

fn props_are_one(v: &Vec<String>, a: &str) -> (r: bool)
    ensures
        r == (strings_view(v@) == seq![a@]),
{
    if v.len() != 1 {
        proof {
            assert(strings_view(v@).len() != seq![a@].len());
        }
        return false;
    }
    let r = text_is(&v[0], a);
    proof {
        if r {
            assert(strings_view(v@) =~= seq![a@]);
        } else {
            assert(strings_view(v@)[0] != seq![a@][0]);
        }
    }
    r
}

fn props_are_two(v: &Vec<String>, a: &str, b: &str) -> (r: bool)
    ensures
        r == (strings_view(v@) == seq![a@, b@]),
{
    if v.len() != 2 {
        proof {
            assert(strings_view(v@).len() != seq![a@, b@].len());
        }
        return false;
    }
    let r0 = text_is(&v[0], a);
    let r1 = text_is(&v[1], b);
    proof {
        if r0 && r1 {
            assert(strings_view(v@) =~= seq![a@, b@]);
        } else if !r0 {
            assert(strings_view(v@)[0] != seq![a@, b@][0]);
        } else {
            assert(strings_view(v@)[1] != seq![a@, b@][1]);
        }
    }
    r0 && r1
}

fn get_primary_op(ops: &Vec<Operator>) -> (r: Option<(Operator, bool)>)
    ensures
        r == primary_op(ops@),
{
    if ops.len() == 0 {
        None
    } else if ops[0] == Operator::Not {
        if ops.len() >= 2 && ops[1] != Operator::Not {
            Some((ops[1], true))
        } else {
            None
        }
    } else {
        Some((ops[0], false))
    }
}

fn is_size_operator(op: Operator) -> (r: bool)
    ensures
        r == is_size_op(op),
{
    match op {
        Operator::Gt | Operator::Gte | Operator::Lt | Operator::Lte | Operator::Eq => true,
        _ => false,
    }
}

fn is_name_operator(op: Operator) -> (r: bool)
    ensures
        r == is_name_op(op),
{
    match op {
        Operator::StartsWith | Operator::Endswith | Operator::Contains => true,
        _ => false,
    }
}

fn op_symbol_text(op: Operator) -> (r: Vec<char>)
    ensures
        r@ == op_symbol(op),
{
    match op {
        Operator::Gt => chars_of(">"),
        Operator::Gte => chars_of(">="),
        Operator::Lt => chars_of("<"),
        Operator::Lte => chars_of("<="),
        _ => chars_of("="),
    }
}

fn op_label_text(op: Operator) -> (r: Vec<char>)
    ensures
        r@ == op_label(op),
{
    match op {
        Operator::StartsWith => chars_of("startsWith"),
        Operator::Endswith => chars_of("endsWith"),
        Operator::Contains => chars_of("contains"),
        _ => chars_of("resideIn"),
    }
}

fn quoted_message(label: Vec<char>, text: &String) -> (r: String)
    ensures
        r@ == quoted_msg(label@, text@),
{
    let mut out = label;
    push_str(&mut out, ": ");
    let quoted = debug_quoted(text.as_str());
    push_str(&mut out, quoted.as_str());
    string_from_chars(&out)
}

fn item_for(c: &CodeClass) -> (r: String)
    ensures
        r@ == item_text(c@),
{
    let mut out = chars_of("path: ");
    push_str(&mut out, c.package.as_str());
    push_str(&mut out, ", name: ");
    push_str(&mut out, c.name.as_str());
    string_from_chars(&out)
}

/// Compares a size with the (possibly inverted) operator and reports a failure.
fn process_len(index: usize, op: Operator, negated: bool, actual: usize, expected: usize) -> (r: Option<RuleErrorMsg>)
    ensures
        opt_error_view(r) == size_violation(op, negated, actual as nat, expected as nat, index as nat),
{
    let holds = match op {
        Operator::Gt => actual > expected,
        Operator::Gte => actual >= expected,
        Operator::Lt => actual < expected,
        Operator::Lte => actual <= expected,
        Operator::Eq => actual == expected,
        _ => {
            return None;
        },
    };
    if holds != negated {
        return None;
    }
    let mut msg = chars_of("file.len = ");
    push_all(&mut msg, &decimal_chars(actual));
    push_str(&mut msg, ", expected: len ");
    push_all(&mut msg, &op_symbol_text(op));
    push_str(&mut msg, " ");
    push_all(&mut msg, &decimal_chars(expected));
    let mut e = RuleErrorMsg::new(MismatchType::FileSize, index);
    e.expected = string_from_chars(&decimal_chars(expected));
    e.actual = string_from_chars(&decimal_chars(actual));
    e.msg = string_from_chars(&msg);
    Some(e)
}

/// One violation listing `items`, if there are any.
fn items_error(kind: MismatchType, msg: String, items: Vec<String>, index: usize) -> (r: Option<RuleErrorMsg>)
    ensures
        opt_error_view(r) == items_violation(kind, msg@, strings_view(items@), index as nat),
{
    if items.len() == 0 {
        None
    } else {
        let mut e = RuleErrorMsg::new(kind, index);
        e.msg = msg;
        e.items = items;
        Some(e)
    }
}

/// The executable form of a class filter.
enum ScopeFilter {
    Every,
    InPackage(PackageMatcher),
    Implementing(String),
}

impl ScopeFilter {
    spec fn view(&self) -> ClassFilter {
        match self {
            ScopeFilter::Every => ClassFilter::Every,
            ScopeFilter::InPackage(m) => ClassFilter::InPackage(m.pattern()),
            ScopeFilter::Implementing(n) => ClassFilter::Implementing(n@),
        }
    }

    spec fn wf(&self) -> bool {
        match self {
            ScopeFilter::InPackage(m) => m.wf(),
            _ => true,
        }
    }
}

fn contains_string(v: &Vec<String>, s: &String) -> (r: bool)
    ensures
        r == strings_view(v@).contains(s@),
{
    let mut i: usize = 0;
    while i < v.len()
        invariant
            i <= v.len(),
            forall|k: int| 0 <= k < i ==> strings_view(v@)[k] != s@,
        decreases v.len() - i,
    {
        if v[i] == *s {
            proof {
                assert(strings_view(v@)[i as int] == s@);
            }
            return true;
        }
        i = i + 1;
    }
    false
}

/// The classes of `files` that the filter selects, file by file.
fn filter_classes_by_scope<'a>(files: &'a Vec<CodeFile>, filt: &ScopeFilter) -> (r: Vec<&'a CodeClass>)
    requires
        filt.wf(),
    ensures
        class_refs_view(r@) == select_classes(files_view(files@), filt.view()),
{
    let ghost fv = files_view(files@);
    let mut out: Vec<&'a CodeClass> = Vec::new();
    let mut i: usize = 0;
    while i < files.len()
        invariant
            i <= files.len(),
            fv == files_view(files@),
            filt.wf(),
            class_refs_view(out@) == select_classes(fv.take(i as int), filt.view()),
        decreases files.len() - i,
    {
        let file = &files[i];
        let ghost before = out@;
        let keep_file = match filt {
            ScopeFilter::InPackage(m) => m.is_match(file.package.as_str()),
            _ => true,
        };
        proof {
            assert(fv.take(i + 1).drop_last() =~= fv.take(i as int));
            assert(fv.take(i + 1).last() == file@);
        }
        if keep_file {
            let classes = &file.classes;
            let ghost cv = classes@.map_values(|c: CodeClass| c@);
            let mut j: usize = 0;
            while j < classes.len()
                invariant
                    j <= classes.len(),
                    cv == classes@.map_values(|c: CodeClass| c@),
                    cv == file@.classes,
                    class_refs_view(out@) == class_refs_view(before) + pick_classes(
                        cv.take(j as int),
                        filt.view(),
                    ),
                decreases classes.len() - j,
            {
                let c = &classes[j];
                let keep = match filt {
                    ScopeFilter::Implementing(n) => contains_string(&c.implements, n),
                    _ => true,
                };
                proof {
                    assert(cv.take(j + 1).drop_last() =~= cv.take(j as int));
                    assert(cv.take(j + 1).last() == c@);
                    assert(class_selected(c@, filt.view()) == keep);
                }
                if keep {
                    let ghost prev = out@;
                    out.push(c);
                    proof {
                        assert(class_refs_view(out@) =~= class_refs_view(prev).push(c@));
                        assert(class_refs_view(out@) =~= class_refs_view(before) + pick_classes(
                            cv.take(j + 1),
                            filt.view(),
                        ));
                    }
                }
                j = j + 1;
            }
            proof {
                assert(cv.take(classes.len() as int) =~= cv);
                assert(class_refs_view(out@) =~= select_classes(fv.take(i + 1), filt.view()));
            }
        } else {
            proof {
                assert(select_classes(fv.take(i + 1), filt.view()) =~= select_classes(
                    fv.take(i as int),
                    filt.view(),
                ));
            }
        }
        i = i + 1;
    }
    proof {
        assert(fv.take(files.len() as int) =~= fv);
    }
    out
}

/// Whether `name` satisfies the string operator against `expected`.
fn name_matches(op: Operator, expected: &Vec<char>, name: &String) -> (r: bool)
    ensures
        r == name_holds(op, expected@, name@),
{
    let n = chars_of(name.as_str());
    match op {
        Operator::StartsWith => starts_with_chars(&n, expected),
        Operator::Endswith => ends_with_chars(&n, expected),
        _ => contains_chars(&n, expected),
    }
}

/// Applies a string operator to each class name, listing every class that fails.
fn process_name(index: usize, op: Operator, negated: bool, classes: &Vec<&CodeClass>, expected: &String) -> (r: Option<RuleErrorMsg>)
    requires
        is_name_op(op),
    ensures
        opt_error_view(r) == items_violation(
            MismatchType::FileName,
            quoted_msg(op_label(op), expected@),
            name_items(class_refs_view(classes@), op, negated, expected@),
            index as nat,
        ),
{
    let ghost cv = class_refs_view(classes@);
    let exp = chars_of(expected.as_str());
    let mut items: Vec<String> = Vec::new();
    let mut i: usize = 0;
    while i < classes.len()
        invariant
            i <= classes.len(),
            cv == class_refs_view(classes@),
            exp@ == expected@,
            strings_view(items@) == name_items(cv.take(i as int), op, negated, expected@),
        decreases classes.len() - i,
    {
        let c = classes[i];
        proof {
            assert(cv.take(i + 1).drop_last() =~= cv.take(i as int));
            assert(cv.take(i + 1).last() == c@);
        }
        if name_matches(op, &exp, &c.name) == negated {
            let ghost prev = items@;
            items.push(item_for(c));
            proof {
                assert(strings_view(items@) =~= strings_view(prev).push(item_text(c@)));
            }
        }
        i = i + 1;
    }
    proof {
        assert(cv.take(classes.len() as int) =~= cv);
    }
    let msg = quoted_message(op_label_text(op), expected);
    items_error(MismatchType::FileName, msg, items, index)
}

/// Tests each class's package against the pattern, listing every class that fails.
fn process_package_captures(index: usize, negated: bool, classes: &Vec<&CodeClass>, matcher: &PackageMatcher, pattern: &String) -> (r: Option<RuleErrorMsg>)
    requires
        matcher.wf(),
        matcher.pattern() == pattern@,
    ensures
        opt_error_view(r) == items_violation(
            MismatchType::FileName,
            quoted_msg(op_label(Operator::ResideIn), pattern@),
            reside_items(class_refs_view(classes@), negated, pattern@),
            index as nat,
        ),
{
    let ghost cv = class_refs_view(classes@);
    let mut items: Vec<String> = Vec::new();
    let mut i: usize = 0;
    while i < classes.len()
        invariant
            i <= classes.len(),
            cv == class_refs_view(classes@),
            matcher.wf(),
            matcher.pattern() == pattern@,
            strings_view(items@) == reside_items(cv.take(i as int), negated, pattern@),
        decreases classes.len() - i,
    {
        let c = classes[i];
        proof {
            assert(cv.take(i + 1).drop_last() =~= cv.take(i as int));
            assert(cv.take(i + 1).last() == c@);
        }
        if matcher.is_match(c.package.as_str()) == negated {
            let ghost prev = items@;
            items.push(item_for(c));
            proof {
                assert(strings_view(items@) =~= strings_view(prev).push(item_text(c@)));
            }
        }
        i = i + 1;
    }
    proof {
        assert(cv.take(classes.len() as int) =~= cv);
    }
    let msg = quoted_message(op_label_text(Operator::ResideIn), pattern);
    items_error(MismatchType::FileName, msg, items, index)
}

/// The number of files whose package matches.
fn count_files_in_package(files: &Vec<CodeFile>, matcher: &PackageMatcher) -> (r: usize)
    requires
        matcher.wf(),
    ensures
        r as nat == count_in_package(files_view(files@), matcher.pattern()),
{
    let ghost fv = files_view(files@);
    let mut n: usize = 0;
    let mut i: usize = 0;
    while i < files.len()
        invariant
            i <= files.len(),
            n <= i,
            fv == files_view(files@),
            matcher.wf(),
            n as nat == count_in_package(fv.take(i as int), matcher.pattern()),
        decreases files.len() - i,
    {
        proof {
            assert(fv.take(i + 1).drop_last() =~= fv.take(i as int));
            assert(fv.take(i + 1).last() == files[i as int]@);
        }
        if matcher.is_match(files[i].package.as_str()) {
            n = n + 1;
        }
        i = i + 1;
    }
    proof {
        assert(fv.take(files.len() as int) =~= fv);
    }
    n
}

/// The patterns of a list of matchers.
pub open spec fn matcher_patterns(ms: Seq<PackageMatcher>) -> Seq<Seq<char>> {
    ms.map_values(|m: PackageMatcher| m.pattern())
}

pub open spec fn all_wf(ms: Seq<PackageMatcher>) -> bool {
    forall|k: int| 0 <= k < ms.len() ==> #[trigger] ms[k].wf()
}

proof fn lemma_first_invalid_skip(ps: Seq<Seq<char>>, i: int)
    requires
        0 <= i <= ps.len(),
        forall|k: int| 0 <= k < i ==> pattern_valid(#[trigger] ps[k]),
    ensures
        first_invalid(ps) == first_invalid(ps.subrange(i, ps.len() as int)),
    decreases i,
{
    if i == 0 {
        assert(ps.subrange(0, ps.len() as int) =~= ps);
    } else {
        assert(pattern_valid(ps[0]));
        let rest = ps.drop_first();
        assert forall|k: int| 0 <= k < i - 1 implies pattern_valid(#[trigger] rest[k]) by {
            assert(rest[k] == ps[k + 1]);
        }
        lemma_first_invalid_skip(rest, i - 1);
        assert(rest.subrange(i - 1, rest.len() as int) =~= ps.subrange(i, ps.len() as int));
    }
}

/// Compiles each pattern in order, stopping at the first that fails.
fn compile_all(ps: &Vec<String>) -> (r: Result<Vec<PackageMatcher>, PatternError>)
    ensures
        r is Ok <==> first_invalid(strings_view(ps@)) is None,
        r matches Ok(ms) ==> all_wf(ms@) && matcher_patterns(ms@) == strings_view(ps@),
        r matches Err(e) ==> first_invalid(strings_view(ps@)) == Some(e.pattern@),
{
    let ghost sv = strings_view(ps@);
    let mut ms: Vec<PackageMatcher> = Vec::new();
    let mut i: usize = 0;
    while i < ps.len()
        invariant
            i <= ps.len(),
            sv == strings_view(ps@),
            all_wf(ms@),
            matcher_patterns(ms@) == sv.take(i as int),
            forall|k: int| 0 <= k < i ==> pattern_valid(#[trigger] sv[k]),
        decreases ps.len() - i,
    {
        match PackageMatcher::new(ps[i].as_str()) {
            Ok(m) => {
                let ghost prev = ms@;
                let ghost mp = m.pattern();
                ms.push(m);
                proof {
                    assert(mp == sv[i as int]);
                    assert(matcher_patterns(ms@) =~= matcher_patterns(prev).push(mp));
                    assert(matcher_patterns(ms@) =~= sv.take(i + 1));
                    assert forall|k: int| 0 <= k < ms@.len() implies #[trigger] ms@[k].wf() by {
                        if k < prev.len() {
                            assert(ms@[k] == prev[k]);
                        }
                    }
                }
            },
            Err(e) => {
                proof {
                    lemma_first_invalid_skip(sv, i as int);
                    assert(sv.subrange(i as int, sv.len() as int)[0] == sv[i as int]);
                }
                return Err(e);
            },
        }
        i = i + 1;
    }
    proof {
        lemma_first_invalid_skip(sv, i as int);
        assert(sv.take(i as int) =~= sv);
    }
    Ok(ms)
}

/// Whether some matcher accepts `t`.
fn any_matches(ms: &Vec<PackageMatcher>, t: &str) -> (r: bool)
    requires
        all_wf(ms@),
    ensures
        r == matches_any(matcher_patterns(ms@), t@),
{
    let mut i: usize = 0;
    while i < ms.len()
        invariant
            i <= ms.len(),
            all_wf(ms@),
            forall|k: int| 0 <= k < i ==> !package_matches(#[trigger] matcher_patterns(ms@)[k], t@),
        decreases ms.len() - i,
    {
        if ms[i].is_match(t) {
            proof {
                assert(package_matches(matcher_patterns(ms@)[i as int], t@));
            }
            return true;
        }
        i = i + 1;
    }
    false
}

/// Whether some import matches the target.
fn any_import_matches(target: &PackageMatcher, imports: &Vec<String>) -> (r: bool)
    requires
        target.wf(),
    ensures
        r == imports_match(target.pattern(), strings_view(imports@)),
{
    let mut i: usize = 0;
    while i < imports.len()
        invariant
            i <= imports.len(),
            target.wf(),
            forall|k: int|
                0 <= k < i ==> !package_matches(target.pattern(), #[trigger] strings_view(imports@)[k]),
        decreases imports.len() - i,
    {
        if target.is_match(imports[i].as_str()) {
            proof {
                assert(package_matches(target.pattern(), strings_view(imports@)[i as int]));
            }
            return true;
        }
        i = i + 1;
    }
    false
}

/// The paths of the files that import from the target package without (or, when negated,
/// with) being among the allowed files.
fn search_by_access(files: &Vec<CodeFile>, target: &PackageMatcher, allowed: &Vec<PackageMatcher>, negated: bool) -> (r: Vec<String>)
    requires
        target.wf(),
        all_wf(allowed@),
    ensures
        strings_view(r@) == access_items(
            files_view(files@),
            files_view(files@),
            target.pattern(),
            matcher_patterns(allowed@),
            negated,
        ),
{
    let ghost fv = files_view(files@);
    let ghost ps = matcher_patterns(allowed@);
    let mut in_allowed: Vec<bool> = Vec::new();
    let mut j: usize = 0;
    while j < files.len()
        invariant
            j <= files.len(),
            fv == files_view(files@),
            ps == matcher_patterns(allowed@),
            all_wf(allowed@),
            in_allowed@.len() == j,
            forall|k: int| 0 <= k < j ==> in_allowed@[k] == matches_any(ps, #[trigger] fv[k].package),
        decreases files.len() - j,
    {
        let b = any_matches(allowed, files[j].package.as_str());
        in_allowed.push(b);
        j = j + 1;
    }
    let mut items: Vec<String> = Vec::new();
    let mut i: usize = 0;
    while i < files.len()
        invariant
            i <= files.len(),
            fv == files_view(files@),
            ps == matcher_patterns(allowed@),
            target.wf(),
            in_allowed@.len() == files.len(),
            forall|k: int| 0 <= k < files.len() ==> in_allowed@[k] == matches_any(ps, #[trigger] fv[k].package),
            strings_view(items@) == access_items(fv, fv.take(i as int), target.pattern(), ps, negated),
        decreases files.len() - i,
    {
        let f = &files[i];
        let imports_hit = any_import_matches(target, &f.imports);
        let mut allowed_here = false;
        let mut k: usize = 0;
        while k < files.len()
            invariant
                k <= files.len(),
                fv == files_view(files@),
                in_allowed@.len() == files.len(),
                forall|q: int| 0 <= q < files.len() ==> in_allowed@[q] == matches_any(ps, #[trigger] fv[q].package),
                allowed_here == exists|q: int|
                    0 <= q < k && fv[q].path == f.path@ && matches_any(ps, fv[q].package),
            decreases files.len() - k,
        {
            if in_allowed[k] && files[k].path == f.path {
                proof {
                    assert(fv[k as int].path == f.path@ && matches_any(ps, fv[k as int].package));
                }
                allowed_here = true;
            }
            proof {
                if allowed_here {
                    let q = choose|q: int|
                        0 <= q < k + 1 && fv[q].path == f.path@ && matches_any(ps, fv[q].package);
                } else {
                    assert forall|q: int| 0 <= q < k + 1 implies !(fv[q].path == f.path@ && matches_any(ps, fv[q].package)) by {
                        if q == k {
                            assert(fv[q].path == files@[q].path@);
                        }
                    }
                }
            }
            k = k + 1;
        }
        proof {
            assert(fv.take(i + 1).drop_last() =~= fv.take(i as int));
            assert(fv.take(i + 1).last() == f@);
            assert(allowed_here == path_allowed(fv, ps, f.path@));
        }
        if imports_hit && allowed_here == negated {
            let ghost prev = items@;
            items.push(f.path.clone());
            proof {
                assert(strings_view(items@) =~= strings_view(prev).push(f.path@));
            }
        }
        i = i + 1;
    }
    proof {
        assert(fv.take(files.len() as int) =~= fv);
    }
    items
}

/// An access rule (`accessed`), or `dependBy`, which has no evaluation.
fn capture_package_to_package(rule: &GuardRule, index: usize, files: &Vec<CodeFile>, op: Operator, negated: bool) -> (r: Result<Option<Option<RuleErrorMsg>>, PatternError>)
    ensures
        outcome_of(r) == access_outcome(rule@, index as nat, files_view(files@), op, negated),
{
    if op != Operator::Accessed {
        return Ok(None);
    }
    let target = match &rule.scope {
        RuleScope::PathDefine(p) => p,
        _ => {
            return Ok(None);
        },
    };
    let single: Vec<String>;
    let patterns: &Vec<String> = match &rule.assert {
        RuleAssert::Stringed(s) => {
            single = vec![s.clone()];
            proof {
                assert(strings_view(single@) =~= seq![s@]);
            }
            &single
        },
        RuleAssert::ArrayStringed(v) => v,
        _ => {
            return Ok(None);
        },
    };
    let target_matcher = match PackageMatcher::new(target.as_str()) {
        Ok(m) => m,
        Err(e) => {
            return Err(e);
        },
    };
    let allowed = match compile_all(patterns) {
        Ok(ms) => ms,
        Err(e) => {
            return Err(e);
        },
    };
    let items = search_by_access(files, &target_matcher, &allowed, negated);
    let r = items_error(MismatchType::Access, String::new(), items, index);
    Ok(Some(r))
}

/// A package rule: the size of the set of files in scope.
fn capture_package(rule: &GuardRule, index: usize, files: &Vec<CodeFile>) -> (r: Result<Option<Option<RuleErrorMsg>>, PatternError>)
    ensures
        outcome_of(r) == package_outcome(rule@, index as nat, files_view(files@)),
{
    let (op, negated) = match get_primary_op(&rule.ops) {
        Some(p) => p,
        None => {
            return Ok(None);
        },
    };
    let expr_ok = match &rule.expr {
        Expr::PropsCall(ps) => props_are_one(ps, "len") || props_are_two(ps, "file", "len"),
        _ => false,
    };
    let expected = match &rule.assert {
        RuleAssert::Sized(n) => *n,
        _ => {
            return Ok(None);
        },
    };
    if !expr_ok || !is_size_operator(op) {
        return Ok(None);
    }
    match &rule.scope {
        RuleScope::PathDefine(p) => {
            if text_is(p, ".") {
                Ok(Some(process_len(index, op, negated, files.len(), expected)))
            } else {
                match PackageMatcher::new(p.as_str()) {
                    Ok(m) => {
                        let n = count_files_in_package(files, &m);
                        Ok(Some(process_len(index, op, negated, n, expected)))
                    },
                    Err(e) => Err(e),
                }
            }
        },
        _ => Ok(None),
    }
}

/// The executable form of a class check.
enum CheckOf<'a> {
    Len(usize),
    Name(&'a String),
    Reside(&'a String),
}

impl<'a> CheckOf<'a> {
    spec fn view(&self) -> ClassCheck {
        match self {
            CheckOf::Len(n) => ClassCheck::Len(*n as nat),
            CheckOf::Name(s) => ClassCheck::Name(s@),
            CheckOf::Reside(p) => ClassCheck::Reside(p@),
        }
    }
}

fn class_check_of<'a>(rule: &'a GuardRule, op: Operator) -> (r: Option<CheckOf<'a>>)
    ensures
        r matches Some(c) ==> class_check(rule@, op) == Some(c.view()),
        r is None ==> class_check(rule@, op) is None,
{
    proof {
        reveal_strlit("len");
        reveal_strlit("name");
    }
    let (is_len, is_name, is_empty_ident) = match &rule.expr {
        Expr::PropsCall(ps) => (props_are_one(ps, "len"), props_are_one(ps, "name"), false),
        Expr::Identifier(s) => {
            let e = s.as_str().unicode_len() == 0;
            proof {
                if e {
                    assert(s@ =~= Seq::<char>::empty());
                }
            }
            (false, false, e)
        },
        _ => (false, false, false),
    };
    proof {
        assert("len"@.len() != "name"@.len());
        assert(seq!["len"@] != seq!["name"@]) by {
            assert(seq!["len"@][0] != seq!["name"@][0]);
        }
        if rule@.expr == ExprView::Identifier(Seq::empty()) {
            assert(is_empty_ident);
        }
    }
    if is_len && is_size_operator(op) {
        if let RuleAssert::Sized(n) = &rule.assert {
            return Some(CheckOf::Len(*n));
        }
    }
    if is_name && is_name_operator(op) {
        if let RuleAssert::Stringed(s) = &rule.assert {
            return Some(CheckOf::Name(s));
        }
    }
    if is_empty_ident && op == Operator::ResideIn {
        if let RuleAssert::Leveled(_, p) = &rule.assert {
            proof {
                assert(rule@.expr == ExprView::Identifier(Seq::empty()));
            }
            return Some(CheckOf::Reside(p));
        }
    }
    None
}

/// A class rule: an access rule, or a check on the classes that the scope selects.
fn capture_class(rule: &GuardRule, index: usize, files: &Vec<CodeFile>) -> (r: Result<Option<Option<RuleErrorMsg>>, PatternError>)
    ensures
        outcome_of(r) == class_outcome(rule@, index as nat, files_view(files@)),
{
    let (op, negated) = match get_primary_op(&rule.ops) {
        Some(p) => p,
        None => {
            return Ok(None);
        },
    };
    if op == Operator::Accessed || op == Operator::DependBy {
        return capture_package_to_package(rule, index, files, op, negated);
    }
    let check = match class_check_of(rule, op) {
        Some(c) => c,
        None => {
            return Ok(None);
        },
    };
    let filt = match &rule.scope {
        RuleScope::PathDefine(p) => {
            if text_is(p, ".") {
                ScopeFilter::Every
            } else {
                match PackageMatcher::new(p.as_str()) {
                    Ok(m) => ScopeFilter::InPackage(m),
                    Err(e) => {
                        return Err(e);
                    },
                }
            }
        },
        RuleScope::Implementation(n) => ScopeFilter::Implementing(n.clone()),
        _ => {
            return Ok(None);
        },
    };
    proof {
        assert(class_filter(rule@.scope) == Some(filt.view()));
    }
    let classes = filter_classes_by_scope(files, &filt);
    match check {
        CheckOf::Len(n) => Ok(Some(process_len(index, op, negated, classes.len(), n))),
        CheckOf::Name(s) => Ok(Some(process_name(index, op, negated, &classes, s))),
        CheckOf::Reside(p) => match PackageMatcher::new(p.as_str()) {
            Ok(m) => Ok(Some(process_package_captures(index, negated, &classes, &m, p))),
            Err(e) => Err(e),
        },
    }
}

/// Evaluates one rule.
fn capture(rule: &GuardRule, index: usize, files: &Vec<CodeFile>) -> (r: Result<Option<Option<RuleErrorMsg>>, PatternError>)
    ensures
        outcome_of(r) == rule_outcome(rule@, index as nat, files_view(files@)),
{
    if rule.ty == RuleType::Layer {
        return Ok(None);
    }
    match rule.level {
        RuleLevel::Package => capture_package(rule, index, files),
        RuleLevel::Class => capture_class(rule, index, files),
        _ => Ok(None),
    }
}

/// The indices of skipped rules, as naturals.
pub open spec fn indices_view(v: Seq<usize>) -> Seq<nat> {
    v.map_values(|k: usize| k as nat)
}

/// Holds the rules and the model of one evaluation, and what it found.
pub struct RuleExecutor {
    /// Violations, in rule order.
    pub errors: Vec<RuleErrorMsg>,
    /// Indices of the rules whose shape has no evaluation, in rule order.
    pub skipped: Vec<usize>,
    pub rules: Vec<GuardRule>,
    pub models: Vec<CodeFile>,
}

impl RuleExecutor {
    /// An executor with nothing found yet.
    pub fn new(models: Vec<CodeFile>, rules: Vec<GuardRule>) -> (r: RuleExecutor)
        ensures
            r.models == models,
            r.rules == rules,
            r.errors@.len() == 0,
            r.skipped@.len() == 0,
    {
        RuleExecutor { errors: Vec::new(), skipped: Vec::new(), rules, models }
    }

    /// Evaluates every rule in order, appending its violations (or its index, for a rule
    /// without evaluation); stops with an error at the first pattern that cannot be
    /// compiled.
    pub fn run(&mut self) -> (r: Result<(), PatternError>)
        ensures
            final(self).rules == old(self).rules,
            final(self).models == old(self).models,
            errors_view(final(self).errors@) == errors_view(old(self).errors@) + run_all(
                rules_view(old(self).rules@),
                files_view(old(self).models@),
            ).errors,
            indices_view(final(self).skipped@) == indices_view(old(self).skipped@) + run_all(
                rules_view(old(self).rules@),
                files_view(old(self).models@),
            ).skipped,
            r is Ok <==> run_all(rules_view(old(self).rules@), files_view(old(self).models@)).failed is None,
            r matches Err(e) ==> run_all(
                rules_view(old(self).rules@),
                files_view(old(self).models@),
            ).failed == Some(e.pattern@),
    {
        let ghost rv = rules_view(self.rules@);
        let ghost fv = files_view(self.models@);
        let ghost e0 = errors_view(self.errors@);
        let ghost s0 = indices_view(self.skipped@);
        let ghost rules0 = self.rules;
        let ghost models0 = self.models;
        let mut i: usize = 0;
        while i < self.rules.len()
            invariant
                i <= self.rules.len(),
                self.rules == rules0,
                self.models == models0,
                old(self).rules == rules0,
                old(self).models == models0,
                e0 == errors_view(old(self).errors@),
                s0 == indices_view(old(self).skipped@),
                rv == rules_view(self.rules@),
                fv == files_view(self.models@),
                rv.len() == self.rules.len(),
                errors_view(self.errors@) == e0 + run_prefix(rv, fv, i as nat).errors,
                indices_view(self.skipped@) == s0 + run_prefix(rv, fv, i as nat).skipped,
                run_prefix(rv, fv, i as nat).failed is None,
            decreases self.rules.len() - i,
        {
            let res = capture(&self.rules[i], i, &self.models);
            proof {
                assert(rv[i as int] == self.rules@[i as int]@);
            }
            match res {
                Ok(None) => {
                    let ghost prev = self.skipped@;
                    self.skipped.push(i);
                    proof {
                        assert(indices_view(self.skipped@) =~= indices_view(prev).push(i as nat));
                    }
                },
                Ok(Some(Some(e))) => {
                    let ghost prev = self.errors@;
                    self.errors.push(e);
                    proof {
                        assert(errors_view(self.errors@) =~= errors_view(prev).push(e@));
                    }
                },
                Ok(Some(None)) => {},
                Err(e) => {
                    proof {
                        assert(run_prefix(rv, fv, (i + 1) as nat).failed == Some(e.pattern@));
                        lemma_failed_persists(rv, fv, (i + 1) as nat, rv.len());
                        lemma_failed_keeps_result(rv, fv, (i + 1) as nat, rv.len());
                    }
                    return Err(e);
                },
            }
            i = i + 1;
        }
        Ok(())
    }
}

/// Once a pattern has failed, later rules change nothing.
proof fn lemma_failed_persists(rules: Seq<RuleView>, files: Seq<FileView>, m: nat, n: nat)
    requires
        m <= n,
        run_prefix(rules, files, m).failed is Some,
    ensures
        run_prefix(rules, files, n).failed is Some,
    decreases n - m,
{
    if m < n {
        lemma_failed_persists(rules, files, m, (n - 1) as nat);
    }
}

proof fn lemma_failed_keeps_result(rules: Seq<RuleView>, files: Seq<FileView>, m: nat, n: nat)
    requires
        m <= n,
        run_prefix(rules, files, m).failed is Some,
    ensures
        run_prefix(rules, files, n) == run_prefix(rules, files, m),
    decreases n - m,
{
    if m < n {
        lemma_failed_keeps_result(rules, files, m, (n - 1) as nat);
    }
}

/// What evaluating a rule document found.
#[derive(Clone, Debug, PartialEq, Eq)]
pub struct Evaluation {
    /// Violations, in rule order.
    pub errors: Vec<RuleErrorMsg>,
    /// Indices of the rules whose shape has no evaluation, in rule order.
    pub skipped: Vec<usize>,
}

/// Evaluates `rules` against `models`: the violations and the skipped rules, in rule
/// order, or the first pattern that cannot be compiled.
pub fn exec(rules: Vec<GuardRule>, models: Vec<CodeFile>) -> (r: Result<Evaluation, PatternError>)
    ensures
        r is Ok <==> run_all(rules_view(rules@), files_view(models@)).failed is None,
        r matches Ok(ev) ==> errors_view(ev.errors@) == run_all(rules_view(rules@), files_view(models@)).errors
            && indices_view(ev.skipped@) == run_all(rules_view(rules@), files_view(models@)).skipped,
        r matches Err(e) ==> run_all(rules_view(rules@), files_view(models@)).failed == Some(e.pattern@),
{
    let mut executor = RuleExecutor::new(models, rules);
    proof {
        assert(errors_view(executor.errors@) =~= Seq::empty());
        assert(indices_view(executor.skipped@) =~= Seq::empty());
    }
    match executor.run() {
        Ok(()) => {
            proof {
                assert(errors_view(executor.errors@) =~= run_all(rules_view(rules@), files_view(models@)).errors);
                assert(indices_view(executor.skipped@) =~= run_all(rules_view(rules@), files_view(models@)).skipped);
            }
            Ok(Evaluation { errors: executor.errors, skipped: executor.skipped })
        },
        Err(e) => Err(e),
    }
}

// ---------------------------------------------------------------------------------------
// Laws
// ---------------------------------------------------------------------------------------

/// Evaluation is a function of the rules and the model: evaluating the same rules against
/// the same model twice gives the same violations in the same order, the same skipped
/// rules and the same failure.
pub proof fn lemma_run_is_deterministic(
    rules1: Seq<GuardRule>,
    rules2: Seq<GuardRule>,
    models1: Seq<CodeFile>,
    models2: Seq<CodeFile>,
)
    requires
        rules_view(rules1) == rules_view(rules2),
        files_view(models1) == files_view(models2),
    ensures
        run_all(rules_view(rules1), files_view(models1)) == run_all(
            rules_view(rules2),
            files_view(models2),
        ),
{
}

proof fn lemma_outcome_index(rule: RuleView, index: nat, files: Seq<FileView>)
    ensures
        rule_outcome(rule, index, files) matches Outcome::Checked(Some(e)) ==> e.rule_index == index,
{
}

/// Every violation carries the position of the rule that produced it, and violations come
/// in strictly increasing rule order: each rule yields at most one.
pub proof fn lemma_violations_in_rule_order(rules: Seq<RuleView>, files: Seq<FileView>, n: nat)
    ensures
        forall|i: int|
            0 <= i < run_prefix(rules, files, n).errors.len() ==> #[trigger] run_prefix(
                rules,
                files,
                n,
            ).errors[i].rule_index < n,
        forall|i: int, j: int|
            0 <= i < j < run_prefix(rules, files, n).errors.len() ==> run_prefix(
                rules,
                files,
                n,
            ).errors[i].rule_index < run_prefix(rules, files, n).errors[j].rule_index,
    decreases n,
{
    if n > 0 {
        lemma_violations_in_rule_order(rules, files, (n - 1) as nat);
        if n <= rules.len() {
            lemma_outcome_index(rules[n - 1], (n - 1) as nat, files);
        }
    }
}

/// The plain and the negated containment check split the classes between them: each
/// class is an item of exactly one of the two lists.
proof fn lemma_reside_partition(cs: Seq<ClassView>, p: Seq<char>)
    ensures
        reside_items(cs, false, p).len() + reside_items(cs, true, p).len() == cs.len(),
        reside_items(cs, false, p).len() == 0 <==> forall|k: int|
            0 <= k < cs.len() ==> package_matches(p, #[trigger] cs[k].package),
        reside_items(cs, true, p).len() == 0 <==> forall|k: int|
            0 <= k < cs.len() ==> !package_matches(p, #[trigger] cs[k].package),
    decreases cs.len(),
{
    if cs.len() > 0 {
        let rest = cs.drop_last();
        lemma_reside_partition(rest, p);
        assert forall|k: int| 0 <= k < rest.len() implies #[trigger] rest[k] == cs[k] by {}
        let last = cs.len() - 1;
        if forall|k: int| 0 <= k < cs.len() ==> package_matches(p, #[trigger] cs[k].package) {
            assert(package_matches(p, cs[last].package));
            assert forall|k: int| 0 <= k < rest.len() implies package_matches(p, #[trigger] rest[k].package) by {
                assert(package_matches(p, cs[k].package));
            }
        }
        if forall|k: int| 0 <= k < cs.len() ==> !package_matches(p, #[trigger] cs[k].package) {
            assert(!package_matches(p, cs[last].package));
            assert forall|k: int| 0 <= k < rest.len() implies !package_matches(p, #[trigger] rest[k].package) by {
                assert(!package_matches(p, cs[k].package));
            }
        }
        if reside_items(cs, false, p).len() == 0 {
            assert forall|k: int| 0 <= k < cs.len() implies package_matches(p, #[trigger] cs[k].package) by {
                if k < last {
                    assert(cs[k] == rest[k]);
                }
            }
        }
        if reside_items(cs, true, p).len() == 0 {
            assert forall|k: int| 0 <= k < cs.len() implies !package_matches(p, #[trigger] cs[k].package) by {
                if k < last {
                    assert(cs[k] == rest[k]);
                }
            }
        }
    }
}

/// A containment rule (`resideIn package(p)`) and the same rule with `not` split the
/// classes in scope between them: every class is an item of exactly one of the two
/// outcomes, the plain rule passes exactly when every class resides in `p`, and the
/// negated one exactly when none does.
pub proof fn lemma_reside_negation_complements(rule: RuleView, index: nat, files: Seq<FileView>)
    requires
        rule.ty == RuleType::Normal,
        rule.level == RuleLevel::Class,
        rule.ops == seq![Operator::ResideIn],
        rule.expr == ExprView::Identifier(Seq::empty()),
        rule.assert is Leveled,
        class_filter(rule.scope) is Some,
        !filter_invalid(class_filter(rule.scope)->Some_0),
        pattern_valid(rule.assert->Leveled_1),
    ensures
        ({
            let negated = RuleView { ops: seq![Operator::Not, Operator::ResideIn], ..rule };
            let cs = select_classes(files, class_filter(rule.scope)->Some_0);
            let p = rule.assert->Leveled_1;
            let plain_items = reside_items(cs, false, p);
            let negated_items = reside_items(cs, true, p);
            &&& rule_outcome(rule, index, files) == Outcome::Checked(
                items_violation(MismatchType::FileName, quoted_msg(op_label(Operator::ResideIn), p), plain_items, index),
            )
            &&& rule_outcome(negated, index, files) == Outcome::Checked(
                items_violation(MismatchType::FileName, quoted_msg(op_label(Operator::ResideIn), p), negated_items, index),
            )
            &&& plain_items.len() + negated_items.len() == cs.len()
            &&& (rule_outcome(rule, index, files)->Checked_0 is None <==> forall|k: int|
                0 <= k < cs.len() ==> package_matches(p, #[trigger] cs[k].package))
            &&& (rule_outcome(negated, index, files)->Checked_0 is None <==> forall|k: int|
                0 <= k < cs.len() ==> !package_matches(p, #[trigger] cs[k].package))
        }),
{
    let cs = select_classes(files, class_filter(rule.scope)->Some_0);
    let p = rule.assert->Leveled_1;
    lemma_reside_partition(cs, p);
    let negated = RuleView { ops: seq![Operator::Not, Operator::ResideIn], ..rule };
    assert(primary_op(rule.ops) == Some((Operator::ResideIn, false)));
    assert(primary_op(negated.ops) == Some((Operator::ResideIn, true)));
    assert(class_check(rule, Operator::ResideIn) == Some(ClassCheck::Reside(p)));
    assert(class_check(negated, Operator::ResideIn) == Some(ClassCheck::Reside(p)));
}

proof fn lemma_name_items_all_fail(cs: Seq<ClassView>, op: Operator, expected: Seq<char>)
    requires
        forall|k: int| 0 <= k < cs.len() ==> !name_holds(op, expected, #[trigger] cs[k].name),
    ensures
        name_items(cs, op, false, expected).len() == cs.len(),
    decreases cs.len(),
{
    if cs.len() > 0 {
        let rest = cs.drop_last();
        assert forall|k: int| 0 <= k < rest.len() implies !name_holds(op, expected, #[trigger] rest[k].name) by {
            assert(rest[k] == cs[k]);
        }
        lemma_name_items_all_fail(rest, op, expected);
        assert(!name_holds(op, expected, cs[cs.len() - 1].name));
    }
}

/// A string rule on class names (`::name endsWith "s"` and the like) whose classes in
/// scope all fail it reports exactly one violation, listing every one of those classes.
pub proof fn lemma_name_rule_lists_every_failing_class(rule: RuleView, index: nat, files: Seq<FileView>)
    requires
        rule.ty == RuleType::Normal,
        rule.level == RuleLevel::Class,
        rule.ops.len() == 1,
        is_name_op(rule.ops[0]),
        rule.expr == ExprView::PropsCall(seq!["name"@]),
        rule.assert is Stringed,
        class_filter(rule.scope) is Some,
        !filter_invalid(class_filter(rule.scope)->Some_0),
        select_classes(files, class_filter(rule.scope)->Some_0).len() > 0,
        forall|k: int|
            0 <= k < select_classes(files, class_filter(rule.scope)->Some_0).len() ==> !name_holds(
                rule.ops[0],
                rule.assert->Stringed_0,
                #[trigger] select_classes(files, class_filter(rule.scope)->Some_0)[k].name,
            ),
    ensures
        rule_outcome(rule, index, files) matches Outcome::Checked(Some(e)) && e.mismatch_type
            == MismatchType::FileName && e.rule_index == index && e.items.len() == select_classes(
            files,
            class_filter(rule.scope)->Some_0,
        ).len(),
{
    let cs = select_classes(files, class_filter(rule.scope)->Some_0);
    let op = rule.ops[0];
    lemma_name_items_all_fail(cs, op, rule.assert->Stringed_0);
    assert(primary_op(rule.ops) == Some((op, false)));
    assert(class_check(rule, op) == Some(ClassCheck::Name(rule.assert->Stringed_0)));
}

} // verus!
