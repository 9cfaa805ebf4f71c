//! The rule language: a document is a sequence of declarations separated by `;`.
//!
//! ```text
//! document   := (declaration (";" declaration)*)? ";"?
//! declaration:= layer | normal
//! layer      := "layer" "(" string ")" ("::" ident "(" (string ("," string)*)? ")")*
//! normal     := level ("(" scope ")")? (("::" | "->") expression)?
//!               "should"? "only"? ("not" | "!")? operator assertion
//! expression := ident "(" (ident ":" string ("," ident ":" string)*)? ")"
//!             | ident ("." ident)*
//! scope      := string | "extends" string | "assignable" string
//!             | "implementation" string | "match" "(" string ")"
//! assertion  := level "(" string ")" | integer | string | list
//!             | "(" string ")" | "(" list ")"
//! list       := "[" string ("," string)* "]"
//! ```
//! Whitespace may stand between tokens. Strings are delimited by `"`, `'` or a backtick
//! and may hold backslash escapes.
use crate::ast::{
    args_view, identifier_text, ops_well_formed, rules_view, strings_view, FunctionCall, AssertView, Expr, ExprView, GuardRule, Operator, RuleAssert, RuleLevel,
    RuleScope, RuleType, RuleView, ScopeView,
};
use crate::str_support::{is_quote, unescape_chars, unescaped};
use crate::text::{chars_of, string_from_chars};
use vstd::prelude::*;

verus! {

// ---------------------------------------------------------------------------------------
// Lexical structure
// ---------------------------------------------------------------------------------------

pub open spec fn is_ws(c: char) -> bool {
    c == ' ' || c == '\t' || c == '\n' || c == '\r'
}

pub open spec fn is_ident_start(c: char) -> bool {
    ('a' <= c && c <= 'z') || ('A' <= c && c <= 'Z') || c == '_'
}

pub open spec fn is_ident_char(c: char) -> bool {
    is_ident_start(c) || ('0' <= c && c <= '9')
}

pub open spec fn is_digit(c: char) -> bool {
    '0' <= c && c <= '9'
}

/// The first position at or after `i` that holds no whitespace.
pub open spec fn skip_ws(s: Seq<char>, i: int) -> int
    decreases s.len() - i,
{
    if 0 <= i < s.len() && is_ws(s[i]) {
        skip_ws(s, i + 1)
    } else {
        i
    }
}

/// The end of the run of identifier characters that starts at `i`.
pub open spec fn ident_end(s: Seq<char>, i: int) -> int
    decreases s.len() - i,
{
    if 0 <= i < s.len() && is_ident_char(s[i]) {
        ident_end(s, i + 1)
    } else {
        i
    }
}

/// The end of the run of digits that starts at `i`.
pub open spec fn digits_end(s: Seq<char>, i: int) -> int
    decreases s.len() - i,
{
    if 0 <= i < s.len() && is_digit(s[i]) {
        digits_end(s, i + 1)
    } else {
        i
    }
}

/// `w` stands at position `i`.
pub open spec fn lit_at(s: Seq<char>, i: int, w: Seq<char>) -> bool {
    0 <= i && i + w.len() <= s.len() && s.subrange(i, i + w.len()) == w
}

/// The keyword `w` stands at position `i`, not followed by an identifier character.
pub open spec fn word_at(s: Seq<char>, i: int, w: Seq<char>) -> bool {
    lit_at(s, i, w) && !(i + w.len() < s.len() && is_ident_char(s[i + w.len()]))
}

/// The position of the quote `q` that closes a literal whose body starts at `j`, skipping
/// escaped characters; `s.len()` when it is not closed.
pub open spec fn close_quote(s: Seq<char>, q: char, j: int) -> int
    decreases s.len() - j,
{
    if j < 0 || j >= s.len() {
        s.len() as int
    } else if s[j] == '\\' {
        if j + 1 >= s.len() {
            s.len() as int
        } else {
            close_quote(s, q, j + 2)
        }
    } else if s[j] == q {
        j
    } else {
        close_quote(s, q, j + 1)
    }
}

/// The string literal at `i`: its value and the position after it.
pub open spec fn string_at(s: Seq<char>, i: int) -> Option<(Seq<char>, int)> {
    if 0 <= i < s.len() && is_quote(s[i]) {
        let c = close_quote(s, s[i], i + 1);
        if i < c < s.len() {
            match unescaped(s.subrange(i + 1, c)) {
                Some(v) => Some((v, c + 1)),
                None => None,
            }
        } else {
            None
        }
    } else {
        None
    }
}

/// The value of a sequence of decimal digits.
pub open spec fn dec_value(ds: Seq<char>) -> nat
    decreases ds.len(),
{
    if ds.len() == 0 {
        0
    } else {
        dec_value(ds.drop_last()) * 10 + (ds.last() as nat - '0' as nat) as nat
    }
}

/// The integer at `i`, when it fits a `usize`.
pub open spec fn integer_at(s: Seq<char>, i: int) -> Option<(nat, int)> {
    let e = digits_end(s, i);
    if e > i && dec_value(s.subrange(i, e)) <= usize::MAX {
        Some((dec_value(s.subrange(i, e)), e))
    } else {
        None
    }
}

// ---------------------------------------------------------------------------------------
// Lexical functions
// ---------------------------------------------------------------------------------------

fn is_ws_char(c: char) -> (r: bool)
    ensures
        r == is_ws(c),
{
    c == ' ' || c == '\t' || c == '\n' || c == '\r'
}

fn is_ident_start_char(c: char) -> (r: bool)
    ensures
        r == is_ident_start(c),
{
    ('a' <= c && c <= 'z') || ('A' <= c && c <= 'Z') || c == '_'
}

fn is_ident_part(c: char) -> (r: bool)
    ensures
        r == is_ident_char(c),
{
    is_ident_start_char(c) || ('0' <= c && c <= '9')
}

fn skip_whitespace(s: &Vec<char>, i: usize) -> (r: usize)
    requires
        i <= s.len(),
    ensures
        r as int == skip_ws(s@, i as int),
        i <= r <= s.len(),
{
    let mut j = i;
    while j < s.len() && is_ws_char(s[j])
        invariant
            i <= j <= s.len(),
            skip_ws(s@, i as int) == skip_ws(s@, j as int),
        decreases s.len() - j,
    {
        j = j + 1;
    }
    j
}

fn identifier_end(s: &Vec<char>, i: usize) -> (r: usize)
    requires
        i <= s.len(),
    ensures
        r as int == ident_end(s@, i as int),
        i <= r <= s.len(),
        (i < s.len() && is_ident_char(s@[i as int])) ==> i < r,
{
    let mut j = i;
    while j < s.len() && is_ident_part(s[j])
        invariant
            i <= j <= s.len(),
            ident_end(s@, i as int) == ident_end(s@, j as int),
        decreases s.len() - j,
    {
        j = j + 1;
    }
    j
}

fn lit_at_exec(s: &Vec<char>, i: usize, w: &str) -> (r: bool)
    requires
        i <= s.len(),
    ensures
        r == lit_at(s@, i as int, w@),
{
    let wc = chars_of(w);
    if wc.len() > s.len() - i {
        return false;
    }
    crate::text::occurs_at_exec(s, &wc, i)
}

fn word_at_exec(s: &Vec<char>, i: usize, w: &str) -> (r: bool)
    requires
        i <= s.len(),
    ensures
        r == word_at(s@, i as int, w@),
{
    if !lit_at_exec(s, i, w) {
        return false;
    }
    let n = w.unicode_len();
    let e = i + n;
    !(e < s.len() && is_ident_part(s[e]))
}

/// The string literal at `i`.
fn parse_string(s: &Vec<char>, i: usize) -> (r: Option<(Vec<char>, usize)>)
    requires
        i <= s.len(),
    ensures
        r matches Some((v, n)) ==> string_at(s@, i as int) == Some((v@, n as int)) && i < n
            <= s.len(),
        r is None ==> string_at(s@, i as int) is None,
{
    if i >= s.len() {
        return None;
    }
    let q = s[i];
    if !(q == '"' || q == '\'' || q == '`') {
        return None;
    }
    let mut j = i + 1;
    while j < s.len() && s[j] != q
        invariant
            i < j <= s.len(),
            q == s@[i as int],
            close_quote(s@, q, (i + 1) as int) == close_quote(s@, q, j as int),
        decreases s.len() - j,
    {
        if s[j] == '\\' {
            if s.len() - j < 2 {
                j = s.len();
            } else {
                j = j + 2;
            }
        } else {
            j = j + 1;
        }
    }
    if j >= s.len() {
        proof {
            assert(close_quote(s@, q, j as int) == s.len());
        }
        return None;
    }
    let mut body: Vec<char> = Vec::new();
    let mut k = i + 1;
    while k < j
        invariant
            i + 1 <= k <= j < s.len(),
            body@ == s@.subrange(i + 1, k as int),
        decreases j - k,
    {
        body.push(s[k]);
        k = k + 1;
        proof {
            assert(body@ =~= s@.subrange(i + 1, k as int));
        }
    }
    match unescape_chars(&body) {
        Some(v) => Some((v, j + 1)),
        None => None,
    }
}

proof fn lemma_dec_value_mono(ds: Seq<char>, k: int)
    requires
        0 <= k <= ds.len(),
    ensures
        dec_value(ds.take(k)) <= dec_value(ds),
    decreases ds.len(),
{
    if k < ds.len() {
        lemma_dec_value_mono(ds.drop_last(), k);
        assert(ds.drop_last().take(k) =~= ds.take(k));
    } else {
        assert(ds.take(k) =~= ds);
    }
}

/// The integer at `i`.
fn parse_integer(s: &Vec<char>, i: usize) -> (r: Option<(usize, usize)>)
    requires
        i <= s.len(),
    ensures
        r matches Some((v, n)) ==> integer_at(s@, i as int) == Some((v as nat, n as int)) && i < n
            <= s.len(),
        r is None ==> integer_at(s@, i as int) is None,
{
    let mut e = i;
    while e < s.len() && '0' <= s[e] && s[e] <= '9'
        invariant
            i <= e <= s.len(),
            digits_end(s@, i as int) == digits_end(s@, e as int),
            forall|q: int| i <= q < e ==> is_digit(#[trigger] s@[q]),
        decreases s.len() - e,
    {
        e = e + 1;
    }
    if e == i {
        return None;
    }
    let ghost ds = s@.subrange(i as int, e as int);
    let mut v: usize = 0;
    let mut k = i;
    while k < e
        invariant
            i <= k <= e <= s.len(),
            e as int == digits_end(s@, i as int),
            ds == s@.subrange(i as int, e as int),
            forall|q: int| i <= q < e ==> is_digit(#[trigger] s@[q]),
            v as nat == dec_value(s@.subrange(i as int, k as int)),
        decreases e - k,
    {
        let d = (s[k] as u32 - '0' as u32) as usize;
        proof {
            assert(is_digit(s@[k as int]));
            assert(s@.subrange(i as int, k + 1).drop_last() =~= s@.subrange(i as int, k as int));
        }
        if v > (usize::MAX - d) / 10 {
            proof {
                assert(v * 10 + d > usize::MAX) by (nonlinear_arith)
                    requires v > (usize::MAX - d) / 10, d <= 9;
                assert(ds.take(k + 1 - i) =~= s@.subrange(i as int, k + 1));
                lemma_dec_value_mono(ds, k + 1 - i);
            }
            return None;
        }
        proof {
            assert(v * 10 + d <= usize::MAX) by (nonlinear_arith)
                requires v <= (usize::MAX - d) / 10, d <= 9;
        }
        v = v * 10 + d;
        k = k + 1;
    }
    Some((v, e))
}

// ---------------------------------------------------------------------------------------
// Grammar
// ---------------------------------------------------------------------------------------

/// The level keyword at `i`.
pub open spec fn level_at(s: Seq<char>, i: int) -> Option<(RuleLevel, int)> {
    if word_at(s, i, "package"@) {
        Some((RuleLevel::Package, i + 7))
    } else if word_at(s, i, "module"@) {
        Some((RuleLevel::Module, i + 6))
    } else if word_at(s, i, "function"@) {
        Some((RuleLevel::Function, i + 8))
    } else if word_at(s, i, "class"@) {
        Some((RuleLevel::Class, i + 5))
    } else if word_at(s, i, "struct"@) {
        Some((RuleLevel::Struct, i + 6))
    } else if word_at(s, i, "file"@) {
        Some((RuleLevel::File, i + 4))
    } else {
        None
    }
}

/// A keyword followed by a string literal.
pub open spec fn keyed_string_at(s: Seq<char>, i: int, w: Seq<char>) -> Option<(Seq<char>, int)> {
    if word_at(s, i, w) {
        string_at(s, skip_ws(s, i + w.len()))
    } else {
        None
    }
}

/// `match ( string )` at `i`.
pub open spec fn match_scope_at(s: Seq<char>, i: int) -> Option<(Seq<char>, int)> {
    if word_at(s, i, "match"@) {
        let j = skip_ws(s, i + 5);
        if lit_at(s, j, "("@) {
            match string_at(s, skip_ws(s, j + 1)) {
                Some((v, k)) => if lit_at(s, skip_ws(s, k), ")"@) {
                    Some((v, skip_ws(s, k) + 1))
                } else {
                    None
                },
                None => None,
            }
        } else {
            None
        }
    } else {
        None
    }
}

/// The scope clause at `i` (inside the parentheses).
pub open spec fn scope_at(s: Seq<char>, i: int) -> Option<(ScopeView, int)> {
    if 0 <= i < s.len() && is_quote(s[i]) {
        match string_at(s, i) {
            Some((v, k)) => Some((ScopeView::PathDefine(v), k)),
            None => None,
        }
    } else if word_at(s, i, "extends"@) {
        match keyed_string_at(s, i, "extends"@) {
            Some((v, k)) => Some((ScopeView::Extend(v), k)),
            None => None,
        }
    } else if word_at(s, i, "assignable"@) {
        match keyed_string_at(s, i, "assignable"@) {
            Some((v, k)) => Some((ScopeView::Assignable(v), k)),
            None => None,
        }
    } else if word_at(s, i, "implementation"@) {
        match keyed_string_at(s, i, "implementation"@) {
            Some((v, k)) => Some((ScopeView::Implementation(v), k)),
            None => None,
        }
    } else {
        match match_scope_at(s, i) {
            Some((v, k)) => Some((ScopeView::MatchRegex(v), k)),
            None => None,
        }
    }
}

/// The chain of identifiers `a.b.c` that starts with an identifier at `i`.
pub open spec fn props_at(s: Seq<char>, i: int) -> (Seq<Seq<char>>, int)
    decreases s.len() - i,
{
    let e = ident_end(s, i);
    let name = s.subrange(i, e);
    if i < e && e + 1 < s.len() && s[e] == '.' && is_ident_start(s[e + 1]) {
        let (rest, end) = props_at(s, e + 1);
        (seq![name] + rest, end)
    } else {
        (seq![name], e)
    }
}

/// The operator keyword or symbol at `i`.
pub open spec fn core_op_at(s: Seq<char>, i: int) -> Option<(Operator, int)> {
    if lit_at(s, i, "<="@) {
        Some((Operator::Lte, i + 2))
    } else if lit_at(s, i, ">="@) {
        Some((Operator::Gte, i + 2))
    } else if lit_at(s, i, "<"@) {
        Some((Operator::Lt, i + 1))
    } else if lit_at(s, i, ">"@) {
        Some((Operator::Gt, i + 1))
    } else if lit_at(s, i, "=="@) {
        Some((Operator::Eq, i + 2))
    } else if lit_at(s, i, "="@) {
        Some((Operator::Eq, i + 1))
    } else if word_at(s, i, "contains"@) {
        Some((Operator::Contains, i + 8))
    } else if word_at(s, i, "endsWith"@) {
        Some((Operator::Endswith, i + 8))
    } else if word_at(s, i, "startsWith"@) {
        Some((Operator::StartsWith, i + 10))
    } else if word_at(s, i, "resideIn"@) {
        Some((Operator::ResideIn, i + 8))
    } else if word_at(s, i, "accessed"@) {
        Some((Operator::Accessed, i + 8))
    } else if word_at(s, i, "dependBy"@) {
        Some((Operator::DependBy, i + 8))
    } else {
        None
    }
}

/// The operator at `i`, with a leading `Not` when it is negated.
pub open spec fn operator_at(s: Seq<char>, i: int) -> Option<(Seq<Operator>, int)> {
    let neg_end = if word_at(s, i, "not"@) {
        i + 3
    } else if lit_at(s, i, "!"@) {
        i + 1
    } else {
        -1
    };
    if neg_end >= 0 {
        match core_op_at(s, skip_ws(s, neg_end)) {
            Some((op, k)) => Some((seq![Operator::Not, op], k)),
            None => None,
        }
    } else {
        match core_op_at(s, i) {
            Some((op, k)) => Some((seq![op], k)),
            None => None,
        }
    }
}

/// The rest of a list of strings after an item, up to and including `close`.
pub open spec fn list_rest(s: Seq<char>, i: int, close: char) -> Option<(Seq<Seq<char>>, int)>
    decreases s.len() - i,
{
    let k = skip_ws(s, i);
    if 0 <= k < s.len() && s[k] == close {
        Some((Seq::empty(), k + 1))
    } else if 0 <= k < s.len() && s[k] == ',' {
        match string_at(s, skip_ws(s, k + 1)) {
            Some((v, n)) => if i < n {
                match list_rest(s, n, close) {
                    Some((rest, e)) => Some((seq![v] + rest, e)),
                    None => None,
                }
            } else {
                None
            },
            None => None,
        }
    } else {
        None
    }
}

/// A list of at least one string, starting with its first item at `i`.
pub open spec fn items_at(s: Seq<char>, i: int, close: char) -> Option<(Seq<Seq<char>>, int)> {
    match string_at(s, i) {
        Some((v, n)) => match list_rest(s, n, close) {
            Some((rest, e)) => Some((seq![v] + rest, e)),
            None => None,
        },
        None => None,
    }
}

/// `[ string, ... ]` at `i`.
pub open spec fn list_at(s: Seq<char>, i: int) -> Option<(Seq<Seq<char>>, int)> {
    if lit_at(s, i, "["@) {
        items_at(s, skip_ws(s, i + 1), ']')
    } else {
        None
    }
}

/// `)` after optional whitespace.
pub open spec fn close_paren(s: Seq<char>, i: int) -> Option<int> {
    if lit_at(s, skip_ws(s, i), ")"@) {
        Some(skip_ws(s, i) + 1)
    } else {
        None
    }
}

/// The assertion at `i`.
pub open spec fn assert_at(s: Seq<char>, i: int) -> Option<(AssertView, int)> {
    if level_at(s, i) is Some {
        let (lv, j) = level_at(s, i)->Some_0;
        let k = skip_ws(s, j);
        if lit_at(s, k, "("@) {
            match string_at(s, skip_ws(s, k + 1)) {
                Some((v, n)) => match close_paren(s, n) {
                    Some(e) => Some((AssertView::Leveled(lv, v), e)),
                    None => None,
                },
                None => None,
            }
        } else {
            None
        }
    } else if 0 <= i < s.len() && is_digit(s[i]) {
        match integer_at(s, i) {
            Some((v, e)) => Some((AssertView::Sized(v), e)),
            None => None,
        }
    } else if 0 <= i < s.len() && is_quote(s[i]) {
        match string_at(s, i) {
            Some((v, e)) => Some((AssertView::Stringed(v), e)),
            None => None,
        }
    } else if lit_at(s, i, "["@) {
        match list_at(s, i) {
            Some((v, e)) => Some((AssertView::ArrayStringed(v), e)),
            None => None,
        }
    } else if lit_at(s, i, "("@) {
        let k = skip_ws(s, i + 1);
        if lit_at(s, k, "["@) {
            match list_at(s, k) {
                Some((v, n)) => match close_paren(s, n) {
                    Some(e) => Some((AssertView::ArrayStringed(v), e)),
                    None => None,
                },
                None => None,
            }
        } else {
            match string_at(s, k) {
                Some((v, n)) => match close_paren(s, n) {
                    Some(e) => Some((AssertView::Stringed(v), e)),
                    None => None,
                },
                None => None,
            }
        }
    } else {
        None
    }
}

/// The optional `( scope )` at `i`: the scope (`All` when absent) and the position after.
pub open spec fn scope_clause_at(s: Seq<char>, i: int) -> Option<(ScopeView, int)> {
    if lit_at(s, i, "("@) {
        match scope_at(s, skip_ws(s, i + 1)) {
            Some((sc, k)) => match close_paren(s, k) {
                Some(e) => Some((sc, e)),
                None => None,
            },
            None => None,
        }
    } else {
        Some((ScopeView::All, i))
    }
}

/// One call argument `key: "value"` at `i`.
pub open spec fn call_arg_at(s: Seq<char>, i: int) -> Option<((Seq<char>, Seq<char>), int)> {
    if 0 <= i < s.len() && is_ident_start(s[i]) {
        let ke = ident_end(s, i);
        let m = skip_ws(s, ke);
        if lit_at(s, m, ":"@) {
            match string_at(s, skip_ws(s, m + 1)) {
                Some((v, q)) => Some(((s.subrange(i, ke), v), q)),
                None => None,
            }
        } else {
            None
        }
    } else {
        None
    }
}

/// The call arguments after an argument ending at `i`, up to and including `)`.
pub open spec fn call_args_rest(s: Seq<char>, i: int) -> Option<(Seq<(Seq<char>, Seq<char>)>, int)>
    decreases s.len() - i,
{
    let k = skip_ws(s, i);
    if lit_at(s, k, ")"@) {
        Some((Seq::empty(), k + 1))
    } else if lit_at(s, k, ","@) {
        match call_arg_at(s, skip_ws(s, k + 1)) {
            Some((a, q)) => if i < q {
                match call_args_rest(s, q) {
                    Some((rest, e)) => Some((seq![a] + rest, e)),
                    None => None,
                }
            } else {
                None
            },
            None => None,
        }
    } else {
        None
    }
}

/// The call arguments after the `(` at `i - 1`, up to and including `)`.
pub open spec fn call_args_at(s: Seq<char>, i: int) -> Option<(Seq<(Seq<char>, Seq<char>)>, int)> {
    let j = skip_ws(s, i);
    if lit_at(s, j, ")"@) {
        Some((Seq::empty(), j + 1))
    } else {
        match call_arg_at(s, j) {
            Some((a, q)) => match call_args_rest(s, q) {
                Some((rest, e)) => Some((seq![a] + rest, e)),
                None => None,
            },
            None => None,
        }
    }
}

/// The expression at `i`, which starts with an identifier: a call when the identifier is
/// directly followed by `(`, else a chain of identifiers.
pub open spec fn expression_at(s: Seq<char>, i: int) -> Option<(ExprView, int)> {
    let e = ident_end(s, i);
    if lit_at(s, e, "("@) {
        match call_args_at(s, e + 1) {
            Some((args, end)) => Some((ExprView::Call(s.subrange(i, e), args), end)),
            None => None,
        }
    } else {
        let (ps, end) = props_at(s, i);
        Some((ExprView::PropsCall(ps), end))
    }
}

/// The optional `:: expression` (or `-> expression`) at `i`: the expression (an empty
/// identifier when absent) and the position after.
pub open spec fn expr_clause_at(s: Seq<char>, i: int) -> Option<(ExprView, int)> {
    if lit_at(s, i, "::"@) || lit_at(s, i, "->"@) {
        let k = skip_ws(s, i + 2);
        if 0 <= k < s.len() && is_ident_start(s[k]) {
            expression_at(s, k)
        } else {
            None
        }
    } else {
        Some((ExprView::Identifier(Seq::empty()), i))
    }
}

/// Skips the keyword `w` and the whitespace after it, when it stands at `i`.
pub open spec fn skip_word(s: Seq<char>, i: int, w: Seq<char>) -> int {
    if word_at(s, i, w) {
        skip_ws(s, i + w.len())
    } else {
        i
    }
}

/// A normal rule at `i`.
pub open spec fn normal_at(s: Seq<char>, i: int) -> Option<(RuleView, int)> {
    match level_at(s, i) {
        Some((level, j)) => match scope_clause_at(s, skip_ws(s, j)) {
            Some((scope, k)) => match expr_clause_at(s, skip_ws(s, k)) {
                Some((expr, m)) => {
                    let m2 = skip_word(s, skip_word(s, skip_ws(s, m), "should"@), "only"@);
                    match operator_at(s, m2) {
                        Some((ops, n)) => match assert_at(s, skip_ws(s, n)) {
                            Some((a, e)) => Some(
                                (
                                    RuleView {
                                        ty: RuleType::Normal,
                                        level,
                                        scope,
                                        expr,
                                        ops,
                                        assert: a,
                                    },
                                    e,
                                ),
                            ),
                            None => None,
                        },
                        None => None,
                    }
                },
                None => None,
            },
            None => None,
        },
        None => None,
    }
}

/// The arguments of a layer part, after its `(`: `)` or strings up to `)`.
pub open spec fn layer_args_at(s: Seq<char>, i: int) -> Option<int> {
    if lit_at(s, i, ")"@) {
        Some(i + 1)
    } else {
        match items_at(s, i, ')') {
            Some((_, e)) => Some(e),
            None => None,
        }
    }
}

/// The parts `:: name(args)` of a layer declaration from `i` on: the position after the
/// last one.
pub open spec fn layer_parts_at(s: Seq<char>, i: int) -> Option<int>
    decreases s.len() - i,
{
    let k = skip_ws(s, i);
    if lit_at(s, k, "::"@) {
        let m = skip_ws(s, k + 2);
        if 0 <= m < s.len() && is_ident_start(s[m]) {
            let n = skip_ws(s, ident_end(s, m));
            if lit_at(s, n, "("@) {
                match layer_args_at(s, skip_ws(s, n + 1)) {
                    Some(e) => if i < e <= s.len() {
                        layer_parts_at(s, e)
                    } else {
                        None
                    },
                    None => None,
                }
            } else {
                None
            }
        } else {
            None
        }
    } else {
        Some(i)
    }
}

/// The rule a layer declaration stands for: it is recognized and carries no check. Layers
/// order what may depend on what, so its one operator is `dependBy`.
pub open spec fn layer_rule_view() -> RuleView {
    RuleView {
        ty: RuleType::Layer,
        level: RuleLevel::Class,
        scope: ScopeView::All,
        expr: ExprView::Identifier(Seq::empty()),
        ops: seq![Operator::DependBy],
        assert: AssertView::Empty,
    }
}

/// A layer declaration at `i`.
pub open spec fn layer_at(s: Seq<char>, i: int) -> Option<(RuleView, int)> {
    if word_at(s, i, "layer"@) {
        let j = skip_ws(s, i + 5);
        if lit_at(s, j, "("@) {
            match string_at(s, skip_ws(s, j + 1)) {
                Some((_, n)) => match close_paren(s, n) {
                    Some(k) => match layer_parts_at(s, k) {
                        Some(e) => Some((layer_rule_view(), e)),
                        None => None,
                    },
                    None => None,
                },
                None => None,
            }
        } else {
            None
        }
    } else {
        None
    }
}

/// The declaration at `i`.
pub open spec fn declaration_at(s: Seq<char>, i: int) -> Option<(RuleView, int)> {
    if word_at(s, i, "layer"@) {
        layer_at(s, i)
    } else {
        normal_at(s, i)
    }
}

/// The declarations from `i` to the end of the document, or `None` when the text there
/// is not a sequence of declarations separated by `;`.
pub open spec fn declarations_from(s: Seq<char>, i: int) -> Option<Seq<RuleView>>
    decreases s.len() - i,
{
    let j = skip_ws(s, i);
    if j < 0 || j >= s.len() {
        Some(Seq::empty())
    } else {
        match declaration_at(s, j) {
            Some((r, k)) => {
                let m = skip_ws(s, k);
                if m >= s.len() {
                    Some(seq![r])
                } else if s[m] == ';' && i < m + 1 {
                    match declarations_from(s, m + 1) {
                        Some(rest) => Some(seq![r] + rest),
                        None => None,
                    }
                } else {
                    None
                }
            },
            None => None,
        }
    }
}

/// The rules of a document.
pub open spec fn document(s: Seq<char>) -> Option<Seq<RuleView>> {
    declarations_from(s, 0)
}

proof fn lemma_declaration_ops(s: Seq<char>, i: int)
    requires
        declaration_at(s, i) is Some,
    ensures
        ops_well_formed(declaration_at(s, i)->Some_0.0.ops),
{
}

/// Every rule of a document has well-formed operators.
pub proof fn lemma_document_ops(s: Seq<char>, i: int)
    requires
        declarations_from(s, i) is Some,
    ensures
        forall|k: int|
            0 <= k < declarations_from(s, i)->Some_0.len() ==> ops_well_formed(
                #[trigger] declarations_from(s, i)->Some_0[k].ops,
            ),
    decreases s.len() - i,
{
    let j = skip_ws(s, i);
    if 0 <= j < s.len() {
        lemma_declaration_ops(s, j);
        let (r, k) = declaration_at(s, j)->Some_0;
        let m = skip_ws(s, k);
        if m < s.len() {
            lemma_document_ops(s, m + 1);
            let rest = declarations_from(s, m + 1)->Some_0;
            assert forall|q: int| 0 <= q < declarations_from(s, i)->Some_0.len() implies ops_well_formed(
                #[trigger] declarations_from(s, i)->Some_0[q].ops,
            ) by {
                if q > 0 {
                    assert(declarations_from(s, i)->Some_0[q] == rest[q - 1]);
                }
            }
        }
    }
}

/// Where the declarations from `i` on stop matching: the start of a declaration that does
/// not parse, or the place where a `;` is missing after one; `-1` when they all match.
pub open spec fn error_from(s: Seq<char>, i: int) -> int
    decreases s.len() - i,
{
    let j = skip_ws(s, i);
    if j < 0 || j >= s.len() {
        -1
    } else {
        match declaration_at(s, j) {
            Some((_, k)) => {
                let m = skip_ws(s, k);
                if m >= s.len() {
                    -1
                } else if s[m] == ';' && i < m + 1 {
                    error_from(s, m + 1)
                } else {
                    m
                }
            },
            None => j,
        }
    }
}

// ---------------------------------------------------------------------------------------
// Parsing functions
// ---------------------------------------------------------------------------------------

fn slice(s: &Vec<char>, a: usize, b: usize) -> (r: Vec<char>)
    requires
        a <= b <= s.len(),
    ensures
        r@ == s@.subrange(a as int, b as int),
{
    let mut out: Vec<char> = Vec::new();
    let mut k = a;
    while k < b
        invariant
            a <= k <= b <= s.len(),
            out@ == s@.subrange(a as int, k as int),
        decreases b - k,
    {
        out.push(s[k]);
        k = k + 1;
        proof {
            assert(out@ =~= s@.subrange(a as int, k as int));
        }
    }
    out
}

fn parse_level(s: &Vec<char>, i: usize) -> (r: Option<(RuleLevel, usize)>)
    requires
        i <= s.len(),
    ensures
        r matches Some((l, n)) ==> level_at(s@, i as int) == Some((l, n as int)) && i < n <= s.len(),
        r is None ==> level_at(s@, i as int) is None,
{
    proof {
        reveal_strlit("package");
        reveal_strlit("module");
        reveal_strlit("function");
        reveal_strlit("class");
        reveal_strlit("struct");
        reveal_strlit("file");
    }
    if word_at_exec(s, i, "package") {
        Some((RuleLevel::Package, i + 7))
    } else if word_at_exec(s, i, "module") {
        Some((RuleLevel::Module, i + 6))
    } else if word_at_exec(s, i, "function") {
        Some((RuleLevel::Function, i + 8))
    } else if word_at_exec(s, i, "class") {
        Some((RuleLevel::Class, i + 5))
    } else if word_at_exec(s, i, "struct") {
        Some((RuleLevel::Struct, i + 6))
    } else if word_at_exec(s, i, "file") {
        Some((RuleLevel::File, i + 4))
    } else {
        None
    }
}

/// The string literal at `i`, as a `String`.
fn parse_string_value(s: &Vec<char>, i: usize) -> (r: Option<(String, usize)>)
    requires
        i <= s.len(),
    ensures
        r matches Some((v, n)) ==> string_at(s@, i as int) == Some((v@, n as int)) && i < n
            <= s.len(),
        r is None ==> string_at(s@, i as int) is None,
{
    match parse_string(s, i) {
        Some((v, n)) => Some((string_from_chars(&v), n)),
        None => None,
    }
}

fn parse_keyed_string(s: &Vec<char>, i: usize, w: &str) -> (r: Option<(String, usize)>)
    requires
        i <= s.len(),
    ensures
        r matches Some((v, n)) ==> keyed_string_at(s@, i as int, w@) == Some((v@, n as int)) && i
            < n <= s.len(),
        r is None ==> keyed_string_at(s@, i as int, w@) is None,
{
    if word_at_exec(s, i, w) {
        let n = w.unicode_len();
        parse_string_value(s, skip_whitespace(s, i + n))
    } else {
        None
    }
}

fn parse_close_paren(s: &Vec<char>, i: usize) -> (r: Option<usize>)
    requires
        i <= s.len(),
    ensures
        r matches Some(n) ==> close_paren(s@, i as int) == Some(n as int) && i < n <= s.len(),
        r is None ==> close_paren(s@, i as int) is None,
{
    proof {
        reveal_strlit(")");
    }
    let k = skip_whitespace(s, i);
    if lit_at_exec(s, k, ")") {
        Some(k + 1)
    } else {
        None
    }
}

fn parse_scope(s: &Vec<char>, i: usize) -> (r: Option<(RuleScope, usize)>)
    requires
        i <= s.len(),
    ensures
        r matches Some((sc, n)) ==> scope_at(s@, i as int) == Some((sc@, n as int)) && i < n
            <= s.len(),
        r is None ==> scope_at(s@, i as int) is None,
{
    proof {
        reveal_strlit("match");
        reveal_strlit("(");
    }
    if i < s.len() && (s[i] == '"' || s[i] == '\'' || s[i] == '`') {
        match parse_string_value(s, i) {
            Some((v, k)) => Some((RuleScope::PathDefine(v), k)),
            None => None,
        }
    } else if word_at_exec(s, i, "extends") {
        match parse_keyed_string(s, i, "extends") {
            Some((v, k)) => Some((RuleScope::Extend(v), k)),
            None => None,
        }
    } else if word_at_exec(s, i, "assignable") {
        match parse_keyed_string(s, i, "assignable") {
            Some((v, k)) => Some((RuleScope::Assignable(v), k)),
            None => None,
        }
    } else if word_at_exec(s, i, "implementation") {
        match parse_keyed_string(s, i, "implementation") {
            Some((v, k)) => Some((RuleScope::Implementation(v), k)),
            None => None,
        }
    } else if word_at_exec(s, i, "match") {
        let j = skip_whitespace(s, i + 5);
        if !lit_at_exec(s, j, "(") {
            return None;
        }
        match parse_string_value(s, skip_whitespace(s, j + 1)) {
            Some((v, k)) => match parse_close_paren(s, k) {
                Some(e) => Some((RuleScope::MatchRegex(v), e)),
                None => None,
            },
            None => None,
        }
    } else {
        None
    }
}

/// The chain of identifiers that starts at `i`.
fn parse_props(s: &Vec<char>, i: usize) -> (r: (Vec<String>, usize))
    requires
        i < s.len(),
        is_ident_start(s@[i as int]),
    ensures
        props_at(s@, i as int) == (strings_view(r.0@), r.1 as int),
        i < r.1 <= s.len(),
{
    let mut out: Vec<String> = Vec::new();
    let mut cur = i;
    proof {
        assert(strings_view(out@) + props_at(s@, cur as int).0 =~= props_at(s@, cur as int).0);
    }
    loop
        invariant
            i <= cur < s.len(),
            is_ident_start(s@[cur as int]),
            props_at(s@, i as int) == (
                strings_view(out@) + props_at(s@, cur as int).0,
                props_at(s@, cur as int).1,
            ),
        decreases s.len() - cur,
    {
        let e = identifier_end(s, cur);
        let name = string_from_chars(&slice(s, cur, e));
        let ghost prev = out@;
        out.push(name);
        proof {
            assert(strings_view(out@) =~= strings_view(prev).push(name@));
        }
        if e < s.len() && s.len() - e > 1 && s[e] == '.' && is_ident_start_char(s[e + 1]) {
            proof {
                let (rest, end) = props_at(s@, (e + 1) as int);
                assert(strings_view(prev) + (seq![name@] + rest) =~= strings_view(out@) + rest);
            }
            cur = e + 1;
        } else {
            proof {
                assert(strings_view(prev) + seq![name@] =~= strings_view(out@));
            }
            return (out, e);
        }
    }
}

fn parse_core_op(s: &Vec<char>, i: usize) -> (r: Option<(Operator, usize)>)
    requires
        i <= s.len(),
    ensures
        r matches Some((op, n)) ==> core_op_at(s@, i as int) == Some((op, n as int)) && i < n
            <= s.len(),
        r is None ==> core_op_at(s@, i as int) is None,
{
    proof {
        reveal_strlit("<=");
        reveal_strlit(">=");
        reveal_strlit("<");
        reveal_strlit(">");
        reveal_strlit("==");
        reveal_strlit("=");
        reveal_strlit("contains");
        reveal_strlit("endsWith");
        reveal_strlit("startsWith");
        reveal_strlit("resideIn");
        reveal_strlit("accessed");
        reveal_strlit("dependBy");
    }
    if lit_at_exec(s, i, "<=") {
        Some((Operator::Lte, i + 2))
    } else if lit_at_exec(s, i, ">=") {
        Some((Operator::Gte, i + 2))
    } else if lit_at_exec(s, i, "<") {
        Some((Operator::Lt, i + 1))
    } else if lit_at_exec(s, i, ">") {
        Some((Operator::Gt, i + 1))
    } else if lit_at_exec(s, i, "==") {
        Some((Operator::Eq, i + 2))
    } else if lit_at_exec(s, i, "=") {
        Some((Operator::Eq, i + 1))
    } else if word_at_exec(s, i, "contains") {
        Some((Operator::Contains, i + 8))
    } else if word_at_exec(s, i, "endsWith") {
        Some((Operator::Endswith, i + 8))
    } else if word_at_exec(s, i, "startsWith") {
        Some((Operator::StartsWith, i + 10))
    } else if word_at_exec(s, i, "resideIn") {
        Some((Operator::ResideIn, i + 8))
    } else if word_at_exec(s, i, "accessed") {
        Some((Operator::Accessed, i + 8))
    } else if word_at_exec(s, i, "dependBy") {
        Some((Operator::DependBy, i + 8))
    } else {
        None
    }
}

fn parse_operator(s: &Vec<char>, i: usize) -> (r: Option<(Vec<Operator>, usize)>)
    requires
        i <= s.len(),
    ensures
        r matches Some((ops, n)) ==> operator_at(s@, i as int) == Some((ops@, n as int)) && i < n
            <= s.len(),
        r is None ==> operator_at(s@, i as int) is None,
{
    proof {
        reveal_strlit("not");
        reveal_strlit("!");
    }
    let neg_end: Option<usize> = if word_at_exec(s, i, "not") {
        Some(i + 3)
    } else if lit_at_exec(s, i, "!") {
        Some(i + 1)
    } else {
        None
    };
    match neg_end {
        Some(k) => match parse_core_op(s, skip_whitespace(s, k)) {
            Some((op, n)) => {
                let v = vec![Operator::Not, op];
                proof {
                    assert(v@ =~= seq![Operator::Not, op]);
                }
                Some((v, n))
            },
            None => None,
        },
        None => match parse_core_op(s, i) {
            Some((op, n)) => {
                let v = vec![op];
                proof {
                    assert(v@ =~= seq![op]);
                }
                Some((v, n))
            },
            None => None,
        },
    }
}

/// `p` in front of a list that may be missing.
pub open spec fn prefixed_list(p: Seq<Seq<char>>, o: Option<(Seq<Seq<char>>, int)>) -> Option<(Seq<Seq<char>>, int)> {
    match o {
        Some((v, e)) => Some((p + v, e)),
        None => None,
    }
}

/// The rest of a list after an item at `i`, up to `close`.
fn parse_list_rest(s: &Vec<char>, i: usize, close: char) -> (r: Option<(Vec<String>, usize)>)
    requires
        i <= s.len(),
    ensures
        r matches Some((v, n)) ==> list_rest(s@, i as int, close) == Some((strings_view(v@), n as int))
            && i < n <= s.len(),
        r is None ==> list_rest(s@, i as int, close) is None,
{
    let mut out: Vec<String> = Vec::new();
    let mut cur = i;
    proof {
        match list_rest(s@, i as int, close) {
            Some((v, e)) => {
                assert(strings_view(out@) + v =~= v);
            },
            None => {},
        }
    }
    loop
        invariant
            i <= cur <= s.len(),
            list_rest(s@, i as int, close) == prefixed_list(strings_view(out@), list_rest(s@, cur as int, close)),
        decreases s.len() - cur,
    {
        let k = skip_whitespace(s, cur);
        if k < s.len() && s[k] == close {
            proof {
                assert(strings_view(out@) + Seq::<Seq<char>>::empty() =~= strings_view(out@));
            }
            return Some((out, k + 1));
        }
        if !(k < s.len() && s[k] == ',') {
            return None;
        }
        match parse_string_value(s, skip_whitespace(s, k + 1)) {
            Some((v, n)) => {
                let ghost prev = out@;
                out.push(v);
                proof {
                    assert(strings_view(out@) =~= strings_view(prev).push(v@));
                    match list_rest(s@, n as int, close) {
                        Some((rest, e)) => {
                            assert(strings_view(prev) + (seq![v@] + rest) =~= strings_view(out@) + rest);
                        },
                        None => {},
                    }
                }
                cur = n;
            },
            None => {
                return None;
            },
        }
    }
}

fn parse_items(s: &Vec<char>, i: usize, close: char) -> (r: Option<(Vec<String>, usize)>)
    requires
        i <= s.len(),
    ensures
        r matches Some((v, n)) ==> items_at(s@, i as int, close) == Some((strings_view(v@), n as int))
            && i < n <= s.len(),
        r is None ==> items_at(s@, i as int, close) is None,
{
    match parse_string_value(s, i) {
        Some((first, n)) => match parse_list_rest(s, n, close) {
            Some((rest, e)) => {
                let mut out: Vec<String> = vec![first];
                let ghost fv = first@;
                proof {
                    assert(strings_view(out@) =~= seq![fv]);
                }
                let mut k: usize = 0;
                while k < rest.len()
                    invariant
                        k <= rest.len(),
                        strings_view(out@) == seq![fv] + strings_view(rest@).take(k as int),
                    decreases rest.len() - k,
                {
                    let ghost prev = out@;
                    let item = rest[k].clone();
                    proof {
                        assert(strings_view(rest@).take(k + 1) =~= strings_view(rest@).take(k as int).push(item@));
                        assert(strings_view(out@.push(item)) =~= strings_view(prev).push(item@));
                    }
                    out.push(item);
                    k = k + 1;
                    proof {
                        assert(strings_view(out@) =~= seq![fv] + strings_view(rest@).take(k as int));
                    }
                }
                proof {
                    assert(strings_view(rest@).take(rest.len() as int) =~= strings_view(rest@));
                }
                Some((out, e))
            },
            None => None,
        },
        None => None,
    }
}

fn parse_list(s: &Vec<char>, i: usize) -> (r: Option<(Vec<String>, usize)>)
    requires
        i <= s.len(),
    ensures
        r matches Some((v, n)) ==> list_at(s@, i as int) == Some((strings_view(v@), n as int)) && i
            < n <= s.len(),
        r is None ==> list_at(s@, i as int) is None,
{
    proof {
        reveal_strlit("[");
    }
    if lit_at_exec(s, i, "[") {
        parse_items(s, skip_whitespace(s, i + 1), ']')
    } else {
        None
    }
}

fn parse_assert(s: &Vec<char>, i: usize) -> (r: Option<(RuleAssert, usize)>)
    requires
        i <= s.len(),
    ensures
        r matches Some((a, n)) ==> assert_at(s@, i as int) == Some((a@, n as int)) && i < n
            <= s.len(),
        r is None ==> assert_at(s@, i as int) is None,
{
    proof {
        reveal_strlit("(");
        reveal_strlit("[");
    }
    if let Some((lv, j)) = parse_level(s, i) {
        let k = skip_whitespace(s, j);
        if !lit_at_exec(s, k, "(") {
            return None;
        }
        return match parse_string_value(s, skip_whitespace(s, k + 1)) {
            Some((v, n)) => match parse_close_paren(s, n) {
                Some(e) => Some((RuleAssert::Leveled(lv, v), e)),
                None => None,
            },
            None => None,
        };
    }
    if i < s.len() && '0' <= s[i] && s[i] <= '9' {
        return match parse_integer(s, i) {
            Some((v, e)) => Some((RuleAssert::Sized(v), e)),
            None => None,
        };
    }
    if i < s.len() && (s[i] == '"' || s[i] == '\'' || s[i] == '`') {
        return match parse_string_value(s, i) {
            Some((v, e)) => Some((RuleAssert::Stringed(v), e)),
            None => None,
        };
    }
    if lit_at_exec(s, i, "[") {
        return match parse_list(s, i) {
            Some((v, e)) => Some((RuleAssert::ArrayStringed(v), e)),
            None => None,
        };
    }
    if lit_at_exec(s, i, "(") {
        let k = skip_whitespace(s, i + 1);
        if lit_at_exec(s, k, "[") {
            return match parse_list(s, k) {
                Some((v, n)) => match parse_close_paren(s, n) {
                    Some(e) => Some((RuleAssert::ArrayStringed(v), e)),
                    None => None,
                },
                None => None,
            };
        }
        return match parse_string_value(s, k) {
            Some((v, n)) => match parse_close_paren(s, n) {
                Some(e) => Some((RuleAssert::Stringed(v), e)),
                None => None,
            },
            None => None,
        };
    }
    None
}

fn parse_scope_clause(s: &Vec<char>, i: usize) -> (r: Option<(RuleScope, usize)>)
    requires
        i <= s.len(),
    ensures
        r matches Some((sc, n)) ==> scope_clause_at(s@, i as int) == Some((sc@, n as int)) && i
            <= n <= s.len(),
        r is None ==> scope_clause_at(s@, i as int) is None,
{
    proof {
        reveal_strlit("(");
    }
    if lit_at_exec(s, i, "(") {
        match parse_scope(s, skip_whitespace(s, i + 1)) {
            Some((sc, k)) => match parse_close_paren(s, k) {
                Some(e) => Some((sc, e)),
                None => None,
            },
            None => None,
        }
    } else {
        Some((RuleScope::All, i))
    }
}

/// One call argument at `i`.
fn parse_call_arg(s: &Vec<char>, i: usize) -> (r: Option<((String, Expr), usize)>)
    requires
        i <= s.len(),
    ensures
        r matches Some((a, n)) ==> call_arg_at(s@, i as int) == Some(((a.0@, identifier_text(a.1)), n as int))
            && i < n <= s.len(),
        r is None ==> call_arg_at(s@, i as int) is None,
{
    proof {
        reveal_strlit(":");
    }
    if !(i < s.len() && is_ident_start_char(s[i])) {
        return None;
    }
    let ke = identifier_end(s, i);
    let m = skip_whitespace(s, ke);
    if !lit_at_exec(s, m, ":") {
        return None;
    }
    match parse_string_value(s, skip_whitespace(s, m + 1)) {
        Some((v, q)) => {
            let key = string_from_chars(&slice(s, i, ke));
            Some(((key, Expr::Identifier(v)), q))
        },
        None => None,
    }
}

/// `p` in front of an argument list that may be missing.
pub open spec fn prefixed_args(p: Seq<(Seq<char>, Seq<char>)>, o: Option<(Seq<(Seq<char>, Seq<char>)>, int)>) -> Option<(Seq<(Seq<char>, Seq<char>)>, int)> {
    match o {
        Some((v, e)) => Some((p + v, e)),
        None => None,
    }
}

/// The call arguments after `(`, up to and including `)`.
fn parse_call_args(s: &Vec<char>, i: usize) -> (r: Option<(Vec<(String, Expr)>, usize)>)
    requires
        i <= s.len(),
    ensures
        r matches Some((v, n)) ==> call_args_at(s@, i as int) == Some((args_view(v@), n as int))
            && i < n <= s.len(),
        r is None ==> call_args_at(s@, i as int) is None,
{
    proof {
        reveal_strlit(")");
        reveal_strlit(",");
    }
    let j = skip_whitespace(s, i);
    let mut out: Vec<(String, Expr)> = Vec::new();
    if lit_at_exec(s, j, ")") {
        proof {
            assert(args_view(out@) =~= Seq::empty());
        }
        return Some((out, j + 1));
    }
    let mut cur = match parse_call_arg(s, j) {
        Some((a, q)) => {
            let ghost av = (a.0@, identifier_text(a.1));
            out.push(a);
            proof {
                assert(args_view(out@) =~= seq![av]);
            }
            q
        },
        None => {
            return None;
        },
    };
    proof {
        match call_args_rest(s@, cur as int) {
            Some((rest, e)) => {
                assert(args_view(out@) + rest == seq![args_view(out@)[0]] + rest);
            },
            None => {},
        }
    }
    loop
        invariant
            i <= cur <= s.len(),
            call_args_at(s@, i as int) == prefixed_args(args_view(out@), call_args_rest(s@, cur as int)),
        decreases s.len() - cur,
    {
        proof {
            reveal_strlit(")");
            reveal_strlit(",");
        }
        let k = skip_whitespace(s, cur);
        if lit_at_exec(s, k, ")") {
            proof {
                assert(args_view(out@) + Seq::<(Seq<char>, Seq<char>)>::empty() =~= args_view(out@));
            }
            return Some((out, k + 1));
        }
        if !lit_at_exec(s, k, ",") {
            return None;
        }
        match parse_call_arg(s, skip_whitespace(s, k + 1)) {
            Some((a, q)) => {
                let ghost prev = out@;
                let ghost av = (a.0@, identifier_text(a.1));
                out.push(a);
                proof {
                    assert(args_view(out@) =~= args_view(prev).push(av));
                    match call_args_rest(s@, q as int) {
                        Some((rest, e)) => {
                            assert(args_view(prev) + (seq![av] + rest) =~= args_view(out@) + rest);
                        },
                        None => {},
                    }
                }
                cur = q;
            },
            None => {
                return None;
            },
        }
    }
}

/// The expression that starts with the identifier at `i`.
fn parse_expression(s: &Vec<char>, i: usize) -> (r: Option<(Expr, usize)>)
    requires
        i < s.len(),
        is_ident_start(s@[i as int]),
    ensures
        r matches Some((x, n)) ==> expression_at(s@, i as int) == Some((x@, n as int)) && i < n
            <= s.len(),
        r is None ==> expression_at(s@, i as int) is None,
{
    proof {
        reveal_strlit("(");
    }
    let e = identifier_end(s, i);
    if lit_at_exec(s, e, "(") {
        match parse_call_args(s, e + 1) {
            Some((args, end)) => {
                let name = string_from_chars(&slice(s, i, e));
                Some((Expr::Call(FunctionCall { name, args }), end))
            },
            None => None,
        }
    } else {
        let (ps, end) = parse_props(s, i);
        Some((Expr::PropsCall(ps), end))
    }
}

fn parse_expr_clause(s: &Vec<char>, i: usize) -> (r: Option<(Expr, usize)>)
    requires
        i <= s.len(),
    ensures
        r matches Some((x, n)) ==> expr_clause_at(s@, i as int) == Some((x@, n as int)) && i <= n
            <= s.len(),
        r is None ==> expr_clause_at(s@, i as int) is None,
{
    proof {
        reveal_strlit("::");
        reveal_strlit("->");
    }
    if lit_at_exec(s, i, "::") || lit_at_exec(s, i, "->") {
        let k = skip_whitespace(s, i + 2);
        if k < s.len() && is_ident_start_char(s[k]) {
            parse_expression(s, k)
        } else {
            None
        }
    } else {
        let empty = String::new();
        proof {
            assert(empty@ =~= Seq::<char>::empty());
        }
        Some((Expr::Identifier(empty), i))
    }
}

fn skip_keyword(s: &Vec<char>, i: usize, w: &str) -> (r: usize)
    requires
        i <= s.len(),
    ensures
        r as int == skip_word(s@, i as int, w@),
        i <= r <= s.len(),
{
    if word_at_exec(s, i, w) {
        let n = w.unicode_len();
        skip_whitespace(s, i + n)
    } else {
        i
    }
}

fn parse_normal(s: &Vec<char>, i: usize) -> (r: Option<(GuardRule, usize)>)
    requires
        i <= s.len(),
    ensures
        r matches Some((g, n)) ==> normal_at(s@, i as int) == Some((g@, n as int)) && i < n
            <= s.len(),
        r is None ==> normal_at(s@, i as int) is None,
{
    let (level, j) = match parse_level(s, i) {
        Some(p) => p,
        None => {
            return None;
        },
    };
    let (scope, k) = match parse_scope_clause(s, skip_whitespace(s, j)) {
        Some(p) => p,
        None => {
            return None;
        },
    };
    let (expr, m) = match parse_expr_clause(s, skip_whitespace(s, k)) {
        Some(p) => p,
        None => {
            return None;
        },
    };
    let m2 = skip_keyword(s, skip_keyword(s, skip_whitespace(s, m), "should"), "only");
    let (ops, n) = match parse_operator(s, m2) {
        Some(p) => p,
        None => {
            return None;
        },
    };
    let (assert, e) = match parse_assert(s, skip_whitespace(s, n)) {
        Some(p) => p,
        None => {
            return None;
        },
    };
    Some((GuardRule { ty: RuleType::Normal, level, scope, expr, ops, assert }, e))
}

fn parse_layer_args(s: &Vec<char>, i: usize) -> (r: Option<usize>)
    requires
        i <= s.len(),
    ensures
        r matches Some(n) ==> layer_args_at(s@, i as int) == Some(n as int) && i < n <= s.len(),
        r is None ==> layer_args_at(s@, i as int) is None,
{
    proof {
        reveal_strlit(")");
    }
    if lit_at_exec(s, i, ")") {
        Some(i + 1)
    } else {
        match parse_items(s, i, ')') {
            Some((_, e)) => Some(e),
            None => None,
        }
    }
}

fn parse_layer_parts(s: &Vec<char>, i: usize) -> (r: Option<usize>)
    requires
        i <= s.len(),
    ensures
        r matches Some(n) ==> layer_parts_at(s@, i as int) == Some(n as int) && i <= n <= s.len(),
        r is None ==> layer_parts_at(s@, i as int) is None,
{
    proof {
        reveal_strlit("::");
        reveal_strlit("(");
    }
    let mut cur = i;
    loop
        invariant
            i <= cur <= s.len(),
            layer_parts_at(s@, i as int) == layer_parts_at(s@, cur as int),
        decreases s.len() - cur,
    {
        proof {
            reveal_strlit("::");
            reveal_strlit("(");
        }
        let k = skip_whitespace(s, cur);
        if !lit_at_exec(s, k, "::") {
            return Some(cur);
        }
        let m = skip_whitespace(s, k + 2);
        if !(m < s.len() && is_ident_start_char(s[m])) {
            return None;
        }
        let n = skip_whitespace(s, identifier_end(s, m));
        if !lit_at_exec(s, n, "(") {
            return None;
        }
        match parse_layer_args(s, skip_whitespace(s, n + 1)) {
            Some(e) => {
                cur = e;
            },
            None => {
                return None;
            },
        }
    }
}

/// The rule a layer declaration stands for.
fn layer_rule() -> (r: GuardRule)
    ensures
        r@ == layer_rule_view(),
{
    let empty = String::new();
    let r = GuardRule {
        ty: RuleType::Layer,
        level: RuleLevel::Class,
        scope: RuleScope::All,
        expr: Expr::Identifier(empty),
        ops: vec![Operator::DependBy],
        assert: RuleAssert::Empty,
    };
    proof {
        assert(r.ops@ =~= seq![Operator::DependBy]);
        assert(empty@ =~= Seq::<char>::empty());
    }
    r
}

fn parse_layer(s: &Vec<char>, i: usize) -> (r: Option<(GuardRule, usize)>)
    requires
        i <= s.len(),
    ensures
        r matches Some((g, n)) ==> layer_at(s@, i as int) == Some((g@, n as int)) && i < n
            <= s.len(),
        r is None ==> layer_at(s@, i as int) is None,
{
    proof {
        reveal_strlit("layer");
        reveal_strlit("(");
    }
    if !word_at_exec(s, i, "layer") {
        return None;
    }
    let j = skip_whitespace(s, i + 5);
    if !lit_at_exec(s, j, "(") {
        return None;
    }
    match parse_string(s, skip_whitespace(s, j + 1)) {
        Some((_, n)) => match parse_close_paren(s, n) {
            Some(k) => match parse_layer_parts(s, k) {
                Some(e) => Some((layer_rule(), e)),
                None => None,
            },
            None => None,
        },
        None => None,
    }
}

fn parse_declaration(s: &Vec<char>, i: usize) -> (r: Option<(GuardRule, usize)>)
    requires
        i <= s.len(),
    ensures
        r matches Some((g, n)) ==> declaration_at(s@, i as int) == Some((g@, n as int)) && i < n
            <= s.len(),
        r is None ==> declaration_at(s@, i as int) is None,
{
    if word_at_exec(s, i, "layer") {
        parse_layer(s, i)
    } else {
        parse_normal(s, i)
    }
}

/// Where a rule document stopped matching the grammar.
#[derive(Clone, Copy, Debug, PartialEq, Eq, Structural)]
pub struct ParseError {
    /// Character position of the declaration (or of the separator) that does not match.
    pub position: usize,
}

/// `p` in front of a sequence of rules that may be missing.
pub open spec fn prefixed_rules(p: Seq<RuleView>, o: Option<Seq<RuleView>>) -> Option<Seq<RuleView>> {
    match o {
        Some(v) => Some(p + v),
        None => None,
    }
}

/// Parses a rule document into its rules, in order; fails when any part of the text does
/// not match the grammar.
pub fn parse(code: &str) -> (r: Result<Vec<GuardRule>, ParseError>)
    ensures
        r is Ok <==> document(code@) is Some,
        r matches Ok(rules) ==> document(code@) == Some(rules_view(rules@)),
        r matches Ok(rules) ==> forall|k: int| 0 <= k < rules@.len() ==> ops_well_formed(#[trigger] rules@[k].ops@),
        r matches Err(e) ==> e.position as int == error_from(code@, 0),
{
    let r = parse_document(code);
    proof {
        if r is Ok {
            let rules = r->Ok_0;
            lemma_document_ops(code@, 0);
            assert forall|k: int| 0 <= k < rules@.len() implies ops_well_formed(#[trigger] rules@[k].ops@) by {
                assert(declarations_from(code@, 0)->Some_0 == rules_view(rules@));
                assert(rules_view(rules@)[k] == rules@[k]@);
                assert(ops_well_formed(declarations_from(code@, 0)->Some_0[k].ops));
            }
        }
    }
    r
}

fn parse_document(code: &str) -> (r: Result<Vec<GuardRule>, ParseError>)
    ensures
        r is Ok <==> document(code@) is Some,
        r matches Ok(rules) ==> document(code@) == Some(rules_view(rules@)),
        r matches Err(e) ==> e.position as int == error_from(code@, 0),
{
    let s = chars_of(code);
    let mut out: Vec<GuardRule> = Vec::new();
    let mut cur: usize = 0;
    proof {
        match declarations_from(s@, 0) {
            Some(v) => {
                assert(rules_view(out@) + v =~= v);
            },
            None => {},
        }
    }
    loop
        invariant
            cur <= s.len(),
            s@ == code@,
            document(code@) == prefixed_rules(rules_view(out@), declarations_from(s@, cur as int)),
            error_from(code@, 0) == error_from(s@, cur as int),
        decreases s.len() - cur,
    {
        let j = skip_whitespace(&s, cur);
        if j >= s.len() {
            proof {
                assert(rules_view(out@) + Seq::<RuleView>::empty() =~= rules_view(out@));
            }
            return Ok(out);
        }
        let (rule, k) = match parse_declaration(&s, j) {
            Some(p) => p,
            None => {
                return Err(ParseError { position: j });
            },
        };
        let m = skip_whitespace(&s, k);
        let ghost prev = out@;
        let ghost rv = rule@;
        out.push(rule);
        proof {
            assert(rules_view(out@) =~= rules_view(prev).push(rv));
        }
        if m >= s.len() {
            proof {
                assert(rules_view(prev) + seq![rv] =~= rules_view(out@));
            }
            return Ok(out);
        }
        if s[m] != ';' {
            return Err(ParseError { position: m });
        }
        proof {
            match declarations_from(s@, m + 1) {
                Some(rest) => {
                    assert(rules_view(prev) + (seq![rv] + rest) =~= rules_view(out@) + rest);
                },
                None => {},
            }
        }
        cur = m + 1;
    }
}

} // verus!
