//! Dotted package patterns: `*` stands for one segment, `..` and `(**)` for any number of
//! segments. A pattern is translated into a regular expression and matched by the `regex`
//! crate.
use crate::text::{chars_of, has_prefix, occurs_at, replace_all, replace_all_chars, string_from_chars};
use vstd::prelude::*;

verus! {

#[verifier::external_type_specification]
#[verifier::external_body]
pub struct ExRegex(regex::Regex);

#[verifier::external_type_specification]
#[verifier::external_body]
pub struct ExRegexError(regex::Error);

/// Whether `regex::Regex::new` accepts the expression text `source`.
pub uninterp spec fn regex_compiles(source: Seq<char>) -> bool;

/// Whether the expression compiled from `source` matches somewhere in `text`.
pub uninterp spec fn regex_accepts(source: Seq<char>, text: Seq<char>) -> bool;

/// The regular expression that a package pattern stands for, built in this order:
/// `(**)` becomes a capturing group of segments, `*` one segment, dots are escaped, the
/// capture group is put in place, every escaped double dot becomes an optional run of
/// segments, and the whole is anchored.
pub open spec fn regex_of(pattern: Seq<char>) -> Seq<char> {
    let s1 = replace_all(pattern, "(**)"@, "#%#%#"@);
    let s2 = replace_all(s1, "*"@, "\\w+"@);
    let s3 = replace_all(s2, "."@, "\\."@);
    let s4 = replace_all(s3, "#%#%#"@, "(\\w+(?:\\.\\w+)*)"@);
    let s5 = replace_all(s4, "\\.\\."@, "(?:(?:^\\w*)?\\.(?:\\w+\\.)*(?:\\w*$)?)?"@);
    "^"@ + s5 + "$"@
}

/// The pattern can be compiled.
pub open spec fn pattern_valid(pattern: Seq<char>) -> bool {
    regex_compiles(regex_of(pattern))
}

/// The dotted name `text` matches `pattern`.
pub open spec fn package_matches(pattern: Seq<char>, text: Seq<char>) -> bool {
    regex_accepts(regex_of(pattern), text)
}

/// A pattern that could not be compiled.
#[derive(Clone, Debug)]
pub struct PatternError {
    pub pattern: String,
}

/// A compiled expression together with the text it was compiled from. Only
/// `compile_regex` builds one, so `regex` is always the compilation of `source`.
pub struct CompiledRegex {
    regex: regex::Regex,
    source: String,
}

impl CompiledRegex {
    pub closed spec fn source(&self) -> Seq<char> {
        self.source@
    }
}

/// Relies on `regex::Regex::new`: it succeeds exactly when the text is an expression that
/// the crate accepts under its default limits, which depends on the text alone.
#[verifier::external_body]
fn compile_regex(source: &str) -> (r: Result<CompiledRegex, regex::Error>)
    ensures
        r is Ok <==> regex_compiles(source@),
        r matches Ok(c) ==> c.source() == source@,
{
    match regex::Regex::new(source) {
        Ok(regex) => Ok(CompiledRegex { regex, source: source.to_string() }),
        Err(e) => Err(e),
    }
}

/// Relies on `regex::Regex::is_match`: whether the expression matches somewhere in `text`.
#[verifier::external_body]
fn regex_is_match(c: &CompiledRegex, text: &str) -> (r: bool)
    ensures
        r == regex_accepts(c.source(), text@),
{
    c.regex.is_match(text)
}

/// Translates a package pattern into an anchored regular expression.
pub fn convert_to_regex(package_identifier: String) -> (r: String)
    ensures
        r@ == regex_of(package_identifier@),
{
    proof {
        reveal_strlit("(**)");
        reveal_strlit("*");
        reveal_strlit(".");
        reveal_strlit("#%#%#");
        reveal_strlit("\\.\\.");
    }
    let p = chars_of(package_identifier.as_str());
    let s1 = replace_all_chars(&p, &chars_of("(**)"), &chars_of("#%#%#"));
    let s2 = replace_all_chars(&s1, &chars_of("*"), &chars_of("\\w+"));
    let s3 = replace_all_chars(&s2, &chars_of("."), &chars_of("\\."));
    let s4 = replace_all_chars(&s3, &chars_of("#%#%#"), &chars_of("(\\w+(?:\\.\\w+)*)"));
    let s5 = replace_all_chars(
        &s4,
        &chars_of("\\.\\."),
        &chars_of("(?:(?:^\\w*)?\\.(?:\\w+\\.)*(?:\\w*$)?)?"),
    );
    let mut out = chars_of("^");
    crate::text::push_all(&mut out, &s5);
    crate::text::push_str(&mut out, "$");
    string_from_chars(&out)
}

/// A compiled package pattern, built once and used for many names.
pub struct PackageMatcher {
    compiled: CompiledRegex,
    pattern: String,
}

impl PackageMatcher {
    /// The pattern this matcher was built from.
    pub closed spec fn pattern(&self) -> Seq<char> {
        self.pattern@
    }

    /// The compiled expression is the translation of the pattern.
    pub closed spec fn wf(&self) -> bool {
        self.compiled.source() == regex_of(self.pattern@)
    }

    /// Compiles `pattern`; fails exactly when its translation is not a valid expression.
    pub fn new(pattern: &str) -> (r: Result<PackageMatcher, PatternError>)
        ensures
            r is Ok <==> pattern_valid(pattern@),
            r matches Ok(m) ==> m.wf() && m.pattern() == pattern@,
            r matches Err(e) ==> e.pattern@ == pattern@,
    {
        let source = convert_to_regex(pattern.to_owned());
        match compile_regex(source.as_str()) {
            Ok(compiled) => Ok(PackageMatcher {
                compiled,
                pattern: pattern.to_owned(),
            }),
            Err(_) => Err(PatternError { pattern: pattern.to_owned() }),
        }
    }

    /// Whether the dotted name `text` matches the pattern.
    pub fn is_match(&self, text: &str) -> (r: bool)
        requires
            self.wf(),
        ensures
            r == package_matches(self.pattern(), text@),
    {
        regex_is_match(&self.compiled, text)
    }
}

/// Whether the dotted name `text` matches `package_identifier`; an error when the pattern
/// cannot be compiled, never a match.
pub fn matches(package_identifier: String, text: &str) -> (r: Result<bool, PatternError>)
    ensures
        r is Ok <==> pattern_valid(package_identifier@),
        r matches Ok(b) ==> b == package_matches(package_identifier@, text@),
        r matches Err(e) ==> e.pattern@ == package_identifier@,
{
    let m = PackageMatcher::new(package_identifier.as_str());
    match m {
        Ok(m) => Ok(m.is_match(text)),
        Err(e) => Err(e),
    }
}

/// Translating a pattern and matching with it depend on the pattern and the name alone:
/// equal inputs give equal expressions and equal answers.
pub proof fn lemma_matching_is_deterministic(p1: Seq<char>, p2: Seq<char>, t1: Seq<char>, t2: Seq<char>)
    requires
        p1 == p2,
        t1 == t2,
    ensures
        regex_of(p1) == regex_of(p2),
        pattern_valid(p1) == pattern_valid(p2),
        package_matches(p1, t1) == package_matches(p2, t2),
{
}

/// Two matchers built from the same pattern give the same answer on every name.
pub proof fn lemma_matchers_agree(a: &PackageMatcher, b: &PackageMatcher, text: Seq<char>)
    requires
        a.wf(),
        b.wf(),
        a.pattern() == b.pattern(),
    ensures
        package_matches(a.pattern(), text) == package_matches(b.pattern(), text),
{
}

pub open spec fn is_word_char(c: char) -> bool {
    ('a' <= c && c <= 'z') || ('A' <= c && c <= 'Z') || ('0' <= c && c <= '9') || c == '_'
}

/// A package name without wildcards: word characters in segments separated by single
/// dots.
pub open spec fn is_plain_name(p: Seq<char>) -> bool {
    &&& forall|i: int| 0 <= i < p.len() ==> is_word_char(#[trigger] p[i]) || p[i] == '.'
    &&& forall|i: int| 0 <= i < p.len() - 1 ==> !(#[trigger] p[i] == '.' && p[i + 1] == '.')
}

/// Replacing a pattern whose first character does not occur changes nothing.
proof fn lemma_replace_absent(s: Seq<char>, pat: Seq<char>, rep: Seq<char>)
    requires
        pat.len() > 0,
        forall|i: int| 0 <= i < s.len() ==> #[trigger] s[i] != pat[0],
    ensures
        replace_all(s, pat, rep) == s,
    decreases s.len(),
{
    if s.len() > 0 {
        if pat.len() <= s.len() {
            assert(s.subrange(0, pat.len() as int)[0] != pat[0]);
        }
        assert(!has_prefix(s, pat));
        let rest = s.subrange(1, s.len() as int);
        assert forall|i: int| 0 <= i < rest.len() implies #[trigger] rest[i] != pat[0] by {
            assert(rest[i] == s[i + 1]);
        }
        lemma_replace_absent(rest, pat, rep);
        assert(seq![s[0]] + rest =~= s);
    }
}

/// Replacing a pattern that does not occur changes nothing.
proof fn lemma_replace_no_occurrence(s: Seq<char>, pat: Seq<char>, rep: Seq<char>)
    requires
        pat.len() > 0,
        forall|i: int| !occurs_at(s, pat, i),
    ensures
        replace_all(s, pat, rep) == s,
    decreases s.len(),
{
    if s.len() > 0 {
        assert(!occurs_at(s, pat, 0));
        let rest = s.subrange(1, s.len() as int);
        assert forall|i: int| !occurs_at(rest, pat, i) by {
            if 0 <= i && i + pat.len() <= rest.len() {
                assert(rest.subrange(i, i + pat.len()) =~= s.subrange(i + 1, i + 1 + pat.len()));
                assert(!occurs_at(s, pat, i + 1));
            }
        }
        lemma_replace_no_occurrence(rest, pat, rep);
        assert(seq![s[0]] + rest =~= s);
    }
}

/// The shape of a plain name with its dots escaped: word characters, dots and
/// backslashes, every backslash followed by a dot and never by a second backslash two
/// places on.
proof fn lemma_escaped_shape(p: Seq<char>)
    requires
        is_plain_name(p),
    ensures
        ({
            let e = replace_all(p, "."@, "\\."@);
            &&& forall|i: int|
                0 <= i < e.len() ==> is_word_char(#[trigger] e[i]) || e[i] == '.' || e[i] == '\\'
            &&& forall|i: int| 0 <= i < e.len() && #[trigger] e[i] == '\\' ==> i + 1 < e.len() && e[i + 1] == '.'
            &&& forall|i: int| 0 <= i < e.len() - 2 && #[trigger] e[i] == '\\' ==> e[i + 2] != '\\'
            &&& p.len() > 0 && p[0] != '.' ==> e.len() > 0 && e[0] == p[0]
            &&& p.len() == 0 ==> e.len() == 0
        }),
    decreases p.len(),
{
    reveal_strlit(".");
    reveal_strlit("\\.");
    let dot = "."@;
    let esc = "\\."@;
    assert(dot == seq!['.']);
    assert(esc == seq!['\\', '.']);
    if p.len() > 0 {
        let rest = p.subrange(1, p.len() as int);
        assert forall|i: int| 0 <= i < rest.len() implies is_word_char(#[trigger] rest[i]) || rest[i] == '.' by {
            assert(rest[i] == p[i + 1]);
        }
        assert forall|i: int| 0 <= i < rest.len() - 1 implies !(#[trigger] rest[i] == '.' && rest[i + 1] == '.') by {
            assert(rest[i] == p[i + 1]);
            assert(rest[i + 1] == p[i + 2]);
        }
        lemma_escaped_shape(rest);
        let er = replace_all(rest, dot, esc);
        let e = replace_all(p, dot, esc);
        assert(has_prefix(p, dot) == (p[0] == '.')) by {
            assert(p.subrange(0, 1)[0] == p[0]);
            if p[0] == '.' {
                assert(p.subrange(0, 1) =~= dot);
            }
        }
        if p[0] == '.' {
            assert(e == esc + er);
            if rest.len() > 0 {
                assert(rest[0] == p[1]);
                assert(p[1] != '.');
                assert(er[0] == rest[0]);
            }
            assert forall|i: int| 0 <= i < e.len() - 2 && #[trigger] e[i] == '\\' implies e[i + 2] != '\\' by {
                if i >= 2 {
                    assert(e[i] == er[i - 2]);
                    assert(e[i + 2] == er[i]);
                } else {
                    assert(i == 0);
                    assert(e[2] == er[0]);
                }
            }
            assert forall|i: int| 0 <= i < e.len() && #[trigger] e[i] == '\\' implies i + 1 < e.len() && e[i + 1] == '.' by {
                if i >= 2 {
                    assert(e[i] == er[i - 2]);
                    assert(e[i + 1] == er[i - 1]);
                }
            }
            assert forall|i: int| 0 <= i < e.len() implies is_word_char(#[trigger] e[i]) || e[i] == '.' || e[i] == '\\' by {
                if i >= 2 {
                    assert(e[i] == er[i - 2]);
                }
            }
        } else {
            assert(e == seq![p[0]] + er);
            assert(p[0] != '\\');
            assert forall|i: int| 0 <= i < e.len() - 2 && #[trigger] e[i] == '\\' implies e[i + 2] != '\\' by {
                assert(i >= 1);
                assert(e[i] == er[i - 1]);
                assert(e[i + 2] == er[i + 1]);
            }
            assert forall|i: int| 0 <= i < e.len() && #[trigger] e[i] == '\\' implies i + 1 < e.len() && e[i + 1] == '.' by {
                assert(i >= 1);
                assert(e[i] == er[i - 1]);
                assert(e[i + 1] == er[i]);
            }
            assert forall|i: int| 0 <= i < e.len() implies is_word_char(#[trigger] e[i]) || e[i] == '.' || e[i] == '\\' by {
                if i >= 1 {
                    assert(e[i] == er[i - 1]);
                }
            }
        }
    }
}

/// A package name without wildcards translates to itself, with its dots escaped, between
/// anchors: the expression matches that name literally.
pub proof fn lemma_plain_pattern_is_literal(p: Seq<char>)
    requires
        is_plain_name(p),
    ensures
        regex_of(p) == "^"@ + replace_all(p, "."@, "\\."@) + "$"@,
{
    reveal_strlit("(**)");
    reveal_strlit("*");
    reveal_strlit("#%#%#");
    reveal_strlit("\\.\\.");
    assert("(**)"@[0] == '(');
    assert("*"@[0] == '*');
    assert("#%#%#"@[0] == '#');
    lemma_replace_absent(p, "(**)"@, "#%#%#"@);
    lemma_replace_absent(p, "*"@, "\\w+"@);
    lemma_escaped_shape(p);
    let e = replace_all(p, "."@, "\\."@);
    lemma_replace_absent(e, "#%#%#"@, "(\\w+(?:\\.\\w+)*)"@);
    let dd = "\\.\\."@;
    assert(dd == seq!['\\', '.', '\\', '.']);
    assert forall|i: int| !occurs_at(e, dd, i) by {
        if occurs_at(e, dd, i) {
            assert(e.subrange(i, i + 4)[0] == e[i]);
            assert(e.subrange(i, i + 4)[2] == e[i + 2]);
            assert(e[i] == '\\');
        }
    }
    lemma_replace_no_occurrence(e, dd, "(?:(?:^\\w*)?\\.(?:\\w+\\.)*(?:\\w*$)?)?"@);
}

} // verus!
