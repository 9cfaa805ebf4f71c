//! String literals of the rule language: quote markers and backslash escapes.
use crate::text::{chars_of, string_from_chars};
use vstd::prelude::*;

verus! {

pub open spec fn is_quote(c: char) -> bool {
    c == '"' || c == '\'' || c == '`'
}

/// Removes the two quote markers that delimit a string literal.
pub fn replace_string_markers(input: &str) -> (r: String)
    requires
        input@.len() >= 2,
        is_quote(input@[0]),
        input@[input@.len() - 1] == input@[0],
    ensures
        r@ == input@.subrange(1, input@.len() - 1),
{
    let s = chars_of(input);
    let mut out: Vec<char> = Vec::new();
    let mut i: usize = 1;
    while i < s.len() - 1
        invariant
            1 <= i <= s.len() - 1,
            s@ == input@,
            s@.len() >= 2,
            out@ == s@.subrange(1, i as int),
        decreases s.len() - i,
    {
        out.push(s[i]);
        i = i + 1;
        proof {
            assert(out@ =~= s@.subrange(1, i as int));
        }
    }
    string_from_chars(&out)
}

pub open spec fn is_hex(c: char) -> bool {
    ('0' <= c && c <= '9') || ('a' <= c && c <= 'f') || ('A' <= c && c <= 'F')
}

pub open spec fn hex_val(c: char) -> nat {
    if '0' <= c && c <= '9' {
        (c as nat - '0' as nat) as nat
    } else if 'a' <= c && c <= 'f' {
        (c as nat - 'a' as nat + 10) as nat
    } else {
        (c as nat - 'A' as nat + 10) as nat
    }
}

pub open spec fn all_hex(s: Seq<char>) -> bool {
    forall|i: int| 0 <= i < s.len() ==> is_hex(#[trigger] s[i])
}

/// The value of a sequence of hexadecimal digits.
pub open spec fn hex_value(s: Seq<char>) -> nat
    decreases s.len(),
{
    if s.len() == 0 {
        0
    } else {
        hex_value(s.drop_last()) * 16 + hex_val(s.last())
    }
}

/// A Unicode scalar value.
pub open spec fn is_scalar(v: nat) -> bool {
    v <= 0x10FFFF && !(0xD800 <= v && v <= 0xDFFF)
}

/// The character of a one-character escape (`\n`, `\"`, ...).
pub open spec fn simple_escape(c: char) -> Option<char> {
    if c == '"' {
        Some('"')
    } else if c == '\\' {
        Some('\\')
    } else if c == 'r' {
        Some('\r')
    } else if c == 'n' {
        Some('\n')
    } else if c == 't' {
        Some('\t')
    } else if c == '0' {
        Some('\0')
    } else if c == '\'' {
        Some('\'')
    } else {
        None
    }
}

/// The position of the first `}` at or after `i`, or `s.len()` when there is none.
pub open spec fn find_close(s: Seq<char>, i: int) -> int
    decreases s.len() - i,
{
    if i >= s.len() {
        s.len() as int
    } else if s[i] == '}' {
        i
    } else {
        find_close(s, i + 1)
    }
}

/// The character with the given scalar value.
pub open spec fn char_of_scalar(v: nat) -> char {
    (v as u32) as char
}

/// The escape that starts at `s[i]` (a backslash): the character it stands for and the
/// position just after it, or `None` when it is malformed.
pub open spec fn escape_at(s: Seq<char>, i: int) -> Option<(char, int)> {
    if i + 2 > s.len() {
        None
    } else if simple_escape(s[i + 1]) is Some {
        Some((simple_escape(s[i + 1])->Some_0, i + 2))
    } else if s[i + 1] == 'x' {
        if i + 4 <= s.len() && is_hex(s[i + 2]) && is_hex(s[i + 3]) {
            Some(((hex_value(s.subrange(i + 2, i + 4)) as u8) as char, i + 4))
        } else {
            None
        }
    } else if s[i + 1] == 'u' {
        if i + 3 <= s.len() && s[i + 2] == '{' {
            let close = find_close(s, i + 3);
            let digits = s.subrange(i + 3, close);
            if close < s.len() && 2 <= digits.len() <= 6 && all_hex(digits) && is_scalar(
                hex_value(digits),
            ) {
                Some((char_of_scalar(hex_value(digits)), close + 1))
            } else {
                None
            }
        } else {
            None
        }
    } else {
        None
    }
}

/// Puts `c` in front of a text that may be missing.
pub open spec fn prepend(c: char, o: Option<Seq<char>>) -> Option<Seq<char>> {
    match o {
        Some(r) => Some(seq![c] + r),
        None => None,
    }
}

/// The text that `s` from position `i` on stands for, or `None` when an escape there is
/// malformed.
pub open spec fn unescaped_from(s: Seq<char>, i: int) -> Option<Seq<char>>
    decreases s.len() - i,
{
    if i < 0 || i >= s.len() {
        Some(Seq::empty())
    } else if s[i] != '\\' {
        prepend(s[i], unescaped_from(s, i + 1))
    } else {
        match escape_at(s, i) {
            Some((c, next)) => if i < next {
                prepend(c, unescaped_from(s, next))
            } else {
                None
            },
            None => None,
        }
    }
}

/// The text a literal's body stands for, or `None` when an escape is malformed.
pub open spec fn unescaped(s: Seq<char>) -> Option<Seq<char>> {
    unescaped_from(s, 0)
}

/// Relies on `char::from_u32`: `Some` exactly for Unicode scalar values, holding the
/// character with that value.
#[verifier::external_body]
fn char_from_u32(v: u32) -> (r: Option<char>)
    ensures
        r is Some <==> is_scalar(v as nat),
        r matches Some(c) ==> c as u32 == v,
{
    char::from_u32(v)
}

pub open spec fn pow16(n: nat) -> nat
    decreases n,
{
    if n == 0 {
        1
    } else {
        16 * pow16((n - 1) as nat)
    }
}

proof fn lemma_pow16_bound(k: nat)
    requires
        k <= 5,
    ensures
        pow16(k) <= 1048576,
{
    reveal_with_fuel(pow16, 6);
    assert(pow16(5) == 1048576);
    if k < 5 {
        assert(pow16(k) <= pow16(4));
    }
}

fn hex_digit(c: char) -> (r: Option<u32>)
    ensures
        r is Some <==> is_hex(c),
        r matches Some(v) ==> v as nat == hex_val(c) && v < 16,
{
    if '0' <= c && c <= '9' {
        Some((c as u32) - ('0' as u32))
    } else if 'a' <= c && c <= 'f' {
        Some((c as u32) - ('a' as u32) + 10)
    } else if 'A' <= c && c <= 'F' {
        Some((c as u32) - ('A' as u32) + 10)
    } else {
        None
    }
}

fn simple_escape_of(c: char) -> (r: Option<char>)
    ensures
        r == simple_escape(c),
{
    match c {
        '"' => Some('"'),
        '\\' => Some('\\'),
        'r' => Some('\r'),
        'n' => Some('\n'),
        't' => Some('\t'),
        '0' => Some('\0'),
        '\'' => Some('\''),
        _ => None,
    }
}

/// The escape starting at `s[i]`.
fn escape_at_exec(s: &Vec<char>, i: usize) -> (r: Option<(char, usize)>)
    requires
        i < s.len(),
    ensures
        r matches Some((c, n)) ==> escape_at(s@, i as int) == Some((c, n as int)) && i < n <= s.len(),
        r is None ==> escape_at(s@, i as int) is None,
{
    if s.len() - i < 2 {
        return None;
    }
    let e = s[i + 1];
    if let Some(c) = simple_escape_of(e) {
        return Some((c, i + 2));
    }
    if e == 'x' {
        if s.len() - i < 4 {
            return None;
        }
        match (hex_digit(s[i + 2]), hex_digit(s[i + 3])) {
            (Some(a), Some(b)) => {
                let v = a * 16 + b;
                proof {
                    let d = s@.subrange(i + 2, i + 4);
                    assert(d.drop_last() =~= s@.subrange(i + 2, i + 3));
                    assert(s@.subrange(i + 2, i + 3).drop_last() =~= Seq::<char>::empty());
                    let d1 = s@.subrange(i + 2, i + 3);
                    assert(d.last() == s@[i + 3]);
                    assert(d1.last() == s@[i + 2]);
                    assert(hex_value(Seq::<char>::empty()) == 0);
                    assert(hex_value(d1) == hex_val(s@[i + 2]));
                    assert(hex_value(d) == v as nat);
                }
                return Some(((v as u8) as char, i + 4));
            },
            _ => {
                return None;
            },
        }
    }
    if e == 'u' {
        if s.len() - i < 3 || s[i + 2] != '{' {
            return None;
        }
        let mut close: usize = i + 3;
        while close < s.len() && s[close] != '}'
            invariant
                i + 3 <= close <= s.len(),
                find_close(s@, (i + 3) as int) == find_close(s@, close as int),
            decreases s.len() - close,
        {
            close = close + 1;
        }
        if close >= s.len() {
            return None;
        }
        let n = close - (i + 3);
        if n < 2 || n > 6 {
            return None;
        }
        let ghost digits = s@.subrange(i + 3, close as int);
        proof {
            assert(find_close(s@, close as int) == close as int);
        }
        let mut v: u32 = 0;
        let mut j: usize = i + 3;
        while j < close
            invariant
                i + 3 <= j <= close < s.len(),
                2 <= close - (i + 3) <= 6,
                find_close(s@, (i + 3) as int) == close as int,
                s@[i + 1] == 'u',
                s@[i + 2] == '{',
                simple_escape(s@[i + 1]) is None,
                digits == s@.subrange(i + 3, close as int),
                all_hex(s@.subrange(i + 3, j as int)),
                v as nat == hex_value(s@.subrange(i + 3, j as int)),
                v < pow16((j - (i + 3)) as nat),
            decreases close - j,
        {
            match hex_digit(s[j]) {
                Some(d) => {
                    let ghost k = (j - (i + 3)) as nat;
                    proof {
                        assert(s@.subrange(i + 3, j + 1).drop_last() =~= s@.subrange(i + 3, j as int));
                        lemma_pow16_bound(k);
                        let p = pow16(k);
                        assert(v * 16 + d < 16 * p) by (nonlinear_arith)
                            requires v < p, d < 16;
                        assert(pow16(k + 1) == 16 * p);
                        assert forall|q: int| 0 <= q < j + 1 - (i + 3) implies is_hex(#[trigger] s@.subrange(i + 3, j + 1)[q]) by {
                            if q < k {
                                assert(s@.subrange(i + 3, j + 1)[q] == s@.subrange(i + 3, j as int)[q]);
                            }
                        }
                    }
                    v = v * 16 + d;
                    j = j + 1;
                },
                None => {
                    proof {
                        assert(digits[j - (i + 3)] == s@[j as int]);
                    }
                    return None;
                },
            }
        }
        match char_from_u32(v) {
            Some(c) => {
                proof {
                    assert(s@.subrange(i + 3, j as int) =~= digits);
                    vstd::utf8::char_u32_cast(c, v);
                }
                return Some((c, close + 1));
            },
            None => {
                return None;
            },
        }
    }
    None
}

/// `p` followed by a text that may be missing.
pub open spec fn prefixed(p: Seq<char>, o: Option<Seq<char>>) -> Option<Seq<char>> {
    match o {
        Some(r) => Some(p + r),
        None => None,
    }
}

/// The view of an optional character vector.
pub open spec fn opt_chars_view(o: Option<Vec<char>>) -> Option<Seq<char>> {
    match o {
        Some(v) => Some(v@),
        None => None,
    }
}

/// The view of an optional string.
pub open spec fn opt_string_view(o: Option<String>) -> Option<Seq<char>> {
    match o {
        Some(v) => Some(v@),
        None => None,
    }
}

/// Resolves the escapes of a literal's body.
pub fn unescape_chars(s: &Vec<char>) -> (r: Option<Vec<char>>)
    ensures
        opt_chars_view(r) == unescaped(s@),
{
    let mut out: Vec<char> = Vec::new();
    let mut i: usize = 0;
    proof {
        assert(Seq::<char>::empty() + Seq::<char>::empty() =~= Seq::<char>::empty());
        match unescaped_from(s@, 0) {
            Some(r) => {
                assert(out@ + r =~= r);
            },
            None => {},
        }
    }
    while i < s.len()
        invariant
            i <= s.len(),
            unescaped(s@) == prefixed(out@, unescaped_from(s@, i as int)),
        decreases s.len() - i,
    {
        let c = s[i];
        if c != '\\' {
            proof {
                match unescaped_from(s@, i + 1) {
                    Some(r) => {
                        assert(out@ + (seq![c] + r) =~= out@.push(c) + r);
                    },
                    None => {},
                }
            }
            out.push(c);
            i = i + 1;
        } else {
            match escape_at_exec(s, i) {
                Some((e, next)) => {
                    proof {
                        match unescaped_from(s@, next as int) {
                            Some(r) => {
                                assert(out@ + (seq![e] + r) =~= out@.push(e) + r);
                            },
                            None => {},
                        }
                    }
                    out.push(e);
                    i = next;
                },
                None => {
                    return None;
                },
            }
        }
    }
    proof {
        assert(out@ + Seq::<char>::empty() =~= out@);
    }
    Some(out)
}

/// Resolves the backslash escapes of a string literal's body; `None` when one is malformed.
pub fn unescape(string: &str) -> (r: Option<String>)
    ensures
        opt_string_view(r) == unescaped(string@),
{
    match unescape_chars(&chars_of(string)) {
        Some(v) => Some(string_from_chars(&v)),
        None => None,
    }
}

} // verus!
