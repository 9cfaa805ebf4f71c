//! Turns paths and Rust `use` paths into dotted package names.
use crate::ast::strings_view;
use crate::text::{chars_of, has_prefix, occurs_at_exec, push_all, string_from_chars};
use vstd::prelude::*;

verus! {

/// The pieces of `s` between the occurrences of a non-empty `sep`, found left to right.
pub open spec fn pieces(s: Seq<char>, sep: Seq<char>) -> Seq<Seq<char>>
    decreases s.len(),
{
    if s.len() == 0 || sep.len() == 0 {
        seq![s]
    } else if has_prefix(s, sep) {
        seq![Seq::<char>::empty()] + pieces(s.subrange(sep.len() as int, s.len() as int), sep)
    } else {
        let p = pieces(s.subrange(1, s.len() as int), sep);
        p.update(0, seq![s[0]] + p[0])
    }
}

proof fn lemma_pieces_nonempty(s: Seq<char>, sep: Seq<char>)
    ensures
        pieces(s, sep).len() >= 1,
    decreases s.len(),
{
    if s.len() > 0 && sep.len() > 0 {
        if has_prefix(s, sep) {
            lemma_pieces_nonempty(s.subrange(sep.len() as int, s.len() as int), sep);
        } else {
            lemma_pieces_nonempty(s.subrange(1, s.len() as int), sep);
        }
    }
}

/// The parts joined with dots.
pub open spec fn join_dots(parts: Seq<Seq<char>>) -> Seq<char>
    decreases parts.len(),
{
    if parts.len() == 0 {
        Seq::empty()
    } else if parts.len() == 1 {
        parts[0]
    } else {
        join_dots(parts.drop_last()) + seq!['.'] + parts.last()
    }
}

/// Joins `parts` with dots.
fn join_with_dots(parts: &Vec<Vec<char>>) -> (r: Vec<char>)
    ensures
        r@ == join_dots(parts@.map_values(|p: Vec<char>| p@)),
{
    let ghost pv = parts@.map_values(|p: Vec<char>| p@);
    let mut out: Vec<char> = Vec::new();
    let mut i: usize = 0;
    while i < parts.len()
        invariant
            i <= parts.len(),
            pv == parts@.map_values(|p: Vec<char>| p@),
            out@ == join_dots(pv.take(i as int)),
        decreases parts.len() - i,
    {
        proof {
            assert(pv.take(i + 1).drop_last() =~= pv.take(i as int));
        }
        if i > 0 {
            out.push('.');
        }
        push_all(&mut out, &parts[i]);
        proof {
            if i == 0 {
                assert(pv.take(1)[0] == pv[0]);
                assert(out@ =~= pv[0]);
            }
        }
        i = i + 1;
    }
    proof {
        assert(pv.take(parts.len() as int) =~= pv);
    }
    out
}

/// Conversions into dotted package names.
pub struct PackageUnify {}

impl PackageUnify {
    /// The components of a path joined with dots.
    pub fn from_path(components: &Vec<String>) -> (r: String)
        requires
            components.len() > 0,
        ensures
            r@ == join_dots(strings_view(components@)),
    {
        let mut parts: Vec<Vec<char>> = Vec::new();
        let mut i: usize = 0;
        while i < components.len()
            invariant
                i <= components.len(),
                parts@.map_values(|p: Vec<char>| p@) == strings_view(components@).take(i as int),
            decreases components.len() - i,
        {
            let ghost prev = parts@;
            let c = chars_of(components[i].as_str());
            parts.push(c);
            proof {
                assert(c@ == strings_view(components@)[i as int]);
                assert(strings_view(components@).take(i + 1) =~= strings_view(components@).take(
                    i as int,
                ).push(c@));
                assert(parts@.map_values(|p: Vec<char>| p@) =~= prev.map_values(|p: Vec<char>| p@).push(c@));
            }
            i = i + 1;
            proof {
                assert(parts@.map_values(|p: Vec<char>| p@) =~= strings_view(components@).take(
                    i as int,
                ));
            }
        }
        proof {
            assert(strings_view(components@).take(components.len() as int) =~= strings_view(
                components@,
            ));
        }
        string_from_chars(&join_with_dots(&parts))
    }

    /// A Rust `use` path (`std::path::PathBuf`) as a dotted package: its `::`-separated
    /// pieces joined with dots, without the last piece when `remove_last` is set.
    pub fn from_rust_import(path: &str, remove_last: bool) -> (r: String)
        requires
            !remove_last || pieces(path@, "::"@).len() >= 2,
        ensures
            r@ == join_dots(
                if remove_last {
                    pieces(path@, "::"@).drop_last()
                } else {
                    pieces(path@, "::"@)
                },
            ),
    {
        proof {
            reveal_strlit("::");
        }
        let s = chars_of(path);
        let sep = chars_of("::");
        let mut done: Vec<Vec<char>> = Vec::new();
        let mut cur: Vec<char> = Vec::new();
        let mut i: usize = 0;
        proof {
            lemma_pieces_nonempty(s@, sep@);
            assert(s@.subrange(0, s.len() as int) =~= s@);
            let p = pieces(s@, sep@);
            assert(p.update(0, Seq::<char>::empty() + p[0]) =~= p);
            assert(Seq::<Seq<char>>::empty() + p =~= p);
        }
        while i < s.len()
            invariant
                i <= s.len(),
                sep@ == "::"@,
                sep@.len() == 2,
                ({
                    let rest = pieces(s@.subrange(i as int, s.len() as int), sep@);
                    &&& rest.len() >= 1
                    &&& pieces(s@, sep@) == done@.map_values(|p: Vec<char>| p@) + rest.update(
                        0,
                        cur@ + rest[0],
                    )
                }),
            decreases s.len() - i,
        {
            let ghost rest_s = s@.subrange(i as int, s.len() as int);
            let ghost dv = done@.map_values(|p: Vec<char>| p@);
            if occurs_at_exec(&s, &sep, i) {
                proof {
                    assert(rest_s.subrange(0, 2) =~= s@.subrange(i as int, i + 2));
                    assert(rest_s.subrange(2, rest_s.len() as int) =~= s@.subrange(
                        i + 2,
                        s.len() as int,
                    ));
                    lemma_pieces_nonempty(s@.subrange(i + 2, s.len() as int), sep@);
                    let next = pieces(s@.subrange(i + 2, s.len() as int), sep@);
                    let rest = pieces(rest_s, sep@);
                    assert(rest == seq![Seq::<char>::empty()] + next);
                    assert(dv + rest.update(0, cur@ + rest[0]) =~= dv.push(cur@) + next.update(
                        0,
                        Seq::<char>::empty() + next[0],
                    ));
                }
                let piece = cur;
                done.push(piece);
                cur = Vec::new();
                i = i + 2;
                proof {
                    assert(done@.map_values(|p: Vec<char>| p@) =~= dv.push(piece@));
                }
            } else {
                proof {
                    if 2 <= rest_s.len() {
                        assert(rest_s.subrange(0, 2) =~= s@.subrange(i as int, i + 2));
                    }
                    assert(rest_s.subrange(1, rest_s.len() as int) =~= s@.subrange(
                        i + 1,
                        s.len() as int,
                    ));
                    lemma_pieces_nonempty(s@.subrange(i + 1, s.len() as int), sep@);
                    let next = pieces(s@.subrange(i + 1, s.len() as int), sep@);
                    let rest = pieces(rest_s, sep@);
                    assert(rest == next.update(0, seq![s@[i as int]] + next[0]));
                    assert(cur@ + (seq![s@[i as int]] + next[0]) =~= cur@.push(s@[i as int]) + next[0]);
                    assert(rest[0] == seq![s@[i as int]] + next[0]);
                    assert(rest.update(0, cur@ + rest[0]) =~= next.update(
                        0,
                        cur@.push(s@[i as int]) + next[0],
                    ));
                }
                cur.push(s[i]);
                i = i + 1;
            }
        }
        let ghost dv = done@.map_values(|p: Vec<char>| p@);
        proof {
            assert(s@.subrange(s.len() as int, s.len() as int) =~= Seq::<char>::empty());
            let rest = pieces(Seq::<char>::empty(), sep@);
            assert(rest == seq![Seq::<char>::empty()]);
            assert(pieces(s@, sep@) =~= dv.push(cur@));
        }
        if !remove_last {
            done.push(cur);
            proof {
                assert(done@.map_values(|p: Vec<char>| p@) =~= pieces(s@, sep@));
            }
        } else {
            proof {
                assert(dv =~= pieces(s@, sep@).drop_last());
            }
        }
        string_from_chars(&join_with_dots(&done))
    }
}

} // verus!
