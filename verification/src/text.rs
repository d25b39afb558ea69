//! Character and string utilities shared by the matcher, the command
//! builders and the registry: conversion between `&str` and `Vec<char>`,
//! splitting on a separator, joining with a separator, copying string
//! lists, and decimal formatting of small numbers.

use vstd::prelude::*;

verus! {

/// The characters of `s`, in order.
pub fn to_chars(s: &str) -> (v: Vec<char>)
    ensures
        v@ == s@,
{
    let n = s.unicode_len();
    let mut v: Vec<char> = Vec::new();
    let mut i: usize = 0;
    while i < n
        invariant
            i <= n,
            n == s@.len(),
            v@ == s@.take(i as int),
        decreases n - i,
    {
        v.push(s.get_char(i));
        proof {
            assert(v@ =~= s@.take(i + 1));
        }
        i = i + 1;
    }
    proof {
        assert(s@.take(n as int) =~= s@);
    }
    v
}

/// Relies on `String: FromIterator<char>` from std: collecting characters
/// yields the string made of exactly those characters, in order.
#[verifier::external_body]
pub fn chars_to_string(v: &Vec<char>) -> (s: String)
    ensures
        s@ == v@,
{
    v.iter().collect()
}

/// A fresh copy of a list of strings, element for element.
pub fn clone_strings(v: &Vec<String>) -> (r: Vec<String>)
    ensures
        r.deep_view() == v.deep_view(),
        r@.len() == v@.len(),
{
    let mut r: Vec<String> = Vec::new();
    let mut i: usize = 0;
    while i < v.len()
        invariant
            i <= v@.len(),
            r.deep_view() == v.deep_view().take(i as int),
            r@.len() == i,
        decreases v@.len() - i,
    {
        r.push(v[i].clone());
        proof {
            assert(r.deep_view() =~= v.deep_view().take(i + 1));
        }
        i = i + 1;
    }
    proof {
        assert(v.deep_view().take(v@.len() as int) =~= v.deep_view());
    }
    r
}

/// `s` split on every occurrence of `c`: the segments between separators,
/// in order. A string without `c` is one segment; each separator adds one,
/// so consecutive separators yield empty segments.
pub open spec fn spec_split(s: Seq<char>, c: char) -> Seq<Seq<char>>
    decreases s.len(),
{
    if s.len() == 0 {
        seq![Seq::<char>::empty()]
    } else if s[0] == c {
        seq![Seq::<char>::empty()] + spec_split(s.drop_first(), c)
    } else {
        let rest = spec_split(s.drop_first(), c);
        seq![seq![s[0]] + rest[0]] + rest.drop_first()
    }
}

pub proof fn lemma_split_nonempty(s: Seq<char>, c: char)
    ensures
        spec_split(s, c).len() >= 1,
    decreases s.len(),
{
    if s.len() != 0 {
        lemma_split_nonempty(s.drop_first(), c);
    }
}

/// The first segment of a split, extended at the front by `x`.
pub open spec fn prepend_first(x: Seq<char>, parts: Seq<Seq<char>>) -> Seq<Seq<char>> {
    seq![x + parts[0]] + parts.drop_first()
}

/// `s` split on `c`, as concrete vectors.
pub fn split_chars(s: &Vec<char>, c: char) -> (parts: Vec<Vec<char>>)
    ensures
        parts.deep_view() == spec_split(s@, c),
{
    let ghost whole: Seq<Seq<char>> = spec_split(s@, c);
    let mut parts: Vec<Vec<char>> = Vec::new();
    let mut cur: Vec<char> = Vec::new();
    let mut i: usize = 0;
    proof {
        lemma_split_nonempty(s@, c);
        assert(s@.skip(0) =~= s@);
        assert(prepend_first(cur@, spec_split(s@.skip(0), c)) =~= whole);
        assert(parts.deep_view() =~~= Seq::<Seq<char>>::empty());
    }
    while i < s.len()
        invariant
            i <= s@.len(),
            whole == spec_split(s@, c),
            whole =~= parts.deep_view() + prepend_first(cur@, spec_split(s@.skip(i as int), c)),
        decreases s@.len() - i,
    {
        let ghost before_parts = parts.deep_view();
        let ghost before_cur = cur@;
        let ghost rest = s@.skip(i as int);
        proof {
            assert(rest.len() > 0);
            assert(rest[0] == s@[i as int]);
            assert(rest.drop_first() =~= s@.skip(i + 1));
            lemma_split_nonempty(s@.skip(i + 1), c);
        }
        let x = s[i];
        if x == c {
            parts.push(cur);
            cur = Vec::new();
            proof {
                assert(spec_split(rest, c) =~= seq![Seq::<char>::empty()] + spec_split(
                    s@.skip(i + 1),
                    c,
                ));
                assert(parts.deep_view() =~~= before_parts.push(before_cur));
                assert(prepend_first(before_cur, spec_split(rest, c)) =~= seq![before_cur]
                    + spec_split(s@.skip(i + 1), c));
                assert(prepend_first(cur@, spec_split(s@.skip(i + 1), c)) =~= seq![Seq::<
                    char,
                >::empty() + spec_split(s@.skip(i + 1), c)[0]] + spec_split(
                    s@.skip(i + 1),
                    c,
                ).drop_first());
                assert(Seq::<char>::empty() + spec_split(s@.skip(i + 1), c)[0] =~= spec_split(
                    s@.skip(i + 1),
                    c,
                )[0]);
                assert(seq![spec_split(s@.skip(i + 1), c)[0]] + spec_split(
                    s@.skip(i + 1),
                    c,
                ).drop_first() =~= spec_split(s@.skip(i + 1), c));
                assert(whole =~= parts.deep_view() + prepend_first(
                    cur@,
                    spec_split(s@.skip(i + 1), c),
                ));
            }
        } else {
            cur.push(x);
            proof {
                let r1 = spec_split(s@.skip(i + 1), c);
                assert(spec_split(rest, c) =~= seq![seq![x] + r1[0]] + r1.drop_first());
                assert(prepend_first(before_cur, spec_split(rest, c)) =~= seq![before_cur
                    + (seq![x] + r1[0])] + r1.drop_first());
                assert(cur@ =~= before_cur.push(x));
                assert(before_cur + (seq![x] + r1[0]) =~= cur@ + r1[0]);
                assert(prepend_first(cur@, r1) =~= seq![cur@ + r1[0]] + r1.drop_first());
                assert(whole =~= parts.deep_view() + prepend_first(
                    cur@,
                    spec_split(s@.skip(i + 1), c),
                ));
            }
        }
        i = i + 1;
    }
    let ghost before_parts = parts.deep_view();
    parts.push(cur);
    proof {
        assert(s@.skip(s@.len() as int) =~= Seq::<char>::empty());
        assert(spec_split(Seq::<char>::empty(), c) =~= seq![Seq::<char>::empty()]);
        assert(prepend_first(cur@, seq![Seq::<char>::empty()]) =~= seq![cur@]);
        assert(parts.deep_view() =~~= before_parts.push(cur@));
        assert(parts.deep_view() =~~= whole);
    }
    parts
}

/// The segments of `parts` concatenated with `sep` between neighbours.
pub open spec fn spec_join(parts: Seq<Seq<char>>, sep: Seq<char>) -> Seq<char>
    decreases parts.len(),
{
    if parts.len() == 0 {
        Seq::empty()
    } else if parts.len() == 1 {
        parts[0]
    } else {
        parts[0] + sep + spec_join(parts.drop_first(), sep)
    }
}

pub proof fn lemma_join_push(parts: Seq<Seq<char>>, sep: Seq<char>, x: Seq<char>)
    ensures
        parts.len() == 0 ==> spec_join(parts.push(x), sep) == x,
        parts.len() > 0 ==> spec_join(parts.push(x), sep) =~= spec_join(parts, sep) + sep + x,
    decreases parts.len(),
{
    if parts.len() == 0 {
        assert(parts.push(x)[0] =~= x);
    } else if parts.len() == 1 {
        assert(parts.push(x).drop_first() =~= seq![x]);
        assert(spec_join(seq![x], sep) == seq![x][0]);
        assert(seq![x][0] == x);
        assert(parts.push(x)[0] == parts[0]);
        assert(spec_join(parts.push(x), sep) =~= parts[0] + sep + x);
    } else {
        lemma_join_push(parts.drop_first(), sep, x);
        assert(parts.push(x).drop_first() =~= parts.drop_first().push(x));
        assert(spec_join(parts.push(x), sep) =~= parts.push(x)[0] + sep + spec_join(
            parts.drop_first().push(x),
            sep,
        ));
    }
}

/// The strings of `v` joined with `sep` between neighbours.
pub fn join_strings(v: &Vec<String>, sep: &str) -> (r: String)
    ensures
        r@ == spec_join(v.deep_view(), sep@),
{
    let mut r = String::new();
    let mut i: usize = 0;
    while i < v.len()
        invariant
            i <= v@.len(),
            r@ == spec_join(v.deep_view().take(i as int), sep@),
        decreases v@.len() - i,
    {
        if i > 0 {
            r.append(sep);
        }
        r.append(v[i].as_str());
        proof {
            let dv = v.deep_view();
            assert(dv.take(i + 1) =~= dv.take(i as int).push(dv[i as int]));
            lemma_join_push(dv.take(i as int), sep@, dv[i as int]);
        }
        i = i + 1;
    }
    proof {
        assert(v.deep_view().take(v@.len() as int) =~= v.deep_view());
    }
    r
}

/// The decimal digit character for `d` (recommended `d < 10`).
pub open spec fn dec_digit(d: nat) -> char {
    ((48 + (d % 10)) as u8) as char
}

/// The decimal notation of `n`, without sign or leading zeros.
pub open spec fn spec_dec(n: nat) -> Seq<char>
    decreases n,
{
    if n < 10 {
        seq![dec_digit(n)]
    } else {
        spec_dec(n / 10) + seq![dec_digit(n % 10)]
    }
}

/// Appends the decimal notation of `n` to `v`.
pub fn push_dec_u64(v: &mut Vec<char>, n: u64)
    ensures
        final(v)@ == old(v)@ + spec_dec(n as nat),
    decreases n,
{
    let ghost base = v@;
    if n < 10 {
        v.push((48 + n as u8) as char);
        proof {
            assert(v@ =~= base + spec_dec(n as nat));
        }
    } else {
        push_dec_u64(v, n / 10);
        v.push((48 + (n % 10) as u8) as char);
        proof {
            assert(dec_digit((n as nat) % 10) == (48 + (n % 10) as u8) as char);
            assert(spec_dec(n as nat) == spec_dec((n as nat) / 10) + seq![dec_digit(
                (n as nat) % 10,
            )]);
            assert(v@ =~= base + spec_dec(n as nat));
        }
    }
}

} // verus!
