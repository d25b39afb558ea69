//! Wildcard matching of adapter names against task patterns.
//!
//! A pattern without `*` matches only the identical name. A pattern with
//! `*` is split on `*` into segments: the first segment must begin the
//! name, the last must end it, and every interior segment must be found in
//! order, each at the earliest position at or after the end of the previous
//! match. Matching is case-sensitive; no other wildcard syntax exists.

use vstd::prelude::*;
use crate::text::{spec_split, split_chars, to_chars};

verus! {

/// `p` begins `s`.
pub open spec fn is_prefix(p: Seq<char>, s: Seq<char>) -> bool {
    p.len() <= s.len() && s.take(p.len() as int) == p
}

/// `p` ends `s`.
pub open spec fn is_suffix(p: Seq<char>, s: Seq<char>) -> bool {
    p.len() <= s.len() && s.skip(s.len() - p.len()) == p
}

/// The earliest position at or after `pos` where `seg` occurs in `name`,
/// if any.
pub open spec fn spec_find_from(name: Seq<char>, seg: Seq<char>, pos: int) -> Option<int>
    decreases name.len() + 1 - pos,
{
    if pos < 0 || pos + seg.len() > name.len() {
        None
    } else if name.subrange(pos, pos + seg.len() as int) == seg {
        Some(pos)
    } else {
        spec_find_from(name, seg, pos + 1)
    }
}

/// The interior segments `parts[i..parts.len() - 1]` occur in `name` in
/// order, each found at the earliest position at or after the cursor left
/// by the previous one.
pub open spec fn spec_interior_ok(name: Seq<char>, parts: Seq<Seq<char>>, i: int, pos: int) -> bool
    decreases parts.len() - i,
{
    if i >= parts.len() - 1 {
        true
    } else {
        match spec_find_from(name, parts[i], pos) {
            Some(p) => spec_interior_ok(name, parts, i + 1, p + parts[i].len()),
            None => false,
        }
    }
}

/// `name` matches the segments of a starred pattern: first segment a
/// prefix, last a suffix, interior segments found in order.
pub open spec fn spec_wild_match(name: Seq<char>, parts: Seq<Seq<char>>) -> bool {
    &&& is_prefix(parts[0], name)
    &&& is_suffix(parts[parts.len() - 1], name)
    &&& spec_interior_ok(name, parts, 1, parts[0].len() as int)
}

/// `name` matches `pattern`: equality when the pattern has no `*`,
/// segment matching otherwise.
pub open spec fn spec_matches(name: Seq<char>, pattern: Seq<char>) -> bool {
    if pattern.contains('*') {
        spec_wild_match(name, spec_split(pattern, '*'))
    } else {
        name == pattern
    }
}

/// Every name matches the pattern `"*"`.
pub proof fn lemma_matches_star(name: Seq<char>)
    ensures
        spec_matches(name, seq!['*']),
{
    let pattern = seq!['*'];
    assert(pattern[0] == '*');
    assert(pattern.contains('*'));
    let parts = spec_split(pattern, '*');
    assert(pattern.drop_first() =~= Seq::<char>::empty());
    assert(spec_split(Seq::<char>::empty(), '*') == seq![Seq::<char>::empty()]);
    assert(parts =~= seq![Seq::<char>::empty(), Seq::<char>::empty()]);
    assert(name.take(0) =~= Seq::<char>::empty());
    assert(name.skip(name.len() as int) =~= Seq::<char>::empty());
    assert(is_prefix(parts[0], name));
    assert(is_suffix(parts[1], name));
    assert(spec_interior_ok(name, parts, 1, 0));
}

/// A pattern without `*` matches exactly the identical name.
pub proof fn lemma_matches_no_star(name: Seq<char>, pattern: Seq<char>)
    requires
        !pattern.contains('*'),
    ensures
        spec_matches(name, pattern) == (name == pattern),
{
}

/// A found position lies at or after the start of the search and leaves
/// room for the segment, which occurs there.
proof fn lemma_find_from_range(name: Seq<char>, seg: Seq<char>, pos: int)
    ensures
        match spec_find_from(name, seg, pos) {
            Some(p) => pos <= p && p + seg.len() <= name.len() && name.subrange(
                p,
                p + seg.len() as int,
            ) == seg,
            None => true,
        },
    decreases name.len() + 1 - pos,
{
    if pos < 0 || pos + seg.len() > name.len() {
    } else if name.subrange(pos, pos + seg.len() as int) == seg {
    } else {
        lemma_find_from_range(name, seg, pos + 1);
    }
}

/// Whether the characters of `a` and `b` are the same, in the same order.
fn eq_chars(a: &Vec<char>, b: &Vec<char>) -> (r: bool)
    ensures
        r == (a@ == b@),
{
    if a.len() != b.len() {
        return false;
    }
    let mut i: usize = 0;
    while i < a.len()
        invariant
            i <= a@.len(),
            a@.len() == b@.len(),
            a@.take(i as int) == b@.take(i as int),
        decreases a@.len() - i,
    {
        if a[i] != b[i] {
            return false;
        }
        proof {
            assert(a@.take(i + 1) =~= a@.take(i as int).push(a@[i as int]));
            assert(b@.take(i + 1) =~= b@.take(i as int).push(b@[i as int]));
        }
        i = i + 1;
    }
    proof {
        assert(a@.take(a@.len() as int) =~= a@);
        assert(b@.take(b@.len() as int) =~= b@);
    }
    true
}

/// Whether `seg` occurs in `name` at position `pos`.
fn occurs_at(name: &Vec<char>, seg: &Vec<char>, pos: usize) -> (r: bool)
    requires
        pos + seg@.len() <= name@.len(),
    ensures
        r == (name@.subrange(pos as int, pos + seg@.len()) == seg@),
{
    let mut i: usize = 0;
    let _nl = name.len();
    proof {
        assert(name@.len() <= usize::MAX);
    }
    while i < seg.len()
        invariant
            i <= seg@.len(),
            pos + seg@.len() <= name@.len(),
            name@.len() <= usize::MAX,
            name@.subrange(pos as int, pos + i) == seg@.take(i as int),
        decreases seg@.len() - i,
    {
        if name[pos + i] != seg[i] {
            proof {
                assert(name@.subrange(pos as int, pos + seg@.len())[i as int] == name@[pos + i]);
            }
            return false;
        }
        proof {
            assert(name@.subrange(pos as int, pos + (i + 1)) =~= name@.subrange(
                pos as int,
                pos + i,
            ).push(name@[pos + i]));
            assert(seg@.take(i + 1) =~= seg@.take(i as int).push(seg@[i as int]));
        }
        i = i + 1;
    }
    proof {
        assert(seg@.take(seg@.len() as int) =~= seg@);
    }
    true
}

/// The earliest position at or after `pos` where `seg` occurs in `name`.
fn find_from(name: &Vec<char>, seg: &Vec<char>, pos: usize) -> (r: Option<usize>)
    ensures
        match r {
            Some(p) => spec_find_from(name@, seg@, pos as int) == Some(p as int),
            None => spec_find_from(name@, seg@, pos as int) is None,
        },
{
    if seg.len() > name.len() {
        return None;
    }
    if seg.len() == 0 {
        if pos <= name.len() {
            proof {
                assert(name@.subrange(pos as int, pos as int) =~= seg@);
            }
            return Some(pos);
        } else {
            return None;
        }
    }
    let mut j: usize = pos;
    while j <= name.len() - seg.len()
        invariant
            pos <= j,
            1 <= seg@.len() <= name@.len(),
            name@.len() <= usize::MAX,
            spec_find_from(name@, seg@, pos as int) == spec_find_from(name@, seg@, j as int),
        decreases name@.len() + 1 - j,
    {
        if occurs_at(name, seg, j) {
            return Some(j);
        }
        j = j + 1;
    }
    None
}

/// Whether `name` matches `pattern` under the wildcard rules: a pattern
/// without `*` only equals, one with `*` is matched segment by segment.
pub fn matches_pattern(name: &str, pattern: &str) -> (r: bool)
    ensures
        r == spec_matches(name@, pattern@),
{
    let n = to_chars(name);
    let p = to_chars(pattern);
    let mut has_star = false;
    let mut k: usize = 0;
    while k < p.len()
        invariant
            k <= p@.len(),
            has_star == p@.take(k as int).contains('*'),
        decreases p@.len() - k,
    {
        if p[k] == '*' {
            has_star = true;
            proof {
                assert(p@.take(k + 1)[k as int] == '*');
            }
        }
        proof {
            assert(p@.take(k + 1) =~= p@.take(k as int).push(p@[k as int]));
            if p@.take(k as int).contains('*') {
                let w = choose|w: int| 0 <= w < k && p@.take(k as int)[w] == '*';
                assert(p@.take(k + 1)[w] == '*');
            }
        }
        k = k + 1;
    }
    proof {
        assert(p@.take(p@.len() as int) =~= p@);
    }
    if !has_star {
        return eq_chars(&n, &p);
    }
    let parts = split_chars(&p, '*');
    let ghost dv = parts.deep_view();
    proof {
        crate::text::lemma_split_nonempty(p@, '*');
        assert(dv.len() == parts@.len());
        assert forall|t: int| 0 <= t < dv.len() implies dv[t] == parts@[t]@ by {
            assert(dv[t] =~= parts@[t]@);
        }
    }
    let first = &parts[0];
    if first.len() > n.len() {
        proof {
            assert(!is_prefix(dv[0], n@));
        }
        return false;
    }
    if !occurs_at(&n, first, 0) {
        proof {
            assert(n@.subrange(0, dv[0].len() as int) =~= n@.take(dv[0].len() as int));
        }
        return false;
    }
    proof {
        assert(n@.subrange(0, dv[0].len() as int) =~= n@.take(dv[0].len() as int));
        assert(is_prefix(dv[0], n@));
    }
    let last = &parts[parts.len() - 1];
    if last.len() > n.len() {
        proof {
            assert(!is_suffix(dv[dv.len() - 1], n@));
        }
        return false;
    }
    let tail_start = n.len() - last.len();
    if !occurs_at(&n, last, tail_start) {
        proof {
            assert(n@.subrange(tail_start as int, tail_start + dv[dv.len() - 1].len())
                =~= n@.skip(n@.len() - dv[dv.len() - 1].len()));
        }
        return false;
    }
    proof {
        assert(n@.subrange(tail_start as int, tail_start + dv[dv.len() - 1].len()) =~= n@.skip(
            n@.len() - dv[dv.len() - 1].len(),
        ));
        assert(is_suffix(dv[dv.len() - 1], n@));
    }
    let mut i: usize = 1;
    let mut pos: usize = first.len();
    while i < parts.len() - 1
        invariant
            1 <= i <= parts@.len(),
            dv == parts.deep_view(),
            dv.len() == parts@.len(),
            1 <= dv.len(),
            n@.len() <= usize::MAX,
            forall|t: int| 0 <= t < dv.len() ==> dv[t] == parts@[t]@,
            n@ == name@,
            p@ == pattern@,
            pattern@.contains('*'),
            dv == spec_split(pattern@, '*'),
            spec_interior_ok(n@, dv, 1, dv[0].len() as int) == spec_interior_ok(
                n@,
                dv,
                i as int,
                pos as int,
            ),
        decreases parts@.len() - i,
    {
        let seg = &parts[i];
        match find_from(&n, seg, pos) {
            Some(q) => {
                proof {
                    assert(spec_find_from(n@, dv[i as int], pos as int) == Some(q as int));
                    lemma_find_from_range(n@, dv[i as int], pos as int);
                    assert(q + dv[i as int].len() <= n@.len());
                }
                pos = q + seg.len();
                i = i + 1;
            },
            None => {
                proof {
                    assert(!spec_interior_ok(n@, dv, i as int, pos as int));
                }
                return false;
            },
        }
    }
    proof {
        assert(i as int >= dv.len() - 1);
        assert(spec_interior_ok(n@, dv, i as int, pos as int));
        assert(spec_wild_match(n@, dv));
    }
    true
}

} // verus!
