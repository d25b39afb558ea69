//! Order-insensitive comparison of DNS server lists.
//!
//! Two lists are considered equal when they have the same length and hold
//! the same set of entries, entries taken as exact strings with no address
//! canonicalization. Equal length together with set equality and a
//! duplicate-free right-hand side forces the left-hand side to be
//! duplicate-free as well, so equal lists are permutations of each other.

use vstd::prelude::*;

verus! {

/// `a` and `b` have the same length and the same set of entries, and `b`
/// repeats none. This is what the comparator decides: a list with repeats
/// never equals anything, not even itself.
pub open spec fn spec_dns_equal(a: Seq<Seq<char>>, b: Seq<Seq<char>>) -> bool {
    &&& a.len() == b.len()
    &&& b.no_duplicates()
    &&& a.to_set() == b.to_set()
}

/// Whether `x` occurs in `v`.
fn contains_string(v: &[String], x: &String) -> (r: bool)
    ensures
        r == v.deep_view().contains(x@),
{
    let ghost dv = v.deep_view();
    let mut i: usize = 0;
    while i < v.len()
        invariant
            i <= v@.len(),
            dv == v.deep_view(),
            dv.len() == v@.len(),
            forall|t: int| 0 <= t < i ==> dv[t] != x@,
        decreases v@.len() - i,
    {
        if v[i] == *x {
            proof {
                assert(dv[i as int] == v@[i as int]@);
                assert(dv.contains(x@));
            }
            return true;
        }
        proof {
            assert(dv[i as int] == v@[i as int]@);
        }
        i = i + 1;
    }
    proof {
        if dv.contains(x@) {
            let w = choose|w: int| 0 <= w < dv.len() && dv[w] == x@;
            assert(false);
        }
    }
    false
}

/// Whether `a` and `b` hold the same set of DNS entries: equal length,
/// no repeats in `b`, and each side contained in the other. Order is
/// ignored; entries are compared as exact strings.
pub fn dns_equal(a: &[String], b: &[String]) -> (r: bool)
    ensures
        r == spec_dns_equal(a.deep_view(), b.deep_view()),
{
    let ghost da = a.deep_view();
    let ghost db = b.deep_view();
    if a.len() != b.len() {
        return false;
    }
    let mut i: usize = 0;
    while i < b.len()
        invariant
            i <= b@.len(),
            db == b.deep_view(),
            db.len() == b@.len(),
            forall|s: int, t: int| 0 <= s < t < b@.len() && t < i ==> db[s] != db[t],
        decreases b@.len() - i,
    {
        let mut j: usize = 0;
        while j < i
            invariant
                j <= i < b@.len(),
                db == b.deep_view(),
                db.len() == b@.len(),
                forall|t: int| 0 <= t < j ==> db[t] != db[i as int],
            decreases i - j,
        {
            if b[j] == b[i] {
                proof {
                    assert(db[j as int] == b@[j as int]@);
                    assert(db[i as int] == b@[i as int]@);
                    assert(!db.no_duplicates());
                }
                return false;
            }
            proof {
                assert(db[j as int] == b@[j as int]@);
                assert(db[i as int] == b@[i as int]@);
            }
            j = j + 1;
        }
        i = i + 1;
    }
    assert(db.no_duplicates());
    let mut i: usize = 0;
    while i < a.len()
        invariant
            i <= a@.len(),
            da == a.deep_view(),
            db == b.deep_view(),
            da.len() == a@.len(),
            forall|t: int| 0 <= t < i ==> db.contains(#[trigger] da[t]),
        decreases a@.len() - i,
    {
        if !contains_string(b, &a[i]) {
            proof {
                assert(da[i as int] == a@[i as int]@);
                assert(da.contains(da[i as int]));
                assert(da.to_set().contains(da[i as int]));
                assert(!db.to_set().contains(da[i as int]));
            }
            return false;
        }
        proof {
            assert(da[i as int] == a@[i as int]@);
        }
        i = i + 1;
    }
    let mut i: usize = 0;
    while i < b.len()
        invariant
            i <= b@.len(),
            da == a.deep_view(),
            db == b.deep_view(),
            db.len() == b@.len(),
            forall|t: int| 0 <= t < i ==> da.contains(#[trigger] db[t]),
        decreases b@.len() - i,
    {
        if !contains_string(a, &b[i]) {
            proof {
                assert(db[i as int] == b@[i as int]@);
                assert(db.contains(db[i as int]));
                assert(db.to_set().contains(db[i as int]));
                assert(!da.to_set().contains(db[i as int]));
            }
            return false;
        }
        proof {
            assert(db[i as int] == b@[i as int]@);
        }
        i = i + 1;
    }
    proof {
        assert forall|x: Seq<char>| da.to_set().contains(x) implies db.to_set().contains(x) by {
            let w = choose|w: int| 0 <= w < da.len() && da[w] == x;
            assert(db.contains(da[w]));
        }
        assert forall|x: Seq<char>| db.to_set().contains(x) implies da.to_set().contains(x) by {
            let w = choose|w: int| 0 <= w < db.len() && db[w] == x;
            assert(da.contains(db[w]));
        }
        assert(da.to_set() =~= db.to_set());
    }
    true
}

} // verus!
