//! Helpers for vectors of names.
//!
//! File identifiers, symbol names and relation kinds are all plain strings,
//! modelled in specifications by their character sequences. This module holds
//! the executable operations on name vectors that the semantic components
//! share: membership tests, duplicate-free insertion and removal.

use vstd::prelude::*;

verus! {

broadcast use vstd::seq_lib::group_seq_properties, vstd::prelude::Seq::lemma_push_map_commute, vstd::prelude::Seq::lemma_map_take_succ;

/// The character sequences of a sequence of strings.
pub open spec fn views_of(v: Seq<String>) -> Seq<Seq<char>> {
    v.map_values(|s: String| s@)
}

/// Relies on str's `PartialEq`: equality holds exactly when the two
/// character sequences are equal.
#[verifier::external_body]
pub fn str_eq(a: &str, b: &str) -> (r: bool)
    ensures
        r == (a@ == b@),
{
    a == b
}

/// Whether `s` occurs among the names in `v`.
pub fn contains_name(v: &Vec<String>, s: &str) -> (r: bool)
    ensures
        r == views_of(v@).contains(s@),
{
    let mut i: usize = 0;
    while i < v.len()
        invariant
            i <= v@.len(),
            forall|j: int| 0 <= j < i ==> views_of(v@)[j] != s@,
        decreases v@.len() - i,
    {
        if str_eq(v[i].as_str(), s) {
            assert(views_of(v@)[i as int] == s@);
            return true;
        }
        i = i + 1;
    }
    false
}

/// Appends `s` unless it is already present, keeping the vector
/// duplicate-free.
pub fn insert_name(v: &mut Vec<String>, s: &str)
    requires
        views_of(old(v)@).no_duplicates(),
    ensures
        views_of(final(v)@).no_duplicates(),
        forall|x: Seq<char>|
            views_of(final(v)@).contains(x) == (views_of(old(v)@).contains(x) || x == s@),
{
    if !contains_name(v, s) {
        let ghost oldv = v@;
        v.push(s.to_owned());
        assert(views_of(v@) =~= views_of(oldv).push(s@));
        assert forall|x: Seq<char>|
            views_of(v@).contains(x) == (views_of(oldv).contains(x) || x == s@) by {
            if views_of(v@).contains(x) {
                let k = choose|k: int| 0 <= k < views_of(v@).len() && views_of(v@)[k] == x;
                if k < views_of(oldv).len() {
                    assert(views_of(oldv)[k] == x);
                }
            }
            if views_of(oldv).contains(x) {
                let k = choose|k: int| 0 <= k < views_of(oldv).len() && views_of(oldv)[k] == x;
                assert(views_of(v@)[k] == x);
            }
            if x == s@ {
                assert(views_of(v@).last() == s@);
            }
        }
    } else {
        assert forall|x: Seq<char>|
            views_of(v@).contains(x) == (views_of(v@).contains(x) || x == s@) by {
            if x == s@ {
                assert(views_of(v@).contains(x));
            }
        }
    }
}

/// Copies a vector of names.
pub fn copy_names(v: &Vec<String>) -> (r: Vec<String>)
    ensures
        views_of(r@) == views_of(v@),
{
    let mut out: Vec<String> = Vec::new();
    let mut i: usize = 0;
    while i < v.len()
        invariant
            i <= v@.len(),
            views_of(out@) =~= views_of(v@.take(i as int)),
        decreases v@.len() - i,
    {
        out.push(v[i].clone());
        assert(views_of(out@) =~= views_of(v@.take(i + 1)));
        i = i + 1;
    }
    assert(views_of(out@) =~= views_of(v@));
    out
}

/// Removes every occurrence of `s`, keeping the order of the other names.
pub fn remove_name(v: &mut Vec<String>, s: &str)
    requires
        views_of(old(v)@).no_duplicates(),
    ensures
        views_of(final(v)@).no_duplicates(),
        forall|x: Seq<char>|
            views_of(final(v)@).contains(x) == (views_of(old(v)@).contains(x) && x != s@),
{
    let mut out: Vec<String> = Vec::new();
    let mut i: usize = 0;
    while i < v.len()
        invariant
            i <= v@.len(),
            views_of(v@).no_duplicates(),
            v@ == old(v)@,
            views_of(out@).no_duplicates(),
            forall|x: Seq<char>|
                views_of(out@).contains(x) == (views_of(v@.take(i as int)).contains(x) && x
                    != s@),
        decreases v@.len() - i,
    {
        let ghost prev = out@;
        let keep = !str_eq(v[i].as_str(), s);
        if keep {
            proof {
                if views_of(prev).contains(v@[i as int]@) {
                    let k = choose|k: int|
                        0 <= k < views_of(v@.take(i as int)).len() && views_of(
                            v@.take(i as int),
                        )[k] == v@[i as int]@;
                    assert(views_of(v@)[k] == views_of(v@)[i as int]);
                }
            }
            out.push(v[i].clone());
            assert(views_of(out@) =~= views_of(prev).push(v@[i as int]@));
        }
        proof {
            let t0 = views_of(v@.take(i as int));
            let t1 = views_of(v@.take(i + 1));
            assert(t1 =~= t0.push(v@[i as int]@));
            assert forall|x: Seq<char>|
                views_of(out@).contains(x) == (t1.contains(x) && x != s@) by {
                if t1.contains(x) {
                    let k = choose|k: int| 0 <= k < t1.len() && t1[k] == x;
                    if k < t0.len() {
                        assert(t0[k] == x);
                    }
                }
                if t0.contains(x) {
                    let k = choose|k: int| 0 <= k < t0.len() && t0[k] == x;
                    assert(t1[k] == x);
                }
                if keep && views_of(out@).contains(x) && !views_of(prev).contains(x) {
                    assert(t1.last() == x);
                }
            }
        }
        i = i + 1;
    }
    assert(v@.take(v@.len() as int) == v@);
    *v = out;
}

} // verus!
