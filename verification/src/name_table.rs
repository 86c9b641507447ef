//! Adjacency tables keyed by name.
//!
//! A table is a vector of `(key, names)` entries with pairwise distinct keys
//! and duplicate-free name lists. It represents a finite relation over
//! strings: `has_edge(table, a, b)` holds when the entry for `a` lists `b`.
//! The dependency graph stores both of its directions in such tables.

use vstd::prelude::*;

use crate::names::{contains_name, insert_name, remove_name, str_eq, views_of};

verus! {

broadcast use vstd::seq_lib::group_seq_properties;

/// One direction of a relation between names: each key maps to the
/// duplicate-free list of names it relates to.
pub type NameTable = Vec<(String, Vec<String>)>;

/// The character sequences of the keys of a table.
pub open spec fn keys_of(m: Seq<(String, Vec<String>)>) -> Seq<Seq<char>> {
    m.map_values(|p: (String, Vec<String>)| p.0@)
}

/// Well-formedness: keys are pairwise distinct and every name list is
/// duplicate-free.
pub open spec fn table_wf(m: Seq<(String, Vec<String>)>) -> bool {
    &&& keys_of(m).no_duplicates()
    &&& forall|i: int| 0 <= i < m.len() ==> views_of((#[trigger] m[i]).1@).no_duplicates()
}

/// The relation a table represents: the entry keyed `a` lists `b`.
pub open spec fn has_edge(m: Seq<(String, Vec<String>)>, a: Seq<char>, b: Seq<char>) -> bool {
    exists|i: int| 0 <= i < m.len() && (#[trigger] m[i]).0@ == a && views_of(m[i].1@).contains(b)
}

/// In a well-formed table the edges out of the key at index `i` are exactly
/// the names that entry lists.
pub proof fn lemma_edges_at(m: Seq<(String, Vec<String>)>, i: int)
    requires
        table_wf(m),
        0 <= i < m.len(),
    ensures
        forall|b: Seq<char>| has_edge(m, m[i].0@, b) == views_of(m[i].1@).contains(b),
{
    assert forall|b: Seq<char>| has_edge(m, m[i].0@, b) == views_of(m[i].1@).contains(b) by {
        if has_edge(m, m[i].0@, b) {
            let j = choose|j: int|
                0 <= j < m.len() && (#[trigger] m[j]).0@ == m[i].0@ && views_of(
                    m[j].1@,
                ).contains(b);
            assert(keys_of(m)[j] == keys_of(m)[i]);
            assert(j == i);
        }
    }
}

/// A key that appears in no entry has no outgoing edges.
pub proof fn lemma_no_key_no_edge(m: Seq<(String, Vec<String>)>, a: Seq<char>)
    requires
        forall|i: int| 0 <= i < m.len() ==> (#[trigger] m[i]).0@ != a,
    ensures
        forall|b: Seq<char>| !has_edge(m, a, b),
{
}

/// Replacing the entry at `i` by one with the same key and the list `e.1`
/// rewrites exactly that key's edges.
pub proof fn lemma_edge_update(m: Seq<(String, Vec<String>)>, i: int, e: (String, Vec<String>))
    requires
        table_wf(m),
        0 <= i < m.len(),
        e.0@ == m[i].0@,
        views_of(e.1@).no_duplicates(),
    ensures
        table_wf(m.update(i, e)),
        forall|a: Seq<char>, b: Seq<char>|
            has_edge(m.update(i, e), a, b) == (if a == m[i].0@ {
                views_of(e.1@).contains(b)
            } else {
                has_edge(m, a, b)
            }),
{
    let m2 = m.update(i, e);
    assert(keys_of(m2) =~= keys_of(m));
    assert forall|a: Seq<char>, b: Seq<char>|
        has_edge(m2, a, b) == (if a == m[i].0@ {
            views_of(e.1@).contains(b)
        } else {
            has_edge(m, a, b)
        }) by {
        if has_edge(m2, a, b) {
            let j = choose|j: int|
                0 <= j < m2.len() && (#[trigger] m2[j]).0@ == a && views_of(m2[j].1@).contains(b);
            if a == m[i].0@ {
                assert(keys_of(m)[j] == keys_of(m)[i]);
                assert(j == i);
            } else {
                assert(m[j] == m2[j]);
            }
        }
        if a == m[i].0@ && views_of(e.1@).contains(b) {
            assert(m2[i].0@ == a && views_of(m2[i].1@).contains(b));
        }
        if a != m[i].0@ && has_edge(m, a, b) {
            let j = choose|j: int|
                0 <= j < m.len() && (#[trigger] m[j]).0@ == a && views_of(m[j].1@).contains(b);
            assert(m2[j] == m[j]);
        }
    }
}

/// Removing the entry at `i` removes exactly the edges out of its key.
pub proof fn lemma_edge_remove(m: Seq<(String, Vec<String>)>, i: int)
    requires
        table_wf(m),
        0 <= i < m.len(),
    ensures
        table_wf(m.remove(i)),
        forall|a: Seq<char>, b: Seq<char>|
            has_edge(m.remove(i), a, b) == (has_edge(m, a, b) && a != m[i].0@),
{
    let m2 = m.remove(i);
    assert(keys_of(m2) =~= keys_of(m).remove(i));
    assert(keys_of(m2).no_duplicates()) by {
        assert forall|p: int, q: int|
            0 <= p < keys_of(m2).len() && 0 <= q < keys_of(m2).len() && p != q implies keys_of(
            m2,
        )[p] != keys_of(m2)[q] by {
            let p0 = if p < i {
                p
            } else {
                p + 1
            };
            let q0 = if q < i {
                q
            } else {
                q + 1
            };
            assert(keys_of(m2)[p] == keys_of(m)[p0]);
            assert(keys_of(m2)[q] == keys_of(m)[q0]);
        }
    }
    assert forall|a: Seq<char>, b: Seq<char>|
        has_edge(m2, a, b) == (has_edge(m, a, b) && a != m[i].0@) by {
        if has_edge(m2, a, b) {
            let j = choose|j: int|
                0 <= j < m2.len() && (#[trigger] m2[j]).0@ == a && views_of(m2[j].1@).contains(b);
            let j0 = if j < i {
                j
            } else {
                j + 1
            };
            assert(m[j0] == m2[j]);
            if a == m[i].0@ {
                assert(keys_of(m)[j0] == keys_of(m)[i]);
            }
        }
        if has_edge(m, a, b) && a != m[i].0@ {
            let j = choose|j: int|
                0 <= j < m.len() && (#[trigger] m[j]).0@ == a && views_of(m[j].1@).contains(b);
            let j2 = if j < i {
                j
            } else {
                j - 1
            };
            assert(m2[j2] == m[j]);
        }
    }
}

/// Finds the index of the entry keyed `key`, if there is one.
pub fn find_key(m: &NameTable, key: &str) -> (r: Option<usize>)
    ensures
        match r {
            Some(i) => i < m@.len() && m@[i as int].0@ == key@,
            None => forall|i: int| 0 <= i < m@.len() ==> (#[trigger] m@[i]).0@ != key@,
        },
{
    let mut i: usize = 0;
    while i < m.len()
        invariant
            i <= m@.len(),
            forall|j: int| 0 <= j < i ==> (#[trigger] m@[j]).0@ != key@,
        decreases m@.len() - i,
    {
        if str_eq(m[i].0.as_str(), key) {
            return Some(i);
        }
        i = i + 1;
    }
    None
}

/// Adds `val` to the name list of `key`, creating the entry if needed; the
/// table afterwards relates `key` to `val` and is otherwise unchanged.
pub fn entry_add(m: &mut NameTable, key: &str, val: &str)
    requires
        table_wf(old(m)@),
    ensures
        table_wf(final(m)@),
        forall|a: Seq<char>, b: Seq<char>|
            has_edge(final(m)@, a, b) == (has_edge(old(m)@, a, b) || (a == key@ && b == val@)),
{
    let ghost m0 = m@;
    match find_key(m, key) {
        Some(i) => {
            let mut e = m.remove(i);
            let ghost removed = m@;
            insert_name(&mut e.1, val);
            m.insert(i, e);
            proof {
                assert(m@ =~= m0.update(i as int, e));
                lemma_edge_update(m0, i as int, e);
                lemma_edges_at(m0, i as int);
            }
        },
        None => {
            let mut names: Vec<String> = Vec::new();
            names.push(val.to_owned());
            m.push((key.to_owned(), names));
            proof {
                let m2 = m@;
                assert(keys_of(m2) =~= keys_of(m0).push(key@));
                assert forall|k: Seq<char>| !(keys_of(m0).contains(k) && k == key@) by {
                    if keys_of(m0).contains(k) {
                        let j = choose|j: int|
                            0 <= j < keys_of(m0).len() && keys_of(m0)[j] == k;
                        assert(m0[j].0@ == k);
                    }
                }
                assert(table_wf(m2)) by {
                    assert(forall|i: int|
                        0 <= i < m2.len() ==> views_of((#[trigger] m2[i]).1@).no_duplicates());
                }
                assert forall|a: Seq<char>, b: Seq<char>|
                    has_edge(m2, a, b) == (has_edge(m0, a, b) || (a == key@ && b == val@)) by {
                    if has_edge(m2, a, b) {
                        let j = choose|j: int|
                            0 <= j < m2.len() && (#[trigger] m2[j]).0@ == a && views_of(
                                m2[j].1@,
                            ).contains(b);
                        if j < m0.len() {
                            assert(m0[j] == m2[j]);
                        } else {
                            assert(views_of(m2[j].1@) =~= seq![val@]);
                        }
                    }
                    if has_edge(m0, a, b) {
                        let j = choose|j: int|
                            0 <= j < m0.len() && (#[trigger] m0[j]).0@ == a && views_of(
                                m0[j].1@,
                            ).contains(b);
                        assert(m2[j] == m0[j]);
                    }
                    if a == key@ && b == val@ {
                        let j = m2.len() - 1;
                        assert(views_of(m2[j].1@) =~= seq![val@]);
                        assert(m2[j].0@ == a && views_of(m2[j].1@).contains(b));
                    }
                }
            }
        },
    }
}

/// Removes `val` from the name list of `key`, if both exist; the table
/// afterwards no longer relates `key` to `val` and is otherwise unchanged.
pub fn entry_remove_name(m: &mut NameTable, key: &str, val: &str)
    requires
        table_wf(old(m)@),
    ensures
        table_wf(final(m)@),
        forall|a: Seq<char>, b: Seq<char>|
            has_edge(final(m)@, a, b) == (has_edge(old(m)@, a, b) && !(a == key@ && b == val@)),
{
    let ghost m0 = m@;
    match find_key(m, key) {
        Some(i) => {
            let mut e = m.remove(i);
            remove_name(&mut e.1, val);
            m.insert(i, e);
            proof {
                assert(m@ =~= m0.update(i as int, e));
                lemma_edge_update(m0, i as int, e);
                lemma_edges_at(m0, i as int);
            }
        },
        None => {
            proof {
                lemma_no_key_no_edge(m0, key@);
            }
        },
    }
}

/// Removes the whole entry keyed `key`, if there is one; all edges out of
/// `key` disappear and no other edge changes.
pub fn entry_drop(m: &mut NameTable, key: &str) -> (removed: Vec<String>)
    requires
        table_wf(old(m)@),
    ensures
        table_wf(final(m)@),
        views_of(removed@).no_duplicates(),
        forall|b: Seq<char>| views_of(removed@).contains(b) == has_edge(old(m)@, key@, b),
        forall|a: Seq<char>, b: Seq<char>|
            has_edge(final(m)@, a, b) == (has_edge(old(m)@, a, b) && a != key@),
{
    let ghost m0 = m@;
    let ghost mut at: Option<int> = None;
    let removed: Vec<String>;
    match find_key(m, key) {
        Some(i) => {
            proof {
                at = Some(i as int);
            }
            let e = m.remove(i);
            removed = e.1;
        },
        None => {
            removed = Vec::new();
        },
    }
    proof {
        assert(table_wf(m@)) by {
            match at {
                Some(gi) => {
                    lemma_edge_remove(m0, gi);
                    assert(m@ == m0.remove(gi));
                },
                None => {
                },
            }
        }
        assert(views_of(removed@).no_duplicates()) by {
            match at {
                Some(gi) => {
                },
                None => {
                },
            }
        }
        assert forall|b: Seq<char>|
            views_of(removed@).contains(b) == has_edge(m0, key@, b) by {
            match at {
                Some(gi) => {
                    lemma_edges_at(m0, gi);
                    assert(m0[gi].0@ == key@);
                },
                None => {
                    lemma_no_key_no_edge(m0, key@);
                },
            }
        }
        assert forall|a: Seq<char>, b: Seq<char>|
            has_edge(m@, a, b) == (has_edge(m0, a, b) && a != key@) by {
            match at {
                Some(gi) => {
                    lemma_edge_remove(m0, gi);
                    assert(m0[gi].0@ == key@);
                    assert(m@ == m0.remove(gi));
                    assert(has_edge(m0.remove(gi), a, b) == (has_edge(m0, a, b) && a
                        != m0[gi].0@));
                },
                None => {
                    lemma_no_key_no_edge(m0, key@);
                    assert(m@ == m0);
                    if a == key@ {
                        assert(!has_edge(m0, a, b));
                    }
                },
            }
        }
    }
    removed
}

} // verus!
