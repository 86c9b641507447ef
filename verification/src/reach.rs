//! Reachability over a name table.
//!
//! `reaches` is the reflexive-transitive closure of the edge relation a
//! table represents. The worklist traversal `reach_list` computes, with
//! proof, the exact set of names reachable from a start name; the dependency
//! graph builds both of its traversal queries on it.

use vstd::prelude::*;

use crate::name_table::{find_key, has_edge, lemma_edges_at, lemma_no_key_no_edge, table_wf,
    NameTable};
use crate::names::{contains_name, views_of};

verus! {

broadcast use vstd::seq_lib::group_seq_properties, vstd::seq_lib::seq_to_set_is_finite;

/// A path of at most `k` edges leads from `a` to `b`.
pub open spec fn reaches_in(
    m: Seq<(String, Vec<String>)>,
    a: Seq<char>,
    b: Seq<char>,
    k: nat,
) -> bool
    decreases k,
{
    if a == b {
        true
    } else if k == 0 {
        false
    } else {
        exists|mid: Seq<char>|
            #[trigger] has_edge(m, a, mid) && reaches_in(m, mid, b, (k - 1) as nat)
    }
}

/// Some path of edges leads from `a` to `b` (including the empty path).
pub open spec fn reaches(m: Seq<(String, Vec<String>)>, a: Seq<char>, b: Seq<char>) -> bool {
    exists|k: nat| reaches_in(m, a, b, k)
}

/// `n` lies on a directed cycle: one of its edges starts a path back to it.
pub open spec fn on_cycle(m: Seq<(String, Vec<String>)>, n: Seq<char>) -> bool {
    exists|mid: Seq<char>| #[trigger] has_edge(m, n, mid) && reaches(m, mid, n)
}

/// Reachability is reflexive.
pub proof fn lemma_reaches_refl(m: Seq<(String, Vec<String>)>, a: Seq<char>)
    ensures
        reaches(m, a, a),
{
    assert(reaches_in(m, a, a, 0));
}

/// A single edge is a path.
pub proof fn lemma_edge_reaches(m: Seq<(String, Vec<String>)>, a: Seq<char>, b: Seq<char>)
    requires
        has_edge(m, a, b),
    ensures
        reaches(m, a, b),
{
    if a != b {
        assert(reaches_in(m, b, b, 0));
        assert(reaches_in(m, a, b, 1));
    } else {
        assert(reaches_in(m, a, b, 0));
    }
}

proof fn lemma_reaches_in_trans(
    m: Seq<(String, Vec<String>)>,
    a: Seq<char>,
    b: Seq<char>,
    c: Seq<char>,
    k1: nat,
    k2: nat,
)
    requires
        reaches_in(m, a, b, k1),
        reaches_in(m, b, c, k2),
    ensures
        reaches_in(m, a, c, (k1 + k2) as nat),
    decreases k1,
{
    if a == b {
        lemma_reaches_in_mono(m, b, c, k2, (k1 + k2) as nat);
    } else {
        let mid = choose|mid: Seq<char>|
            #[trigger] has_edge(m, a, mid) && reaches_in(m, mid, b, (k1 - 1) as nat);
        lemma_reaches_in_trans(m, mid, b, c, (k1 - 1) as nat, k2);
        assert(reaches_in(m, a, c, (k1 + k2) as nat));
    }
}

proof fn lemma_reaches_in_mono(
    m: Seq<(String, Vec<String>)>,
    a: Seq<char>,
    b: Seq<char>,
    k1: nat,
    k2: nat,
)
    requires
        reaches_in(m, a, b, k1),
        k1 <= k2,
    ensures
        reaches_in(m, a, b, k2),
    decreases k1,
{
    if a != b {
        let mid = choose|mid: Seq<char>|
            #[trigger] has_edge(m, a, mid) && reaches_in(m, mid, b, (k1 - 1) as nat);
        lemma_reaches_in_mono(m, mid, b, (k1 - 1) as nat, (k2 - 1) as nat);
    }
}

/// Reachability is transitive.
pub proof fn lemma_reaches_trans(
    m: Seq<(String, Vec<String>)>,
    a: Seq<char>,
    b: Seq<char>,
    c: Seq<char>,
)
    requires
        reaches(m, a, b),
        reaches(m, b, c),
    ensures
        reaches(m, a, c),
{
    let k1 = choose|k: nat| reaches_in(m, a, b, k);
    let k2 = choose|k: nat| reaches_in(m, b, c, k);
    lemma_reaches_in_trans(m, a, b, c, k1, k2);
}

/// Appending one edge to a path gives a path.
pub proof fn lemma_reaches_step(
    m: Seq<(String, Vec<String>)>,
    a: Seq<char>,
    b: Seq<char>,
    c: Seq<char>,
)
    requires
        reaches(m, a, b),
        has_edge(m, b, c),
    ensures
        reaches(m, a, c),
{
    lemma_edge_reaches(m, b, c);
    lemma_reaches_trans(m, a, b, c);
}

/// A collection of names that holds `start` and is closed under the edges
/// holds everything reachable from `start`.
proof fn lemma_closed_under_edges(
    m: Seq<(String, Vec<String>)>,
    vs: Seq<Seq<char>>,
    start: Seq<char>,
    x: Seq<char>,
    k: nat,
)
    requires
        vs.contains(start),
        forall|v: Seq<char>, b: Seq<char>|
            vs.contains(v) && #[trigger] has_edge(m, v, b) ==> vs.contains(b),
        reaches_in(m, start, x, k),
    ensures
        vs.contains(x),
    decreases k,
{
    if start != x {
        let mid = choose|mid: Seq<char>|
            #[trigger] has_edge(m, start, mid) && reaches_in(m, mid, x, (k - 1) as nat);
        lemma_closed_under_edges(m, vs, mid, x, (k - 1) as nat);
    }
}

/// Every name a table mentions, as a key or inside a name list.
pub open spec fn all_names(m: Seq<(String, Vec<String>)>) -> Seq<Seq<char>>
    decreases m.len(),
{
    if m.len() == 0 {
        Seq::empty()
    } else {
        all_names(m.drop_last()) + seq![m.last().0@] + views_of(m.last().1@)
    }
}

proof fn lemma_edge_in_all_names(m: Seq<(String, Vec<String>)>, a: Seq<char>, b: Seq<char>)
    requires
        has_edge(m, a, b),
    ensures
        all_names(m).contains(a),
        all_names(m).contains(b),
    decreases m.len(),
{
    let i = choose|i: int|
        0 <= i < m.len() && (#[trigger] m[i]).0@ == a && views_of(m[i].1@).contains(b);
    if i == m.len() - 1 {
        assert(all_names(m)[all_names(m.drop_last()).len() as int] == a);
        let j = choose|j: int| 0 <= j < views_of(m[i].1@).len() && views_of(m[i].1@)[j] == b;
        assert(all_names(m)[all_names(m.drop_last()).len() + 1 + j] == b);
    } else {
        assert(m.drop_last()[i] == m[i]);
        assert(has_edge(m.drop_last(), a, b));
        lemma_edge_in_all_names(m.drop_last(), a, b);
        let ka = choose|k: int|
            0 <= k < all_names(m.drop_last()).len() && all_names(m.drop_last())[k] == a;
        assert(all_names(m)[ka] == a);
        let kb = choose|k: int|
            0 <= k < all_names(m.drop_last()).len() && all_names(m.drop_last())[k] == b;
        assert(all_names(m)[kb] == b);
    }
}

/// Returns every name reachable from `start` along the table's edges,
/// including `start` itself, each exactly once.
pub fn reach_list(m: &NameTable, start: &str) -> (r: Vec<String>)
    requires
        table_wf(m@),
    ensures
        views_of(r@).no_duplicates(),
        forall|x: Seq<char>| views_of(r@).contains(x) == reaches(m@, start@, x),
{
    let mut visited: Vec<String> = Vec::new();
    let mut to_visit: Vec<String> = Vec::new();
    to_visit.push(start.to_owned());
    let ghost u = all_names(m@).to_set().insert(start@);
    proof {
        assert(u.finite());
        assert(views_of(to_visit@) =~= seq![start@]);
        lemma_reaches_refl(m@, start@);
    }
    while to_visit.len() > 0
        invariant
            table_wf(m@),
            u == all_names(m@).to_set().insert(start@),
            u.finite(),
            views_of(visited@).no_duplicates(),
            views_of(visited@).len() <= u.len(),
            forall|x: Seq<char>|
                #[trigger] views_of(visited@).contains(x) ==> reaches(m@, start@, x)
                    && u.contains(x),
            forall|x: Seq<char>|
                #[trigger] views_of(to_visit@).contains(x) ==> reaches(m@, start@, x)
                    && u.contains(x),
            views_of(visited@).contains(start@) || views_of(to_visit@).contains(start@),
            forall|v: Seq<char>, b: Seq<char>|
                views_of(visited@).contains(v) && #[trigger] has_edge(m@, v, b) ==> (views_of(
                    visited@,
                ).contains(b) || views_of(to_visit@).contains(b)),
        decreases u.len() - views_of(visited@).len(), to_visit@.len(),
    {
        let ghost tv0 = to_visit@;
        let cur = to_visit.pop().unwrap();
        proof {
            assert(views_of(tv0)[tv0.len() - 1] == cur@);
            assert(views_of(tv0).contains(cur@));
            assert forall|x: Seq<char>|
                #[trigger] views_of(to_visit@).contains(x) implies views_of(tv0).contains(
                x,
            ) by {
                let j = choose|j: int|
                    0 <= j < views_of(to_visit@).len() && views_of(to_visit@)[j] == x;
                assert(views_of(tv0)[j] == x);
            }
        }
        if !contains_name(&visited, cur.as_str()) {
            let ghost vis0 = visited@;
            proof {
                views_of(visited@).unique_seq_to_set();
                assert(views_of(visited@).to_set().insert(cur@).subset_of(u)) by {
                    assert forall|x: Seq<char>|
                        views_of(visited@).to_set().insert(cur@).contains(x) implies u.contains(
                        x,
                    ) by {
                        if x != cur@ {
                            assert(views_of(visited@).contains(x));
                        }
                    }
                }
                vstd::set_lib::lemma_len_subset(views_of(visited@).to_set().insert(cur@), u);
            }
            visited.push(cur.clone());
            proof {
                assert(views_of(visited@) =~= views_of(vis0).push(cur@));
                views_of(visited@).unique_seq_to_set();
                assert(views_of(visited@).to_set() =~= views_of(vis0).to_set().insert(cur@));
                assert forall|x: Seq<char>|
                    #[trigger] views_of(to_visit@).contains(x) implies reaches(m@, start@, x)
                    && u.contains(x) by {
                    assert(views_of(tv0).contains(x));
                }
                assert forall|v: Seq<char>, b: Seq<char>|
                    views_of(visited@).contains(v) && #[trigger] has_edge(m@, v, b) && v
                    != cur@ implies (views_of(visited@).contains(b) || views_of(
                    to_visit@,
                ).contains(b)) by {
                    let q = choose|q: int|
                        0 <= q < views_of(visited@).len() && views_of(visited@)[q] == v;
                    assert(q < views_of(vis0).len());
                    assert(views_of(vis0)[q] == v);
                    assert(views_of(vis0).contains(v));
                    if views_of(vis0).contains(b) {
                        let r = choose|r: int|
                            0 <= r < views_of(vis0).len() && views_of(vis0)[r] == b;
                        assert(views_of(visited@)[r] == b);
                    } else {
                        assert(views_of(tv0).contains(b));
                        let r = choose|r: int|
                            0 <= r < views_of(tv0).len() && views_of(tv0)[r] == b;
                        if r == tv0.len() - 1 {
                            assert(b == cur@);
                            assert(views_of(visited@)[views_of(visited@).len() - 1] == cur@);
                        } else {
                            assert(views_of(to_visit@)[r] == b);
                        }
                    }
                }
                assert(views_of(visited@).contains(start@) || views_of(to_visit@).contains(
                    start@,
                )) by {
                    if views_of(vis0).contains(start@) {
                        let r = choose|r: int|
                            0 <= r < views_of(vis0).len() && views_of(vis0)[r] == start@;
                        assert(views_of(visited@)[r] == start@);
                    } else if views_of(tv0).contains(start@) {
                        let r = choose|r: int|
                            0 <= r < views_of(tv0).len() && views_of(tv0)[r] == start@;
                        if r == tv0.len() - 1 {
                            assert(views_of(visited@)[views_of(visited@).len() - 1] == cur@);
                        } else {
                            assert(views_of(to_visit@)[r] == start@);
                        }
                    }
                }
            }
            match find_key(m, cur.as_str()) {
                Some(j) => {
                    proof {
                        lemma_edges_at(m@, j as int);
                    }
                    let mut k: usize = 0;
                    let ghost nbrs = m@[j as int].1@;
                    while k < m[j].1.len()
                        invariant
                            table_wf(m@),
                            u == all_names(m@).to_set().insert(start@),
                            u.finite(),
                            0 <= j < m@.len(),
                            nbrs == m@[j as int].1@,
                            k <= nbrs.len(),
                            m@[j as int].0@ == cur@,
                            views_of(visited@).contains(cur@),
                            reaches(m@, start@, cur@),
                            forall|b: Seq<char>|
                                has_edge(m@, cur@, b) == views_of(nbrs).contains(b),
                            views_of(visited@).no_duplicates(),
                            views_of(visited@).len() <= u.len(),
                            forall|x: Seq<char>|
                                #[trigger] views_of(visited@).contains(x) ==> reaches(
                                    m@, start@, x) && u.contains(x),
                            forall|x: Seq<char>|
                                #[trigger] views_of(to_visit@).contains(x) ==> reaches(
                                    m@, start@, x) && u.contains(x),
                            views_of(visited@).contains(start@) || views_of(
                                to_visit@,
                            ).contains(start@),
                            forall|v: Seq<char>, b: Seq<char>|
                                views_of(visited@).contains(v) && #[trigger] has_edge(m@, v, b)
                                    && v != cur@ ==> (views_of(visited@).contains(b) || views_of(
                                    to_visit@,
                                ).contains(b)),
                            forall|b: Seq<char>|
                                views_of(nbrs.take(k as int)).contains(b) ==> (views_of(
                                    visited@,
                                ).contains(b) || views_of(to_visit@).contains(b)),
                        decreases nbrs.len() - k,
                    {
                        let ghost tvp = to_visit@;
                        let pushed: bool;
                        if !contains_name(&visited, m[j].1[k].as_str()) {
                            to_visit.push(m[j].1[k].clone());
                            pushed = true;
                        } else {
                            pushed = false;
                        }
                        proof {
                            let b = nbrs[k as int]@;
                            assert(views_of(nbrs).contains(b)) by {
                                assert(views_of(nbrs)[k as int] == b);
                            }
                            assert(has_edge(m@, cur@, b));
                            lemma_reaches_step(m@, start@, cur@, b);
                            lemma_edge_in_all_names(m@, cur@, b);
                            if pushed {
                                assert(views_of(to_visit@) =~= views_of(tvp).push(b));
                            }
                            assert forall|x: Seq<char>|
                                views_of(tvp).contains(x) implies views_of(
                                to_visit@,
                            ).contains(x) by {
                                let q = choose|q: int|
                                    0 <= q < views_of(tvp).len() && views_of(tvp)[q] == x;
                                assert(views_of(to_visit@)[q] == x);
                            }
                            assert forall|x: Seq<char>|
                                views_of(to_visit@).contains(x) implies (views_of(
                                tvp,
                            ).contains(x) || x == b) by {
                                let q = choose|q: int|
                                    0 <= q < views_of(to_visit@).len() && views_of(
                                        to_visit@,
                                    )[q] == x;
                                if q < views_of(tvp).len() {
                                    assert(views_of(tvp)[q] == x);
                                }
                            }
                            let n0 = views_of(nbrs.take(k as int));
                            let n1 = views_of(nbrs.take(k + 1));
                            assert forall|x: Seq<char>|
                                n1.contains(x) implies (views_of(visited@).contains(x)
                                || views_of(to_visit@).contains(x)) by {
                                assert(n1 =~= n0.push(b));
                                if x != b {
                                    let q = choose|q: int| 0 <= q < n1.len() && n1[q] == x;
                                    assert(n0[q] == x);
                                }
                            }
                        }
                        k = k + 1;
                    }
                    proof {
                        assert(nbrs.take(nbrs.len() as int) == nbrs);
                        assert forall|v: Seq<char>, b: Seq<char>|
                            views_of(visited@).contains(v) && #[trigger] has_edge(
                            m@,
                            v,
                            b,
                        ) implies (views_of(visited@).contains(b) || views_of(
                            to_visit@,
                        ).contains(b)) by {
                            if v == cur@ {
                                assert(views_of(nbrs).contains(b));
                            }
                        }
                    }
                },
                None => {
                    proof {
                        lemma_no_key_no_edge(m@, cur@);
                        assert forall|v: Seq<char>, b: Seq<char>|
                            views_of(visited@).contains(v) && #[trigger] has_edge(
                            m@,
                            v,
                            b,
                        ) implies (views_of(visited@).contains(b) || views_of(
                            to_visit@,
                        ).contains(b)) by {
                            if v == cur@ {
                                assert(!has_edge(m@, cur@, b));
                            } else {
                                let q = choose|q: int|
                                    0 <= q < views_of(vis0).len() && views_of(vis0)[q] == v;
                                assert(views_of(visited@)[q] == v);
                                assert(views_of(vis0).contains(v));
                            }
                        }
                    }
                },
            }
        } else {
            proof {
                assert(views_of(visited@).contains(cur@));
                assert forall|v: Seq<char>, b: Seq<char>|
                    views_of(visited@).contains(v) && #[trigger] has_edge(m@, v, b) implies (
                views_of(visited@).contains(b) || views_of(to_visit@).contains(b)) by {
                    if !views_of(visited@).contains(b) {
                        assert(views_of(tv0).contains(b));
                        let r = choose|r: int|
                            0 <= r < views_of(tv0).len() && views_of(tv0)[r] == b;
                        if r == tv0.len() - 1 {
                            assert(b == cur@);
                        } else {
                            assert(views_of(to_visit@)[r] == b);
                        }
                    }
                }
                assert(views_of(visited@).contains(start@) || views_of(to_visit@).contains(
                    start@,
                )) by {
                    if !views_of(visited@).contains(start@) && views_of(tv0).contains(
                        start@,
                    ) {
                        let r = choose|r: int|
                            0 <= r < views_of(tv0).len() && views_of(tv0)[r] == start@;
                        if r == tv0.len() - 1 {
                            assert(start@ == cur@);
                        } else {
                            assert(views_of(to_visit@)[r] == start@);
                        }
                    }
                }
            }
        }
    }
    proof {
        assert(views_of(visited@).contains(start@));
        assert forall|x: Seq<char>|
            views_of(visited@).contains(x) == reaches(m@, start@, x) by {
            if reaches(m@, start@, x) {
                let k = choose|k: nat| reaches_in(m@, start@, x, k);
                lemma_closed_under_edges(m@, views_of(visited@), start@, x, k);
            }
        }
    }
    visited
}

} // verus!
