//! Import dependencies between files, with smart invalidation queries.
//!
//! The graph stores every edge twice: `dependencies` maps a file to the files
//! it imports, `dependents` maps a file to the files importing it. The two
//! tables are exact mirrors of one another, an invariant every operation
//! preserves. Each mutation is recorded in an event log that observers read
//! through subscriptions.

use vstd::prelude::*;

use crate::events::{DependencyEvent, DependencyEventView};
use crate::name_table::{
    entry_add, entry_drop, entry_remove_name, find_key, has_edge, table_wf, NameTable,
};
use crate::names::{contains_name, copy_names, remove_name, views_of};
use crate::reach::{on_cycle, reach_list, reaches};

verus! {

broadcast use vstd::seq_lib::group_seq_properties, vstd::prelude::Seq::lemma_push_map_commute, vstd::prelude::Seq::lemma_map_take_succ;

/// The spec-level shapes of a sequence of events.
pub open spec fn log_views(s: Seq<DependencyEvent>) -> Seq<DependencyEventView> {
    s.map_values(|e: DependencyEvent| e@)
}

/// Tracks import dependencies between files for smart invalidation.
#[derive(Debug)]
pub struct DependencyGraph {
    /// Maps a file to the files it imports.
    pub dependencies: NameTable,
    /// Maps a file to the files importing it (reverse index).
    pub dependents: NameTable,
    /// Every mutation of the graph, in order.
    pub log: Vec<DependencyEvent>,
    /// One read position into `log` per subscriber.
    pub cursors: Vec<usize>,
}

impl Default for DependencyGraph {
    fn default() -> (g: DependencyGraph)
        ensures
            g.wf(),
            forall|a: Seq<char>, b: Seq<char>| !g.dep_edge(a, b),
            g.log_view() == Seq::<DependencyEventView>::empty(),
            g.subscriber_count() == 0,
    {
        DependencyGraph::new()
    }
}

impl DependencyGraph {
    /// Both tables are well formed, they mirror one another exactly, and no
    /// subscriber has read past the end of the log.
    pub open spec fn wf(self) -> bool {
        &&& table_wf(self.dependencies@)
        &&& table_wf(self.dependents@)
        &&& forall|a: Seq<char>, b: Seq<char>|
            has_edge(self.dependencies@, a, b) == has_edge(self.dependents@, b, a)
        &&& forall|i: int| 0 <= i < self.cursors@.len() ==> (#[trigger] self.cursors@[i]) <= self.log@.len()
    }

    /// The dependency relation: `from` imports `to`.
    pub open spec fn dep_edge(self, from: Seq<char>, to: Seq<char>) -> bool {
        has_edge(self.dependencies@, from, to)
    }

    /// The events recorded so far.
    pub open spec fn log_view(self) -> Seq<DependencyEventView> {
        log_views(self.log@)
    }

    /// The number of subscriptions handed out.
    pub open spec fn subscriber_count(self) -> nat {
        self.cursors@.len()
    }

    pub fn new() -> (g: DependencyGraph)
        ensures
            g.wf(),
            forall|a: Seq<char>, b: Seq<char>| !g.dep_edge(a, b),
            g.log_view() == Seq::<DependencyEventView>::empty(),
            g.subscriber_count() == 0,
    {
        let g = DependencyGraph {
            dependencies: Vec::new(),
            dependents: Vec::new(),
            log: Vec::new(),
            cursors: Vec::new(),
        };
        proof {
            assert(g.log_view() =~= Seq::<DependencyEventView>::empty());
        }
        g
    }

    /// Opens a subscription to the graph's events and returns its handle.
    /// The subscriber will see every event recorded after this call.
    pub fn subscribe(&mut self) -> (id: usize)
        requires
            old(self).wf(),
        ensures
            final(self).wf(),
            id == old(self).subscriber_count(),
            final(self).cursors@ == old(self).cursors@.push(old(self).log@.len() as usize),
            final(self).dependencies == old(self).dependencies,
            final(self).dependents == old(self).dependents,
            final(self).log == old(self).log,
    {
        let id = self.cursors.len();
        let mark = self.log.len();
        self.cursors.push(mark);
        id
    }

    /// Returns the events recorded since the subscriber `id` last polled,
    /// and advances its read position to the end of the log.
    pub fn poll_events(&mut self, id: usize) -> (evs: Vec<DependencyEvent>)
        requires
            old(self).wf(),
            id < old(self).subscriber_count(),
        ensures
            final(self).wf(),
            log_views(evs@) == old(self).log_view().skip(old(self).cursors@[id as int] as int),
            final(self).cursors@ == old(self).cursors@.update(
                id as int,
                old(self).log@.len() as usize,
            ),
            final(self).dependencies == old(self).dependencies,
            final(self).dependents == old(self).dependents,
            final(self).log == old(self).log,
    {
        let mut evs: Vec<DependencyEvent> = Vec::new();
        let mut i: usize = self.cursors[id];
        let ghost start = i as int;
        while i < self.log.len()
            invariant
                0 <= start <= i <= self.log@.len(),
                log_views(evs@) =~= log_views(self.log@).subrange(start, i as int),
                self.log@ == old(self).log@,
            decreases self.log@.len() - i,
        {
            let ghost prev = evs@;
            evs.push(self.log[i].clone());
            proof {
                let l = log_views(self.log@);
                assert(l.subrange(start, i + 1) =~= l.subrange(start, i as int).push(
                    l[i as int],
                ));
                assert(log_views(evs@) =~= log_views(prev).push(self.log@[i as int]@));
                assert(log_views(evs@) =~= l.subrange(start, i + 1));
            }
            i = i + 1;
        }
        let end = self.log.len();
        let c = &mut self.cursors[id];
        *c = end;
        proof {
            assert(log_views(evs@) =~= log_views(self.log@).skip(start));
        }
        evs
    }

    /// Adds a dependency: `from` imports `to`. Both directions of the graph
    /// record the edge, and a `DependencyAdded` event is logged.
    pub fn add_dependency(&mut self, from: &str, to: &str)
        requires
            old(self).wf(),
        ensures
            final(self).wf(),
            forall|a: Seq<char>, b: Seq<char>|
                final(self).dep_edge(a, b) == (old(self).dep_edge(a, b) || (a == from@ && b
                    == to@)),
            final(self).log_view() == old(self).log_view().push(
                DependencyEventView::DependencyAdded { from: from@, to: to@ },
            ),
            final(self).subscriber_count() == old(self).subscriber_count(),
            final(self).cursors == old(self).cursors,
    {
        entry_add(&mut self.dependencies, from, to);
        entry_add(&mut self.dependents, to, from);
        self.log.push(
            DependencyEvent::DependencyAdded { from: from.to_owned(), to: to.to_owned() },
        );
        proof {
            assert(final(self).log_view() =~= old(self).log_view().push(
                DependencyEventView::DependencyAdded { from: from@, to: to@ },
            ));
        }
    }

    /// Returns all files that `file` directly depends on.
    pub fn get_dependencies(&self, file: &str) -> (r: Vec<String>)
        requires
            self.wf(),
        ensures
            views_of(r@).no_duplicates(),
            forall|b: Seq<char>| views_of(r@).contains(b) == self.dep_edge(file@, b),
    {
        match find_key(&self.dependencies, file) {
            Some(i) => {
                let r = copy_names(&self.dependencies[i].1);
                proof {
                    crate::name_table::lemma_edges_at(self.dependencies@, i as int);
                }
                r
            },
            None => {
                proof {
                    crate::name_table::lemma_no_key_no_edge(self.dependencies@, file@);
                }
                Vec::new()
            },
        }
    }

    /// Returns all files that directly depend on `file`.
    pub fn get_dependents(&self, file: &str) -> (r: Vec<String>)
        requires
            self.wf(),
        ensures
            views_of(r@).no_duplicates(),
            forall|b: Seq<char>| views_of(r@).contains(b) == self.dep_edge(b, file@),
    {
        match find_key(&self.dependents, file) {
            Some(i) => {
                let r = copy_names(&self.dependents[i].1);
                proof {
                    crate::name_table::lemma_edges_at(self.dependents@, i as int);
                }
                r
            },
            None => {
                proof {
                    crate::name_table::lemma_no_key_no_edge(self.dependents@, file@);
                }
                Vec::new()
            },
        }
    }

    /// `x` is transitively affected when `file` changes: following the
    /// chain of importers from `file` reaches `x`.
    pub open spec fn affects(self, file: Seq<char>, x: Seq<char>) -> bool {
        reaches(self.dependents@, file, x) && x != file
    }

    /// Returns all files transitively affected if `file` changes: every
    /// file that imports it, directly or through other files. `file` itself
    /// is never part of the answer, even on an import cycle.
    pub fn get_all_affected(&self, file: &str) -> (r: Vec<String>)
        requires
            self.wf(),
        ensures
            views_of(r@).no_duplicates(),
            !views_of(r@).contains(file@),
            forall|x: Seq<char>| views_of(r@).contains(x) == self.affects(file@, x),
    {
        let mut r = reach_list(&self.dependents, file);
        remove_name(&mut r, file);
        r
    }

    /// Checks whether `file` is part of a circular dependency: whether it
    /// lies on a directed cycle of imports, that is, one of its direct
    /// dependencies leads back to it. In a graph without cycles no file is
    /// reported.
    pub fn has_circular_dependency(&self, file: &str) -> (r: bool)
        requires
            self.wf(),
        ensures
            r == on_cycle(self.dependencies@, file@),
    {
        match find_key(&self.dependencies, file) {
            Some(j) => {
                proof {
                    crate::name_table::lemma_edges_at(self.dependencies@, j as int);
                }
                let ghost nbrs = views_of(self.dependencies@[j as int].1@);
                let mut k: usize = 0;
                while k < self.dependencies[j].1.len()
                    invariant
                        self.wf(),
                        0 <= j < self.dependencies@.len(),
                        k <= nbrs.len(),
                        nbrs == views_of(self.dependencies@[j as int].1@),
                        self.dependencies@[j as int].0@ == file@,
                        forall|b: Seq<char>|
                            has_edge(self.dependencies@, file@, b) == nbrs.contains(b),
                        forall|q: int|
                            0 <= q < k ==> !reaches(self.dependencies@, nbrs[q], file@),
                    decreases nbrs.len() - k,
                {
                    let back = reach_list(
                        &self.dependencies,
                        self.dependencies[j].1[k].as_str(),
                    );
                    if contains_name(&back, file) {
                        proof {
                            let t = self.dependencies@[j as int].1@[k as int]@;
                            assert(nbrs[k as int] == t);
                            assert(has_edge(self.dependencies@, file@, t));
                            assert(reaches(self.dependencies@, t, file@));
                            assert(on_cycle(self.dependencies@, file@));
                        }
                        return true;
                    }
                    k = k + 1;
                }
                proof {
                    assert(!on_cycle(self.dependencies@, file@)) by {
                        if on_cycle(self.dependencies@, file@) {
                            let mid = choose|mid: Seq<char>|
                                #[trigger] has_edge(self.dependencies@, file@, mid) && reaches(
                                    self.dependencies@,
                                    mid,
                                    file@,
                                );
                            let q = choose|q: int| 0 <= q < nbrs.len() && nbrs[q] == mid;
                        }
                    }
                }
                false
            },
            None => {
                proof {
                    crate::name_table::lemma_no_key_no_edge(self.dependencies@, file@);
                    assert(!on_cycle(self.dependencies@, file@));
                }
                false
            },
        }
    }

    /// Removes all dependency edges that touch `file`, in either direction,
    /// and logs a `FileRemoved` event. Entries for other files survive.
    pub fn remove_file(&mut self, file: &str)
        requires
            old(self).wf(),
        ensures
            final(self).wf(),
            forall|a: Seq<char>, b: Seq<char>|
                final(self).dep_edge(a, b) == (old(self).dep_edge(a, b) && a != file@ && b
                    != file@),
            final(self).log_view() == old(self).log_view().push(
                DependencyEventView::FileRemoved { path: file@ },
            ),
            final(self).subscriber_count() == old(self).subscriber_count(),
            final(self).cursors == old(self).cursors,
    {
        let ghost deps0 = self.dependencies@;
        let ghost rdeps0 = self.dependents@;
        drop_source(&mut self.dependencies, &mut self.dependents, file);
        let ghost deps1 = self.dependencies@;
        let ghost rdeps1 = self.dependents@;
        proof {
            assert forall|a: Seq<char>, b: Seq<char>|
                has_edge(rdeps1, a, b) == (has_edge(rdeps0, a, b) && b != file@) by {
                if b == file@ && has_edge(rdeps0, a, b) {
                    assert(has_edge(deps0, file@, a));
                }
            }
        }
        drop_source(&mut self.dependents, &mut self.dependencies, file);
        let ghost deps2 = self.dependencies@;
        let ghost rdeps2 = self.dependents@;
        proof {
            assert forall|a: Seq<char>, b: Seq<char>|
                has_edge(deps2, a, b) == (has_edge(deps0, a, b) && a != file@ && b != file@) by {
                if b == file@ && has_edge(deps1, a, b) {
                    assert(has_edge(rdeps0, file@, a));
                    assert(has_edge(rdeps1, file@, a));
                }
            }
            assert forall|a: Seq<char>, b: Seq<char>|
                has_edge(deps2, a, b) == has_edge(rdeps2, b, a) by {
                assert(has_edge(rdeps2, b, a) == (has_edge(rdeps1, b, a) && b != file@));
                assert(has_edge(deps2, a, b) == (has_edge(deps1, a, b) && !(b == file@
                    && has_edge(rdeps1, file@, a))));
            }
        }
        self.log.push(DependencyEvent::FileRemoved { path: file.to_owned() });
        proof {
            assert(final(self).log_view() =~= old(self).log_view().push(
                DependencyEventView::FileRemoved { path: file@ },
            ));
        }
    }

    /// Removes only the dependencies `file` itself declares — its outgoing
    /// edges — leaving the files that depend on it untouched. Used when a
    /// file is re-populated rather than removed, so that its dependents can
    /// still be found and invalidated.
    pub fn remove_dependencies_of(&mut self, file: &str)
        requires
            old(self).wf(),
        ensures
            final(self).wf(),
            forall|a: Seq<char>, b: Seq<char>|
                final(self).dep_edge(a, b) == (old(self).dep_edge(a, b) && a != file@),
            final(self).log == old(self).log,
            final(self).cursors == old(self).cursors,
    {
        let ghost deps0 = self.dependencies@;
        let ghost rdeps0 = self.dependents@;
        drop_source(&mut self.dependencies, &mut self.dependents, file);
        proof {
            assert forall|a: Seq<char>, b: Seq<char>|
                has_edge(self.dependents@, a, b) == (has_edge(rdeps0, a, b) && b != file@) by {
                if b == file@ && has_edge(rdeps0, a, b) {
                    assert(has_edge(deps0, file@, a));
                }
            }
            assert forall|a: Seq<char>, b: Seq<char>|
                has_edge(self.dependencies@, a, b) == has_edge(self.dependents@, b, a) by {
                assert(has_edge(self.dependencies@, a, b) == (has_edge(deps0, a, b) && a
                    != file@));
                assert(has_edge(self.dependents@, b, a) == (has_edge(rdeps0, b, a) && a
                    != file@));
            }
        }
    }

    /// Returns the total number of tracked dependency edges, saturating at
    /// the machine limit.
    pub fn dependencies_count(&self) -> (r: usize)
        requires
            self.wf(),
        ensures
            r == if count_of(self.dependencies@) <= usize::MAX {
                count_of(self.dependencies@)
            } else {
                usize::MAX as nat
            },
    {
        let mut c: usize = 0;
        let mut i: usize = 0;
        while i < self.dependencies.len()
            invariant
                i <= self.dependencies@.len(),
                c == if count_of(self.dependencies@.take(i as int)) <= usize::MAX {
                    count_of(self.dependencies@.take(i as int))
                } else {
                    usize::MAX as nat
                },
            decreases self.dependencies@.len() - i,
        {
            let ghost pre = self.dependencies@.take(i as int);
            let n = self.dependencies[i].1.len();
            if n > usize::MAX - c {
                c = usize::MAX;
            } else {
                c = c + n;
            }
            proof {
                let cur = self.dependencies@.take(i + 1);
                assert(cur.drop_last() =~= pre);
                assert(count_of(cur) == count_of(pre) + self.dependencies@[i as int].1@.len());
            }
            i = i + 1;
        }
        proof {
            assert(self.dependencies@.take(self.dependencies@.len() as int)
                =~= self.dependencies@);
        }
        c
    }
}

/// Law: the two directions of a well-formed graph are exact mirrors — an
/// edge `a` imports `b` stands in `dependencies` exactly when its reverse
/// stands in `dependents`. Every mutating operation preserves `wf`, so the
/// mirror survives any sequence of `add_dependency` and `remove_file` calls.
pub proof fn lemma_mirror(g: DependencyGraph, a: Seq<char>, b: Seq<char>)
    requires
        g.wf(),
    ensures
        has_edge(g.dependencies@, a, b) == has_edge(g.dependents@, b, a),
{
}

/// The total number of names listed in a table, summed over its entries.
pub open spec fn count_of(m: Seq<(String, Vec<String>)>) -> nat
    decreases m.len(),
{
    if m.len() == 0 {
        0
    } else {
        count_of(m.drop_last()) + m.last().1@.len()
    }
}

/// The state of `rev` part-way through `drop_source`: the mirrors of the
/// already-processed targets in `pre` are gone, everything else is intact.
spec fn rev_purged(
    rev: Seq<(String, Vec<String>)>,
    rev0: Seq<(String, Vec<String>)>,
    file: Seq<char>,
    pre: Seq<Seq<char>>,
) -> bool {
    forall|a: Seq<char>, b: Seq<char>|
        has_edge(rev, a, b) == (has_edge(rev0, a, b) && !(b == file && pre.contains(a)))
}

/// Removes the entry of `file` from `fwd` and erases `file` from the lists
/// of its former targets in `rev`: afterwards `fwd` has no edge out of
/// `file`, and `rev` lost exactly the mirrors of the dropped edges.
fn drop_source(fwd: &mut NameTable, rev: &mut NameTable, file: &str)
    requires
        table_wf(old(fwd)@),
        table_wf(old(rev)@),
    ensures
        table_wf(final(fwd)@),
        table_wf(final(rev)@),
        forall|a: Seq<char>, b: Seq<char>|
            has_edge(final(fwd)@, a, b) == (has_edge(old(fwd)@, a, b) && a != file@),
        forall|a: Seq<char>, b: Seq<char>|
            has_edge(final(rev)@, a, b) == (has_edge(old(rev)@, a, b) && !(b == file@
                && has_edge(old(fwd)@, file@, a))),
{
    let ghost fwd0 = fwd@;
    let ghost rev0 = rev@;
    let targets = entry_drop(fwd, file);
    let mut k: usize = 0;
    while k < targets.len()
        invariant
            k <= targets@.len(),
            table_wf(rev@),
            views_of(targets@).no_duplicates(),
            forall|b: Seq<char>| views_of(targets@).contains(b) == has_edge(fwd0, file@, b),
            rev_purged(rev@, rev0, file@, views_of(targets@.take(k as int))),
        decreases targets@.len() - k,
    {
        let ghost prevrev = rev@;
        entry_remove_name(rev, targets[k].as_str(), file);
        proof {
            let t0 = views_of(targets@.take(k as int));
            let t1 = views_of(targets@.take(k + 1));
            assert(t1 =~= t0.push(targets@[k as int]@));
            assert forall|a: Seq<char>, b: Seq<char>|
                has_edge(rev@, a, b) == (has_edge(rev0, a, b) && !(b == file@ && t1.contains(
                    a,
                ))) by {
                assert(has_edge(rev@, a, b) == (has_edge(prevrev, a, b) && !(a
                    == targets@[k as int]@ && b == file@)));
                if t1.contains(a) {
                    let j = choose|j: int| 0 <= j < t1.len() && t1[j] == a;
                    if j < t0.len() {
                        assert(t0[j] == a);
                    }
                }
                if t0.contains(a) {
                    let j = choose|j: int| 0 <= j < t0.len() && t0[j] == a;
                    assert(t1[j] == a);
                }
            }
            assert(rev_purged(rev@, rev0, file@, t1));
        }
        k = k + 1;
    }
    proof {
        assert(views_of(targets@.take(targets@.len() as int)) =~= views_of(targets@));
        assert forall|a: Seq<char>, b: Seq<char>|
            has_edge(rev@, a, b) == (has_edge(rev0, a, b) && !(b == file@ && has_edge(
                fwd0,
                file@,
                a,
            ))) by {
            assert(views_of(targets@).contains(a) == has_edge(fwd0, file@, a));
        }
    }
}

} // verus!
