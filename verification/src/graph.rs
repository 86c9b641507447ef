//! The typed relationship graph.
//!
//! Edges relate qualified symbol names under a relation kind, a string tag.
//! Two shapes exist: one-to-one (typing — at most one target per source) and
//! one-to-many (specialization chains and the like — an ordered target list
//! per source, duplicates preserved in insertion order). Targets are stored
//! as written in the source: they may name symbols not yet present, and are
//! resolved lazily at query time.

use vstd::prelude::*;

use crate::names::{str_eq, views_of};

verus! {

broadcast use vstd::seq_lib::group_seq_properties, vstd::prelude::Seq::lemma_push_map_commute,
    vstd::prelude::Seq::lemma_map_take_succ;

/// Relation kind tag: an element is typed by its target.
pub const REL_TYPING: &'static str = "typing";

/// Relation kind tag: an element specializes its targets.
pub const REL_SPECIALIZATION: &'static str = "specialization";

/// Relation kind tag: an element redefines its targets.
pub const REL_REDEFINITION: &'static str = "redefinition";

/// Relation kind tag: an element subsets its targets.
pub const REL_SUBSETTING: &'static str = "subsetting";

/// Relation kind tag: an element reference-subsets its targets.
pub const REL_REFERENCE_SUBSETTING: &'static str = "reference_subsetting";

/// Typed directed edges between symbol names.
#[derive(Debug)]
pub struct RelationshipGraph {
    /// One target per `(kind, source)` pair.
    pub one_to_one: Vec<(String, String, String)>,
    /// An ordered target list per `(kind, source)` pair.
    pub one_to_many: Vec<(String, String, Vec<String>)>,
}

impl RelationshipGraph {
    /// `(kind, source)` pairs are unique within each shape.
    pub open spec fn wf(self) -> bool {
        &&& forall|i: int, j: int|
            0 <= i < self.one_to_one@.len() && 0 <= j < self.one_to_one@.len() && i != j
                ==> !((#[trigger] self.one_to_one@[i]).0@ == (#[trigger] self.one_to_one@[j]).0@
                && self.one_to_one@[i].1@ == self.one_to_one@[j].1@)
        &&& forall|i: int, j: int|
            0 <= i < self.one_to_many@.len() && 0 <= j < self.one_to_many@.len() && i != j
                ==> !((#[trigger] self.one_to_many@[i]).0@ == (#[trigger] self.one_to_many@[j]).0@
                && self.one_to_many@[i].1@ == self.one_to_many@[j].1@)
    }

    /// Whether a one-to-one edge is stored for `(kind, source)`.
    pub open spec fn has_oo(self, kind: Seq<char>, source: Seq<char>) -> bool {
        exists|i: int|
            0 <= i < self.one_to_one@.len() && (#[trigger] self.one_to_one@[i]).0@ == kind
                && self.one_to_one@[i].1@ == source
    }

    /// The target of the one-to-one edge for `(kind, source)`.
    pub open spec fn oo_at(self, kind: Seq<char>, source: Seq<char>) -> Seq<char> {
        let i = choose|i: int|
            0 <= i < self.one_to_one@.len() && (#[trigger] self.one_to_one@[i]).0@ == kind
                && self.one_to_one@[i].1@ == source;
        self.one_to_one@[i].2@
    }

    /// Whether a one-to-many entry is stored for `(kind, source)`.
    pub open spec fn has_om(self, kind: Seq<char>, source: Seq<char>) -> bool {
        exists|i: int|
            0 <= i < self.one_to_many@.len() && (#[trigger] self.one_to_many@[i]).0@ == kind
                && self.one_to_many@[i].1@ == source
    }

    /// The ordered target list of the one-to-many entry for `(kind, source)`.
    pub open spec fn om_at(self, kind: Seq<char>, source: Seq<char>) -> Seq<Seq<char>> {
        let i = choose|i: int|
            0 <= i < self.one_to_many@.len() && (#[trigger] self.one_to_many@[i]).0@ == kind
                && self.one_to_many@[i].1@ == source;
        views_of(self.one_to_many@[i].2@)
    }

    pub fn new() -> (g: RelationshipGraph)
        ensures
            g.wf(),
            forall|k: Seq<char>, s: Seq<char>| !g.has_oo(k, s),
            forall|k: Seq<char>, s: Seq<char>| !g.has_om(k, s),
    {
        RelationshipGraph { one_to_one: Vec::new(), one_to_many: Vec::new() }
    }

    /// Stores the one-to-one edge `(kind, source) -> target`, replacing any
    /// earlier target for that pair. No other edge changes.
    pub fn add_one_to_one(&mut self, kind: &str, source: &str, target: &str)
        requires
            old(self).wf(),
        ensures
            final(self).wf(),
            final(self).one_to_many == old(self).one_to_many,
            forall|k: Seq<char>, s: Seq<char>|
                final(self).has_oo(k, s) == (old(self).has_oo(k, s) || (k == kind@ && s
                    == source@)),
            final(self).oo_at(kind@, source@) == target@,
            forall|k: Seq<char>, s: Seq<char>|
                old(self).has_oo(k, s) && !(k == kind@ && s == source@) ==> final(self).oo_at(
                    k,
                    s,
                ) == old(self).oo_at(k, s),
    {
        let ghost g0 = self.one_to_one@;
        let mut i: usize = 0;
        while i < self.one_to_one.len()
            invariant
                i <= self.one_to_one@.len(),
                self.one_to_one@ == g0,
                old(self).one_to_one@ == g0,
                old(self).wf(),
                self.wf(),
                self.one_to_many == old(self).one_to_many,
                forall|j: int|
                    0 <= j < i ==> !((#[trigger] g0[j]).0@ == kind@ && g0[j].1@ == source@),
            decreases self.one_to_one@.len() - i,
        {
            if str_eq(self.one_to_one[i].0.as_str(), kind) && str_eq(
                self.one_to_one[i].1.as_str(),
                source,
            ) {
                let ghost gi = i as int;
                let mut e = self.one_to_one.remove(i);
                e.2 = target.to_owned();
                self.one_to_one.insert(i, e);
                proof {
                    assert(self.one_to_one@ =~= g0.update(
                        gi,
                        (g0[gi].0, g0[gi].1, e.2),
                    ));
                    assert forall|k: Seq<char>, s: Seq<char>|
                        final(self).has_oo(k, s) == (old(self).has_oo(k, s) || (k == kind@ && s
                            == source@)) by {
                        if old(self).has_oo(k, s) {
                            let j = choose|j: int|
                                0 <= j < g0.len() && (#[trigger] g0[j]).0@ == k && g0[j].1@
                                    == s;
                            assert(self.one_to_one@[j].0@ == k && self.one_to_one@[j].1@ == s);
                        }
                        if final(self).has_oo(k, s) {
                            let j = choose|j: int|
                                0 <= j < self.one_to_one@.len() && (#[trigger] self.one_to_one@[j]).0@
                                    == k && self.one_to_one@[j].1@ == s;
                            assert(g0[j].0@ == k && g0[j].1@ == s);
                        }
                    }
                    assert forall|k: Seq<char>, s: Seq<char>|
                        final(self).has_oo(k, s) implies (if k == kind@ && s == source@ {
                        final(self).oo_at(k, s) == target@
                    } else {
                        old(self).has_oo(k, s) && final(self).oo_at(k, s) == old(self).oo_at(
                            k,
                            s,
                        )
                    }) by {
                        let j = choose|j: int|
                            0 <= j < self.one_to_one@.len() && (#[trigger] self.one_to_one@[j]).0@
                                == k && self.one_to_one@[j].1@ == s;
                        if k == kind@ && s == source@ {
                            assert(j == gi);
                        } else {
                            assert(g0[j].0@ == k && g0[j].1@ == s);
                            let j2 = choose|j2: int|
                                0 <= j2 < g0.len() && (#[trigger] g0[j2]).0@ == k && g0[j2].1@
                                    == s;
                            assert(j2 == j);
                        }
                    }
                    assert(final(self).has_oo(kind@, source@)) by {
                        assert(self.one_to_one@[gi].0@ == kind@ && self.one_to_one@[gi].1@
                            == source@);
                    }
                }
                return ;
            }
            i = i + 1;
        }
        self.one_to_one.push((kind.to_owned(), source.to_owned(), target.to_owned()));
        proof {
            let g1 = self.one_to_one@;
            assert(g1 =~= g0.push((g1.last().0, g1.last().1, g1.last().2)));
            assert forall|k: Seq<char>, s: Seq<char>|
                final(self).has_oo(k, s) == (old(self).has_oo(k, s) || (k == kind@ && s
                    == source@)) by {
                if old(self).has_oo(k, s) {
                    let j = choose|j: int|
                        0 <= j < g0.len() && (#[trigger] g0[j]).0@ == k && g0[j].1@ == s;
                    assert(g1[j].0@ == k && g1[j].1@ == s);
                }
                if final(self).has_oo(k, s) {
                    let j = choose|j: int|
                        0 <= j < g1.len() && (#[trigger] g1[j]).0@ == k && g1[j].1@ == s;
                    if j < g0.len() {
                        assert(g0[j].0@ == k && g0[j].1@ == s);
                    }
                }
                if k == kind@ && s == source@ {
                    assert(g1[g1.len() - 1].0@ == k && g1[g1.len() - 1].1@ == s);
                }
            }
            assert forall|k: Seq<char>, s: Seq<char>|
                final(self).has_oo(k, s) implies (if k == kind@ && s == source@ {
                final(self).oo_at(k, s) == target@
            } else {
                old(self).has_oo(k, s) && final(self).oo_at(k, s) == old(self).oo_at(k, s)
            }) by {
                let j = choose|j: int|
                    0 <= j < g1.len() && (#[trigger] g1[j]).0@ == k && g1[j].1@ == s;
                if k == kind@ && s == source@ {
                    assert(j == g1.len() - 1) by {
                        if j < g0.len() {
                            assert(g0[j].0@ == k && g0[j].1@ == s);
                        }
                    }
                } else {
                    assert(j < g0.len());
                    assert(g0[j].0@ == k && g0[j].1@ == s);
                    let j2 = choose|j2: int|
                        0 <= j2 < g0.len() && (#[trigger] g0[j2]).0@ == k && g0[j2].1@ == s;
                    assert(j2 == j);
                }
            }
            assert(final(self).has_oo(kind@, source@)) by {
                assert(g1[g1.len() - 1].0@ == kind@ && g1[g1.len() - 1].1@ == source@);
            }
        }
    }

    /// Looks up the one-to-one target for `(kind, source)`.
    pub fn get_one_to_one(&self, kind: &str, source: &str) -> (r: Option<&String>)
        requires
            self.wf(),
        ensures
            match r {
                Some(t) => self.has_oo(kind@, source@) && t@ == self.oo_at(kind@, source@),
                None => !self.has_oo(kind@, source@),
            },
    {
        let mut i: usize = 0;
        while i < self.one_to_one.len()
            invariant
                i <= self.one_to_one@.len(),
                self.wf(),
                forall|j: int|
                    0 <= j < i ==> !((#[trigger] self.one_to_one@[j]).0@ == kind@
                        && self.one_to_one@[j].1@ == source@),
            decreases self.one_to_one@.len() - i,
        {
            if str_eq(self.one_to_one[i].0.as_str(), kind) && str_eq(
                self.one_to_one[i].1.as_str(),
                source,
            ) {
                proof {
                    let j = choose|j: int|
                        0 <= j < self.one_to_one@.len() && (#[trigger] self.one_to_one@[j]).0@
                            == kind@ && self.one_to_one@[j].1@ == source@;
                    assert(j == i as int);
                }
                return Some(&self.one_to_one[i].2);
            }
            i = i + 1;
        }
        None
    }

    /// Appends `target` to the one-to-many list of `(kind, source)`,
    /// creating the entry if needed; duplicates are kept, in order. No
    /// other entry changes.
    pub fn add_one_to_many(&mut self, kind: &str, source: &str, target: &str)
        requires
            old(self).wf(),
        ensures
            final(self).wf(),
            final(self).one_to_one == old(self).one_to_one,
            forall|k: Seq<char>, s: Seq<char>|
                final(self).has_om(k, s) == (old(self).has_om(k, s) || (k == kind@ && s
                    == source@)),
            final(self).om_at(kind@, source@) == (if old(self).has_om(kind@, source@) {
                old(self).om_at(kind@, source@).push(target@)
            } else {
                seq![target@]
            }),
            forall|k: Seq<char>, s: Seq<char>|
                old(self).has_om(k, s) && !(k == kind@ && s == source@) ==> final(self).om_at(
                    k,
                    s,
                ) == old(self).om_at(k, s),
    {
        let ghost g0 = self.one_to_many@;
        let mut i: usize = 0;
        while i < self.one_to_many.len()
            invariant
                i <= self.one_to_many@.len(),
                self.one_to_many@ == g0,
                old(self).one_to_many@ == g0,
                old(self).wf(),
                self.wf(),
                self.one_to_one == old(self).one_to_one,
                forall|j: int|
                    0 <= j < i ==> !((#[trigger] g0[j]).0@ == kind@ && g0[j].1@ == source@),
            decreases self.one_to_many@.len() - i,
        {
            if str_eq(self.one_to_many[i].0.as_str(), kind) && str_eq(
                self.one_to_many[i].1.as_str(),
                source,
            ) {
                let ghost gi = i as int;
                let mut e = self.one_to_many.remove(i);
                e.2.push(target.to_owned());
                self.one_to_many.insert(i, e);
                proof {
                    assert(self.one_to_many@ =~= g0.update(gi, (e.0, e.1, e.2)));
                    assert(views_of(e.2@) =~= views_of(g0[gi].2@).push(target@));
                    assert forall|k: Seq<char>, s: Seq<char>|
                        final(self).has_om(k, s) == (old(self).has_om(k, s) || (k == kind@ && s
                            == source@)) by {
                        if old(self).has_om(k, s) {
                            let j = choose|j: int|
                                0 <= j < g0.len() && (#[trigger] g0[j]).0@ == k && g0[j].1@
                                    == s;
                            assert(self.one_to_many@[j].0@ == k && self.one_to_many@[j].1@
                                == s);
                        }
                        if final(self).has_om(k, s) {
                            let j = choose|j: int|
                                0 <= j < self.one_to_many@.len() && (#[trigger] self.one_to_many@[j]).0@
                                    == k && self.one_to_many@[j].1@ == s;
                            assert(g0[j].0@ == k && g0[j].1@ == s);
                        }
                    }
                    assert forall|k: Seq<char>, s: Seq<char>|
                        final(self).has_om(k, s) implies (if k == kind@ && s == source@ {
                        final(self).om_at(k, s) == views_of(e.2@)
                    } else {
                        old(self).has_om(k, s) && final(self).om_at(k, s) == old(self).om_at(
                            k,
                            s,
                        )
                    }) by {
                        let j = choose|j: int|
                            0 <= j < self.one_to_many@.len() && (#[trigger] self.one_to_many@[j]).0@
                                == k && self.one_to_many@[j].1@ == s;
                        if k == kind@ && s == source@ {
                            assert(j == gi);
                        } else {
                            assert(g0[j].0@ == k && g0[j].1@ == s);
                            let j2 = choose|j2: int|
                                0 <= j2 < g0.len() && (#[trigger] g0[j2]).0@ == k && g0[j2].1@
                                    == s;
                            assert(j2 == j);
                        }
                    }
                    assert(final(self).has_om(kind@, source@)) by {
                        assert(self.one_to_many@[gi].0@ == kind@ && self.one_to_many@[gi].1@
                            == source@);
                    }
                    assert(old(self).has_om(kind@, source@)) by {
                        assert(g0[gi].0@ == kind@ && g0[gi].1@ == source@);
                    }
                    assert(old(self).om_at(kind@, source@) == views_of(g0[gi].2@)) by {
                        let j2 = choose|j2: int|
                            0 <= j2 < g0.len() && (#[trigger] g0[j2]).0@ == kind@ && g0[j2].1@
                                == source@;
                        assert(j2 == gi);
                    }
                }
                return ;
            }
            i = i + 1;
        }
        let mut targets: Vec<String> = Vec::new();
        targets.push(target.to_owned());
        self.one_to_many.push((kind.to_owned(), source.to_owned(), targets));
        proof {
            let g1 = self.one_to_many@;
            assert(views_of(g1.last().2@) =~= seq![target@]);
            assert forall|k: Seq<char>, s: Seq<char>|
                final(self).has_om(k, s) == (old(self).has_om(k, s) || (k == kind@ && s
                    == source@)) by {
                if old(self).has_om(k, s) {
                    let j = choose|j: int|
                        0 <= j < g0.len() && (#[trigger] g0[j]).0@ == k && g0[j].1@ == s;
                    assert(g1[j].0@ == k && g1[j].1@ == s);
                }
                if final(self).has_om(k, s) {
                    let j = choose|j: int|
                        0 <= j < g1.len() && (#[trigger] g1[j]).0@ == k && g1[j].1@ == s;
                    if j < g0.len() {
                        assert(g0[j].0@ == k && g0[j].1@ == s);
                    }
                }
                if k == kind@ && s == source@ {
                    assert(g1[g1.len() - 1].0@ == k && g1[g1.len() - 1].1@ == s);
                }
            }
            assert(!old(self).has_om(kind@, source@));
            assert forall|k: Seq<char>, s: Seq<char>|
                final(self).has_om(k, s) implies (if k == kind@ && s == source@ {
                final(self).om_at(k, s) == seq![target@]
            } else {
                old(self).has_om(k, s) && final(self).om_at(k, s) == old(self).om_at(k, s)
            }) by {
                let j = choose|j: int|
                    0 <= j < g1.len() && (#[trigger] g1[j]).0@ == k && g1[j].1@ == s;
                if k == kind@ && s == source@ {
                    assert(j == g1.len() - 1) by {
                        if j < g0.len() {
                            assert(g0[j].0@ == k && g0[j].1@ == s);
                        }
                    }
                } else {
                    assert(j < g0.len());
                    assert(g0[j].0@ == k && g0[j].1@ == s);
                    let j2 = choose|j2: int|
                        0 <= j2 < g0.len() && (#[trigger] g0[j2]).0@ == k && g0[j2].1@ == s;
                    assert(j2 == j);
                }
            }
            assert(final(self).has_om(kind@, source@)) by {
                assert(g1[g1.len() - 1].0@ == kind@ && g1[g1.len() - 1].1@ == source@);
            }
        }
    }

    /// Looks up the one-to-many target list for `(kind, source)`.
    pub fn get_one_to_many(&self, kind: &str, source: &str) -> (r: Option<&Vec<String>>)
        requires
            self.wf(),
        ensures
            match r {
                Some(ts) => self.has_om(kind@, source@) && views_of(ts@) == self.om_at(
                    kind@,
                    source@,
                ),
                None => !self.has_om(kind@, source@),
            },
    {
        let mut i: usize = 0;
        while i < self.one_to_many.len()
            invariant
                i <= self.one_to_many@.len(),
                self.wf(),
                forall|j: int|
                    0 <= j < i ==> !((#[trigger] self.one_to_many@[j]).0@ == kind@
                        && self.one_to_many@[j].1@ == source@),
            decreases self.one_to_many@.len() - i,
        {
            if str_eq(self.one_to_many[i].0.as_str(), kind) && str_eq(
                self.one_to_many[i].1.as_str(),
                source,
            ) {
                proof {
                    let j = choose|j: int|
                        0 <= j < self.one_to_many@.len() && (#[trigger] self.one_to_many@[j]).0@
                            == kind@ && self.one_to_many@[j].1@ == source@;
                    assert(j == i as int);
                }
                return Some(&self.one_to_many[i].2);
            }
            i = i + 1;
        }
        None
    }

    /// Removes every edge, of either shape, whose source is one of
    /// `sources`. Bulk removal is file-scoped: the workspace passes the
    /// qualified names owned by the file being removed.
    pub fn remove_edges_with_sources(&mut self, sources: &Vec<String>)
        requires
            old(self).wf(),
        ensures
            final(self).wf(),
            forall|k: Seq<char>, s: Seq<char>|
                final(self).has_oo(k, s) == (old(self).has_oo(k, s) && !views_of(
                    sources@,
                ).contains(s)),
            forall|k: Seq<char>, s: Seq<char>|
                final(self).has_om(k, s) == (old(self).has_om(k, s) && !views_of(
                    sources@,
                ).contains(s)),
            forall|k: Seq<char>, s: Seq<char>|
                final(self).has_oo(k, s) ==> final(self).oo_at(k, s) == old(self).oo_at(k, s),
            forall|k: Seq<char>, s: Seq<char>|
                final(self).has_om(k, s) ==> final(self).om_at(k, s) == old(self).om_at(k, s),
    {
        let ghost o0 = self.one_to_one@;
        let ghost m0 = self.one_to_many@;
        let ghost srcs = views_of(sources@);
        let mut kept_oo: Vec<(String, String, String)> = Vec::new();
        let mut i: usize = 0;
        while i < self.one_to_one.len()
            invariant
                i <= self.one_to_one@.len(),
                self.one_to_one@ == o0,
                srcs == views_of(sources@),
                forall|a: int, b: int|
                    0 <= a < o0.len() && 0 <= b < o0.len() && a != b ==> !((#[trigger] o0[a]).0@
                        == (#[trigger] o0[b]).0@ && o0[a].1@ == o0[b].1@),
                forall|j: int|
                    0 <= j < kept_oo@.len() ==> oo_kept_from(#[trigger] kept_oo@[j], o0, i as int, srcs),
                forall|j0: int|
                    0 <= j0 < i && !srcs.contains((#[trigger] o0[j0]).1@)
                        ==> kept_oo@.contains(o0[j0]),
                forall|a: int, b: int|
                    0 <= a < kept_oo@.len() && 0 <= b < kept_oo@.len() && a != b ==> !((
                    #[trigger] kept_oo@[a]).0@ == (#[trigger] kept_oo@[b]).0@ && kept_oo@[a].1@
                        == kept_oo@[b].1@),
            decreases self.one_to_one@.len() - i,
        {
            if !crate::names::contains_name(sources, self.one_to_one[i].1.as_str()) {
                let ghost k0 = kept_oo@;
                kept_oo.push((
                    self.one_to_one[i].0.clone(),
                    self.one_to_one[i].1.clone(),
                    self.one_to_one[i].2.clone(),
                ));
                proof {
                    assert(kept_oo@ =~= k0.push(o0[i as int]));
                    assert forall|j0: int|
                        0 <= j0 < i + 1 && !srcs.contains(
                            (#[trigger] o0[j0]).1@,
                        ) implies kept_oo@.contains(o0[j0]) by {
                        if j0 < i {
                            assert(k0.contains(o0[j0]));
                            let q = choose|q: int| 0 <= q < k0.len() && k0[q] == o0[j0];
                            assert(kept_oo@[q] == o0[j0]);
                        } else {
                            assert(kept_oo@[kept_oo@.len() - 1] == o0[j0]);
                        }
                    }
                    assert forall|j: int|
                        0 <= j < kept_oo@.len() implies oo_kept_from(
                        #[trigger] kept_oo@[j],
                        o0,
                        i + 1,
                        srcs,
                    ) by {
                        if j < k0.len() {
                            lemma_oo_kept_mono(k0[j], o0, i as int, i + 1, srcs);
                        } else {
                            assert(kept_oo@[j] == o0[i as int] && !srcs.contains(
                                o0[i as int].1@,
                            ));
                        }
                    }
                    assert forall|a: int, b: int|
                        0 <= a < kept_oo@.len() && 0 <= b < kept_oo@.len() && a != b implies !((
                    #[trigger] kept_oo@[a]).0@ == (#[trigger] kept_oo@[b]).0@ && kept_oo@[a].1@
                        == kept_oo@[b].1@) by {
                        if a < k0.len() && b == k0.len() {
                            let j0 = choose|j0: int|
                                0 <= j0 < i && k0[a] == #[trigger] o0[j0] && !srcs.contains(
                                    o0[j0].1@,
                                );
                            assert(kept_oo@[b] == o0[i as int]);
                        } else if b < k0.len() && a == k0.len() {
                            let j0 = choose|j0: int|
                                0 <= j0 < i && k0[b] == #[trigger] o0[j0] && !srcs.contains(
                                    o0[j0].1@,
                                );
                            assert(kept_oo@[a] == o0[i as int]);
                        }
                    }
                }
            } else {
                proof {
                    assert forall|j: int|
                        0 <= j < kept_oo@.len() implies oo_kept_from(
                        #[trigger] kept_oo@[j],
                        o0,
                        i + 1,
                        srcs,
                    ) by {
                        lemma_oo_kept_mono(kept_oo@[j], o0, i as int, i + 1, srcs);
                    }
                }
            }
            i = i + 1;
        }
        self.one_to_one = kept_oo;
        let ghost oo1 = self.one_to_one@;
        let mut kept_om: Vec<(String, String, Vec<String>)> = Vec::new();
        let mut p: usize = 0;
        while p < self.one_to_many.len()
            invariant
                p <= self.one_to_many@.len(),
                self.one_to_many@ == m0,
                self.one_to_one@ == oo1,
                srcs == views_of(sources@),
                forall|a: int, b: int|
                    0 <= a < m0.len() && 0 <= b < m0.len() && a != b ==> !((#[trigger] m0[a]).0@
                        == (#[trigger] m0[b]).0@ && m0[a].1@ == m0[b].1@),
                forall|j: int|
                    0 <= j < kept_om@.len() ==> om_kept_from(#[trigger] kept_om@[j], m0, p as int, srcs),
                forall|j0: int|
                    0 <= j0 < p && !srcs.contains((#[trigger] m0[j0]).1@)
                        ==> om_present(kept_om@, m0[j0]),
                forall|a: int, b: int|
                    0 <= a < kept_om@.len() && 0 <= b < kept_om@.len() && a != b ==> !((
                    #[trigger] kept_om@[a]).0@ == (#[trigger] kept_om@[b]).0@ && kept_om@[a].1@
                        == kept_om@[b].1@),
            decreases self.one_to_many@.len() - p,
        {
            if !crate::names::contains_name(sources, self.one_to_many[p].1.as_str()) {
                let ghost k0 = kept_om@;
                let e = (
                    self.one_to_many[p].0.clone(),
                    self.one_to_many[p].1.clone(),
                    crate::names::copy_names(&self.one_to_many[p].2),
                );
                kept_om.push(e);
                proof {
                    assert(kept_om@ =~= k0.push(kept_om@.last()));
                    assert(kept_om@.last().0@ == m0[p as int].0@ && kept_om@.last().1@
                        == m0[p as int].1@ && views_of(kept_om@.last().2@) == views_of(
                        m0[p as int].2@,
                    ));
                    assert forall|j0: int|
                        0 <= j0 < p + 1 && !srcs.contains(
                            (#[trigger] m0[j0]).1@,
                        ) implies om_present(kept_om@, m0[j0]) by {
                        if j0 < p {
                            assert(om_present(k0, m0[j0]));
                            let q = choose|q: int|
                                0 <= q < k0.len() && (#[trigger] k0[q]).0@ == m0[j0].0@
                                    && k0[q].1@ == m0[j0].1@ && views_of(k0[q].2@) == views_of(
                                    m0[j0].2@,
                                );
                            assert(kept_om@[q].0@ == m0[j0].0@ && kept_om@[q].1@ == m0[j0].1@
                                && views_of(kept_om@[q].2@) == views_of(m0[j0].2@));
                        } else {
                            let q = kept_om@.len() - 1;
                            assert(kept_om@[q].0@ == m0[j0].0@ && kept_om@[q].1@ == m0[j0].1@
                                && views_of(kept_om@[q].2@) == views_of(m0[j0].2@));
                        }
                    }
                    assert forall|j: int|
                        0 <= j < kept_om@.len() implies om_kept_from(
                        #[trigger] kept_om@[j],
                        m0,
                        p + 1,
                        srcs,
                    ) by {
                        if j < k0.len() {
                            lemma_om_kept_mono(k0[j], m0, p as int, p + 1, srcs);
                        } else {
                            assert(kept_om@[j].0@ == m0[p as int].0@ && kept_om@[j].1@
                                == m0[p as int].1@ && views_of(kept_om@[j].2@) == views_of(
                                m0[p as int].2@,
                            ) && !srcs.contains(m0[p as int].1@));
                        }
                    }
                    assert forall|a: int, b: int|
                        0 <= a < kept_om@.len() && 0 <= b < kept_om@.len() && a != b implies !((
                    #[trigger] kept_om@[a]).0@ == (#[trigger] kept_om@[b]).0@ && kept_om@[a].1@
                        == kept_om@[b].1@) by {
                        if a < k0.len() && b == k0.len() {
                            let j0 = choose|j0: int|
                                0 <= j0 < p && k0[a].0@ == (#[trigger] m0[j0]).0@ && k0[a].1@
                                    == m0[j0].1@ && views_of(k0[a].2@) == views_of(m0[j0].2@)
                                    && !srcs.contains(m0[j0].1@);
                            assert(kept_om@[b].0@ == m0[p as int].0@ && kept_om@[b].1@
                                == m0[p as int].1@);
                        } else if b < k0.len() && a == k0.len() {
                            let j0 = choose|j0: int|
                                0 <= j0 < p && k0[b].0@ == (#[trigger] m0[j0]).0@ && k0[b].1@
                                    == m0[j0].1@ && views_of(k0[b].2@) == views_of(m0[j0].2@)
                                    && !srcs.contains(m0[j0].1@);
                            assert(kept_om@[a].0@ == m0[p as int].0@ && kept_om@[a].1@
                                == m0[p as int].1@);
                        }
                    }
                }
            } else {
                proof {
                    assert forall|j: int|
                        0 <= j < kept_om@.len() implies om_kept_from(
                        #[trigger] kept_om@[j],
                        m0,
                        p + 1,
                        srcs,
                    ) by {
                        lemma_om_kept_mono(kept_om@[j], m0, p as int, p + 1, srcs);
                    }
                }
            }
            p = p + 1;
        }
        self.one_to_many = kept_om;
        proof {
            let om1 = self.one_to_many@;
            assert(final(self).wf());
            assert forall|k: Seq<char>, s: Seq<char>|
                final(self).has_oo(k, s) == (old(self).has_oo(k, s) && !srcs.contains(
                    s,
                )) by {
                if final(self).has_oo(k, s) {
                    let j = choose|j: int|
                        0 <= j < oo1.len() && (#[trigger] oo1[j]).0@ == k && oo1[j].1@ == s;
                    assert(oo_kept_from(oo1[j], o0, o0.len() as int, srcs));
                    let j0 = choose|j0: int|
                        0 <= j0 < o0.len() && oo1[j] == o0[j0] && !srcs.contains(o0[j0].1@);
                    assert(o0[j0].0@ == k && o0[j0].1@ == s);
                }
                if old(self).has_oo(k, s) && !srcs.contains(s) {
                    let j0 = choose|j0: int|
                        0 <= j0 < o0.len() && (#[trigger] o0[j0]).0@ == k && o0[j0].1@ == s;
                    assert(oo1.contains(o0[j0]));
                    let q = choose|q: int| 0 <= q < oo1.len() && oo1[q] == o0[j0];
                    assert(oo1[q].0@ == k && oo1[q].1@ == s);
                }
            }
            assert forall|k: Seq<char>, s: Seq<char>|
                final(self).has_oo(k, s) implies final(self).oo_at(k, s) == old(self).oo_at(
                k,
                s,
            ) by {
                let j = choose|j: int|
                    0 <= j < oo1.len() && (#[trigger] oo1[j]).0@ == k && oo1[j].1@ == s;
                assert(oo_kept_from(oo1[j], o0, o0.len() as int, srcs));
                let j0 = choose|j0: int|
                    0 <= j0 < o0.len() && oo1[j] == o0[j0] && !srcs.contains(o0[j0].1@);
                assert(o0[j0].0@ == k && o0[j0].1@ == s);
                let j1 = choose|j1: int|
                    0 <= j1 < o0.len() && (#[trigger] o0[j1]).0@ == k && o0[j1].1@ == s;
                assert(j1 == j0);
                assert(old(self).oo_at(k, s) == o0[j0].2@);
                let jf = choose|jf: int|
                    0 <= jf < oo1.len() && (#[trigger] oo1[jf]).0@ == k && oo1[jf].1@ == s;
                assert(jf == j);
            }
            assert forall|k: Seq<char>, s: Seq<char>|
                final(self).has_om(k, s) == (old(self).has_om(k, s) && !srcs.contains(
                    s,
                )) by {
                if final(self).has_om(k, s) {
                    let j = choose|j: int|
                        0 <= j < om1.len() && (#[trigger] om1[j]).0@ == k && om1[j].1@ == s;
                    assert(om_kept_from(om1[j], m0, m0.len() as int, srcs));
                    let j0 = choose|j0: int|
                        0 <= j0 < m0.len() && (#[trigger] om1[j]).0@ == m0[j0].0@ && om1[j].1@
                            == m0[j0].1@ && views_of(om1[j].2@) == views_of(m0[j0].2@)
                            && !srcs.contains(m0[j0].1@);
                    assert(m0[j0].0@ == k && m0[j0].1@ == s);
                }
                if old(self).has_om(k, s) && !srcs.contains(s) {
                    let j0 = choose|j0: int|
                        0 <= j0 < m0.len() && (#[trigger] m0[j0]).0@ == k && m0[j0].1@ == s;
                    assert(om_present(om1, m0[j0]));
                    let q = choose|q: int|
                        0 <= q < om1.len() && (#[trigger] om1[q]).0@ == m0[j0].0@ && om1[q].1@
                            == m0[j0].1@ && views_of(om1[q].2@) == views_of(m0[j0].2@);
                    assert(om1[q].0@ == k && om1[q].1@ == s);
                }
            }
            assert forall|k: Seq<char>, s: Seq<char>|
                final(self).has_om(k, s) implies final(self).om_at(k, s) == old(self).om_at(
                k,
                s,
            ) by {
                let j = choose|j: int|
                    0 <= j < om1.len() && (#[trigger] om1[j]).0@ == k && om1[j].1@ == s;
                assert(om_kept_from(om1[j], m0, m0.len() as int, srcs));
                let j0 = choose|j0: int|
                    0 <= j0 < m0.len() && (#[trigger] om1[j]).0@ == m0[j0].0@ && om1[j].1@
                        == m0[j0].1@ && views_of(om1[j].2@) == views_of(m0[j0].2@)
                        && !srcs.contains(m0[j0].1@);
                assert(m0[j0].0@ == k && m0[j0].1@ == s);
                let j1 = choose|j1: int|
                    0 <= j1 < m0.len() && (#[trigger] m0[j1]).0@ == k && m0[j1].1@ == s;
                assert(j1 == j0);
                assert(old(self).om_at(k, s) == views_of(m0[j0].2@));
                let jf = choose|jf: int|
                    0 <= jf < om1.len() && (#[trigger] om1[jf]).0@ == k && om1[jf].1@ == s;
                assert(jf == j);
            }
        }
    }
}

/// The kept one-to-one entry `e` stems from one of the first `bound`
/// original entries, whose source is not among `srcs`.
pub open spec fn oo_kept_from(
    e: (String, String, String),
    o0: Seq<(String, String, String)>,
    bound: int,
    srcs: Seq<Seq<char>>,
) -> bool {
    exists|j0: int| 0 <= j0 < bound && e == #[trigger] o0[j0] && !srcs.contains(o0[j0].1@)
}

proof fn lemma_oo_kept_mono(
    e: (String, String, String),
    o0: Seq<(String, String, String)>,
    b1: int,
    b2: int,
    srcs: Seq<Seq<char>>,
)
    requires
        oo_kept_from(e, o0, b1, srcs),
        b1 <= b2,
    ensures
        oo_kept_from(e, o0, b2, srcs),
{
    let j0 = choose|j0: int| 0 <= j0 < b1 && e == #[trigger] o0[j0] && !srcs.contains(o0[j0].1@);
    assert(0 <= j0 < b2 && e == o0[j0] && !srcs.contains(o0[j0].1@));
}

/// The kept one-to-many entry `e` matches, up to string views, one of the
/// first `bound` original entries, whose source is not among `srcs`.
pub open spec fn om_kept_from(
    e: (String, String, Vec<String>),
    m0: Seq<(String, String, Vec<String>)>,
    bound: int,
    srcs: Seq<Seq<char>>,
) -> bool {
    exists|j0: int|
        0 <= j0 < bound && e.0@ == (#[trigger] m0[j0]).0@ && e.1@ == m0[j0].1@ && views_of(e.2@)
            == views_of(m0[j0].2@) && !srcs.contains(m0[j0].1@)
}

proof fn lemma_om_kept_mono(
    e: (String, String, Vec<String>),
    m0: Seq<(String, String, Vec<String>)>,
    b1: int,
    b2: int,
    srcs: Seq<Seq<char>>,
)
    requires
        om_kept_from(e, m0, b1, srcs),
        b1 <= b2,
    ensures
        om_kept_from(e, m0, b2, srcs),
{
    let j0 = choose|j0: int|
        0 <= j0 < b1 && e.0@ == (#[trigger] m0[j0]).0@ && e.1@ == m0[j0].1@ && views_of(e.2@)
            == views_of(m0[j0].2@) && !srcs.contains(m0[j0].1@);
    assert(0 <= j0 < b2 && e.0@ == m0[j0].0@ && e.1@ == m0[j0].1@ && views_of(e.2@) == views_of(
        m0[j0].2@,
    ) && !srcs.contains(m0[j0].1@));
}

/// A one-to-many entry with the views of `e` stands somewhere in `kept`.
pub open spec fn om_present(
    kept: Seq<(String, String, Vec<String>)>,
    e: (String, String, Vec<String>),
) -> bool {
    exists|q: int|
        0 <= q < kept.len() && (#[trigger] kept[q]).0@ == e.0@ && kept[q].1@ == e.1@ && views_of(
            kept[q].2@,
        ) == views_of(e.2@)
}

} // verus!
