//! Reference collection.
//!
//! A one-shot pass over the symbol table: for every symbol that has both a
//! span and a source file, every relationship target of its qualified name
//! is resolved — by exact key, then by unqualified name — and the symbol's
//! file and span are recorded against the resolved target. Symbols whose
//! targets resolve to nothing record nothing. The pass is rerun wholesale
//! after population; it is not maintained incrementally.

use vstd::prelude::*;

use crate::graph::{RelationshipGraph, REL_REDEFINITION, REL_REFERENCE_SUBSETTING,
    REL_SPECIALIZATION, REL_SUBSETTING, REL_TYPING};
use crate::names::views_of;
use crate::symbols::{resolve_target, SymbolReference, SymbolReferenceView, SymbolTable,
    SymbolView};

verus! {

broadcast use vstd::seq_lib::group_seq_properties, vstd::prelude::Seq::lemma_push_map_commute,
    vstd::prelude::Seq::lemma_map_take_succ;

/// The one-to-many target list for `(kind, source)`, or the empty list.
pub open spec fn om_list(g: RelationshipGraph, kind: Seq<char>, source: Seq<char>) -> Seq<
    Seq<char>,
> {
    if g.has_om(kind, source) {
        g.om_at(kind, source)
    } else {
        Seq::empty()
    }
}

/// Every relationship target recorded for the symbol named `q`: the typing
/// target if there is one, then the one-to-many targets, relation kind by
/// relation kind.
pub open spec fn targets_of(g: RelationshipGraph, q: Seq<char>) -> Seq<Seq<char>> {
    (if g.has_oo(REL_TYPING@, q) {
        seq![g.oo_at(REL_TYPING@, q)]
    } else {
        Seq::empty()
    }) + om_list(g, REL_SPECIALIZATION@, q) + om_list(g, REL_REDEFINITION@, q) + om_list(
        g,
        REL_SUBSETTING@,
        q,
    ) + om_list(g, REL_REFERENCE_SUBSETTING@, q)
}

/// One target applied: resolved, it records the reference against the
/// resolved symbol; unresolved, it records nothing.
pub open spec fn apply_target(
    t: Seq<(Seq<char>, SymbolView)>,
    target: Seq<char>,
    r: SymbolReferenceView,
) -> Seq<(Seq<char>, SymbolView)> {
    match resolve_target(t, target) {
        Some(j) => t.update(
            j,
            (t[j].0, SymbolView { references: t[j].1.references.push(r), ..t[j].1 }),
        ),
        None => t,
    }
}

/// A list of targets applied in order.
pub open spec fn apply_targets(
    t: Seq<(Seq<char>, SymbolView)>,
    targets: Seq<Seq<char>>,
    r: SymbolReferenceView,
) -> Seq<(Seq<char>, SymbolView)>
    decreases targets.len(),
{
    if targets.len() == 0 {
        t
    } else {
        apply_target(apply_targets(t, targets.drop_last(), r), targets.last(), r)
    }
}

/// One collection step: the symbol at index `i` contributes references to
/// all its targets, provided it has both a span and a source file.
pub open spec fn collect_step(
    t: Seq<(Seq<char>, SymbolView)>,
    g: RelationshipGraph,
    i: int,
) -> Seq<(Seq<char>, SymbolView)> {
    if t[i].1.span is Some && t[i].1.source_file is Some {
        apply_targets(
            t,
            targets_of(g, t[i].1.qualified_name),
            SymbolReferenceView { file: t[i].1.source_file->Some_0, span: t[i].1.span->Some_0 },
        )
    } else {
        t
    }
}

/// The collection pass over the first `i` symbols, in table order.
pub open spec fn collect_upto(
    t: Seq<(Seq<char>, SymbolView)>,
    g: RelationshipGraph,
    i: int,
) -> Seq<(Seq<char>, SymbolView)>
    decreases i,
{
    if i <= 0 {
        t
    } else {
        collect_step(collect_upto(t, g, i - 1), g, i - 1)
    }
}

/// Collects all references and fills the `references` field of the symbols
/// they resolve to.
pub struct ReferenceCollector {}

impl ReferenceCollector {
    pub fn new() -> (r: ReferenceCollector) {
        ReferenceCollector {  }
    }

    /// Runs the pass over the whole table.
    #[verifier::rlimit(60)]
    pub fn collect(&self, symbol_table: &mut SymbolTable, relationship_graph: &RelationshipGraph)
        requires
            old(symbol_table).wf(),
            relationship_graph.wf(),
        ensures
            final(symbol_table).wf(),
            final(symbol_table)@ == collect_upto(
                old(symbol_table)@,
                *relationship_graph,
                old(symbol_table)@.len() as int,
            ),
    {
        let ghost t0 = symbol_table@;
        let n = symbol_table.len();
        let mut i: usize = 0;
        while i < n
            invariant
                i <= n,
                n == t0.len(),
                symbol_table.wf(),
                relationship_graph.wf(),
                symbol_table@.len() == t0.len(),
                symbol_table@ == collect_upto(t0, *relationship_graph, i as int),
            decreases n - i,
        {
            let ghost tcur = symbol_table@;
            let entry = symbol_table.entry_at(i);
            let has_both = entry.1.span.is_some() && entry.1.source_file.is_some();
            if has_both {
                let q = entry.1.qualified_name.clone();
                let span = match entry.1.span {
                    Some(s) => s,
                    None => {
                        proof {
                            assert(false);
                        }
                        crate::syntax::Span { start: 0, end: 0 }
                    },
                };
                let file = match &entry.1.source_file {
                    Some(f) => f.clone(),
                    None => {
                        proof {
                            assert(false);
                        }
                        String::new()
                    },
                };
                let ghost rv = SymbolReferenceView { file: file@, span: span };
                let targets = gather_targets(relationship_graph, q.as_str());
                proof {
                    assert(rv == SymbolReferenceView {
                        file: tcur[i as int].1.source_file->Some_0,
                        span: tcur[i as int].1.span->Some_0,
                    });
                }
                let mut k: usize = 0;
                while k < targets.len()
                    invariant
                        k <= targets@.len(),
                        symbol_table.wf(),
                        relationship_graph.wf(),
                        symbol_table@.len() == tcur.len(),
                        rv == (SymbolReferenceView { file: file@, span: span }),
                        symbol_table@ == apply_targets(
                            tcur,
                            views_of(targets@).take(k as int),
                            rv,
                        ),
                    decreases targets@.len() - k,
                {
                    let ghost tprev = symbol_table@;
                    match symbol_table.resolve_index(targets[k].as_str()) {
                        Some(j) => {
                            let newref = SymbolReference { file: file.clone(), span: span };
                            proof {
                                assert(newref@ == rv);
                                assert(resolve_target(tprev, targets@[k as int]@) == Some(
                                    j as int,
                                ));
                            }
                            symbol_table.add_reference_at_index(j, newref);
                            proof {
                                assert(symbol_table@ == apply_target(
                                    tprev,
                                    targets@[k as int]@,
                                    rv,
                                ));
                            }
                        },
                        None => {
                            proof {
                                assert(resolve_target(tprev, targets@[k as int]@) is None);
                                assert(symbol_table@ == apply_target(
                                    tprev,
                                    targets@[k as int]@,
                                    rv,
                                ));
                            }
                        },
                    }
                    proof {
                        let tk = views_of(targets@);
                        assert(tk.take(k + 1).drop_last() =~= tk.take(k as int));
                        assert(tk.take(k + 1).last() == tk[k as int]);
                        assert(tk[k as int] == targets@[k as int]@);
                        assert(symbol_table@ == apply_targets(tcur, tk.take(k + 1), rv));
                    }
                    k = k + 1;
                }
                proof {
                    assert(views_of(targets@).take(views_of(targets@).len() as int)
                        == views_of(targets@));
                    assert(views_of(targets@) == targets_of(
                        *relationship_graph,
                        tcur[i as int].1.qualified_name,
                    ));
                    assert(symbol_table@ == collect_step(tcur, *relationship_graph, i as int));
                }
            } else {
                proof {
                    assert(symbol_table@ == collect_step(tcur, *relationship_graph, i as int));
                }
            }
            i = i + 1;
        }
    }
}

/// Reads every relationship target of `q` out of the graph, in the order
/// the collection spec lists them.
fn gather_targets(g: &RelationshipGraph, q: &str) -> (r: Vec<String>)
    requires
        g.wf(),
    ensures
        views_of(r@) == targets_of(*g, q@),
{
    let mut out: Vec<String> = Vec::new();
    match g.get_one_to_one(crate::graph::REL_TYPING, q) {
        Some(t) => {
            out.push(t.clone());
            proof {
                assert(views_of(out@) =~= seq![g.oo_at(REL_TYPING@, q@)]);
            }
        },
        None => {
            proof {
                assert(views_of(out@) =~= Seq::<Seq<char>>::empty());
            }
        },
    }
    let ghost base = views_of(out@);
    append_om(&mut out, g, crate::graph::REL_SPECIALIZATION, q);
    proof {
        assert(views_of(out@) == base + om_list(*g, REL_SPECIALIZATION@, q@));
    }
    let ghost base2 = views_of(out@);
    append_om(&mut out, g, crate::graph::REL_REDEFINITION, q);
    let ghost base3 = views_of(out@);
    append_om(&mut out, g, crate::graph::REL_SUBSETTING, q);
    let ghost base4 = views_of(out@);
    append_om(&mut out, g, crate::graph::REL_REFERENCE_SUBSETTING, q);
    proof {
        assert(views_of(out@) =~= targets_of(*g, q@));
    }
    out
}

/// Appends the one-to-many targets of `(kind, q)` to `out`.
fn append_om(out: &mut Vec<String>, g: &RelationshipGraph, kind: &str, q: &str)
    requires
        g.wf(),
    ensures
        views_of(final(out)@) == views_of(old(out)@) + om_list(*g, kind@, q@),
{
    let ghost base = views_of(old(out)@);
    match g.get_one_to_many(kind, q) {
        Some(ts) => {
            let mut k: usize = 0;
            while k < ts.len()
                invariant
                    k <= ts@.len(),
                    views_of(out@) =~= base + views_of(ts@).take(k as int),
                decreases ts@.len() - k,
            {
                out.push(ts[k].clone());
                proof {
                    assert(views_of(out@) =~= base + views_of(ts@).take(k + 1));
                }
                k = k + 1;
            }
            proof {
                assert(views_of(ts@).take(views_of(ts@).len() as int) == views_of(ts@));
                assert(views_of(out@) =~= base + om_list(*g, kind@, q@));
            }
        },
        None => {
            proof {
                assert(om_list(*g, kind@, q@) =~= Seq::<Seq<char>>::empty());
                assert(views_of(out@) =~= base + om_list(*g, kind@, q@));
            }
        },
    }
}

} // verus!
