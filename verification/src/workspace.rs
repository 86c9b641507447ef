//! The workspace: one symbol table, one relationship graph, one dependency
//! graph, and the set of loaded files.
//!
//! Adding a file populates it through the adapter of its dialect and
//! records its declared imports as dependency edges. Updating a file is
//! remove-then-add, after which the workspace reports which dependent files
//! are stale; re-populating them is the caller's decision. Removing a file
//! purges its symbols, the edges sourced from them, and its dependency
//! edges. Every mutation is recorded in an event log.

use vstd::prelude::*;

use crate::dependency_graph::DependencyGraph;
use crate::events::{WorkspaceEvent, WorkspaceEventView};
use crate::graph::RelationshipGraph;
use crate::names::views_of;
use crate::population::{model_of, oo_model, om_model, populate_syntax_file, syntax_apply,
    PopModel, SemanticError};
use crate::reference_collector::ReferenceCollector;
use crate::resolver::Resolver;
use crate::symbols::{owned_by, tbl_has_key, tbl_index, Symbol, SymbolTable, SymbolView};
use crate::syntax::{Element, SyntaxFile};

verus! {

broadcast use vstd::seq_lib::group_seq_properties, vstd::prelude::Seq::lemma_push_map_commute,
    vstd::prelude::Seq::lemma_map_take_succ;

/// The targets of the import declarations among `es`, in order.
pub open spec fn top_imports(es: Seq<Element>) -> Seq<Seq<char>>
    decreases es.len(),
{
    if es.len() == 0 {
        Seq::empty()
    } else {
        top_imports(es.drop_last()) + (match es.last() {
            Element::Import(i) => seq![i.target@],
            _ => Seq::empty(),
        })
    }
}

/// The imports a file declares at its top level.
pub open spec fn file_imports(f: SyntaxFile) -> Seq<Seq<char>> {
    match f {
        SyntaxFile::SysML(x) => top_imports(x.elements@),
        SyntaxFile::KerML(x) => top_imports(x.elements@),
    }
}

/// The dependency graph `dg` is `dg0` plus an edge from `path` to each
/// name in `pre`.
pub open spec fn deps_recorded(
    dg: DependencyGraph,
    dg0: DependencyGraph,
    path: Seq<char>,
    pre: Seq<Seq<char>>,
) -> bool {
    forall|a: Seq<char>, b: Seq<char>|
        dg.dep_edge(a, b) == (dg0.dep_edge(a, b) || (a == path && pre.contains(b)))
}

/// The symbol table `t1` is `t0` with every symbol owned by `file`
/// removed; the survivors keep their values.
pub open spec fn purged_syms(
    t0: Seq<(Seq<char>, SymbolView)>,
    t1: Seq<(Seq<char>, SymbolView)>,
    file: Seq<char>,
) -> bool {
    &&& forall|k: Seq<char>|
        tbl_has_key(t1, k) == (tbl_has_key(t0, k) && !owned_by(t0[tbl_index(t0, k)].1, file))
    &&& forall|k: Seq<char>|
        tbl_has_key(t1, k) ==> t1[tbl_index(t1, k)].1 == t0[tbl_index(t0, k)].1
}

/// The graph `g1` is `g0` with every edge removed whose source is a symbol
/// of `t0` owned by `file`; the surviving entries keep their targets.
pub open spec fn purged_edges(
    g0: RelationshipGraph,
    g1: RelationshipGraph,
    t0: Seq<(Seq<char>, SymbolView)>,
    file: Seq<char>,
) -> bool {
    &&& forall|k: Seq<char>, s: Seq<char>|
        g1.has_oo(k, s) == (g0.has_oo(k, s) && !(tbl_has_key(t0, s) && owned_by(
            t0[tbl_index(t0, s)].1,
            file,
        )))
    &&& forall|k: Seq<char>, s: Seq<char>|
        g1.has_om(k, s) == (g0.has_om(k, s) && !(tbl_has_key(t0, s) && owned_by(
            t0[tbl_index(t0, s)].1,
            file,
        )))
    &&& forall|k: Seq<char>, s: Seq<char>| g1.has_oo(k, s) ==> g1.oo_at(k, s) == g0.oo_at(k, s)
    &&& forall|k: Seq<char>, s: Seq<char>| g1.has_om(k, s) ==> g1.om_at(k, s) == g0.om_at(k, s)
}

/// One loaded file: its identifier, its stored tree, the errors its last
/// population produced, and whether a dependency change left it stale.
#[derive(Debug)]
pub struct WorkspaceFile {
    pub path: String,
    pub tree: SyntaxFile,
    pub errors: Vec<SemanticError>,
    pub needs_repopulation: bool,
}

/// Owns the semantic state of a multi-file project.
#[derive(Debug)]
pub struct Workspace {
    pub symbol_table: SymbolTable,
    pub relationship_graph: RelationshipGraph,
    pub dependency_graph: DependencyGraph,
    pub files: Vec<WorkspaceFile>,
    pub stdlib_loaded: bool,
    pub events: Vec<WorkspaceEvent>,
}

impl Workspace {
    /// The loaded file identifiers, in load order.
    pub open spec fn file_paths(self) -> Seq<Seq<char>> {
        self.files@.map_values(|f: WorkspaceFile| f.path@)
    }

    /// Whether `p` is loaded.
    pub open spec fn has_file(self, p: Seq<char>) -> bool {
        self.file_paths().contains(p)
    }

    /// The components are well formed and file identifiers are unique.
    pub open spec fn wf(self) -> bool {
        &&& self.symbol_table.wf()
        &&& self.relationship_graph.wf()
        &&& self.dependency_graph.wf()
        &&& self.file_paths().no_duplicates()
    }

    /// The events recorded so far.
    pub open spec fn event_views(self) -> Seq<WorkspaceEventView> {
        self.events@.map_values(|e: WorkspaceEvent| e@)
    }

    pub fn new() -> (w: Workspace)
        ensures
            w.wf(),
            w.symbol_table@ == Seq::<(Seq<char>, SymbolView)>::empty(),
            forall|k: Seq<char>, s: Seq<char>| !w.relationship_graph.has_oo(k, s),
            forall|k: Seq<char>, s: Seq<char>| !w.relationship_graph.has_om(k, s),
            forall|a: Seq<char>, b: Seq<char>| !w.dependency_graph.dep_edge(a, b),
            w.file_paths() == Seq::<Seq<char>>::empty(),
            !w.stdlib_loaded,
            w.event_views() == Seq::<WorkspaceEventView>::empty(),
    {
        let w = Workspace {
            symbol_table: SymbolTable::new(),
            relationship_graph: RelationshipGraph::new(),
            dependency_graph: DependencyGraph::new(),
            files: Vec::new(),
            stdlib_loaded: false,
            events: Vec::new(),
        };
        proof {
            assert(w.file_paths() =~= Seq::<Seq<char>>::empty());
            assert(w.event_views() =~= Seq::<WorkspaceEventView>::empty());
        }
        w
    }

    /// The shared symbol table.
    pub fn symbol_table(&self) -> (r: &SymbolTable)
        ensures
            r == &self.symbol_table,
    {
        &self.symbol_table
    }

    /// The shared relationship graph.
    pub fn relationship_graph(&self) -> (r: &RelationshipGraph)
        ensures
            r == &self.relationship_graph,
    {
        &self.relationship_graph
    }

    /// The shared dependency graph.
    pub fn dependency_graph(&self) -> (r: &DependencyGraph)
        ensures
            r == &self.dependency_graph,
    {
        &self.dependency_graph
    }

    /// A resolver over this workspace's symbol table.
    pub fn resolver(&self) -> (r: Resolver) {
        Resolver::new()
    }

    /// Resolves a qualified or bare name against the symbol table.
    pub fn resolve(&self, name: &str) -> (r: Option<&Symbol>)
        requires
            self.wf(),
        ensures
            match r {
                Some(s) => {
                    &&& crate::symbols::resolve_target(self.symbol_table@, name@) is Some
                    &&& s@ == self.symbol_table@[crate::symbols::resolve_target(
                        self.symbol_table@,
                        name@,
                    )->Some_0].1
                },
                None => crate::symbols::resolve_target(self.symbol_table@, name@) is None,
            },
    {
        Resolver::new().resolve(&self.symbol_table, name)
    }

    /// Runs the reference collector over the current snapshot.
    pub fn collect_references(&mut self)
        requires
            old(self).wf(),
        ensures
            final(self).wf(),
            final(self).symbol_table@ == crate::reference_collector::collect_upto(
                old(self).symbol_table@,
                old(self).relationship_graph,
                old(self).symbol_table@.len() as int,
            ),
            final(self).relationship_graph == old(self).relationship_graph,
            final(self).dependency_graph == old(self).dependency_graph,
            final(self).files == old(self).files,
            final(self).stdlib_loaded == old(self).stdlib_loaded,
            final(self).events == old(self).events,
    {
        let collector = ReferenceCollector::new();
        collector.collect(&mut self.symbol_table, &self.relationship_graph);
    }

    /// Latches the standard-library flag; it is never reset.
    pub fn mark_stdlib_loaded(&mut self)
        ensures
            final(self).stdlib_loaded,
            final(self).symbol_table == old(self).symbol_table,
            final(self).relationship_graph == old(self).relationship_graph,
            final(self).dependency_graph == old(self).dependency_graph,
            final(self).files == old(self).files,
            final(self).events == old(self).events,
    {
        self.stdlib_loaded = true;
    }

    /// Whether the standard library has been loaded.
    pub fn has_stdlib(&self) -> (r: bool)
        ensures
            r == self.stdlib_loaded,
    {
        self.stdlib_loaded
    }

    /// Whether `path` is currently loaded.
    pub fn has_file_loaded(&self, path: &str) -> (r: bool)
        ensures
            r == self.has_file(path@),
    {
        let mut i: usize = 0;
        while i < self.files.len()
            invariant
                i <= self.files@.len(),
                forall|j: int| 0 <= j < i ==> (#[trigger] self.files@[j]).path@ != path@,
            decreases self.files@.len() - i,
        {
            if crate::names::str_eq(self.files[i].path.as_str(), path) {
                proof {
                    assert(self.file_paths()[i as int] == path@);
                }
                return true;
            }
            i = i + 1;
        }
        proof {
            if self.has_file(path@) {
                let j = choose|j: int|
                    0 <= j < self.file_paths().len() && self.file_paths()[j] == path@;
                assert(self.files@[j].path@ == path@);
            }
        }
        false
    }

    /// The errors the last population of `path` produced, if it is loaded.
    pub fn file_errors(&self, path: &str) -> (r: Option<&Vec<SemanticError>>)
        requires
            self.wf(),
        ensures
            match r {
                Some(v) => exists|i: int|
                    0 <= i < self.files@.len() && (#[trigger] self.files@[i]).path@ == path@
                        && v == &self.files@[i].errors,
                None => !self.has_file(path@),
            },
    {
        let mut i: usize = 0;
        while i < self.files.len()
            invariant
                i <= self.files@.len(),
                forall|j: int| 0 <= j < i ==> (#[trigger] self.files@[j]).path@ != path@,
            decreases self.files@.len() - i,
        {
            if crate::names::str_eq(self.files[i].path.as_str(), path) {
                return Some(&self.files[i].errors);
            }
            i = i + 1;
        }
        proof {
            if self.has_file(path@) {
                let j = choose|j: int|
                    0 <= j < self.file_paths().len() && self.file_paths()[j] == path@;
                assert(self.files@[j].path@ == path@);
            }
        }
        None
    }

    /// Whether a dependency change has left `path` stale. Stale files are
    /// re-populated when the caller decides, not eagerly.
    pub fn file_needs_repopulation(&self, path: &str) -> (r: bool)
        requires
            self.wf(),
        ensures
            r == exists|i: int|
                0 <= i < self.files@.len() && (#[trigger] self.files@[i]).path@ == path@
                    && self.files@[i].needs_repopulation,
    {
        let mut i: usize = 0;
        while i < self.files.len()
            invariant
                i <= self.files@.len(),
                self.wf(),
                forall|j: int| 0 <= j < i ==> (#[trigger] self.files@[j]).path@ != path@,
            decreases self.files@.len() - i,
        {
            if crate::names::str_eq(self.files[i].path.as_str(), path) {
                proof {
                    let fp = self.file_paths();
                    assert forall|j: int|
                        0 <= j < self.files@.len() && (#[trigger] self.files@[j]).path@
                            == path@ implies j == i as int by {
                        assert(fp[j] == fp[i as int]);
                    }
                }
                return self.files[i].needs_repopulation;
            }
            i = i + 1;
        }
        false
    }

    /// All files that `path` directly imports.
    pub fn get_dependencies(&self, path: &str) -> (r: Vec<String>)
        requires
            self.wf(),
        ensures
            views_of(r@).no_duplicates(),
            forall|b: Seq<char>|
                views_of(r@).contains(b) == self.dependency_graph.dep_edge(path@, b),
    {
        self.dependency_graph.get_dependencies(path)
    }

    /// All files that directly import `path`.
    pub fn get_dependents(&self, path: &str) -> (r: Vec<String>)
        requires
            self.wf(),
        ensures
            views_of(r@).no_duplicates(),
            forall|b: Seq<char>|
                views_of(r@).contains(b) == self.dependency_graph.dep_edge(b, path@),
    {
        self.dependency_graph.get_dependents(path)
    }

    /// All files transitively affected if `path` changes, never including
    /// `path` itself.
    pub fn get_all_affected(&self, path: &str) -> (r: Vec<String>)
        requires
            self.wf(),
        ensures
            views_of(r@).no_duplicates(),
            !views_of(r@).contains(path@),
            forall|x: Seq<char>|
                views_of(r@).contains(x) == self.dependency_graph.affects(path@, x),
    {
        self.dependency_graph.get_all_affected(path)
    }

    /// Whether `path` lies on a directed cycle of imports.
    pub fn has_circular_dependency(&self, path: &str) -> (r: bool)
        requires
            self.wf(),
        ensures
            r == crate::reach::on_cycle(self.dependency_graph.dependencies@, path@),
    {
        self.dependency_graph.has_circular_dependency(path)
    }

    /// Adds a parsed file: populates it, records its imports, stores the
    /// tree with its error list, and logs the addition. Returns the
    /// population errors.
    pub fn add_file(&mut self, path: String, tree: SyntaxFile) -> (errs: Vec<SemanticError>)
        requires
            old(self).wf(),
            !old(self).has_file(path@),
        ensures
            final(self).wf(),
            model_of(
                final(self).symbol_table,
                final(self).relationship_graph,
                errs@.len() as nat,
            ) == syntax_apply(
                model_of(old(self).symbol_table, old(self).relationship_graph, 0),
                tree,
                path@,
            ),
            forall|a: Seq<char>, b: Seq<char>|
                final(self).dependency_graph.dep_edge(a, b) == (old(
                    self,
                ).dependency_graph.dep_edge(a, b) || (a == path@ && file_imports(tree).contains(
                    b,
                ))),
            final(self).file_paths() == old(self).file_paths().push(path@),
            final(self).files@.len() == old(self).files@.len() + 1,
            forall|i: int|
                0 <= i < old(self).files@.len() ==> final(self).files@[i] == old(
                    self,
                ).files@[i],
            final(self).files@.last().path@ == path@,
            final(self).files@.last().errors@ == errs@,
            !final(self).files@.last().needs_repopulation,
            final(self).stdlib_loaded == old(self).stdlib_loaded,
            final(self).event_views() == old(self).event_views().push(
                WorkspaceEventView::FileAdded { path: path@ },
            ),
    {
        let mut errs: Vec<SemanticError> = match populate_syntax_file(
            &tree,
            path.as_str(),
            &mut self.symbol_table,
            &mut self.relationship_graph,
        ) {
            Ok(_) => Vec::new(),
            Err(es) => es,
        };
        self.record_imports(path.as_str(), &tree);
        let stored = copy_errors(&errs);
        let ghost fp0 = old(self).file_paths();
        self.files.push(
            WorkspaceFile { path, tree, errors: stored, needs_repopulation: false },
        );
        self.events.push(WorkspaceEvent::FileAdded { path: self.files[self.files.len() - 1].path.clone() });
        proof {
            assert(self.file_paths() =~= fp0.push(path@));
            assert(self.event_views() =~= old(self).event_views().push(
                WorkspaceEventView::FileAdded { path: path@ },
            ));
            assert(self.file_paths().no_duplicates()) by {
                let fp1 = self.file_paths();
                assert forall|a: int, b: int|
                    0 <= a < fp1.len() && 0 <= b < fp1.len() && a != b implies fp1[a]
                    != fp1[b] by {
                    if a < fp0.len() && b == fp0.len() {
                        assert(fp0[a] == fp1[a]);
                        if fp1[a] == path@ {
                            assert(fp0.contains(path@));
                        }
                    }
                    if b < fp0.len() && a == fp0.len() {
                        assert(fp0[b] == fp1[b]);
                        if fp1[b] == path@ {
                            assert(fp0.contains(path@));
                        }
                    }
                }
            }
        }
        errs
    }

    /// Records the top-level imports of `tree` as dependency edges out of
    /// `path`.
    fn record_imports(&mut self, path: &str, tree: &SyntaxFile)
        requires
            old(self).wf(),
        ensures
            final(self).wf(),
            final(self).symbol_table == old(self).symbol_table,
            final(self).relationship_graph == old(self).relationship_graph,
            final(self).files == old(self).files,
            final(self).stdlib_loaded == old(self).stdlib_loaded,
            final(self).events == old(self).events,
            forall|a: Seq<char>, b: Seq<char>|
                final(self).dependency_graph.dep_edge(a, b) == (old(
                    self,
                ).dependency_graph.dep_edge(a, b) || (a == path@ && file_imports(
                    *tree,
                ).contains(b))),
    {
        let elements = match tree {
            SyntaxFile::SysML(x) => &x.elements,
            SyntaxFile::KerML(x) => &x.elements,
        };
        let ghost dg0 = old(self).dependency_graph;
        let mut i: usize = 0;
        while i < elements.len()
            invariant
                i <= elements@.len(),
                self.dependency_graph.wf(),
                self.symbol_table == old(self).symbol_table,
                self.relationship_graph == old(self).relationship_graph,
                self.files == old(self).files,
                self.stdlib_loaded == old(self).stdlib_loaded,
                self.events == old(self).events,
                old(self).symbol_table.wf(),
                old(self).relationship_graph.wf(),
                old(self).file_paths().no_duplicates(),
                dg0 == old(self).dependency_graph,
                deps_recorded(
                    self.dependency_graph,
                    dg0,
                    path@,
                    top_imports(elements@.take(i as int)),
                ),
            decreases elements@.len() - i,
        {
            let ghost dprev = self.dependency_graph;
            let ghost pre = top_imports(elements@.take(i as int));
            match &elements[i] {
                Element::Import(imp) => {
                    self.dependency_graph.add_dependency(path, imp.target.as_str());
                },
                _ => {
                },
            }
            proof {
                let cur = top_imports(elements@.take(i + 1));
                assert(elements@.take(i + 1).drop_last() =~= elements@.take(i as int));
                assert(elements@.take(i + 1).last() == elements@[i as int]);
                assert forall|a: Seq<char>, b: Seq<char>|
                    self.dependency_graph.dep_edge(a, b) == (dg0.dep_edge(a, b) || (a == path@
                        && cur.contains(b))) by {
                    assert(self.dependency_graph.dep_edge(a, b) == (dprev.dep_edge(a, b) || (
                    match elements@[i as int] {
                        Element::Import(imp) => a == path@ && b == imp.target@,
                        _ => false,
                    })));
                    match elements@[i as int] {
                        Element::Import(imp) => {
                            assert(cur =~= pre.push(imp.target@));
                            if cur.contains(b) {
                                let j = choose|j: int| 0 <= j < cur.len() && cur[j] == b;
                                if j < pre.len() {
                                    assert(pre[j] == b);
                                }
                            }
                            if pre.contains(b) {
                                let j = choose|j: int| 0 <= j < pre.len() && pre[j] == b;
                                assert(cur[j] == b);
                            }
                            if b == imp.target@ {
                                assert(cur.last() == b);
                            }
                        },
                        _ => {
                            assert(cur =~= pre);
                        },
                    }
                }
                assert(deps_recorded(self.dependency_graph, dg0, path@, cur));
            }
            i = i + 1;
        }
        proof {
            assert(elements@.take(elements@.len() as int) == elements@);
        }
    }

    /// Removes a loaded file: its symbols, the edges sourced from them, its
    /// dependency edges in both directions, and its stored tree. Logs the
    /// removal.
    pub fn remove_file(&mut self, path: &str)
        requires
            old(self).wf(),
        ensures
            final(self).wf(),
            purged_syms(old(self).symbol_table@, final(self).symbol_table@, path@),
            purged_edges(
                old(self).relationship_graph,
                final(self).relationship_graph,
                old(self).symbol_table@,
                path@,
            ),
            forall|a: Seq<char>, b: Seq<char>|
                final(self).dependency_graph.dep_edge(a, b) == (old(
                    self,
                ).dependency_graph.dep_edge(a, b) && a != path@ && b != path@),
            forall|p: Seq<char>| final(self).has_file(p) == (old(self).has_file(p) && p != path@),
            final(self).stdlib_loaded == old(self).stdlib_loaded,
            final(self).event_views() == old(self).event_views().push(
                WorkspaceEventView::FileRemoved { path: path@ },
            ),
    {
        let ghost st0 = old(self).symbol_table;
        let owned = self.symbol_table.keys_of_file(path);
        proof {
            assert forall|s: Seq<char>|
                views_of(owned@).contains(s) == (tbl_has_key(st0@, s) && owned_by(
                    st0@[tbl_index(st0@, s)].1,
                    path@,
                )) by {
                assert(views_of(owned@).contains(s) == (st0.has_key(s) && owned_by(
                    st0.sym_at(s),
                    path@,
                )));
            }
        }
        self.relationship_graph.remove_edges_with_sources(&owned);
        proof {
            assert forall|k: Seq<char>, s: Seq<char>|
                self.relationship_graph.has_oo(k, s) == (old(self).relationship_graph.has_oo(
                    k,
                    s,
                ) && !(tbl_has_key(st0@, s) && owned_by(st0@[tbl_index(st0@, s)].1, path@))) by {
                assert(views_of(owned@).contains(s) == (tbl_has_key(st0@, s) && owned_by(
                    st0@[tbl_index(st0@, s)].1,
                    path@,
                )));
            }
            assert forall|k: Seq<char>, s: Seq<char>|
                self.relationship_graph.has_om(k, s) == (old(self).relationship_graph.has_om(
                    k,
                    s,
                ) && !(tbl_has_key(st0@, s) && owned_by(st0@[tbl_index(st0@, s)].1, path@))) by {
                assert(views_of(owned@).contains(s) == (tbl_has_key(st0@, s) && owned_by(
                    st0@[tbl_index(st0@, s)].1,
                    path@,
                )));
            }
        }
        self.symbol_table.remove_file_symbols(path);
        proof {
            assert forall|k: Seq<char>|
                tbl_has_key(self.symbol_table@, k) == (tbl_has_key(st0@, k) && !owned_by(
                    st0@[tbl_index(st0@, k)].1,
                    path@,
                )) by {
                assert(self.symbol_table.has_key(k) == (st0.has_key(k) && !owned_by(
                    st0.sym_at(k),
                    path@,
                )));
            }
            assert forall|k: Seq<char>|
                tbl_has_key(self.symbol_table@, k) implies self.symbol_table@[tbl_index(
                self.symbol_table@,
                k,
            )].1 == st0@[tbl_index(st0@, k)].1 by {
                assert(self.symbol_table.has_key(k));
                assert(self.symbol_table.sym_at(k) == st0.sym_at(k));
            }
            assert(purged_syms(st0@, self.symbol_table@, path@));
        }
        self.dependency_graph.remove_file(path);
        let ghost files0 = self.files@;
        let mut i: usize = 0;
        let mut found: Option<usize> = None;
        while i < self.files.len()
            invariant
                i <= self.files@.len(),
                self.files@ == files0,
                match found {
                    Some(j) => j < files0.len() && files0[j as int].path@ == path@,
                    None => forall|j: int| 0 <= j < i ==> (#[trigger] files0[j]).path@ != path@,
                },
            decreases self.files@.len() - i,
        {
            let already = found.is_some();
            if !already && crate::names::str_eq(self.files[i].path.as_str(), path) {
                found = Some(i);
            }
            i = i + 1;
        }
        let ghost fp0 = files0.map_values(|f: WorkspaceFile| f.path@);
        match found {
            Some(j) => {
                self.files.remove(j);
                proof {
                    let fp1 = self.file_paths();
                    assert(fp1 =~= fp0.remove(j as int));
                    assert(fp0[j as int] == path@);
                    assert(fp1.no_duplicates()) by {
                        assert forall|a: int, b: int|
                            0 <= a < fp1.len() && 0 <= b < fp1.len() && a != b implies fp1[a]
                            != fp1[b] by {
                            let a0 = if a < j {
                                a
                            } else {
                                a + 1
                            };
                            let b0 = if b < j {
                                b
                            } else {
                                b + 1
                            };
                            assert(fp1[a] == fp0[a0] && fp1[b] == fp0[b0]);
                        }
                    }
                    assert forall|p: Seq<char>|
                        fp1.contains(p) == (fp0.contains(p) && p != path@) by {
                        if fp1.contains(p) {
                            let q = choose|q: int| 0 <= q < fp1.len() && fp1[q] == p;
                            let q0 = if q < j {
                                q
                            } else {
                                q + 1
                            };
                            assert(fp0[q0] == p);
                            if p == path@ {
                                assert(fp0[q0] == fp0[j as int]);
                            }
                        }
                        if fp0.contains(p) && p != path@ {
                            let q0 = choose|q0: int| 0 <= q0 < fp0.len() && fp0[q0] == p;
                            assert(q0 != j);
                            let q = if q0 < j {
                                q0
                            } else {
                                q0 - 1
                            };
                            assert(fp1[q] == p);
                        }
                    }
                }
            },
            None => {
                proof {
                    assert forall|p: Seq<char>|
                        self.file_paths().contains(p) == (fp0.contains(p) && p
                            != path@) by {
                        if fp0.contains(p) {
                            let q = choose|q: int| 0 <= q < fp0.len() && fp0[q] == p;
                            assert(fp0[q] == files0[q].path@);
                            assert(files0[q].path@ != path@);
                        }
                    }
                }
            },
        }
        self.events.push(WorkspaceEvent::FileRemoved { path: path.to_owned() });
        proof {
            assert(self.event_views() =~= old(self).event_views().push(
                WorkspaceEventView::FileRemoved { path: path@ },
            ));
        }
    }
}

impl Workspace {

    /// Purges a file's populated state for re-population: its symbols, the
    /// edges sourced from them, its own outgoing dependency edges, and its
    /// stored tree. Edges of files that depend on it stay, and no event is
    /// logged — `update_file` logs the update as a whole.
    fn purge_for_update(&mut self, path: &str)
        requires
            old(self).wf(),
        ensures
            final(self).wf(),
            purged_syms(old(self).symbol_table@, final(self).symbol_table@, path@),
            purged_edges(
                old(self).relationship_graph,
                final(self).relationship_graph,
                old(self).symbol_table@,
                path@,
            ),
            forall|a: Seq<char>, b: Seq<char>|
                final(self).dependency_graph.dep_edge(a, b) == (old(
                    self,
                ).dependency_graph.dep_edge(a, b) && a != path@),
            forall|p: Seq<char>| final(self).has_file(p) == (old(self).has_file(p) && p != path@),
            final(self).stdlib_loaded == old(self).stdlib_loaded,
            final(self).events == old(self).events,
    {
        let ghost st0 = old(self).symbol_table;
        let owned = self.symbol_table.keys_of_file(path);
        proof {
            assert forall|s: Seq<char>|
                views_of(owned@).contains(s) == (tbl_has_key(st0@, s) && owned_by(
                    st0@[tbl_index(st0@, s)].1,
                    path@,
                )) by {
                assert(views_of(owned@).contains(s) == (st0.has_key(s) && owned_by(
                    st0.sym_at(s),
                    path@,
                )));
            }
        }
        self.relationship_graph.remove_edges_with_sources(&owned);
        proof {
            assert forall|k: Seq<char>, s: Seq<char>|
                self.relationship_graph.has_oo(k, s) == (old(self).relationship_graph.has_oo(
                    k,
                    s,
                ) && !(tbl_has_key(st0@, s) && owned_by(st0@[tbl_index(st0@, s)].1, path@))) by {
                assert(views_of(owned@).contains(s) == (tbl_has_key(st0@, s) && owned_by(
                    st0@[tbl_index(st0@, s)].1,
                    path@,
                )));
            }
            assert forall|k: Seq<char>, s: Seq<char>|
                self.relationship_graph.has_om(k, s) == (old(self).relationship_graph.has_om(
                    k,
                    s,
                ) && !(tbl_has_key(st0@, s) && owned_by(st0@[tbl_index(st0@, s)].1, path@))) by {
                assert(views_of(owned@).contains(s) == (tbl_has_key(st0@, s) && owned_by(
                    st0@[tbl_index(st0@, s)].1,
                    path@,
                )));
            }
        }
        self.symbol_table.remove_file_symbols(path);
        proof {
            assert forall|k: Seq<char>|
                tbl_has_key(self.symbol_table@, k) == (tbl_has_key(st0@, k) && !owned_by(
                    st0@[tbl_index(st0@, k)].1,
                    path@,
                )) by {
                assert(self.symbol_table.has_key(k) == (st0.has_key(k) && !owned_by(
                    st0.sym_at(k),
                    path@,
                )));
            }
            assert forall|k: Seq<char>|
                tbl_has_key(self.symbol_table@, k) implies self.symbol_table@[tbl_index(
                self.symbol_table@,
                k,
            )].1 == st0@[tbl_index(st0@, k)].1 by {
                assert(self.symbol_table.has_key(k));
                assert(self.symbol_table.sym_at(k) == st0.sym_at(k));
            }
            assert(purged_syms(st0@, self.symbol_table@, path@));
        }
        self.dependency_graph.remove_dependencies_of(path);
        let ghost files0 = self.files@;
        let mut i: usize = 0;
        let mut found: Option<usize> = None;
        while i < self.files.len()
            invariant
                i <= self.files@.len(),
                self.files@ == files0,
                match found {
                    Some(j) => j < files0.len() && files0[j as int].path@ == path@,
                    None => forall|j: int| 0 <= j < i ==> (#[trigger] files0[j]).path@ != path@,
                },
            decreases self.files@.len() - i,
        {
            let already = found.is_some();
            if !already && crate::names::str_eq(self.files[i].path.as_str(), path) {
                found = Some(i);
            }
            i = i + 1;
        }
        let ghost fp0 = files0.map_values(|f: WorkspaceFile| f.path@);
        match found {
            Some(j) => {
                self.files.remove(j);
                proof {
                    let fp1 = self.file_paths();
                    assert(fp1 =~= fp0.remove(j as int));
                    assert(fp0[j as int] == path@);
                    assert(fp1.no_duplicates()) by {
                        assert forall|a: int, b: int|
                            0 <= a < fp1.len() && 0 <= b < fp1.len() && a != b implies fp1[a]
                            != fp1[b] by {
                            let a0 = if a < j {
                                a
                            } else {
                                a + 1
                            };
                            let b0 = if b < j {
                                b
                            } else {
                                b + 1
                            };
                            assert(fp1[a] == fp0[a0] && fp1[b] == fp0[b0]);
                        }
                    }
                    assert forall|p: Seq<char>|
                        fp1.contains(p) == (fp0.contains(p) && p != path@) by {
                        if fp1.contains(p) {
                            let q = choose|q: int| 0 <= q < fp1.len() && fp1[q] == p;
                            let q0 = if q < j {
                                q
                            } else {
                                q + 1
                            };
                            assert(fp0[q0] == p);
                            if p == path@ {
                                assert(fp0[q0] == fp0[j as int]);
                            }
                        }
                        if fp0.contains(p) && p != path@ {
                            let q0 = choose|q0: int| 0 <= q0 < fp0.len() && fp0[q0] == p;
                            assert(q0 != j);
                            let q = if q0 < j {
                                q0
                            } else {
                                q0 - 1
                            };
                            assert(fp1[q] == p);
                        }
                    }
                }
            },
            None => {
                proof {
                    assert forall|p: Seq<char>|
                        self.file_paths().contains(p) == (fp0.contains(p) && p
                            != path@) by {
                        if fp0.contains(p) {
                            let q = choose|q: int| 0 <= q < fp0.len() && fp0[q] == p;
                            assert(fp0[q] == files0[q].path@);
                            assert(files0[q].path@ != path@);
                        }
                    }
                }
            },
        }
    }

    /// Updates a loaded file: removes its old state, re-populates it from
    /// the new tree, and returns the population errors together with the
    /// files that transitively depend on it — those are marked stale and
    /// left for the caller to re-populate.
    pub fn update_file(&mut self, path: &str, tree: SyntaxFile) -> (r: (
        Vec<SemanticError>,
        Vec<String>,
    ))
        requires
            old(self).wf(),
        ensures
            final(self).wf(),
            exists|stmid: Seq<(Seq<char>, SymbolView)>, rgmid: RelationshipGraph|
                {
                    &&& #[trigger] purged_syms(old(self).symbol_table@, stmid, path@)
                    &&& #[trigger] purged_edges(
                        old(self).relationship_graph,
                        rgmid,
                        old(self).symbol_table@,
                        path@,
                    )
                    &&& model_of(
                        final(self).symbol_table,
                        final(self).relationship_graph,
                        r.0@.len() as nat,
                    ) == syntax_apply(
                        PopModel {
                            syms: stmid,
                            oo: oo_model(rgmid),
                            om: om_model(rgmid),
                            errs: 0,
                        },
                        tree,
                        path@,
                    )
                },
            forall|a: Seq<char>, b: Seq<char>|
                final(self).dependency_graph.dep_edge(a, b) == ((old(
                    self,
                ).dependency_graph.dep_edge(a, b) && a != path@) || (a == path@
                    && file_imports(tree).contains(b))),
            forall|p: Seq<char>|
                final(self).has_file(p) == (old(self).has_file(p) || p == path@),
            views_of(r.1@).no_duplicates(),
            !views_of(r.1@).contains(path@),
            forall|x: Seq<char>|
                views_of(r.1@).contains(x) == final(self).dependency_graph.affects(path@, x),
            forall|i: int|
                0 <= i < final(self).files@.len() && views_of(r.1@).contains(
                    (#[trigger] final(self).files@[i]).path@,
                ) ==> final(self).files@[i].needs_repopulation,
            final(self).stdlib_loaded == old(self).stdlib_loaded,
            final(self).event_views() == old(self).event_views().push(
                WorkspaceEventView::FileAdded { path: path@ },
            ).push(WorkspaceEventView::FileUpdated { path: path@ }),
    {
        self.purge_for_update(path);
        let ghost stmid0 = self.symbol_table@;
        let ghost rgmid0 = self.relationship_graph;
        let errs = self.add_file(path.to_owned(), tree);
        let stale = self.dependency_graph.get_all_affected(path);
        proof {
            assert(purged_syms(old(self).symbol_table@, stmid0, path@) && purged_edges(
                old(self).relationship_graph,
                rgmid0,
                old(self).symbol_table@,
                path@,
            ) && model_of(
                self.symbol_table,
                self.relationship_graph,
                errs@.len() as nat,
            ) == syntax_apply(
                PopModel { syms: stmid0, oo: oo_model(rgmid0), om: om_model(rgmid0), errs: 0 },
                tree,
                path@,
            ));
        }
        let ghost files1 = self.files@;
        let ghost stsnap = self.symbol_table;
        let ghost rgsnap = self.relationship_graph;
        let ghost dgsnap = self.dependency_graph;
        let ghost evsnap = self.events@;
        let ghost slsnap = self.stdlib_loaded;
        let mut i: usize = 0;
        while i < self.files.len()
            invariant
                i <= self.files@.len(),
                self.files@.len() == files1.len(),
                self.symbol_table == stsnap,
                self.relationship_graph == rgsnap,
                self.dependency_graph == dgsnap,
                self.events@ == evsnap,
                self.stdlib_loaded == slsnap,
                forall|j: int|
                    0 <= j < files1.len() ==> (#[trigger] self.files@[j]).path@
                        == files1[j].path@ && self.files@[j].errors == files1[j].errors
                        && self.files@[j].tree == files1[j].tree,
                forall|j: int|
                    0 <= j < files1.len() ==> ((#[trigger] self.files@[j]).needs_repopulation
                        == files1[j].needs_repopulation || self.files@[j].needs_repopulation),
                forall|j: int|
                    0 <= j < i && views_of(stale@).contains(
                        (#[trigger] self.files@[j]).path@,
                    ) ==> self.files@[j].needs_repopulation,
            decreases self.files@.len() - i,
        {
            if crate::names::contains_name(&stale, self.files[i].path.as_str()) {
                let ghost fpre = self.files@;
                let f = &mut self.files[i];
                f.needs_repopulation = true;
                proof {
                    assert(self.files@ =~= fpre.update(
                        i as int,
                        WorkspaceFile {
                            needs_repopulation: true,
                            ..fpre[i as int]
                        },
                    ));
                }
            }
            i = i + 1;
        }
        self.events.push(WorkspaceEvent::FileUpdated { path: path.to_owned() });
        proof {
            assert(purged_syms(old(self).symbol_table@, stmid0, path@) && purged_edges(
                old(self).relationship_graph,
                rgmid0,
                old(self).symbol_table@,
                path@,
            ) && model_of(
                self.symbol_table,
                self.relationship_graph,
                errs@.len() as nat,
            ) == syntax_apply(
                PopModel { syms: stmid0, oo: oo_model(rgmid0), om: om_model(rgmid0), errs: 0 },
                tree,
                path@,
            ));
            assert(self.file_paths() =~= files1.map_values(|f: WorkspaceFile| f.path@));
            assert forall|p: Seq<char>|
                self.has_file(p) == (old(self).has_file(p) || p == path@) by {
                let fp = self.file_paths();
                let fp1 = files1.map_values(|f: WorkspaceFile| f.path@);
                assert(fp =~= fp1);
            }
        }
        (errs, stale)
    }
}

/// One entry of a document outline: a symbol of the document, its
/// qualified name as the detail, its kind, and its range.
#[derive(Debug, Clone, PartialEq, Eq)]
pub struct OutlineItem {
    pub name: String,
    pub detail: String,
    pub kind: crate::symbols::SymbolKind,
    pub span: crate::syntax::Span,
}

/// Spec-level shape of an outline item.
#[verifier::ext_equal]
pub ghost struct OutlineItemView {
    pub name: Seq<char>,
    pub detail: Seq<char>,
    pub kind: crate::symbols::SymbolKind,
    pub span: crate::syntax::Span,
}

impl View for OutlineItem {
    type V = OutlineItemView;

    open spec fn view(&self) -> OutlineItemView {
        OutlineItemView { name: self.name@, detail: self.detail@, kind: self.kind, span: self.span }
    }
}

/// The outline of `path`: one item per table entry that `path` owns and
/// that has a span, in table order.
pub open spec fn outline_spec(t: Seq<(Seq<char>, SymbolView)>, path: Seq<char>) -> Seq<
    OutlineItemView,
>
    decreases t.len(),
{
    if t.len() == 0 {
        Seq::empty()
    } else {
        outline_spec(t.drop_last(), path) + (if t.last().1.source_file == Some(path)
            && t.last().1.span is Some {
            seq![
                OutlineItemView {
                    name: t.last().1.name,
                    detail: t.last().1.qualified_name,
                    kind: t.last().1.kind,
                    span: t.last().1.span->Some_0,
                },
            ]
        } else {
            Seq::empty()
        })
    }
}

impl Workspace {
    /// The outline of the document `path`: every symbol it declares that
    /// has a span, with its qualified name as the detail, in table order.
    pub fn document_symbols(&self, path: &str) -> (r: Vec<OutlineItem>)
        requires
            self.wf(),
        ensures
            r@.map_values(|x: OutlineItem| x@) == outline_spec(self.symbol_table@, path@),
    {
        let mut out: Vec<OutlineItem> = Vec::new();
        let n = self.symbol_table.len();
        let mut i: usize = 0;
        while i < n
            invariant
                i <= n,
                self.wf(),
                n == self.symbol_table@.len(),
                out@.map_values(|x: OutlineItem| x@) =~= outline_spec(
                    self.symbol_table@.take(i as int),
                    path@,
                ),
            decreases n - i,
        {
            let entry = self.symbol_table.entry_at(i);
            let owned = match &entry.1.source_file {
                Some(f) => crate::names::str_eq(f.as_str(), path),
                None => false,
            };
            let ghost prev = out@;
            if owned {
                match entry.1.span {
                    Some(sp) => {
                        out.push(
                            OutlineItem {
                                name: entry.1.name.clone(),
                                detail: entry.1.qualified_name.clone(),
                                kind: entry.1.kind,
                                span: sp,
                            },
                        );
                    },
                    None => {
                    },
                }
            }
            proof {
                let t = self.symbol_table@;
                assert(t.take(i + 1).drop_last() =~= t.take(i as int));
                assert(t.take(i + 1).last() == t[i as int]);
                assert(out@.map_values(|x: OutlineItem| x@) =~= outline_spec(
                    t.take(i + 1),
                    path@,
                ));
            }
            i = i + 1;
        }
        proof {
            assert(self.symbol_table@.take(self.symbol_table@.len() as int)
                == self.symbol_table@);
        }
        out
    }
}

/// Copies an error list, keeping each message and span.
fn copy_errors(v: &Vec<SemanticError>) -> (r: Vec<SemanticError>)
    ensures
        r@ == v@,
{
    let mut out: Vec<SemanticError> = Vec::new();
    let mut i: usize = 0;
    while i < v.len()
        invariant
            i <= v@.len(),
            out@ =~= v@.take(i as int),
        decreases v@.len() - i,
    {
        out.push(v[i].clone());
        assert(out@ =~= v@.take(i + 1));
        i = i + 1;
    }
    assert(v@.take(v@.len() as int) == v@);
    out
}

} // verus!
