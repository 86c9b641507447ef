//! Population: turning one parsed file into symbol table entries and
//! relationship graph edges.
//!
//! The adapter walks the tree depth-first. Each named element becomes a
//! symbol under its computed qualified name; every relationship declared on
//! it becomes an edge whose source is that qualified name and whose target
//! is the referenced name exactly as written. Errors — an element without a
//! name, a relationship without a target — are accumulated and never abort
//! the pass; an empty error list signals success.
//!
//! The spec functions `elem_apply` and friends mirror the walk exactly over
//! an abstract model of the two stores, and the adapters are proved to
//! realize them.

use vstd::prelude::*;

use crate::graph::{RelationshipGraph, REL_REDEFINITION, REL_REFERENCE_SUBSETTING,
    REL_SPECIALIZATION, REL_SUBSETTING, REL_TYPING};
use crate::symbols::{tbl_has_key, tbl_index, tbl_insert, Symbol, SymbolKind, SymbolTable, SymbolView};
use crate::syntax::{Element, KerMLFile, RelationDeclKind, RelationshipDecl, Span, SysMLFile,
    SyntaxFile, UsageDecl};

verus! {

/// A non-fatal problem found while populating one file.
#[derive(Debug, PartialEq, Eq)]
pub struct SemanticError {
    pub message: String,
    pub span: Option<Span>,
}

impl Clone for SemanticError {
    fn clone(&self) -> (r: SemanticError)
        ensures
            r == *self,
    {
        SemanticError { message: self.message.clone(), span: self.span }
    }
}

/// The abstract state population acts on: the symbol table entries, the two
/// edge stores as maps keyed by `(kind, source)`, and the number of errors
/// accumulated so far.
#[verifier::ext_equal]
pub ghost struct PopModel {
    pub syms: Seq<(Seq<char>, SymbolView)>,
    pub oo: Map<(Seq<char>, Seq<char>), Seq<char>>,
    pub om: Map<(Seq<char>, Seq<char>), Seq<Seq<char>>>,
    pub errs: nat,
}

/// The one-to-one edges of a graph, as a map from `(kind, source)` to the
/// target.
pub open spec fn oo_model(g: RelationshipGraph) -> Map<(Seq<char>, Seq<char>), Seq<char>> {
    Map::new(|p: (Seq<char>, Seq<char>)| g.has_oo(p.0, p.1), |p: (Seq<char>, Seq<char>)| g.oo_at(p.0, p.1))
}

/// The one-to-many edges of a graph, as a map from `(kind, source)` to the
/// ordered target list.
pub open spec fn om_model(g: RelationshipGraph) -> Map<(Seq<char>, Seq<char>), Seq<Seq<char>>> {
    Map::new(|p: (Seq<char>, Seq<char>)| g.has_om(p.0, p.1), |p: (Seq<char>, Seq<char>)| g.om_at(p.0, p.1))
}

/// The model of a concrete table-and-graph pair with `nerrs` errors.
pub open spec fn model_of(st: SymbolTable, rg: RelationshipGraph, nerrs: nat) -> PopModel {
    PopModel { syms: st@, oo: oo_model(rg), om: om_model(rg), errs: nerrs }
}

/// The target list stored for `key`, or the empty list.
pub open spec fn om_get(
    m: Map<(Seq<char>, Seq<char>), Seq<Seq<char>>>,
    key: (Seq<char>, Seq<char>),
) -> Seq<Seq<char>> {
    if m.dom().contains(key) {
        m[key]
    } else {
        Seq::empty()
    }
}

/// The qualified name of `name` inside `scope`.
pub open spec fn qualified(scope: Seq<char>, name: Seq<char>) -> Seq<char> {
    if scope.len() == 0 {
        name
    } else {
        scope + "."@ + name
    }
}

/// The symbol a named element contributes.
pub open spec fn sym_view(
    kind: SymbolKind,
    name: Seq<char>,
    qname: Seq<char>,
    span: Option<Span>,
    file: Seq<char>,
) -> SymbolView {
    SymbolView {
        kind: kind,
        name: name,
        qualified_name: qname,
        span: span,
        source_file: Some(file),
        references: Seq::empty(),
    }
}

/// One declared relationship applied to the model: an empty target is an
/// error; typing stores a one-to-one edge, every other kind appends to the
/// one-to-many list of its `(kind, source)` pair.
pub open spec fn rel_apply(m: PopModel, r: RelationshipDecl, source: Seq<char>) -> PopModel {
    if r.target@.len() == 0 {
        PopModel { errs: m.errs + 1, ..m }
    } else {
        match r.kind {
            RelationDeclKind::Typing => PopModel {
                oo: m.oo.insert((REL_TYPING@, source), r.target@),
                ..m
            },
            RelationDeclKind::Specialization => PopModel {
                om: m.om.insert(
                    (REL_SPECIALIZATION@, source),
                    om_get(m.om, (REL_SPECIALIZATION@, source)).push(r.target@),
                ),
                ..m
            },
            RelationDeclKind::Redefinition => PopModel {
                om: m.om.insert(
                    (REL_REDEFINITION@, source),
                    om_get(m.om, (REL_REDEFINITION@, source)).push(r.target@),
                ),
                ..m
            },
            RelationDeclKind::Subsetting => PopModel {
                om: m.om.insert(
                    (REL_SUBSETTING@, source),
                    om_get(m.om, (REL_SUBSETTING@, source)).push(r.target@),
                ),
                ..m
            },
            RelationDeclKind::ReferenceSubsetting => PopModel {
                om: m.om.insert(
                    (REL_REFERENCE_SUBSETTING@, source),
                    om_get(m.om, (REL_REFERENCE_SUBSETTING@, source)).push(r.target@),
                ),
                ..m
            },
        }
    }
}

/// The declared relationships applied in order.
pub open spec fn rels_apply(
    m: PopModel,
    rels: Seq<RelationshipDecl>,
    source: Seq<char>,
) -> PopModel
    decreases rels.len(),
{
    if rels.len() == 0 {
        m
    } else {
        rel_apply(rels_apply(m, rels.drop_last(), source), rels.last(), source)
    }
}

/// One usage applied: unnamed, it is a single error; named, it contributes
/// its symbol and then its relationships.
pub open spec fn usage_apply(
    m: PopModel,
    u: UsageDecl,
    scope: Seq<char>,
    file: Seq<char>,
) -> PopModel {
    match u.name {
        Some(n) => {
            let q = qualified(scope, n@);
            let m1 = PopModel {
                syms: tbl_insert(m.syms, q, sym_view(SymbolKind::Usage, n@, q, u.span, file)),
                ..m
            };
            rels_apply(m1, u.relationships@, q)
        },
        None => PopModel { errs: m.errs + 1, ..m },
    }
}

/// The usages of a definition body applied in order.
pub open spec fn usages_apply(
    m: PopModel,
    us: Seq<UsageDecl>,
    scope: Seq<char>,
    file: Seq<char>,
) -> PopModel
    decreases us.len(),
{
    if us.len() == 0 {
        m
    } else {
        usage_apply(usages_apply(m, us.drop_last(), scope, file), us.last(), scope, file)
    }
}

/// One element applied: packages contribute a symbol and then their nested
/// elements under the extended scope; definitions contribute a symbol,
/// their relationships, and their body usages under their qualified name;
/// usages and aliases contribute their symbol; imports contribute nothing
/// here — the workspace records them in the dependency graph.
pub open spec fn elem_apply(
    m: PopModel,
    e: Element,
    scope: Seq<char>,
    file: Seq<char>,
) -> PopModel
    decreases e,
{
    match e {
        Element::Package(p) => match p.name {
            Some(n) => {
                let q = qualified(scope, n@);
                let m1 = PopModel {
                    syms: tbl_insert(
                        m.syms,
                        q,
                        sym_view(SymbolKind::Package, n@, q, p.span, file),
                    ),
                    ..m
                };
                elems_apply(m1, p.elements@, q, file)
            },
            None => elems_apply(
                PopModel { errs: m.errs + 1, ..m },
                p.elements@,
                scope,
                file,
            ),
        },
        Element::Definition(d) => match d.name {
            Some(n) => {
                let q = qualified(scope, n@);
                let m1 = PopModel {
                    syms: tbl_insert(
                        m.syms,
                        q,
                        sym_view(SymbolKind::Definition, n@, q, d.span, file),
                    ),
                    ..m
                };
                let m2 = rels_apply(m1, d.relationships@, q);
                usages_apply(m2, d.body@, q, file)
            },
            None => PopModel { errs: m.errs + 1, ..m },
        },
        Element::Usage(u) => usage_apply(m, u, scope, file),
        Element::Alias(a) => match a.name {
            Some(n) => {
                let q = qualified(scope, n@);
                PopModel {
                    syms: tbl_insert(
                        m.syms,
                        q,
                        sym_view(SymbolKind::Alias, n@, q, a.span, file),
                    ),
                    ..m
                }
            },
            None => PopModel { errs: m.errs + 1, ..m },
        },
        Element::Import(_) => m,
    }
}

/// The elements of one scope applied in order.
pub open spec fn elems_apply(
    m: PopModel,
    es: Seq<Element>,
    scope: Seq<char>,
    file: Seq<char>,
) -> PopModel
    decreases es,
{
    if es.len() == 0 {
        m
    } else {
        elem_apply(elems_apply(m, es.drop_last(), scope, file), es.last(), scope, file)
    }
}

/// A whole file applied: its elements, inside the root namespace if one is
/// declared.
pub open spec fn file_apply(
    m: PopModel,
    namespace: Option<String>,
    es: Seq<Element>,
    file: Seq<char>,
) -> PopModel {
    match namespace {
        Some(ns) => elems_apply(m, es, ns@, file),
        None => elems_apply(m, es, Seq::empty(), file),
    }
}

/// A fresh model over the entries `syms`, the edges of `rg`, and `nerrs`
/// errors so far.
pub open spec fn model_from(
    syms: Seq<(Seq<char>, SymbolView)>,
    rg: RelationshipGraph,
    nerrs: nat,
) -> PopModel {
    PopModel { syms: syms, oo: oo_model(rg), om: om_model(rg), errs: nerrs }
}

/// Storing a one-to-one edge inserts into the one-to-one model map and
/// leaves the one-to-many model unchanged.
proof fn lemma_oo_insert(
    g0: RelationshipGraph,
    g1: RelationshipGraph,
    kind: Seq<char>,
    source: Seq<char>,
    target: Seq<char>,
)
    requires
        forall|k: Seq<char>, s: Seq<char>|
            g1.has_oo(k, s) == (g0.has_oo(k, s) || (k == kind && s == source)),
        g1.oo_at(kind, source) == target,
        forall|k: Seq<char>, s: Seq<char>|
            g0.has_oo(k, s) && !(k == kind && s == source) ==> g1.oo_at(k, s) == g0.oo_at(k, s),
        g1.one_to_many == g0.one_to_many,
    ensures
        oo_model(g1) == oo_model(g0).insert((kind, source), target),
        om_model(g1) == om_model(g0),
{
    let m1 = oo_model(g1);
    let m2 = oo_model(g0).insert((kind, source), target);
    assert(m1.dom() =~= m2.dom()) by {
        assert forall|p: (Seq<char>, Seq<char>)|
            m1.dom().contains(p) == m2.dom().contains(p) by {
            assert(g1.has_oo(p.0, p.1) == (g0.has_oo(p.0, p.1) || (p.0 == kind && p.1
                == source)));
        }
    }
    assert forall|p: (Seq<char>, Seq<char>)| m1.dom().contains(p) implies m1[p] == m2[p] by {
        assert(g1.has_oo(p.0, p.1));
        if p.0 == kind && p.1 == source {
        } else {
            assert(g0.has_oo(p.0, p.1));
        }
    }
    assert(m1 =~= m2);
    assert(om_model(g1) =~= om_model(g0)) by {
        assert forall|p: (Seq<char>, Seq<char>)|
            om_model(g1).dom().contains(p) == om_model(g0).dom().contains(p) by {}
    }
}

/// Appending to a one-to-many list updates the one-to-many model map at
/// that key alone and leaves the one-to-one model unchanged.
proof fn lemma_om_append(
    g0: RelationshipGraph,
    g1: RelationshipGraph,
    kind: Seq<char>,
    source: Seq<char>,
    target: Seq<char>,
)
    requires
        forall|k: Seq<char>, s: Seq<char>|
            g1.has_om(k, s) == (g0.has_om(k, s) || (k == kind && s == source)),
        g1.om_at(kind, source) == (if g0.has_om(kind, source) {
            g0.om_at(kind, source).push(target)
        } else {
            seq![target]
        }),
        forall|k: Seq<char>, s: Seq<char>|
            g0.has_om(k, s) && !(k == kind && s == source) ==> g1.om_at(k, s) == g0.om_at(k, s),
        g1.one_to_one == g0.one_to_one,
    ensures
        om_model(g1) == om_model(g0).insert(
            (kind, source),
            om_get(om_model(g0), (kind, source)).push(target),
        ),
        oo_model(g1) == oo_model(g0),
{
    let m1 = om_model(g1);
    let m2 = om_model(g0).insert((kind, source), om_get(om_model(g0), (kind, source)).push(target));
    assert(m1.dom() =~= m2.dom()) by {
        assert forall|p: (Seq<char>, Seq<char>)|
            m1.dom().contains(p) == m2.dom().contains(p) by {
            assert(g1.has_om(p.0, p.1) == (g0.has_om(p.0, p.1) || (p.0 == kind && p.1
                == source)));
        }
    }
    assert forall|p: (Seq<char>, Seq<char>)| m1.dom().contains(p) implies m1[p] == m2[p] by {
        assert(g1.has_om(p.0, p.1));
        if p.0 == kind && p.1 == source {
            if g0.has_om(kind, source) {
                assert(om_get(om_model(g0), (kind, source)) == g0.om_at(kind, source));
            } else {
                assert(om_get(om_model(g0), (kind, source)) =~= Seq::<Seq<char>>::empty());
                assert(Seq::<Seq<char>>::empty().push(target) =~= seq![target]);
            }
        } else {
            assert(g0.has_om(p.0, p.1));
        }
    }
    assert(m1 =~= m2);
    assert(oo_model(g1) =~= oo_model(g0)) by {
        assert forall|p: (Seq<char>, Seq<char>)|
            oo_model(g1).dom().contains(p) == oo_model(g0).dom().contains(p) by {}
    }
}

/// Builds the qualified name of `name` inside `scope`.
pub fn qualify(scope: &str, name: &str) -> (r: String)
    ensures
        r@ == qualified(scope@, name@),
{
    if scope.is_empty() {
        name.to_owned()
    } else {
        let mut s = scope.to_owned();
        s.append(".");
        s.append(name);
        s
    }
}

/// Applies the relationships declared on the element whose qualified name
/// is `source`, accumulating an error for each malformed one.
fn apply_relationships(
    rels: &Vec<RelationshipDecl>,
    source: &str,
    rg: &mut RelationshipGraph,
    errs: &mut Vec<SemanticError>,
    Ghost(s0): Ghost<Seq<(Seq<char>, SymbolView)>>,
)
    requires
        old(rg).wf(),
    ensures
        final(rg).wf(),
        model_from(s0, *final(rg), final(errs)@.len() as nat) == rels_apply(
            model_from(s0, *old(rg), old(errs)@.len() as nat),
            rels@,
            source@,
        ),
{
    let ghost m0 = model_from(s0, *old(rg), old(errs)@.len() as nat);
    let mut i: usize = 0;
    while i < rels.len()
        invariant
            i <= rels@.len(),
            rg.wf(),
            m0 == model_from(s0, *old(rg), old(errs)@.len() as nat),
            errs@.len() >= old(errs)@.len(),
            model_from(s0, *rg, errs@.len() as nat) == rels_apply(m0, rels@.take(i as int), source@),
        decreases rels@.len() - i,
    {
        let ghost gprev = *rg;
        let ghost eprev = errs@.len() as nat;
        let ghost mprev = rels_apply(m0, rels@.take(i as int), source@);
        let r = &rels[i];
        if r.target.as_str().is_empty() {
            errs.push(SemanticError { message: "malformed relationship: missing target".to_owned(), span: None });
        } else {
            match r.kind {
                RelationDeclKind::Typing => {
                    rg.add_one_to_one(crate::graph::REL_TYPING, source, r.target.as_str());
                    proof {
                        lemma_oo_insert(gprev, *rg, REL_TYPING@, source@, r.target@);
                    }
                },
                RelationDeclKind::Specialization => {
                    rg.add_one_to_many(crate::graph::REL_SPECIALIZATION, source, r.target.as_str());
                    proof {
                        lemma_om_append(gprev, *rg, REL_SPECIALIZATION@, source@, r.target@);
                    }
                },
                RelationDeclKind::Redefinition => {
                    rg.add_one_to_many(crate::graph::REL_REDEFINITION, source, r.target.as_str());
                    proof {
                        lemma_om_append(gprev, *rg, REL_REDEFINITION@, source@, r.target@);
                    }
                },
                RelationDeclKind::Subsetting => {
                    rg.add_one_to_many(crate::graph::REL_SUBSETTING, source, r.target.as_str());
                    proof {
                        lemma_om_append(gprev, *rg, REL_SUBSETTING@, source@, r.target@);
                    }
                },
                RelationDeclKind::ReferenceSubsetting => {
                    rg.add_one_to_many(
                        crate::graph::REL_REFERENCE_SUBSETTING,
                        source,
                        r.target.as_str(),
                    );
                    proof {
                        lemma_om_append(gprev, *rg, REL_REFERENCE_SUBSETTING@, source@, r.target@);
                    }
                },
            }
        }
        proof {
            assert(rels@.take(i + 1).drop_last() =~= rels@.take(i as int));
            assert(rels@.take(i + 1).last() == rels@[i as int]);
            assert(model_from(s0, *rg, errs@.len() as nat) =~= rel_apply(mprev, rels@[i as int], source@));
        }
        i = i + 1;
    }
    proof {
        assert(rels@.take(rels@.len() as int) == rels@);
    }
}

/// The error count carried by a population result: zero on success, the
/// length of the returned list otherwise.
pub open spec fn pop_errs(r: Result<(), Vec<SemanticError>>) -> nat {
    match r {
        Ok(_) => 0,
        Err(es) => es@.len(),
    }
}

/// Populates one usage: its symbol under the scope's qualified name, then
/// its declared relationships.
fn populate_usage(
    u: &UsageDecl,
    scope: &str,
    file: &str,
    st: &mut SymbolTable,
    rg: &mut RelationshipGraph,
    errs: &mut Vec<SemanticError>,
)
    requires
        old(st).wf(),
        old(rg).wf(),
    ensures
        final(st).wf(),
        final(rg).wf(),
        model_of(*final(st), *final(rg), final(errs)@.len() as nat) == usage_apply(
            model_of(*old(st), *old(rg), old(errs)@.len() as nat),
            *u,
            scope@,
            file@,
        ),
{
    let ghost m0 = model_of(*old(st), *old(rg), old(errs)@.len() as nat);
    match &u.name {
        Some(n) => {
            let q = qualify(scope, n.as_str());
            let sym = Symbol::new(
                SymbolKind::Usage,
                n.clone(),
                q.clone(),
                u.span,
                Some(file.to_owned()),
            );
            proof {
                assert(sym@ =~= sym_view(SymbolKind::Usage, n@, q@, u.span, file@));
            }
            let ghost q0 = q@;
            st.insert(q.clone(), sym);
            let ghost m1 = usage_mid(m0, *u, scope@, file@);
            proof {
                assert(model_of(*st, *rg, errs@.len() as nat) =~= m1);
            }
            apply_relationships(&u.relationships, q.as_str(), rg, errs, Ghost(st@));
            proof {
                assert(model_of(*st, *rg, errs@.len() as nat) =~= rels_apply(
                    m1,
                    u.relationships@,
                    q0,
                ));
            }
        },
        None => {
            errs.push(SemanticError { message: "unnamed element".to_owned(), span: u.span });
            proof {
                assert(model_of(*st, *rg, errs@.len() as nat) =~= (PopModel {
                    errs: m0.errs + 1,
                    ..m0
                }));
            }
        },
    }
}

/// The model after a named usage's symbol is inserted, before its
/// relationships are applied.
pub open spec fn usage_mid(m: PopModel, u: UsageDecl, scope: Seq<char>, file: Seq<char>) -> PopModel {
    let q = qualified(scope, u.name->Some_0@);
    PopModel {
        syms: tbl_insert(m.syms, q, sym_view(SymbolKind::Usage, u.name->Some_0@, q, u.span, file)),
        ..m
    }
}

/// Populates a definition body's usages, in order.
fn populate_usages(
    us: &Vec<UsageDecl>,
    scope: &str,
    file: &str,
    st: &mut SymbolTable,
    rg: &mut RelationshipGraph,
    errs: &mut Vec<SemanticError>,
)
    requires
        old(st).wf(),
        old(rg).wf(),
    ensures
        final(st).wf(),
        final(rg).wf(),
        model_of(*final(st), *final(rg), final(errs)@.len() as nat) == usages_apply(
            model_of(*old(st), *old(rg), old(errs)@.len() as nat),
            us@,
            scope@,
            file@,
        ),
{
    let ghost m0 = model_of(*old(st), *old(rg), old(errs)@.len() as nat);
    let mut i: usize = 0;
    while i < us.len()
        invariant
            i <= us@.len(),
            st.wf(),
            rg.wf(),
            model_of(*st, *rg, errs@.len() as nat) == usages_apply(
                m0,
                us@.take(i as int),
                scope@,
                file@,
            ),
        decreases us@.len() - i,
    {
        let ghost mprev = usages_apply(m0, us@.take(i as int), scope@, file@);
        populate_usage(&us[i], scope, file, st, rg, errs);
        proof {
            assert(us@.take(i + 1).drop_last() =~= us@.take(i as int));
            assert(us@.take(i + 1).last() == us@[i as int]);
            assert(model_of(*st, *rg, errs@.len() as nat) == usage_apply(
                mprev,
                us@[i as int],
                scope@,
                file@,
            ));
        }
        i = i + 1;
    }
    proof {
        assert(us@.take(us@.len() as int) == us@);
    }
}

/// Populates one element, recursing into package bodies.
fn populate_element(
    e: &Element,
    scope: &str,
    file: &str,
    st: &mut SymbolTable,
    rg: &mut RelationshipGraph,
    errs: &mut Vec<SemanticError>,
)
    requires
        old(st).wf(),
        old(rg).wf(),
    ensures
        final(st).wf(),
        final(rg).wf(),
        model_of(*final(st), *final(rg), final(errs)@.len() as nat) == elem_apply(
            model_of(*old(st), *old(rg), old(errs)@.len() as nat),
            *e,
            scope@,
            file@,
        ),
    decreases *e,
{
    let ghost m0 = model_of(*old(st), *old(rg), old(errs)@.len() as nat);
    match e {
        Element::Package(p) => {
            match &p.name {
                Some(n) => {
                    let q = qualify(scope, n.as_str());
                    let sym = Symbol::new(
                        SymbolKind::Package,
                        n.clone(),
                        q.clone(),
                        p.span,
                        Some(file.to_owned()),
                    );
                    proof {
                        assert(sym@ =~= sym_view(SymbolKind::Package, n@, q@, p.span, file@));
                    }
                    let ghost q0 = q@;
                    st.insert(q.clone(), sym);
                    proof {
                        assert(model_of(*st, *rg, errs@.len() as nat) =~= (PopModel {
                            syms: tbl_insert(
                                m0.syms,
                                q0,
                                sym_view(SymbolKind::Package, n@, q0, p.span, file@),
                            ),
                            ..m0
                        }));
                    }
                    populate_elements(&p.elements, q.as_str(), file, st, rg, errs);
                },
                None => {
                    errs.push(
                        SemanticError { message: "unnamed element".to_owned(), span: p.span },
                    );
                    proof {
                        assert(model_of(*st, *rg, errs@.len() as nat) =~= (PopModel {
                            errs: m0.errs + 1,
                            ..m0
                        }));
                    }
                    populate_elements(&p.elements, scope, file, st, rg, errs);
                },
            }
        },
        Element::Definition(d) => {
            match &d.name {
                Some(n) => {
                    let q = qualify(scope, n.as_str());
                    let sym = Symbol::new(
                        SymbolKind::Definition,
                        n.clone(),
                        q.clone(),
                        d.span,
                        Some(file.to_owned()),
                    );
                    proof {
                        assert(sym@ =~= sym_view(SymbolKind::Definition, n@, q@, d.span, file@));
                    }
                    let ghost q0 = q@;
                    st.insert(q.clone(), sym);
                    proof {
                        assert(model_of(*st, *rg, errs@.len() as nat) =~= (PopModel {
                            syms: tbl_insert(
                                m0.syms,
                                q0,
                                sym_view(SymbolKind::Definition, n@, q0, d.span, file@),
                            ),
                            ..m0
                        }));
                    }
                    apply_relationships(&d.relationships, q.as_str(), rg, errs, Ghost(st@));
                    proof {
                        assert(model_of(*st, *rg, errs@.len() as nat) =~= rels_apply(
                            PopModel {
                                syms: tbl_insert(
                                    m0.syms,
                                    q0,
                                    sym_view(SymbolKind::Definition, n@, q0, d.span, file@),
                                ),
                                ..m0
                            },
                            d.relationships@,
                            q0,
                        ));
                    }
                    populate_usages(&d.body, q.as_str(), file, st, rg, errs);
                },
                None => {
                    errs.push(
                        SemanticError { message: "unnamed element".to_owned(), span: d.span },
                    );
                    proof {
                        assert(model_of(*st, *rg, errs@.len() as nat) =~= (PopModel {
                            errs: m0.errs + 1,
                            ..m0
                        }));
                    }
                },
            }
        },
        Element::Usage(u) => {
            populate_usage(u, scope, file, st, rg, errs);
        },
        Element::Alias(a) => {
            match &a.name {
                Some(n) => {
                    let q = qualify(scope, n.as_str());
                    let sym = Symbol::new(
                        SymbolKind::Alias,
                        n.clone(),
                        q.clone(),
                        a.span,
                        Some(file.to_owned()),
                    );
                    proof {
                        assert(sym@ =~= sym_view(SymbolKind::Alias, n@, q@, a.span, file@));
                    }
                    let ghost q0 = q@;
                    st.insert(q, sym);
                    proof {
                        assert(model_of(*st, *rg, errs@.len() as nat) =~= (PopModel {
                            syms: tbl_insert(
                                m0.syms,
                                q0,
                                sym_view(SymbolKind::Alias, n@, q0, a.span, file@),
                            ),
                            ..m0
                        }));
                    }
                },
                None => {
                    errs.push(
                        SemanticError { message: "unnamed element".to_owned(), span: a.span },
                    );
                    proof {
                        assert(model_of(*st, *rg, errs@.len() as nat) =~= (PopModel {
                            errs: m0.errs + 1,
                            ..m0
                        }));
                    }
                },
            }
        },
        Element::Import(_) => {
        },
    }
}

/// Populates a list of elements, in order.
fn populate_elements(
    es: &Vec<Element>,
    scope: &str,
    file: &str,
    st: &mut SymbolTable,
    rg: &mut RelationshipGraph,
    errs: &mut Vec<SemanticError>,
)
    requires
        old(st).wf(),
        old(rg).wf(),
    ensures
        final(st).wf(),
        final(rg).wf(),
        model_of(*final(st), *final(rg), final(errs)@.len() as nat) == elems_apply(
            model_of(*old(st), *old(rg), old(errs)@.len() as nat),
            es@,
            scope@,
            file@,
        ),
    decreases es@,
{
    let ghost m0 = model_of(*old(st), *old(rg), old(errs)@.len() as nat);
    let mut i: usize = 0;
    while i < es.len()
        invariant
            i <= es@.len(),
            st.wf(),
            rg.wf(),
            model_of(*st, *rg, errs@.len() as nat) == elems_apply(
                m0,
                es@.take(i as int),
                scope@,
                file@,
            ),
        decreases es@.len() - i,
    {
        let ghost mprev = elems_apply(m0, es@.take(i as int), scope@, file@);
        populate_element(&es[i], scope, file, st, rg, errs);
        proof {
            assert(es@.take(i + 1).drop_last() =~= es@.take(i as int));
            assert(es@.take(i + 1).last() == es@[i as int]);
            assert(model_of(*st, *rg, errs@.len() as nat) == elem_apply(
                mprev,
                es@[i as int],
                scope@,
                file@,
            ));
        }
        i = i + 1;
    }
    proof {
        assert(es@.take(es@.len() as int) == es@);
    }
}

/// The population pass for the main modeling dialect.
pub struct SysmlAdapter {}

/// The population pass for the kernel dialect. Both dialects expose the
/// same tree shape, so both walks build the same structures.
pub struct KermlAdapter {}

impl SysmlAdapter {
    /// Walks one parsed file, inserting its symbols and relationship edges;
    /// `path` becomes the symbols' source file. Errors accumulate and never
    /// abort the walk; the empty error list comes back as `Ok`.
    pub fn populate(
        file: &SysMLFile,
        path: &str,
        st: &mut SymbolTable,
        rg: &mut RelationshipGraph,
    ) -> (r: Result<(), Vec<SemanticError>>)
        requires
            old(st).wf(),
            old(rg).wf(),
        ensures
            final(st).wf(),
            final(rg).wf(),
            model_of(*final(st), *final(rg), pop_errs(r)) == file_apply(
                model_of(*old(st), *old(rg), 0),
                file.namespace,
                file.elements@,
                path@,
            ),
            (r is Ok) == (file_apply(
                model_of(*old(st), *old(rg), 0),
                file.namespace,
                file.elements@,
                path@,
            ).errs == 0),
    {
        populate_file_elements(&file.namespace, &file.elements, path, st, rg)
    }
}

impl KermlAdapter {
    /// Walks one parsed kernel-dialect file exactly as the main dialect is
    /// walked; `path` becomes the symbols' source file.
    pub fn populate(
        file: &KerMLFile,
        path: &str,
        st: &mut SymbolTable,
        rg: &mut RelationshipGraph,
    ) -> (r: Result<(), Vec<SemanticError>>)
        requires
            old(st).wf(),
            old(rg).wf(),
        ensures
            final(st).wf(),
            final(rg).wf(),
            model_of(*final(st), *final(rg), pop_errs(r)) == file_apply(
                model_of(*old(st), *old(rg), 0),
                file.namespace,
                file.elements@,
                path@,
            ),
            (r is Ok) == (file_apply(
                model_of(*old(st), *old(rg), 0),
                file.namespace,
                file.elements@,
                path@,
            ).errs == 0),
    {
        populate_file_elements(&file.namespace, &file.elements, path, st, rg)
    }
}

/// The shared walk of both adapters: the elements of a file, under the
/// root namespace if one is declared.
fn populate_file_elements(
    namespace: &Option<String>,
    elements: &Vec<Element>,
    path: &str,
    st: &mut SymbolTable,
    rg: &mut RelationshipGraph,
) -> (r: Result<(), Vec<SemanticError>>)
    requires
        old(st).wf(),
        old(rg).wf(),
    ensures
        final(st).wf(),
        final(rg).wf(),
        model_of(*final(st), *final(rg), pop_errs(r)) == file_apply(
            model_of(*old(st), *old(rg), 0),
            *namespace,
            elements@,
            path@,
        ),
        (r is Ok) == (file_apply(
            model_of(*old(st), *old(rg), 0),
            *namespace,
            elements@,
            path@,
        ).errs == 0),
{
    let mut errs: Vec<SemanticError> = Vec::new();
    match namespace {
        Some(ns) => {
            populate_elements(elements, ns.as_str(), path, st, rg, &mut errs);
        },
        None => {
            let empty = String::new();
            populate_elements(elements, empty.as_str(), path, st, rg, &mut errs);
        },
    }
    if errs.len() == 0 {
        Ok(())
    } else {
        Err(errs)
    }
}

/// Populates a syntax file into the symbol table and relationship graph
/// using the adapter of its dialect. A kernel-dialect file is skipped as a
/// documented no-op success, so that mixed projects keep working; `path`
/// becomes the symbols' source file.
pub fn populate_syntax_file(
    syntax_file: &SyntaxFile,
    path: &str,
    symbol_table: &mut SymbolTable,
    relationship_graph: &mut RelationshipGraph,
) -> (r: Result<(), Vec<SemanticError>>)
    requires
        old(symbol_table).wf(),
        old(relationship_graph).wf(),
    ensures
        final(symbol_table).wf(),
        final(relationship_graph).wf(),
        model_of(*final(symbol_table), *final(relationship_graph), pop_errs(r)) == syntax_apply(
            model_of(*old(symbol_table), *old(relationship_graph), 0),
            *syntax_file,
            path@,
        ),
        (r is Ok) == (syntax_apply(
            model_of(*old(symbol_table), *old(relationship_graph), 0),
            *syntax_file,
            path@,
        ).errs == 0),
{
    match syntax_file {
        SyntaxFile::SysML(f) => SysmlAdapter::populate(f, path, symbol_table, relationship_graph),
        SyntaxFile::KerML(_) => Ok(()),
    }
}

/// What populating a syntax file does to the model: the main dialect is
/// walked; the kernel dialect is skipped by the dispatcher.
pub open spec fn syntax_apply(m: PopModel, f: SyntaxFile, path: Seq<char>) -> PopModel {
    match f {
        SyntaxFile::SysML(f) => file_apply(m, f.namespace, f.elements@, path),
        SyntaxFile::KerML(_) => m,
    }
}

} // verus!
