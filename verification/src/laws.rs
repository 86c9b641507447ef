//! Laws of population and collection.
//!
//! Population inserts, per file, a fixed contribution of keyed symbols and
//! edges into whatever stores it is run against; every contributed symbol
//! is owned by the populated file. The lemmas here prove that
//! characterization by induction over the walk and derive from it the
//! restoration laws — removing a file and re-populating it from the same
//! tree, equally populating and then updating with an identical tree,
//! restores the state of a single population — as well as the
//! error-reporting law for malformed relationships and the law of what one
//! reference-collection step records.

use vstd::prelude::*;

use crate::population::{elem_apply, elems_apply, rels_apply, syntax_apply,
    usage_apply, usages_apply, PopModel};
use crate::symbols::{owned_by, tbl_has_key, tbl_index, tbl_insert, SymbolView};
use crate::syntax::{Element, SyntaxFile, UsageDecl};
use crate::workspace::purged_syms;

verus! {

/// The symbol stored under `k`.
pub open spec fn tbl_at(t: Seq<(Seq<char>, SymbolView)>, k: Seq<char>) -> SymbolView {
    t[tbl_index(t, k)].1
}

/// Keys are pairwise distinct.
pub open spec fn keys_distinct(t: Seq<(Seq<char>, SymbolView)>) -> bool {
    forall|a: int, b: int|
        0 <= a < t.len() && 0 <= b < t.len() && a != b ==> (#[trigger] t[a]).0 != (
        #[trigger] t[b]).0
}

/// The model a walk's contribution is measured from: empty stores.
pub open spec fn empty_model() -> PopModel {
    PopModel { syms: Seq::empty(), oo: Map::empty(), om: Map::empty(), errs: 0 }
}

/// `out` is `base` plus the contribution `c`: the keys are the union, a
/// contributed key carries the contributed symbol, any other key keeps its
/// `base` symbol, and every contributed symbol is owned by `file`.
pub open spec fn syms_summary(
    base: Seq<(Seq<char>, SymbolView)>,
    out: Seq<(Seq<char>, SymbolView)>,
    c: Seq<(Seq<char>, SymbolView)>,
    file: Seq<char>,
) -> bool {
    &&& forall|k: Seq<char>|
        #[trigger] tbl_has_key(out, k) == (tbl_has_key(base, k) || tbl_has_key(c, k))
    &&& forall|k: Seq<char>| #[trigger] tbl_has_key(c, k) ==> tbl_at(out, k) == tbl_at(c, k)
    &&& forall|k: Seq<char>|
        !tbl_has_key(c, k) && #[trigger] tbl_has_key(base, k) ==> tbl_at(out, k) == tbl_at(
            base,
            k,
        )
    &&& forall|k: Seq<char>| #[trigger] tbl_has_key(c, k) ==> owned_by(tbl_at(c, k), file)
}

/// In a duplicate-free table the entry at any index is the one its key
/// resolves to.
proof fn lemma_index_unique(t: Seq<(Seq<char>, SymbolView)>, j: int)
    requires
        keys_distinct(t),
        0 <= j < t.len(),
    ensures
        tbl_index(t, t[j].0) == j,
        tbl_at(t, t[j].0) == t[j].1,
{
    assert(tbl_has_key(t, t[j].0));
    let i = tbl_index(t, t[j].0);
    assert(0 <= i < t.len() && t[i].0 == t[j].0);
}

/// `tbl_insert` adds exactly its key with its symbol, keeps every other
/// entry, and preserves duplicate-freedom.
proof fn lemma_insert_shape(t: Seq<(Seq<char>, SymbolView)>, k0: Seq<char>, v: SymbolView)
    requires
        keys_distinct(t),
    ensures
        keys_distinct(tbl_insert(t, k0, v)),
        forall|k: Seq<char>|
            #[trigger] tbl_has_key(tbl_insert(t, k0, v), k) == (tbl_has_key(t, k) || k == k0),
        tbl_at(tbl_insert(t, k0, v), k0) == v,
        forall|k: Seq<char>|
            k != k0 && #[trigger] tbl_has_key(t, k) ==> tbl_at(tbl_insert(t, k0, v), k)
                == tbl_at(t, k),
{
    let t2 = tbl_insert(t, k0, v);
    if tbl_has_key(t, k0) {
        let i0 = tbl_index(t, k0);
        assert(0 <= i0 < t.len() && t[i0].0 == k0);
        assert(t2 == t.update(i0, (k0, v)));
        assert(keys_distinct(t2)) by {
            assert forall|a: int, b: int|
                0 <= a < t2.len() && 0 <= b < t2.len() && a != b implies (#[trigger] t2[a]).0
                != (#[trigger] t2[b]).0 by {
                assert(t2[a].0 == t[a].0 && t2[b].0 == t[b].0);
            }
        }
        assert forall|k: Seq<char>|
            #[trigger] tbl_has_key(t2, k) == (tbl_has_key(t, k) || k == k0) by {
            if tbl_has_key(t2, k) {
                let j = choose|j: int| 0 <= j < t2.len() && (#[trigger] t2[j]).0 == k;
                assert(t[j].0 == t2[j].0);
            }
            if tbl_has_key(t, k) {
                let j = choose|j: int| 0 <= j < t.len() && (#[trigger] t[j]).0 == k;
                assert(t2[j].0 == k);
            }
            if k == k0 {
                assert(t2[i0].0 == k);
            }
        }
        assert(tbl_at(t2, k0) == v) by {
            lemma_index_unique(t2, i0);
        }
        assert forall|k: Seq<char>|
            k != k0 && #[trigger] tbl_has_key(t, k) implies tbl_at(t2, k) == tbl_at(t, k) by {
            let j = tbl_index(t, k);
            assert(0 <= j < t.len() && t[j].0 == k);
            assert(j != i0);
            assert(t2[j] == t[j]);
            lemma_index_unique(t2, j);
            lemma_index_unique(t, j);
        }
    } else {
        assert(t2 == t.push((k0, v)));
        assert(keys_distinct(t2)) by {
            assert forall|a: int, b: int|
                0 <= a < t2.len() && 0 <= b < t2.len() && a != b implies (#[trigger] t2[a]).0
                != (#[trigger] t2[b]).0 by {
                if a < t.len() && b < t.len() {
                    assert(t2[a].0 == t[a].0 && t2[b].0 == t[b].0);
                } else if a < t.len() {
                    assert(t2[b] == (k0, v));
                    assert(t2[a].0 == t[a].0);
                    if t[a].0 == k0 {
                        assert(tbl_has_key(t, k0));
                    }
                } else if b < t.len() {
                    assert(t2[a] == (k0, v));
                    assert(t2[b].0 == t[b].0);
                    if t[b].0 == k0 {
                        assert(tbl_has_key(t, k0));
                    }
                }
            }
        }
        assert forall|k: Seq<char>|
            #[trigger] tbl_has_key(t2, k) == (tbl_has_key(t, k) || k == k0) by {
            if tbl_has_key(t2, k) {
                let j = choose|j: int| 0 <= j < t2.len() && (#[trigger] t2[j]).0 == k;
                if j < t.len() {
                    assert(t[j].0 == k);
                }
            }
            if tbl_has_key(t, k) {
                let j = choose|j: int| 0 <= j < t.len() && (#[trigger] t[j]).0 == k;
                assert(t2[j].0 == k);
            }
            if k == k0 {
                assert(t2[t.len() as int].0 == k);
            }
        }
        assert(tbl_at(t2, k0) == v) by {
            lemma_index_unique(t2, t.len() as int);
        }
        assert forall|k: Seq<char>|
            k != k0 && #[trigger] tbl_has_key(t, k) implies tbl_at(t2, k) == tbl_at(t, k) by {
            let j = tbl_index(t, k);
            assert(0 <= j < t.len() && t[j].0 == k);
            assert(t2[j] == t[j]);
            lemma_index_unique(t2, j);
            lemma_index_unique(t, j);
        }
    }
}

/// The identity contribution: nothing was added.
proof fn lemma_summary_id(t: Seq<(Seq<char>, SymbolView)>, file: Seq<char>)
    ensures
        syms_summary(t, t, Seq::empty(), file),
{
    assert forall|k: Seq<char>| !(#[trigger] tbl_has_key(Seq::<(Seq<char>, SymbolView)>::empty(), k)) by {}
}

/// Contributions compose: a walk contributing `c1` followed by one
/// contributing `c2` contributes `cc`, where `cc` is `c2` laid over `c1`.
proof fn lemma_summary_compose(
    base: Seq<(Seq<char>, SymbolView)>,
    mid: Seq<(Seq<char>, SymbolView)>,
    out: Seq<(Seq<char>, SymbolView)>,
    c1: Seq<(Seq<char>, SymbolView)>,
    c2: Seq<(Seq<char>, SymbolView)>,
    cc: Seq<(Seq<char>, SymbolView)>,
    file: Seq<char>,
)
    requires
        syms_summary(base, mid, c1, file),
        syms_summary(mid, out, c2, file),
        syms_summary(c1, cc, c2, file),
    ensures
        syms_summary(base, out, cc, file),
{
    assert forall|k: Seq<char>|
        #[trigger] tbl_has_key(out, k) == (tbl_has_key(base, k) || tbl_has_key(cc, k)) by {
        assert(tbl_has_key(out, k) == (tbl_has_key(mid, k) || tbl_has_key(c2, k)));
        assert(tbl_has_key(mid, k) == (tbl_has_key(base, k) || tbl_has_key(c1, k)));
        assert(tbl_has_key(cc, k) == (tbl_has_key(c1, k) || tbl_has_key(c2, k)));
    }
    assert forall|k: Seq<char>|
        #[trigger] tbl_has_key(cc, k) implies tbl_at(out, k) == tbl_at(cc, k) && owned_by(
        tbl_at(cc, k),
        file,
    ) by {
        assert(tbl_has_key(cc, k) == (tbl_has_key(c1, k) || tbl_has_key(c2, k)));
        if tbl_has_key(c2, k) {
            assert(tbl_at(out, k) == tbl_at(c2, k));
            assert(tbl_at(cc, k) == tbl_at(c2, k));
        } else {
            assert(tbl_has_key(c1, k));
            assert(tbl_has_key(mid, k));
            assert(tbl_at(out, k) == tbl_at(mid, k));
            assert(tbl_at(mid, k) == tbl_at(c1, k));
            assert(tbl_at(cc, k) == tbl_at(c1, k));
        }
    }
    assert forall|k: Seq<char>|
        !tbl_has_key(cc, k) && #[trigger] tbl_has_key(base, k) implies tbl_at(out, k) == tbl_at(
        base,
        k,
    ) by {
        assert(tbl_has_key(cc, k) == (tbl_has_key(c1, k) || tbl_has_key(c2, k)));
        assert(tbl_has_key(mid, k));
        assert(tbl_at(out, k) == tbl_at(mid, k));
    }
}

/// Relationships do not touch the symbol table.
proof fn lemma_rels_syms(m: PopModel, rels: Seq<crate::syntax::RelationshipDecl>, src: Seq<char>)
    ensures
        rels_apply(m, rels, src).syms == m.syms,
    decreases rels.len(),
{
    if rels.len() > 0 {
        lemma_rels_syms(m, rels.drop_last(), src);
    }
}

/// The contribution of one usage.
proof fn lemma_usage_summary(m: PopModel, u: UsageDecl, scope: Seq<char>, file: Seq<char>)
    requires
        keys_distinct(m.syms),
    ensures
        keys_distinct(usage_apply(m, u, scope, file).syms),
        syms_summary(
            m.syms,
            usage_apply(m, u, scope, file).syms,
            usage_apply(empty_model(), u, scope, file).syms,
            file,
        ),
{
    let c = usage_apply(empty_model(), u, scope, file).syms;
    match u.name {
        Some(n) => {
            let q = crate::population::qualified(scope, n@);
            let v = crate::population::sym_view(
                crate::symbols::SymbolKind::Usage,
                n@,
                q,
                u.span,
                file,
            );
            lemma_rels_syms(
                PopModel { syms: tbl_insert(m.syms, q, v), ..m },
                u.relationships@,
                q,
            );
            assert(usage_apply(m, u, scope, file).syms == tbl_insert(m.syms, q, v));
            lemma_rels_syms(
                PopModel { syms: tbl_insert(Seq::empty(), q, v), ..empty_model() },
                u.relationships@,
                q,
            );
            assert(c == tbl_insert(Seq::empty(), q, v));
            assert(keys_distinct(Seq::<(Seq<char>, SymbolView)>::empty()));
            lemma_insert_shape(Seq::empty(), q, v);
            lemma_insert_shape(m.syms, q, v);
            assert forall|k: Seq<char>| #[trigger] tbl_has_key(c, k) implies tbl_at(
                usage_apply(m, u, scope, file).syms,
                k,
            ) == tbl_at(c, k) && owned_by(tbl_at(c, k), file) by {
                assert(k == q);
            }
        },
        None => {
            assert(usage_apply(m, u, scope, file).syms == m.syms);
            assert(c =~= Seq::<(Seq<char>, SymbolView)>::empty());
            lemma_summary_id(m.syms, file);
        },
    }
}

/// The contribution of a definition body.
proof fn lemma_usages_summary(m: PopModel, us: Seq<UsageDecl>, scope: Seq<char>, file: Seq<char>)
    requires
        keys_distinct(m.syms),
    ensures
        keys_distinct(usages_apply(m, us, scope, file).syms),
        syms_summary(
            m.syms,
            usages_apply(m, us, scope, file).syms,
            usages_apply(empty_model(), us, scope, file).syms,
            file,
        ),
    decreases us.len(),
{
    if us.len() == 0 {
        assert(usages_apply(empty_model(), us, scope, file).syms =~= Seq::<(
            Seq<char>,
            SymbolView,
        )>::empty());
        lemma_summary_id(m.syms, file);
    } else {
        let pre = us.drop_last();
        let mid = usages_apply(m, pre, scope, file);
        lemma_usages_summary(m, pre, scope, file);
        lemma_usage_summary(mid, us.last(), scope, file);
        let cmid = usages_apply(empty_model(), pre, scope, file);
        lemma_usages_summary(empty_model(), pre, scope, file);
        lemma_usage_summary(cmid, us.last(), scope, file);
        lemma_usage_canonical(cmid, us.last(), scope, file);
        lemma_summary_compose(
            m.syms,
            mid.syms,
            usage_apply(mid, us.last(), scope, file).syms,
            cmid.syms,
            usage_apply(empty_model(), us.last(), scope, file).syms,
            usage_apply(cmid, us.last(), scope, file).syms,
            file,
        );
    }
}

/// The contribution of a usage is the same from any starting model.
proof fn lemma_usage_canonical(m: PopModel, u: UsageDecl, scope: Seq<char>, file: Seq<char>)
    requires
        keys_distinct(m.syms),
    ensures
        syms_summary(
            m.syms,
            usage_apply(m, u, scope, file).syms,
            usage_apply(empty_model(), u, scope, file).syms,
            file,
        ),
{
    lemma_usage_summary(m, u, scope, file);
}

/// The contribution of one element.
proof fn lemma_elem_summary(m: PopModel, e: Element, scope: Seq<char>, file: Seq<char>)
    requires
        keys_distinct(m.syms),
    ensures
        keys_distinct(elem_apply(m, e, scope, file).syms),
        syms_summary(
            m.syms,
            elem_apply(m, e, scope, file).syms,
            elem_apply(empty_model(), e, scope, file).syms,
            file,
        ),
    decreases e, 1int,
{
    let c = elem_apply(empty_model(), e, scope, file).syms;
    match e {
        Element::Package(p) => {
            match p.name {
                Some(n) => {
                    let q = crate::population::qualified(scope, n@);
                    let v = crate::population::sym_view(
                        crate::symbols::SymbolKind::Package,
                        n@,
                        q,
                        p.span,
                        file,
                    );
                    let m1 = PopModel { syms: tbl_insert(m.syms, q, v), ..m };
                    let e1 = PopModel { syms: tbl_insert(Seq::empty(), q, v), ..empty_model() };
                    lemma_insert_shape(m.syms, q, v);
                    lemma_insert_shape(Seq::empty(), q, v);
                    lemma_elems_summary(m1, p.elements@, q, file);
                    lemma_elems_summary(e1, p.elements@, q, file);
                    assert forall|k: Seq<char>|
                        #[trigger] tbl_has_key(e1.syms, k) implies owned_by(
                        tbl_at(e1.syms, k),
                        file,
                    ) by {
                        assert(k == q);
                    }
                    lemma_summary_compose(
                        m.syms,
                        m1.syms,
                        elems_apply(m1, p.elements@, q, file).syms,
                        e1.syms,
                        elems_apply(empty_model(), p.elements@, q, file).syms,
                        elems_apply(e1, p.elements@, q, file).syms,
                        file,
                    );
                },
                None => {
                    let m1 = PopModel { errs: m.errs + 1, ..m };
                    let e1 = PopModel { errs: empty_model().errs + 1, ..empty_model() };
                    lemma_elems_summary(m1, p.elements@, scope, file);
                    lemma_elems_summary(e1, p.elements@, scope, file);
                    lemma_summary_id(m.syms, file);
                    lemma_summary_compose(
                        m.syms,
                        m1.syms,
                        elems_apply(m1, p.elements@, scope, file).syms,
                        Seq::empty(),
                        elems_apply(empty_model(), p.elements@, scope, file).syms,
                        elems_apply(e1, p.elements@, scope, file).syms,
                        file,
                    );
                },
            }
        },
        Element::Definition(d) => {
            match d.name {
                Some(n) => {
                    let q = crate::population::qualified(scope, n@);
                    let v = crate::population::sym_view(
                        crate::symbols::SymbolKind::Definition,
                        n@,
                        q,
                        d.span,
                        file,
                    );
                    let m1 = PopModel { syms: tbl_insert(m.syms, q, v), ..m };
                    let e1 = PopModel { syms: tbl_insert(Seq::empty(), q, v), ..empty_model() };
                    lemma_insert_shape(m.syms, q, v);
                    lemma_insert_shape(Seq::empty(), q, v);
                    let m2 = rels_apply(m1, d.relationships@, q);
                    let e2 = rels_apply(e1, d.relationships@, q);
                    lemma_rels_syms(m1, d.relationships@, q);
                    lemma_rels_syms(e1, d.relationships@, q);
                    lemma_usages_summary(m2, d.body@, q, file);
                    lemma_usages_summary(e2, d.body@, q, file);
                    assert forall|k: Seq<char>|
                        #[trigger] tbl_has_key(e2.syms, k) implies owned_by(
                        tbl_at(e2.syms, k),
                        file,
                    ) by {
                        assert(k == q);
                    }
                    lemma_summary_compose(
                        m.syms,
                        m2.syms,
                        usages_apply(m2, d.body@, q, file).syms,
                        e2.syms,
                        usages_apply(empty_model(), d.body@, q, file).syms,
                        usages_apply(e2, d.body@, q, file).syms,
                        file,
                    );
                },
                None => {
                    lemma_summary_id(m.syms, file);
                    assert(c =~= Seq::<(Seq<char>, SymbolView)>::empty());
                },
            }
        },
        Element::Usage(u) => {
            lemma_usage_summary(m, u, scope, file);
        },
        Element::Alias(a) => {
            match a.name {
                Some(n) => {
                    let q = crate::population::qualified(scope, n@);
                    let v = crate::population::sym_view(
                        crate::symbols::SymbolKind::Alias,
                        n@,
                        q,
                        a.span,
                        file,
                    );
                    lemma_insert_shape(m.syms, q, v);
                    lemma_insert_shape(Seq::empty(), q, v);
                    assert forall|k: Seq<char>| #[trigger] tbl_has_key(c, k) implies tbl_at(
                        elem_apply(m, e, scope, file).syms,
                        k,
                    ) == tbl_at(c, k) && owned_by(tbl_at(c, k), file) by {
                        assert(k == q);
                    }
                },
                None => {
                    lemma_summary_id(m.syms, file);
                    assert(c =~= Seq::<(Seq<char>, SymbolView)>::empty());
                },
            }
        },
        Element::Import(_) => {
            lemma_summary_id(m.syms, file);
            assert(c =~= Seq::<(Seq<char>, SymbolView)>::empty());
        },
    }
}

/// The contribution of a list of elements.
proof fn lemma_elems_summary(m: PopModel, es: Seq<Element>, scope: Seq<char>, file: Seq<char>)
    requires
        keys_distinct(m.syms),
    ensures
        keys_distinct(elems_apply(m, es, scope, file).syms),
        syms_summary(
            m.syms,
            elems_apply(m, es, scope, file).syms,
            elems_apply(empty_model(), es, scope, file).syms,
            file,
        ),
    decreases es, 0int,
{
    if es.len() == 0 {
        assert(elems_apply(empty_model(), es, scope, file).syms =~= Seq::<(
            Seq<char>,
            SymbolView,
        )>::empty());
        lemma_summary_id(m.syms, file);
    } else {
        let pre = es.drop_last();
        let mid = elems_apply(m, pre, scope, file);
        lemma_elems_summary(m, pre, scope, file);
        lemma_elem_summary(mid, es.last(), scope, file);
        let cmid = elems_apply(empty_model(), pre, scope, file);
        lemma_elems_summary(empty_model(), pre, scope, file);
        lemma_elem_summary(cmid, es.last(), scope, file);
        lemma_summary_compose(
            m.syms,
            mid.syms,
            elem_apply(mid, es.last(), scope, file).syms,
            cmid.syms,
            elem_apply(empty_model(), es.last(), scope, file).syms,
            elem_apply(cmid, es.last(), scope, file).syms,
            file,
        );
    }
}

/// The contribution of a whole syntax file: its walked elements for the
/// main dialect, nothing for the skipped kernel dialect.
pub proof fn lemma_syntax_summary(m: PopModel, f: SyntaxFile, path: Seq<char>)
    requires
        keys_distinct(m.syms),
    ensures
        keys_distinct(syntax_apply(m, f, path).syms),
        syms_summary(
            m.syms,
            syntax_apply(m, f, path).syms,
            syntax_apply(empty_model(), f, path).syms,
            path,
        ),
{
    match f {
        SyntaxFile::SysML(x) => {
            match x.namespace {
                Some(ns) => {
                    lemma_elems_summary(m, x.elements@, ns@, path);
                    lemma_elems_summary(empty_model(), x.elements@, ns@, path);
                },
                None => {
                    lemma_elems_summary(m, x.elements@, Seq::empty(), path);
                    lemma_elems_summary(empty_model(), x.elements@, Seq::empty(), path);
                },
            }
        },
        SyntaxFile::KerML(_) => {
            assert(syntax_apply(empty_model(), f, path).syms =~= Seq::<(
                Seq<char>,
                SymbolView,
            )>::empty());
            lemma_summary_id(m.syms, path);
        },
    }
}

/// The one-to-one map `out` is `base` overridden by the contribution `c`,
/// and every contributed edge starts at a symbol of `csyms`.
pub open spec fn oo_summary(
    base: Map<(Seq<char>, Seq<char>), Seq<char>>,
    out: Map<(Seq<char>, Seq<char>), Seq<char>>,
    c: Map<(Seq<char>, Seq<char>), Seq<char>>,
    csyms: Seq<(Seq<char>, SymbolView)>,
) -> bool {
    &&& forall|p: (Seq<char>, Seq<char>)|
        #[trigger] out.dom().contains(p) == (base.dom().contains(p) || c.dom().contains(p))
    &&& forall|p: (Seq<char>, Seq<char>)| #[trigger] c.dom().contains(p) ==> out[p] == c[p]
    &&& forall|p: (Seq<char>, Seq<char>)|
        !c.dom().contains(p) && #[trigger] base.dom().contains(p) ==> out[p] == base[p]
    &&& forall|p: (Seq<char>, Seq<char>)|
        #[trigger] c.dom().contains(p) ==> tbl_has_key(csyms, p.1)
}

/// The target list stored for `key`, or the empty list.
pub open spec fn om_get(
    m: Map<(Seq<char>, Seq<char>), Seq<Seq<char>>>,
    key: (Seq<char>, Seq<char>),
) -> Seq<Seq<char>> {
    crate::population::om_get(m, key)
}

/// The one-to-many map `out` is `base` with the contributed target lists
/// of `c` appended per key, and every contributed entry starts at a symbol
/// of `csyms`.
pub open spec fn om_summary(
    base: Map<(Seq<char>, Seq<char>), Seq<Seq<char>>>,
    out: Map<(Seq<char>, Seq<char>), Seq<Seq<char>>>,
    c: Map<(Seq<char>, Seq<char>), Seq<Seq<char>>>,
    csyms: Seq<(Seq<char>, SymbolView)>,
) -> bool {
    &&& forall|p: (Seq<char>, Seq<char>)|
        #[trigger] out.dom().contains(p) == (base.dom().contains(p) || c.dom().contains(p))
    &&& forall|p: (Seq<char>, Seq<char>)|
        #[trigger] c.dom().contains(p) ==> out[p] == om_get(base, p) + c[p]
    &&& forall|p: (Seq<char>, Seq<char>)|
        !c.dom().contains(p) && #[trigger] base.dom().contains(p) ==> out[p] == base[p]
    &&& forall|p: (Seq<char>, Seq<char>)|
        #[trigger] c.dom().contains(p) ==> tbl_has_key(csyms, p.1)
}

/// `c2` laid over `c1` yields the contribution of the composite walk.
proof fn lemma_edges_compose(
    b: PopModel,
    mid: PopModel,
    out: PopModel,
    c1: PopModel,
    cc: PopModel,
    c2oo: Map<(Seq<char>, Seq<char>), Seq<char>>,
    c2om: Map<(Seq<char>, Seq<char>), Seq<Seq<char>>>,
    s1: Seq<(Seq<char>, SymbolView)>,
    s2: Seq<(Seq<char>, SymbolView)>,
    sc: Seq<(Seq<char>, SymbolView)>,
)
    requires
        oo_summary(b.oo, mid.oo, c1.oo, s1),
        om_summary(b.om, mid.om, c1.om, s1),
        oo_summary(mid.oo, out.oo, c2oo, s2),
        om_summary(mid.om, out.om, c2om, s2),
        oo_summary(c1.oo, cc.oo, c2oo, s2),
        om_summary(c1.om, cc.om, c2om, s2),
        forall|k: Seq<char>| #[trigger] tbl_has_key(s1, k) ==> tbl_has_key(sc, k),
        forall|k: Seq<char>| #[trigger] tbl_has_key(s2, k) ==> tbl_has_key(sc, k),
    ensures
        oo_summary(b.oo, out.oo, cc.oo, sc),
        om_summary(b.om, out.om, cc.om, sc),
{
    assert forall|p: (Seq<char>, Seq<char>)|
        #[trigger] out.oo.dom().contains(p) == (b.oo.dom().contains(p) || cc.oo.dom().contains(
            p,
        )) by {}
    assert forall|p: (Seq<char>, Seq<char>)|
        #[trigger] cc.oo.dom().contains(p) implies out.oo[p] == cc.oo[p] && tbl_has_key(
        sc,
        p.1,
    ) by {
        if c2oo.dom().contains(p) {
        } else {
            assert(c1.oo.dom().contains(p));
            assert(mid.oo.dom().contains(p));
        }
    }
    assert forall|p: (Seq<char>, Seq<char>)|
        !cc.oo.dom().contains(p) && #[trigger] b.oo.dom().contains(p) implies out.oo[p]
        == b.oo[p] by {
        assert(!c2oo.dom().contains(p) && !c1.oo.dom().contains(p));
        assert(mid.oo.dom().contains(p));
    }
    assert forall|p: (Seq<char>, Seq<char>)|
        #[trigger] out.om.dom().contains(p) == (b.om.dom().contains(p) || cc.om.dom().contains(
            p,
        )) by {}
    assert forall|p: (Seq<char>, Seq<char>)|
        #[trigger] cc.om.dom().contains(p) implies out.om[p] == om_get(b.om, p) + cc.om[p]
        && tbl_has_key(sc, p.1) by {
        if c2om.dom().contains(p) {
            assert(out.om[p] == om_get(mid.om, p) + c2om[p]);
            assert(cc.om[p] == om_get(c1.om, p) + c2om[p]);
            if c1.om.dom().contains(p) {
                assert(om_get(mid.om, p) == om_get(b.om, p) + c1.om[p]);
                assert(om_get(b.om, p) + (om_get(c1.om, p) + c2om[p]) =~= (om_get(b.om, p)
                    + c1.om[p]) + c2om[p]);
            } else {
                assert(om_get(c1.om, p) =~= Seq::<Seq<char>>::empty());
                if b.om.dom().contains(p) {
                    assert(mid.om[p] == b.om[p]);
                    assert(om_get(mid.om, p) == om_get(b.om, p));
                } else {
                    assert(!mid.om.dom().contains(p));
                    assert(om_get(mid.om, p) =~= Seq::<Seq<char>>::empty());
                    assert(om_get(b.om, p) =~= Seq::<Seq<char>>::empty());
                }
                assert(om_get(b.om, p) + (om_get(c1.om, p) + c2om[p]) =~= om_get(mid.om, p)
                    + c2om[p]);
            }
        } else {
            assert(c1.om.dom().contains(p));
            assert(mid.om.dom().contains(p));
            assert(out.om[p] == mid.om[p]);
            assert(mid.om[p] == om_get(b.om, p) + c1.om[p]);
            assert(cc.om[p] == c1.om[p]);
        }
    }
    assert forall|p: (Seq<char>, Seq<char>)|
        !cc.om.dom().contains(p) && #[trigger] b.om.dom().contains(p) implies out.om[p]
        == b.om[p] by {
        assert(!c2om.dom().contains(p) && !c1.om.dom().contains(p));
        assert(mid.om.dom().contains(p));
    }
}

/// The edge stores a walk produces depend only on the edge stores it
/// starts from, never on the symbols walked over them.
proof fn frame_rels(m1: PopModel, m2: PopModel, rels: Seq<crate::syntax::RelationshipDecl>, src: Seq<char>)
    requires
        m1.oo == m2.oo,
        m1.om == m2.om,
    ensures
        rels_apply(m1, rels, src).oo == rels_apply(m2, rels, src).oo,
        rels_apply(m1, rels, src).om == rels_apply(m2, rels, src).om,
    decreases rels.len(),
{
    if rels.len() > 0 {
        frame_rels(m1, m2, rels.drop_last(), src);
    }
}

proof fn frame_usage(m1: PopModel, m2: PopModel, u: UsageDecl, scope: Seq<char>, file: Seq<char>)
    requires
        m1.oo == m2.oo,
        m1.om == m2.om,
    ensures
        usage_apply(m1, u, scope, file).oo == usage_apply(m2, u, scope, file).oo,
        usage_apply(m1, u, scope, file).om == usage_apply(m2, u, scope, file).om,
{
    match u.name {
        Some(n) => {
            let q = crate::population::qualified(scope, n@);
            frame_rels(
                PopModel { syms: tbl_insert(m1.syms, q, usage_sym(u, scope, file)), ..m1 },
                PopModel { syms: tbl_insert(m2.syms, q, usage_sym(u, scope, file)), ..m2 },
                u.relationships@,
                q,
            );
        },
        None => {
        },
    }
}

/// The symbol a named usage contributes.
pub open spec fn usage_sym(u: UsageDecl, scope: Seq<char>, file: Seq<char>) -> SymbolView {
    let q = crate::population::qualified(scope, u.name->Some_0@);
    crate::population::sym_view(crate::symbols::SymbolKind::Usage, u.name->Some_0@, q, u.span, file)
}

proof fn frame_usages(m1: PopModel, m2: PopModel, us: Seq<UsageDecl>, scope: Seq<char>, file: Seq<char>)
    requires
        m1.oo == m2.oo,
        m1.om == m2.om,
    ensures
        usages_apply(m1, us, scope, file).oo == usages_apply(m2, us, scope, file).oo,
        usages_apply(m1, us, scope, file).om == usages_apply(m2, us, scope, file).om,
    decreases us.len(),
{
    if us.len() > 0 {
        frame_usages(m1, m2, us.drop_last(), scope, file);
        frame_usage(
            usages_apply(m1, us.drop_last(), scope, file),
            usages_apply(m2, us.drop_last(), scope, file),
            us.last(),
            scope,
            file,
        );
    }
}

proof fn frame_elem(m1: PopModel, m2: PopModel, e: Element, scope: Seq<char>, file: Seq<char>)
    requires
        m1.oo == m2.oo,
        m1.om == m2.om,
    ensures
        elem_apply(m1, e, scope, file).oo == elem_apply(m2, e, scope, file).oo,
        elem_apply(m1, e, scope, file).om == elem_apply(m2, e, scope, file).om,
    decreases e, 1int,
{
    match e {
        Element::Package(p) => {
            match p.name {
                Some(n) => {
                    let q = crate::population::qualified(scope, n@);
                    let v = crate::population::sym_view(
                        crate::symbols::SymbolKind::Package,
                        n@,
                        q,
                        p.span,
                        file,
                    );
                    frame_elems(
                        PopModel { syms: tbl_insert(m1.syms, q, v), ..m1 },
                        PopModel { syms: tbl_insert(m2.syms, q, v), ..m2 },
                        p.elements@,
                        q,
                        file,
                    );
                },
                None => {
                    frame_elems(
                        PopModel { errs: m1.errs + 1, ..m1 },
                        PopModel { errs: m2.errs + 1, ..m2 },
                        p.elements@,
                        scope,
                        file,
                    );
                },
            }
        },
        Element::Definition(d) => {
            match d.name {
                Some(n) => {
                    let q = crate::population::qualified(scope, n@);
                    let v = crate::population::sym_view(
                        crate::symbols::SymbolKind::Definition,
                        n@,
                        q,
                        d.span,
                        file,
                    );
                    let a1 = PopModel { syms: tbl_insert(m1.syms, q, v), ..m1 };
                    let a2 = PopModel { syms: tbl_insert(m2.syms, q, v), ..m2 };
                    frame_rels(a1, a2, d.relationships@, q);
                    frame_usages(
                        rels_apply(a1, d.relationships@, q),
                        rels_apply(a2, d.relationships@, q),
                        d.body@,
                        q,
                        file,
                    );
                },
                None => {
                },
            }
        },
        Element::Usage(u) => {
            frame_usage(m1, m2, u, scope, file);
        },
        Element::Alias(_) => {
        },
        Element::Import(_) => {
        },
    }
}

proof fn frame_elems(m1: PopModel, m2: PopModel, es: Seq<Element>, scope: Seq<char>, file: Seq<char>)
    requires
        m1.oo == m2.oo,
        m1.om == m2.om,
    ensures
        elems_apply(m1, es, scope, file).oo == elems_apply(m2, es, scope, file).oo,
        elems_apply(m1, es, scope, file).om == elems_apply(m2, es, scope, file).om,
    decreases es, 0int,
{
    if es.len() > 0 {
        frame_elems(m1, m2, es.drop_last(), scope, file);
        frame_elem(
            elems_apply(m1, es.drop_last(), scope, file),
            elems_apply(m2, es.drop_last(), scope, file),
            es.last(),
            scope,
            file,
        );
    }
}

/// No contribution: the edge stores pass through.
proof fn lemma_edges_id(m: PopModel, csyms: Seq<(Seq<char>, SymbolView)>)
    ensures
        oo_summary(m.oo, m.oo, Map::empty(), csyms),
        om_summary(m.om, m.om, Map::empty(), csyms),
{
    assert forall|p: (Seq<char>, Seq<char>)|
        !(#[trigger] Map::<(Seq<char>, Seq<char>), Seq<char>>::empty().dom().contains(p)) by {}
    assert forall|p: (Seq<char>, Seq<char>)|
        !(#[trigger] Map::<(Seq<char>, Seq<char>), Seq<Seq<char>>>::empty().dom().contains(
            p,
        )) by {}
}

/// The edge contribution of one declared relationship.
proof fn edges_rel(
    m: PopModel,
    r: crate::syntax::RelationshipDecl,
    src: Seq<char>,
    csyms: Seq<(Seq<char>, SymbolView)>,
)
    requires
        tbl_has_key(csyms, src),
    ensures
        oo_summary(
            m.oo,
            crate::population::rel_apply(m, r, src).oo,
            crate::population::rel_apply(empty_model(), r, src).oo,
            csyms,
        ),
        om_summary(
            m.om,
            crate::population::rel_apply(m, r, src).om,
            crate::population::rel_apply(empty_model(), r, src).om,
            csyms,
        ),
{
    let out = crate::population::rel_apply(m, r, src);
    let c = crate::population::rel_apply(empty_model(), r, src);
    if r.target@.len() == 0 {
        lemma_edges_id(m, csyms);
    } else {
        match r.kind {
            crate::syntax::RelationDeclKind::Typing => {
                let key = (crate::graph::REL_TYPING@, src);
                assert(out.oo == m.oo.insert(key, r.target@));
                assert(c.oo == Map::<(Seq<char>, Seq<char>), Seq<char>>::empty().insert(
                    key,
                    r.target@,
                ));
                assert forall|p: (Seq<char>, Seq<char>)|
                    #[trigger] c.oo.dom().contains(p) implies p == key by {}
                assert(om_summary(m.om, out.om, c.om, csyms)) by {
                    lemma_edges_id(m, csyms);
                }
            },
            _ => {
                let key = (
                    match r.kind {
                        crate::syntax::RelationDeclKind::Specialization => crate::graph::REL_SPECIALIZATION@,
                        crate::syntax::RelationDeclKind::Redefinition => crate::graph::REL_REDEFINITION@,
                        crate::syntax::RelationDeclKind::Subsetting => crate::graph::REL_SUBSETTING@,
                        _ => crate::graph::REL_REFERENCE_SUBSETTING@,
                    },
                    src,
                );
                assert(out.om == m.om.insert(key, om_get(m.om, key).push(r.target@)));
                assert(c.om == Map::<(Seq<char>, Seq<char>), Seq<Seq<char>>>::empty().insert(
                    key,
                    om_get(Map::empty(), key).push(r.target@),
                ));
                assert(c.om[key] =~= seq![r.target@]);
                assert forall|p: (Seq<char>, Seq<char>)|
                    #[trigger] c.om.dom().contains(p) implies p == key by {}
                assert(out.om[key] =~= om_get(m.om, key) + c.om[key]);
                assert(oo_summary(m.oo, out.oo, c.oo, csyms)) by {
                    lemma_edges_id(m, csyms);
                }
            },
        }
    }
}

/// The edge contribution of a relationship list.
proof fn edges_rels(
    m: PopModel,
    rels: Seq<crate::syntax::RelationshipDecl>,
    src: Seq<char>,
    csyms: Seq<(Seq<char>, SymbolView)>,
)
    requires
        tbl_has_key(csyms, src),
    ensures
        oo_summary(
            m.oo,
            rels_apply(m, rels, src).oo,
            rels_apply(empty_model(), rels, src).oo,
            csyms,
        ),
        om_summary(
            m.om,
            rels_apply(m, rels, src).om,
            rels_apply(empty_model(), rels, src).om,
            csyms,
        ),
    decreases rels.len(),
{
    if rels.len() == 0 {
        lemma_edges_id(m, csyms);
    } else {
        let pre = rels.drop_last();
        edges_rels(m, pre, src, csyms);
        edges_rel(rels_apply(m, pre, src), rels.last(), src, csyms);
        edges_rel(rels_apply(empty_model(), pre, src), rels.last(), src, csyms);
        lemma_edges_compose(
            m,
            rels_apply(m, pre, src),
            rels_apply(m, rels, src),
            rels_apply(empty_model(), pre, src),
            rels_apply(empty_model(), rels, src),
            crate::population::rel_apply(empty_model(), rels.last(), src).oo,
            crate::population::rel_apply(empty_model(), rels.last(), src).om,
            csyms,
            csyms,
            csyms,
        );
    }
}

/// The edge contribution of one usage: its relationships, sourced at its
/// qualified name, which its own symbol contribution covers.
proof fn edges_usage(m: PopModel, u: UsageDecl, scope: Seq<char>, file: Seq<char>)
    ensures
        oo_summary(
            m.oo,
            usage_apply(m, u, scope, file).oo,
            usage_apply(empty_model(), u, scope, file).oo,
            usage_apply(empty_model(), u, scope, file).syms,
        ),
        om_summary(
            m.om,
            usage_apply(m, u, scope, file).om,
            usage_apply(empty_model(), u, scope, file).om,
            usage_apply(empty_model(), u, scope, file).syms,
        ),
{
    let c = usage_apply(empty_model(), u, scope, file);
    match u.name {
        Some(n) => {
            let q = crate::population::qualified(scope, n@);
            let v = usage_sym(u, scope, file);
            let m1 = PopModel { syms: tbl_insert(m.syms, q, v), ..m };
            let e1 = PopModel { syms: tbl_insert(Seq::empty(), q, v), ..empty_model() };
            lemma_rels_syms(e1, u.relationships@, q);
            assert(c.syms == tbl_insert(Seq::empty(), q, v));
            assert(keys_distinct(Seq::<(Seq<char>, SymbolView)>::empty()));
            lemma_insert_shape(Seq::empty(), q, v);
            assert(tbl_has_key(c.syms, q));
            edges_rels(m1, u.relationships@, q, c.syms);
            frame_rels(e1, empty_model(), u.relationships@, q);
            assert(usage_apply(m, u, scope, file).oo == rels_apply(m1, u.relationships@, q).oo);
            assert(c.oo == rels_apply(empty_model(), u.relationships@, q).oo);
            assert(c.om == rels_apply(empty_model(), u.relationships@, q).om);
        },
        None => {
            lemma_edges_id(m, c.syms);
            assert(c.oo =~= Map::<(Seq<char>, Seq<char>), Seq<char>>::empty());
            assert(c.om =~= Map::<(Seq<char>, Seq<char>), Seq<Seq<char>>>::empty());
        },
    }
}

/// The edge contribution of a definition body.
proof fn edges_usages(m: PopModel, us: Seq<UsageDecl>, scope: Seq<char>, file: Seq<char>)
    ensures
        oo_summary(
            m.oo,
            usages_apply(m, us, scope, file).oo,
            usages_apply(empty_model(), us, scope, file).oo,
            usages_apply(empty_model(), us, scope, file).syms,
        ),
        om_summary(
            m.om,
            usages_apply(m, us, scope, file).om,
            usages_apply(empty_model(), us, scope, file).om,
            usages_apply(empty_model(), us, scope, file).syms,
        ),
    decreases us.len(),
{
    if us.len() == 0 {
        lemma_edges_id(m, usages_apply(empty_model(), us, scope, file).syms);
    } else {
        let pre = us.drop_last();
        let cmid = usages_apply(empty_model(), pre, scope, file);
        edges_usages(m, pre, scope, file);
        edges_usage(usages_apply(m, pre, scope, file), us.last(), scope, file);
        edges_usage(cmid, us.last(), scope, file);
        lemma_usages_summary(empty_model(), pre, scope, file);
        lemma_usage_summary(cmid, us.last(), scope, file);
        lemma_edges_compose(
            m,
            usages_apply(m, pre, scope, file),
            usages_apply(m, us, scope, file),
            cmid,
            usages_apply(empty_model(), us, scope, file),
            usage_apply(empty_model(), us.last(), scope, file).oo,
            usage_apply(empty_model(), us.last(), scope, file).om,
            cmid.syms,
            usage_apply(empty_model(), us.last(), scope, file).syms,
            usages_apply(empty_model(), us, scope, file).syms,
        );
    }
}

/// The edge contribution of one element.
proof fn edges_elem(m: PopModel, e: Element, scope: Seq<char>, file: Seq<char>)
    ensures
        oo_summary(
            m.oo,
            elem_apply(m, e, scope, file).oo,
            elem_apply(empty_model(), e, scope, file).oo,
            elem_apply(empty_model(), e, scope, file).syms,
        ),
        om_summary(
            m.om,
            elem_apply(m, e, scope, file).om,
            elem_apply(empty_model(), e, scope, file).om,
            elem_apply(empty_model(), e, scope, file).syms,
        ),
    decreases e, 1int,
{
    let c = elem_apply(empty_model(), e, scope, file);
    match e {
        Element::Package(p) => {
            match p.name {
                Some(n) => {
                    let q = crate::population::qualified(scope, n@);
                    let v = crate::population::sym_view(
                        crate::symbols::SymbolKind::Package,
                        n@,
                        q,
                        p.span,
                        file,
                    );
                    let m1 = PopModel { syms: tbl_insert(m.syms, q, v), ..m };
                    let e1 = PopModel { syms: tbl_insert(Seq::empty(), q, v), ..empty_model() };
                    edges_elems(m1, p.elements@, q, file);
                    frame_elems(e1, empty_model(), p.elements@, q, file);
                    assert(c.oo == elems_apply(empty_model(), p.elements@, q, file).oo);
                    assert(c.om == elems_apply(empty_model(), p.elements@, q, file).om);
                    assert(keys_distinct(Seq::<(Seq<char>, SymbolView)>::empty()));
                    lemma_insert_shape(Seq::empty(), q, v);
                    lemma_elems_summary(e1, p.elements@, q, file);
                    assert forall|k: Seq<char>|
                        #[trigger] tbl_has_key(
                            elems_apply(empty_model(), p.elements@, q, file).syms,
                            k,
                        ) implies tbl_has_key(c.syms, k) by {
                        assert(tbl_has_key(c.syms, k) == (tbl_has_key(e1.syms, k)
                            || tbl_has_key(
                            elems_apply(empty_model(), p.elements@, q, file).syms,
                            k,
                        )));
                    }
                    assert(oo_summary(m.oo, elem_apply(m, e, scope, file).oo, c.oo, c.syms))
                        by {
                        assert(oo_summary(
                            m1.oo,
                            elems_apply(m1, p.elements@, q, file).oo,
                            c.oo,
                            elems_apply(empty_model(), p.elements@, q, file).syms,
                        ));
                    }
                    assert(om_summary(m.om, elem_apply(m, e, scope, file).om, c.om, c.syms))
                        by {
                        assert(om_summary(
                            m1.om,
                            elems_apply(m1, p.elements@, q, file).om,
                            c.om,
                            elems_apply(empty_model(), p.elements@, q, file).syms,
                        ));
                    }
                },
                None => {
                    let m1 = PopModel { errs: m.errs + 1, ..m };
                    let e1 = PopModel { errs: empty_model().errs + 1, ..empty_model() };
                    edges_elems(m1, p.elements@, scope, file);
                    frame_elems(e1, empty_model(), p.elements@, scope, file);
                    assert(c.oo == elems_apply(empty_model(), p.elements@, scope, file).oo);
                    assert(c.om == elems_apply(empty_model(), p.elements@, scope, file).om);
                    lemma_elems_summary(e1, p.elements@, scope, file);
                    assert forall|k: Seq<char>|
                        #[trigger] tbl_has_key(
                            elems_apply(empty_model(), p.elements@, scope, file).syms,
                            k,
                        ) implies tbl_has_key(c.syms, k) by {
                        assert(tbl_has_key(c.syms, k) == (tbl_has_key(e1.syms, k)
                            || tbl_has_key(
                            elems_apply(empty_model(), p.elements@, scope, file).syms,
                            k,
                        )));
                        assert(e1.syms =~= Seq::<(Seq<char>, SymbolView)>::empty());
                    }
                    assert(oo_summary(m.oo, elem_apply(m, e, scope, file).oo, c.oo, c.syms))
                        by {
                        assert(oo_summary(
                            m1.oo,
                            elems_apply(m1, p.elements@, scope, file).oo,
                            c.oo,
                            elems_apply(empty_model(), p.elements@, scope, file).syms,
                        ));
                    }
                    assert(om_summary(m.om, elem_apply(m, e, scope, file).om, c.om, c.syms))
                        by {
                        assert(om_summary(
                            m1.om,
                            elems_apply(m1, p.elements@, scope, file).om,
                            c.om,
                            elems_apply(empty_model(), p.elements@, scope, file).syms,
                        ));
                    }
                },
            }
        },
        Element::Definition(d) => {
            match d.name {
                Some(n) => {
                    let q = crate::population::qualified(scope, n@);
                    let v = crate::population::sym_view(
                        crate::symbols::SymbolKind::Definition,
                        n@,
                        q,
                        d.span,
                        file,
                    );
                    let m1 = PopModel { syms: tbl_insert(m.syms, q, v), ..m };
                    let e1 = PopModel { syms: tbl_insert(Seq::empty(), q, v), ..empty_model() };
                    assert(keys_distinct(Seq::<(Seq<char>, SymbolView)>::empty()));
                    lemma_insert_shape(Seq::empty(), q, v);
                    let m2 = rels_apply(m1, d.relationships@, q);
                    let e2 = rels_apply(e1, d.relationships@, q);
                    lemma_rels_syms(e1, d.relationships@, q);
                    edges_rels(m1, d.relationships@, q, e1.syms);
                    frame_rels(e1, empty_model(), d.relationships@, q);
                    edges_usages(m2, d.body@, q, file);
                    edges_usages(e2, d.body@, q, file);
                    lemma_usages_summary(e2, d.body@, q, file);
                    lemma_edges_compose(
                        m1,
                        m2,
                        usages_apply(m2, d.body@, q, file),
                        e2,
                        usages_apply(e2, d.body@, q, file),
                        usages_apply(empty_model(), d.body@, q, file).oo,
                        usages_apply(empty_model(), d.body@, q, file).om,
                        e1.syms,
                        usages_apply(empty_model(), d.body@, q, file).syms,
                        c.syms,
                    );
                },
                None => {
                    lemma_edges_id(m, c.syms);
                    assert(c.oo =~= Map::<(Seq<char>, Seq<char>), Seq<char>>::empty());
                    assert(c.om =~= Map::<(Seq<char>, Seq<char>), Seq<Seq<char>>>::empty());
                },
            }
        },
        Element::Usage(u) => {
            edges_usage(m, u, scope, file);
        },
        Element::Alias(a) => {
            lemma_edges_id(m, c.syms);
            assert(c.oo =~= Map::<(Seq<char>, Seq<char>), Seq<char>>::empty());
            assert(c.om =~= Map::<(Seq<char>, Seq<char>), Seq<Seq<char>>>::empty());
        },
        Element::Import(_) => {
            lemma_edges_id(m, c.syms);
            assert(c.oo =~= Map::<(Seq<char>, Seq<char>), Seq<char>>::empty());
            assert(c.om =~= Map::<(Seq<char>, Seq<char>), Seq<Seq<char>>>::empty());
        },
    }
}

/// The edge contribution of a list of elements.
proof fn edges_elems(m: PopModel, es: Seq<Element>, scope: Seq<char>, file: Seq<char>)
    ensures
        oo_summary(
            m.oo,
            elems_apply(m, es, scope, file).oo,
            elems_apply(empty_model(), es, scope, file).oo,
            elems_apply(empty_model(), es, scope, file).syms,
        ),
        om_summary(
            m.om,
            elems_apply(m, es, scope, file).om,
            elems_apply(empty_model(), es, scope, file).om,
            elems_apply(empty_model(), es, scope, file).syms,
        ),
    decreases es, 0int,
{
    if es.len() == 0 {
        lemma_edges_id(m, elems_apply(empty_model(), es, scope, file).syms);
    } else {
        let pre = es.drop_last();
        let cmid = elems_apply(empty_model(), pre, scope, file);
        edges_elems(m, pre, scope, file);
        edges_elem(elems_apply(m, pre, scope, file), es.last(), scope, file);
        edges_elem(cmid, es.last(), scope, file);
        lemma_elems_summary(empty_model(), pre, scope, file);
        lemma_elem_summary(cmid, es.last(), scope, file);
        lemma_edges_compose(
            m,
            elems_apply(m, pre, scope, file),
            elems_apply(m, es, scope, file),
            cmid,
            elems_apply(empty_model(), es, scope, file),
            elem_apply(empty_model(), es.last(), scope, file).oo,
            elem_apply(empty_model(), es.last(), scope, file).om,
            cmid.syms,
            elem_apply(empty_model(), es.last(), scope, file).syms,
            elems_apply(empty_model(), es, scope, file).syms,
        );
    }
}

/// The edge contribution of a whole syntax file.
pub proof fn lemma_syntax_edges_summary(m: PopModel, f: SyntaxFile, path: Seq<char>)
    ensures
        oo_summary(
            m.oo,
            syntax_apply(m, f, path).oo,
            syntax_apply(empty_model(), f, path).oo,
            syntax_apply(empty_model(), f, path).syms,
        ),
        om_summary(
            m.om,
            syntax_apply(m, f, path).om,
            syntax_apply(empty_model(), f, path).om,
            syntax_apply(empty_model(), f, path).syms,
        ),
{
    match f {
        SyntaxFile::SysML(x) => {
            match x.namespace {
                Some(ns) => {
                    edges_elems(m, x.elements@, ns@, path);
                },
                None => {
                    edges_elems(m, x.elements@, Seq::empty(), path);
                },
            }
        },
        SyntaxFile::KerML(_) => {
            lemma_edges_id(m, syntax_apply(empty_model(), f, path).syms);
            assert(syntax_apply(empty_model(), f, path).oo =~= Map::<(
                Seq<char>,
                Seq<char>,
            ), Seq<char>>::empty());
            assert(syntax_apply(empty_model(), f, path).om =~= Map::<(
                Seq<char>,
                Seq<char>,
            ), Seq<Seq<char>>>::empty());
        },
    }
}

/// Law: for all files, removing the file and re-populating it from the
/// same tree restores the symbol table of a single population — the same
/// keys mapped to the same symbols; only the insertion order may differ.
/// Through the workspace contracts this covers `remove_file` followed by
/// `add_file` with the same tree, and `add_file` followed by `update_file`
/// with an identical tree. The one proviso: the starting table holds no
/// symbol already owned by the file, which the workspace guarantees while
/// the file is not loaded.
pub proof fn lemma_remove_then_add_restores_symbols(
    m0: PopModel,
    f: SyntaxFile,
    path: Seq<char>,
    t1: Seq<(Seq<char>, SymbolView)>,
    m1: PopModel,
)
    requires
        keys_distinct(m0.syms),
        keys_distinct(t1),
        forall|k: Seq<char>|
            #[trigger] tbl_has_key(m0.syms, k) ==> !owned_by(tbl_at(m0.syms, k), path),
        purged_syms(syntax_apply(m0, f, path).syms, t1, path),
        m1.syms == t1,
    ensures
        forall|k: Seq<char>|
            #[trigger] tbl_has_key(syntax_apply(m1, f, path).syms, k) == tbl_has_key(
                syntax_apply(m0, f, path).syms,
                k,
            ),
        forall|k: Seq<char>|
            #[trigger] tbl_has_key(syntax_apply(m1, f, path).syms, k) ==> tbl_at(
                syntax_apply(m1, f, path).syms,
                k,
            ) == tbl_at(syntax_apply(m0, f, path).syms, k),
{
    let a = syntax_apply(m0, f, path).syms;
    let b = syntax_apply(m1, f, path).syms;
    let c = syntax_apply(empty_model(), f, path).syms;
    lemma_syntax_summary(m0, f, path);
    lemma_syntax_summary(m1, f, path);
    assert forall|k: Seq<char>| #[trigger] tbl_has_key(b, k) == tbl_has_key(a, k) by {
        assert(tbl_has_key(b, k) == (tbl_has_key(t1, k) || tbl_has_key(c, k)));
        assert(tbl_has_key(a, k) == (tbl_has_key(m0.syms, k) || tbl_has_key(c, k)));
        assert(tbl_has_key(t1, k) == (tbl_has_key(a, k) && !owned_by(
            a[tbl_index(a, k)].1,
            path,
        )));
        if tbl_has_key(m0.syms, k) && !tbl_has_key(c, k) {
            assert(tbl_at(a, k) == tbl_at(m0.syms, k));
            assert(!owned_by(tbl_at(m0.syms, k), path));
            assert(tbl_has_key(a, k));
            assert(tbl_has_key(t1, k));
        }
        if tbl_has_key(t1, k) {
            assert(tbl_has_key(a, k));
        }
    }
    assert forall|k: Seq<char>| #[trigger] tbl_has_key(b, k) implies tbl_at(b, k) == tbl_at(
        a,
        k,
    ) by {
        if tbl_has_key(c, k) {
            assert(tbl_at(b, k) == tbl_at(c, k));
            assert(tbl_at(a, k) == tbl_at(c, k));
        } else {
            assert(tbl_has_key(b, k) == (tbl_has_key(t1, k) || tbl_has_key(c, k)));
            assert(tbl_has_key(t1, k));
            assert(tbl_at(b, k) == tbl_at(t1, k));
            assert(tbl_has_key(t1, k) == (tbl_has_key(a, k) && !owned_by(
                a[tbl_index(a, k)].1,
                path,
            )));
            assert(t1[tbl_index(t1, k)].1 == a[tbl_index(a, k)].1);
        }
    }
}

/// Law: for all files, removing the file and re-populating it from the
/// same tree also restores the relationship graph of a single population —
/// the same one-to-one targets and the same ordered one-to-many target
/// lists per `(kind, source)` pair. Beyond the provisos of the symbol law,
/// the file's contributed names must be new to the table (population of a
/// file whose qualified names collide with already-loaded ones overwrites
/// the owners, and a later removal then drops edges the other file
/// declared), and every pre-existing edge must start at a pre-existing
/// symbol, as workspace population guarantees.
pub proof fn lemma_remove_then_add_restores_edges(
    m0: PopModel,
    f: SyntaxFile,
    path: Seq<char>,
    m1: PopModel,
)
    requires
        keys_distinct(m0.syms),
        forall|k: Seq<char>|
            #[trigger] tbl_has_key(m0.syms, k) ==> !owned_by(tbl_at(m0.syms, k), path),
        forall|k: Seq<char>|
            #[trigger] tbl_has_key(syntax_apply(empty_model(), f, path).syms, k)
                ==> !tbl_has_key(m0.syms, k),
        forall|p: (Seq<char>, Seq<char>)|
            #[trigger] m0.oo.dom().contains(p) ==> tbl_has_key(m0.syms, p.1),
        forall|p: (Seq<char>, Seq<char>)|
            #[trigger] m0.om.dom().contains(p) ==> tbl_has_key(m0.syms, p.1),
        forall|p: (Seq<char>, Seq<char>)|
            #[trigger] m1.oo.dom().contains(p) == (syntax_apply(m0, f, path).oo.dom().contains(
                p,
            ) && !(tbl_has_key(syntax_apply(m0, f, path).syms, p.1) && owned_by(
                tbl_at(syntax_apply(m0, f, path).syms, p.1),
                path,
            ))),
        forall|p: (Seq<char>, Seq<char>)|
            #[trigger] m1.oo.dom().contains(p) ==> m1.oo[p] == syntax_apply(m0, f, path).oo[p],
        forall|p: (Seq<char>, Seq<char>)|
            #[trigger] m1.om.dom().contains(p) == (syntax_apply(m0, f, path).om.dom().contains(
                p,
            ) && !(tbl_has_key(syntax_apply(m0, f, path).syms, p.1) && owned_by(
                tbl_at(syntax_apply(m0, f, path).syms, p.1),
                path,
            ))),
        forall|p: (Seq<char>, Seq<char>)|
            #[trigger] m1.om.dom().contains(p) ==> m1.om[p] == syntax_apply(m0, f, path).om[p],
    ensures
        forall|p: (Seq<char>, Seq<char>)|
            #[trigger] syntax_apply(m1, f, path).oo.dom().contains(p) == syntax_apply(
                m0,
                f,
                path,
            ).oo.dom().contains(p),
        forall|p: (Seq<char>, Seq<char>)|
            #[trigger] syntax_apply(m1, f, path).oo.dom().contains(p) ==> syntax_apply(
                m1,
                f,
                path,
            ).oo[p] == syntax_apply(m0, f, path).oo[p],
        forall|p: (Seq<char>, Seq<char>)|
            #[trigger] syntax_apply(m1, f, path).om.dom().contains(p) == syntax_apply(
                m0,
                f,
                path,
            ).om.dom().contains(p),
        forall|p: (Seq<char>, Seq<char>)|
            #[trigger] syntax_apply(m1, f, path).om.dom().contains(p) ==> syntax_apply(
                m1,
                f,
                path,
            ).om[p] == syntax_apply(m0, f, path).om[p],
{
    let a = syntax_apply(m0, f, path);
    let b = syntax_apply(m1, f, path);
    let c = syntax_apply(empty_model(), f, path);
    lemma_syntax_summary(m0, f, path);
    lemma_syntax_edges_summary(m0, f, path);
    lemma_syntax_edges_summary(m1, f, path);
    assert forall|p: (Seq<char>, Seq<char>)|
        #[trigger] b.oo.dom().contains(p) == a.oo.dom().contains(p) && (b.oo.dom().contains(p)
            ==> b.oo[p] == a.oo[p]) by {
        let s = p.1;
        if tbl_has_key(c.syms, s) {
            assert(!tbl_has_key(m0.syms, s));
            assert(!m0.oo.dom().contains(p));
            assert(a.oo.dom().contains(p) == c.oo.dom().contains(p));
            assert(tbl_has_key(a.syms, s));
            assert(tbl_at(a.syms, s) == tbl_at(c.syms, s));
            assert(owned_by(tbl_at(a.syms, s), path));
            assert(!m1.oo.dom().contains(p));
            assert(b.oo.dom().contains(p) == c.oo.dom().contains(p));
            if c.oo.dom().contains(p) {
                assert(b.oo[p] == c.oo[p] && a.oo[p] == c.oo[p]);
            }
        } else {
            assert(!c.oo.dom().contains(p));
            assert(a.oo.dom().contains(p) == m0.oo.dom().contains(p));
            if a.oo.dom().contains(p) {
                assert(a.oo[p] == m0.oo[p]);
                assert(tbl_has_key(m0.syms, s));
                assert(!(tbl_has_key(a.syms, s) && owned_by(tbl_at(a.syms, s), path))) by {
                    if tbl_has_key(a.syms, s) {
                        assert(tbl_at(a.syms, s) == tbl_at(m0.syms, s));
                    }
                }
                assert(m1.oo.dom().contains(p));
                assert(m1.oo[p] == a.oo[p]);
            }
            assert(m1.oo.dom().contains(p) == a.oo.dom().contains(p));
            assert(b.oo.dom().contains(p) == m1.oo.dom().contains(p));
            if b.oo.dom().contains(p) {
                assert(b.oo[p] == m1.oo[p]);
            }
        }
    }
    assert forall|p: (Seq<char>, Seq<char>)|
        #[trigger] b.om.dom().contains(p) == a.om.dom().contains(p) && (b.om.dom().contains(p)
            ==> b.om[p] == a.om[p]) by {
        let s = p.1;
        if tbl_has_key(c.syms, s) {
            assert(!tbl_has_key(m0.syms, s));
            assert(!m0.om.dom().contains(p));
            assert(a.om.dom().contains(p) == c.om.dom().contains(p));
            assert(tbl_has_key(a.syms, s));
            assert(tbl_at(a.syms, s) == tbl_at(c.syms, s));
            assert(owned_by(tbl_at(a.syms, s), path));
            assert(!m1.om.dom().contains(p));
            assert(b.om.dom().contains(p) == c.om.dom().contains(p));
            if c.om.dom().contains(p) {
                assert(a.om[p] == om_get(m0.om, p) + c.om[p]);
                assert(om_get(m0.om, p) =~= Seq::<Seq<char>>::empty());
                assert(b.om[p] == om_get(m1.om, p) + c.om[p]);
                assert(om_get(m1.om, p) =~= Seq::<Seq<char>>::empty());
                assert(b.om[p] =~= a.om[p]);
            }
        } else {
            assert(!c.om.dom().contains(p));
            assert(a.om.dom().contains(p) == m0.om.dom().contains(p));
            if a.om.dom().contains(p) {
                assert(a.om[p] == m0.om[p]);
                assert(tbl_has_key(m0.syms, s));
                assert(!(tbl_has_key(a.syms, s) && owned_by(tbl_at(a.syms, s), path))) by {
                    if tbl_has_key(a.syms, s) {
                        assert(tbl_at(a.syms, s) == tbl_at(m0.syms, s));
                    }
                }
                assert(m1.om.dom().contains(p));
                assert(m1.om[p] == a.om[p]);
            }
            assert(m1.om.dom().contains(p) == a.om.dom().contains(p));
            assert(b.om.dom().contains(p) == m1.om.dom().contains(p));
            if b.om.dom().contains(p) {
                assert(b.om[p] == m1.om[p]);
            }
        }
    }
}


/// Applying a relationship never loses an accumulated error.
proof fn errs_mono_rel(m: PopModel, r: crate::syntax::RelationshipDecl, src: Seq<char>)
    ensures
        crate::population::rel_apply(m, r, src).errs >= m.errs,
{
}

proof fn errs_mono_rels(m: PopModel, rels: Seq<crate::syntax::RelationshipDecl>, src: Seq<char>)
    ensures
        rels_apply(m, rels, src).errs >= m.errs,
    decreases rels.len(),
{
    if rels.len() > 0 {
        errs_mono_rels(m, rels.drop_last(), src);
        errs_mono_rel(rels_apply(m, rels.drop_last(), src), rels.last(), src);
    }
}

proof fn errs_mono_usage(m: PopModel, u: UsageDecl, scope: Seq<char>, file: Seq<char>)
    ensures
        usage_apply(m, u, scope, file).errs >= m.errs,
{
    match u.name {
        Some(n) => {
            let q = crate::population::qualified(scope, n@);
            errs_mono_rels(
                PopModel { syms: tbl_insert(m.syms, q, usage_sym(u, scope, file)), ..m },
                u.relationships@,
                q,
            );
        },
        None => {
        },
    }
}

proof fn errs_mono_usages(m: PopModel, us: Seq<UsageDecl>, scope: Seq<char>, file: Seq<char>)
    ensures
        usages_apply(m, us, scope, file).errs >= m.errs,
    decreases us.len(),
{
    if us.len() > 0 {
        errs_mono_usages(m, us.drop_last(), scope, file);
        errs_mono_usage(usages_apply(m, us.drop_last(), scope, file), us.last(), scope, file);
    }
}

proof fn errs_mono_elem(m: PopModel, e: Element, scope: Seq<char>, file: Seq<char>)
    ensures
        elem_apply(m, e, scope, file).errs >= m.errs,
    decreases e, 1int,
{
    match e {
        Element::Package(p) => {
            match p.name {
                Some(n) => {
                    let q = crate::population::qualified(scope, n@);
                    let v = crate::population::sym_view(
                        crate::symbols::SymbolKind::Package,
                        n@,
                        q,
                        p.span,
                        file,
                    );
                    errs_mono_elems(
                        PopModel { syms: tbl_insert(m.syms, q, v), ..m },
                        p.elements@,
                        q,
                        file,
                    );
                },
                None => {
                    errs_mono_elems(
                        PopModel { errs: m.errs + 1, ..m },
                        p.elements@,
                        scope,
                        file,
                    );
                },
            }
        },
        Element::Definition(d) => {
            match d.name {
                Some(n) => {
                    let q = crate::population::qualified(scope, n@);
                    let v = crate::population::sym_view(
                        crate::symbols::SymbolKind::Definition,
                        n@,
                        q,
                        d.span,
                        file,
                    );
                    let m1 = PopModel { syms: tbl_insert(m.syms, q, v), ..m };
                    errs_mono_rels(m1, d.relationships@, q);
                    errs_mono_usages(rels_apply(m1, d.relationships@, q), d.body@, q, file);
                },
                None => {
                },
            }
        },
        Element::Usage(u) => {
            errs_mono_usage(m, u, scope, file);
        },
        Element::Alias(_) => {
        },
        Element::Import(_) => {
        },
    }
}

proof fn errs_mono_elems(m: PopModel, es: Seq<Element>, scope: Seq<char>, file: Seq<char>)
    ensures
        elems_apply(m, es, scope, file).errs >= m.errs,
    decreases es, 0int,
{
    if es.len() > 0 {
        errs_mono_elems(m, es.drop_last(), scope, file);
        errs_mono_elem(
            elems_apply(m, es.drop_last(), scope, file),
            es.last(),
            scope,
            file,
        );
    }
}

/// A relationship list that holds a malformed entry — one with an empty
/// target — strictly raises the error count.
proof fn lemma_rels_malformed(m: PopModel, rels: Seq<crate::syntax::RelationshipDecl>, src: Seq<char>)
    requires
        exists|i: int|
            0 <= i < rels.len() && (#[trigger] rels[i]).target@.len() == 0,
    ensures
        rels_apply(m, rels, src).errs > m.errs,
    decreases rels.len(),
{
    let i = choose|i: int| 0 <= i < rels.len() && (#[trigger] rels[i]).target@.len() == 0;
    if i == rels.len() - 1 {
        errs_mono_rels(m, rels.drop_last(), src);
    } else {
        assert(rels.drop_last()[i] == rels[i]);
        lemma_rels_malformed(m, rels.drop_last(), src);
        errs_mono_rel(rels_apply(m, rels.drop_last(), src), rels.last(), src);
    }
}

/// Every key a definition body contributes is longer than the enclosing
/// scope: the body's qualified names extend it by a dot and a name.
proof fn lemma_usages_keys_longer(us: Seq<UsageDecl>, scope: Seq<char>, file: Seq<char>)
    requires
        scope.len() > 0,
    ensures
        forall|k: Seq<char>|
            #[trigger] tbl_has_key(usages_apply(empty_model(), us, scope, file).syms, k)
                ==> k.len() > scope.len(),
    decreases us.len(),
{
    if us.len() == 0 {
        assert forall|k: Seq<char>|
            !(#[trigger] tbl_has_key(
                usages_apply(empty_model(), us, scope, file).syms,
                k,
            )) by {}
    } else {
        let pre = us.drop_last();
        let cmid = usages_apply(empty_model(), pre, scope, file);
        lemma_usages_keys_longer(pre, scope, file);
        lemma_usages_summary(empty_model(), pre, scope, file);
        lemma_usage_summary(cmid, us.last(), scope, file);
        assert forall|k: Seq<char>|
            #[trigger] tbl_has_key(usages_apply(empty_model(), us, scope, file).syms, k) implies k.len()
            > scope.len() by {
            let c2 = usage_apply(empty_model(), us.last(), scope, file).syms;
            assert(tbl_has_key(usages_apply(empty_model(), us, scope, file).syms, k)
                == (tbl_has_key(cmid.syms, k) || tbl_has_key(c2, k)));
            if tbl_has_key(c2, k) {
                match us.last().name {
                    Some(n) => {
                        let q = crate::population::qualified(scope, n@);
                        let v = usage_sym(us.last(), scope, file);
                        lemma_rels_syms(
                            PopModel {
                                syms: tbl_insert(Seq::empty(), q, v),
                                ..empty_model()
                            },
                            us.last().relationships@,
                            q,
                        );
                        assert(keys_distinct(Seq::<(Seq<char>, SymbolView)>::empty()));
                        lemma_insert_shape(Seq::empty(), q, v);
                        assert(k == q);
                        reveal_strlit(".");
                        assert(q.len() == scope.len() + 1 + n@.len());
                    },
                    None => {
                        assert(c2 =~= Seq::<(Seq<char>, SymbolView)>::empty());
                    },
                }
            }
        }
    }
}

/// Law: population of a named definition that declares a malformed
/// relationship — an empty target — accumulates at least one error and
/// still inserts the definition's symbol, which stays queryable under its
/// qualified name with its declared shape; the pass never aborts. With the
/// adapters' contracts this gives, for any file whose elements include
/// such a definition, a normal return carrying a non-empty error list.
pub proof fn lemma_malformed_relationship_reported(
    m: PopModel,
    d: crate::syntax::DefinitionDecl,
    scope: Seq<char>,
    file: Seq<char>,
)
    requires
        keys_distinct(m.syms),
        d.name is Some,
        d.name->Some_0@.len() > 0,
        exists|i: int|
            0 <= i < d.relationships@.len() && (#[trigger] d.relationships@[i]).target@.len()
                == 0,
    ensures
        elem_apply(m, Element::Definition(d), scope, file).errs > m.errs,
        tbl_has_key(
            elem_apply(m, Element::Definition(d), scope, file).syms,
            crate::population::qualified(scope, d.name->Some_0@),
        ),
        tbl_at(
            elem_apply(m, Element::Definition(d), scope, file).syms,
            crate::population::qualified(scope, d.name->Some_0@),
        ) == crate::population::sym_view(
            crate::symbols::SymbolKind::Definition,
            d.name->Some_0@,
            crate::population::qualified(scope, d.name->Some_0@),
            d.span,
            file,
        ),
{
    let n = d.name->Some_0;
    let q = crate::population::qualified(scope, n@);
    let v = crate::population::sym_view(
        crate::symbols::SymbolKind::Definition,
        n@,
        q,
        d.span,
        file,
    );
    let m1 = PopModel { syms: tbl_insert(m.syms, q, v), ..m };
    let m2 = rels_apply(m1, d.relationships@, q);
    lemma_rels_malformed(m1, d.relationships@, q);
    errs_mono_usages(m2, d.body@, q, file);
    lemma_insert_shape(m.syms, q, v);
    lemma_rels_syms(m1, d.relationships@, q);
    lemma_usages_summary(m2, d.body@, q, file);
    assert(q.len() > 0) by {
        reveal_strlit(".");
    }
    lemma_usages_keys_longer(d.body@, q, file);
    let cbody = usages_apply(empty_model(), d.body@, q, file).syms;
    assert(!tbl_has_key(cbody, q));
    assert(tbl_has_key(m2.syms, q));
    assert(tbl_at(m2.syms, q) == v);
    assert(tbl_at(usages_apply(m2, d.body@, q, file).syms, q) == v);
}


/// Law: one collection step over a symbol that has both a span and a
/// source file, and whose qualified name carries exactly one relationship
/// target, records exactly one reference — that symbol's file and span —
/// against the symbol the target resolves to (by exact key, then by bare
/// name in table order), and changes nothing else. An unresolvable target
/// records nothing.
pub proof fn lemma_step_records_one_reference(
    t: Seq<(Seq<char>, SymbolView)>,
    g: crate::graph::RelationshipGraph,
    i: int,
    tgt: Seq<char>,
)
    requires
        0 <= i < t.len(),
        t[i].1.span is Some,
        t[i].1.source_file is Some,
        crate::reference_collector::targets_of(g, t[i].1.qualified_name) == seq![tgt],
    ensures
        match crate::symbols::resolve_target(t, tgt) {
            Some(j) => crate::reference_collector::collect_step(t, g, i) == t.update(
                j,
                (
                    t[j].0,
                    (SymbolView {
                        references: t[j].1.references.push(
                            (crate::symbols::SymbolReferenceView {
                                file: t[i].1.source_file->Some_0,
                                span: t[i].1.span->Some_0,
                            }),
                        ),
                        ..t[j].1
                    }),
                ),
            ),
            None => crate::reference_collector::collect_step(t, g, i) == t,
        },
{
    let rv = crate::symbols::SymbolReferenceView {
        file: t[i].1.source_file->Some_0,
        span: t[i].1.span->Some_0,
    };
    let ts = seq![tgt];
    assert(ts.drop_last() =~= Seq::<Seq<char>>::empty());
    assert(ts.last() == tgt);
    assert(crate::reference_collector::apply_targets(t, Seq::empty(), rv) == t);
    assert(crate::reference_collector::collect_step(t, g, i)
        == crate::reference_collector::apply_target(t, tgt, rv));
}

} // verus!
