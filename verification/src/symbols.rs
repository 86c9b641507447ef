//! Symbols and the symbol table.
//!
//! A symbol is a named, located semantic entity derived from a source
//! element. The table maps a unique key (the qualified name) to its symbol,
//! keeps insertion order, and lets a re-insertion under the same key replace
//! the earlier value.

use vstd::prelude::*;

use crate::names::str_eq;
use crate::syntax::Span;

verus! {

broadcast use vstd::seq_lib::group_seq_properties, vstd::prelude::Seq::lemma_push_map_commute,
    vstd::prelude::Seq::lemma_map_take_succ;

/// The variants a symbol can have.
#[derive(Debug, Clone, Copy, PartialEq, Eq, Structural, Hash)]
pub enum SymbolKind {
    Package,
    Definition,
    Usage,
    Alias,
}

/// One place that refers to a symbol: a file and a range in it.
#[derive(Debug, PartialEq, Eq)]
pub struct SymbolReference {
    pub file: String,
    pub span: Span,
}

/// Spec-level shape of a `SymbolReference`.
#[verifier::ext_equal]
pub ghost struct SymbolReferenceView {
    pub file: Seq<char>,
    pub span: Span,
}

impl View for SymbolReference {
    type V = SymbolReferenceView;

    open spec fn view(&self) -> SymbolReferenceView {
        SymbolReferenceView { file: self.file@, span: self.span }
    }
}

/// A named, located semantic entity.
#[derive(Debug, PartialEq, Eq)]
pub struct Symbol {
    pub kind: SymbolKind,
    /// The unqualified name.
    pub name: String,
    /// The dot-joined path from the root.
    pub qualified_name: String,
    /// Where the symbol was declared, if known.
    pub span: Option<Span>,
    /// The file that declares the symbol, if known.
    pub source_file: Option<String>,
    /// Every place that refers to this symbol; filled by the reference
    /// collector, in collection order.
    pub references: Vec<SymbolReference>,
}

/// Spec-level shape of a `Symbol`.
#[verifier::ext_equal]
pub ghost struct SymbolView {
    pub kind: SymbolKind,
    pub name: Seq<char>,
    pub qualified_name: Seq<char>,
    pub span: Option<Span>,
    pub source_file: Option<Seq<char>>,
    pub references: Seq<SymbolReferenceView>,
}

impl Clone for SymbolReference {
    fn clone(&self) -> (r: SymbolReference)
        ensures
            r@ == self@,
    {
        SymbolReference { file: self.file.clone(), span: self.span }
    }
}

impl View for Symbol {
    type V = SymbolView;

    open spec fn view(&self) -> SymbolView {
        SymbolView {
            kind: self.kind,
            name: self.name@,
            qualified_name: self.qualified_name@,
            span: self.span,
            source_file: match self.source_file {
                Some(f) => Some(f@),
                None => None,
            },
            references: self.references@.map_values(|r: SymbolReference| r@),
        }
    }
}

impl Clone for Symbol {
    fn clone(&self) -> (r: Symbol)
        ensures
            r@ == self@,
    {
        let mut refs: Vec<SymbolReference> = Vec::new();
        let mut i: usize = 0;
        while i < self.references.len()
            invariant
                i <= self.references@.len(),
                refs@.map_values(|x: SymbolReference| x@) =~= self.references@.take(
                    i as int,
                ).map_values(|x: SymbolReference| x@),
            decreases self.references@.len() - i,
        {
            refs.push(self.references[i].clone());
            assert(refs@.map_values(|x: SymbolReference| x@) =~= self.references@.take(
                i + 1,
            ).map_values(|x: SymbolReference| x@));
            i = i + 1;
        }
        assert(self.references@.take(self.references@.len() as int) == self.references@);
        let r = Symbol {
            kind: self.kind,
            name: self.name.clone(),
            qualified_name: self.qualified_name.clone(),
            span: self.span,
            source_file: match &self.source_file {
                Some(f) => Some(f.clone()),
                None => None,
            },
            references: refs,
        };
        proof {
            assert(r@ =~= self@);
        }
        r
    }
}

impl Symbol {
    /// Creates a symbol with an empty reference list.
    pub fn new(
        kind: SymbolKind,
        name: String,
        qualified_name: String,
        span: Option<Span>,
        source_file: Option<String>,
    ) -> (s: Symbol)
        ensures
            s@.kind == kind,
            s@.name == name@,
            s@.qualified_name == qualified_name@,
            s@.span == span,
            s@.source_file == (match source_file {
                Some(f) => Some(f@),
                None => None::<Seq<char>>,
            }),
            s@.references == Seq::<SymbolReferenceView>::empty(),
    {
        let s = Symbol { kind, name, qualified_name, span, source_file, references: Vec::new() };
        proof {
            assert(s@.references =~= Seq::<SymbolReferenceView>::empty());
        }
        s
    }

    /// The unqualified name.
    pub fn name(&self) -> (r: &String)
        ensures
            r@ == self@.name,
    {
        &self.name
    }

    /// The dot-joined path from the root.
    pub fn qualified_name(&self) -> (r: &String)
        ensures
            r@ == self@.qualified_name,
    {
        &self.qualified_name
    }

    /// The symbol's source range, if known.
    pub fn span(&self) -> (r: Option<Span>)
        ensures
            r == self@.span,
    {
        self.span
    }

    /// The file that declares the symbol, if known.
    pub fn source_file(&self) -> (r: &Option<String>)
        ensures
            *r == self.source_file,
            match r {
                Some(f) => self@.source_file == Some(f@),
                None => self@.source_file is None,
            },
    {
        &self.source_file
    }

    /// Records one more place that refers to this symbol.
    pub fn add_reference(&mut self, r: SymbolReference)
        ensures
            final(self)@ == (SymbolView {
                references: old(self)@.references.push(r@),
                ..old(self)@
            }),
    {
        let ghost r0 = r@;
        self.references.push(r);
        proof {
            assert(final(self)@.references =~= old(self)@.references.push(r0));
            assert(final(self)@ =~= SymbolView {
                references: old(self)@.references.push(r0),
                ..old(self)@
            });
        }
    }
}

/// The spec-level entries of a table: key views paired with symbol views.
pub open spec fn entry_views(s: Seq<(String, Symbol)>) -> Seq<(Seq<char>, SymbolView)> {
    s.map_values(|p: (String, Symbol)| (p.0@, p.1@))
}

/// Whether the table entries hold key `k`.
pub open spec fn tbl_has_key(t: Seq<(Seq<char>, SymbolView)>, k: Seq<char>) -> bool {
    exists|i: int| 0 <= i < t.len() && (#[trigger] t[i]).0 == k
}

/// The index of key `k` among the table entries.
pub open spec fn tbl_index(t: Seq<(Seq<char>, SymbolView)>, k: Seq<char>) -> int {
    choose|i: int| 0 <= i < t.len() && (#[trigger] t[i]).0 == k
}

/// Insertion with last-write-wins per key: an existing key keeps its
/// position, a new key goes to the end.
pub open spec fn tbl_insert(
    t: Seq<(Seq<char>, SymbolView)>,
    k: Seq<char>,
    v: SymbolView,
) -> Seq<(Seq<char>, SymbolView)> {
    if tbl_has_key(t, k) {
        t.update(tbl_index(t, k), (k, v))
    } else {
        t.push((k, v))
    }
}

/// Maps a unique key to a Symbol, in insertion order.
#[derive(Debug)]
pub struct SymbolTable {
    pub entries: Vec<(String, Symbol)>,
}

impl View for SymbolTable {
    type V = Seq<(Seq<char>, SymbolView)>;

    open spec fn view(&self) -> Seq<(Seq<char>, SymbolView)> {
        entry_views(self.entries@)
    }
}

impl SymbolTable {
    /// The keys, in insertion order.
    pub open spec fn keys(self) -> Seq<Seq<char>> {
        self@.map_values(|p: (Seq<char>, SymbolView)| p.0)
    }

    /// Keys are pairwise distinct.
    pub open spec fn wf(self) -> bool {
        self.keys().no_duplicates()
    }

    /// Whether some entry is stored under `k`.
    pub open spec fn has_key(self, k: Seq<char>) -> bool {
        tbl_has_key(self@, k)
    }

    /// The index of the entry stored under `k`.
    pub open spec fn key_index(self, k: Seq<char>) -> int {
        tbl_index(self@, k)
    }

    /// The symbol stored under `k`.
    pub open spec fn sym_at(self, k: Seq<char>) -> SymbolView {
        self@[self.key_index(k)].1
    }

    /// In a well-formed table every entry with key `k` stands at
    /// `key_index(k)`.
    pub proof fn lemma_key_index(self, i: int)
        requires
            self.wf(),
            0 <= i < self@.len(),
        ensures
            self.key_index(self@[i].0) == i,
            self.sym_at(self@[i].0) == self@[i].1,
    {
        let k = self@[i].0;
        assert(self.has_key(k));
        let j = self.key_index(k);
        assert(self.keys()[i] == k && self.keys()[j] == k);
    }

    pub fn new() -> (t: SymbolTable)
        ensures
            t.wf(),
            t@ == Seq::<(Seq<char>, SymbolView)>::empty(),
    {
        let t = SymbolTable { entries: Vec::new() };
        proof {
            assert(t@ =~= Seq::<(Seq<char>, SymbolView)>::empty());
        }
        t
    }

    /// The number of stored symbols.
    pub fn len(&self) -> (n: usize)
        ensures
            n == self@.len(),
    {
        self.entries.len()
    }

    /// Every `(key, symbol)` pair, in insertion order.
    pub fn all_symbols(&self) -> (r: &Vec<(String, Symbol)>)
        ensures
            entry_views(r@) == self@,
    {
        &self.entries
    }

    /// Inserts `symbol` under `key`. A new key goes to the end; an existing
    /// key keeps its position and has its value replaced.
    pub fn insert(&mut self, key: String, symbol: Symbol)
        requires
            old(self).wf(),
        ensures
            final(self).wf(),
            final(self)@ == tbl_insert(old(self)@, key@, symbol@),
    {
        let ghost t0 = self@;
        let mut i: usize = 0;
        while i < self.entries.len()
            invariant
                i <= self.entries@.len(),
                self@ == t0,
                old(self)@ == t0,
                self.wf(),
                forall|j: int| 0 <= j < i ==> (#[trigger] self@[j]).0 != key@,
        decreases self.entries@.len() - i,
        {
            if str_eq(self.entries[i].0.as_str(), key.as_str()) {
                let ghost gi = i as int;
                proof {
                    assert(self@[gi].0 == key@);
                    assert(self.has_key(key@));
                    self.lemma_key_index(gi);
                }
                let mut e = self.entries.remove(i);
                e.1 = symbol;
                self.entries.insert(i, e);
                proof {
                    assert(self@ =~= t0.update(gi, (key@, symbol@)));
                    assert(self.keys() =~= old(self).keys());
                }
                return ;
            }
            i = i + 1;
        }
        proof {
            assert forall|j: int| 0 <= j < t0.len() implies (#[trigger] t0[j]).0 != key@ by {}
            assert(!old(self).has_key(key@));
        }
        self.entries.push((key, symbol));
        proof {
            assert(self@ =~= t0.push((key@, symbol@)));
            assert(self.keys() =~= old(self).keys().push(key@));
        }
    }

    /// Looks `key` up by exact match.
    pub fn lookup_global(&self, key: &str) -> (r: Option<&Symbol>)
        requires
            self.wf(),
        ensures
            match r {
                Some(s) => self.has_key(key@) && s@ == self.sym_at(key@),
                None => !self.has_key(key@),
            },
    {
        let mut i: usize = 0;
        while i < self.entries.len()
            invariant
                i <= self.entries@.len(),
                self.wf(),
                forall|j: int| 0 <= j < i ==> (#[trigger] self@[j]).0 != key@,
            decreases self.entries@.len() - i,
        {
            if str_eq(self.entries[i].0.as_str(), key) {
                proof {
                    assert(self@[i as int].0 == key@);
                    self.lemma_key_index(i as int);
                }
                return Some(&self.entries[i].1);
            }
            i = i + 1;
        }
        None
    }

    /// Looks `key` up by exact match for mutation. The caller must know the
    /// key is present; `final` of the returned reference is the symbol the
    /// table holds afterwards.
    pub fn lookup_global_mut(&mut self, key: &str) -> (r: &mut Symbol)
        requires
            old(self).wf(),
            old(self).has_key(key@),
        ensures
            *r == old(self).entries@[old(self).key_index(key@)].1,
            final(self).entries@ == old(self).entries@.update(
                old(self).key_index(key@),
                (old(self).entries@[old(self).key_index(key@)].0, *final(r)),
            ),
    {
        let ghost t0 = self@;
        let mut i: usize = 0;
        while i < self.entries.len()
            invariant
                i <= self.entries@.len(),
                self@ == t0,
                old(self)@ == t0,
                self.entries@ == old(self).entries@,
                self.wf(),
                old(self).has_key(key@),
                forall|j: int| 0 <= j < i ==> (#[trigger] self@[j]).0 != key@,
            decreases self.entries@.len() - i,
        {
            if str_eq(self.entries[i].0.as_str(), key) {
                proof {
                    assert(self@[i as int].0 == key@);
                    self.lemma_key_index(i as int);
                }
                let e = &mut self.entries[i];
                return &mut e.1;
            }
            i = i + 1;
        }
        proof {
            let j = old(self).key_index(key@);
            assert(0 <= j < t0.len() && t0[j].0 == key@);
            assert(false);
        }
        unreached()
    }

    /// Appends a reference to the symbol stored under `key`. Only that
    /// symbol's reference list changes.
    pub fn add_reference_at(&mut self, key: &str, r: SymbolReference)
        requires
            old(self).wf(),
            old(self).has_key(key@),
        ensures
            final(self).wf(),
            final(self)@ == old(self)@.update(
                old(self).key_index(key@),
                (
                    key@,
                    SymbolView {
                        references: old(self).sym_at(key@).references.push(r@),
                        ..old(self).sym_at(key@)
                    },
                ),
            ),
    {
        let ghost t0 = self@;
        let mut i: usize = 0;
        while i < self.entries.len()
            invariant
                i <= self.entries@.len(),
                self@ == t0,
                old(self)@ == t0,
                self.wf(),
                old(self).has_key(key@),
                forall|j: int| 0 <= j < i ==> (#[trigger] self@[j]).0 != key@,
            decreases self.entries@.len() - i,
        {
            if str_eq(self.entries[i].0.as_str(), key) {
                let ghost gi = i as int;
                proof {
                    assert(self@[gi].0 == key@);
                    self.lemma_key_index(gi);
                }
                let mut e = self.entries.remove(i);
                e.1.add_reference(r);
                self.entries.insert(i, e);
                proof {
                    assert(self@ =~= t0.update(
                        gi,
                        (
                            key@,
                            SymbolView {
                                references: t0[gi].1.references.push(r@),
                                ..t0[gi].1
                            },
                        ),
                    ));
                    assert(self.keys() =~= old(self).keys());
                }
                return ;
            }
            i = i + 1;
        }
        proof {
            let j = old(self).key_index(key@);
            assert(0 <= j < t0.len() && t0[j].0 == key@);
            assert(false);
        }
    }
}

/// Whether a symbol is owned by `file`.
pub open spec fn owned_by(v: SymbolView, file: Seq<char>) -> bool {
    v.source_file == Some(file)
}

/// The kept entry `e` stems from one of the first `bound` original
/// entries, one not owned by `file`.
pub open spec fn sym_kept_from(
    e: (String, Symbol),
    t0: Seq<(Seq<char>, SymbolView)>,
    bound: int,
    file: Seq<char>,
) -> bool {
    exists|j0: int|
        0 <= j0 < bound && (e.0@, e.1@) == #[trigger] t0[j0] && !owned_by(t0[j0].1, file)
}

proof fn lemma_sym_kept_mono(
    e: (String, Symbol),
    t0: Seq<(Seq<char>, SymbolView)>,
    b1: int,
    b2: int,
    file: Seq<char>,
)
    requires
        sym_kept_from(e, t0, b1, file),
        b1 <= b2,
    ensures
        sym_kept_from(e, t0, b2, file),
{
    let j0 = choose|j0: int|
        0 <= j0 < b1 && (e.0@, e.1@) == #[trigger] t0[j0] && !owned_by(t0[j0].1, file);
    assert(0 <= j0 < b2 && (e.0@, e.1@) == t0[j0] && !owned_by(t0[j0].1, file));
}

/// A view entry equal to `p` stands somewhere in `t`.
pub open spec fn sym_present(t: Seq<(Seq<char>, SymbolView)>, p: (Seq<char>, SymbolView)) -> bool {
    exists|q: int| 0 <= q < t.len() && #[trigger] t[q] == p
}

impl SymbolTable {
    /// The keys of the symbols that `file` owns, each exactly once.
    pub fn keys_of_file(&self, file: &str) -> (r: Vec<String>)
        requires
            self.wf(),
        ensures
            crate::names::views_of(r@).no_duplicates(),
            forall|k: Seq<char>|
                crate::names::views_of(r@).contains(k) == (self.has_key(k) && owned_by(
                    self.sym_at(k),
                    file@,
                )),
    {
        let mut r: Vec<String> = Vec::new();
        let mut i: usize = 0;
        while i < self.entries.len()
            invariant
                i <= self.entries@.len(),
                self.wf(),
                crate::names::views_of(r@).no_duplicates(),
                forall|k: Seq<char>|
                    crate::names::views_of(r@).contains(k) == (exists|j: int|
                        0 <= j < i && (#[trigger] self@[j]).0 == k && owned_by(
                            self@[j].1,
                            file@,
                        )),
            decreases self.entries@.len() - i,
        {
            let keep = match &self.entries[i].1.source_file {
                Some(f) => str_eq(f.as_str(), file),
                None => false,
            };
            let ghost rprev = r@;
            if keep {
                r.push(self.entries[i].0.clone());
                proof {
                    assert(crate::names::views_of(r@) =~= crate::names::views_of(rprev).push(
                        self@[i as int].0,
                    ));
                    assert(owned_by(self@[i as int].1, file@));
                    if crate::names::views_of(rprev).contains(self@[i as int].0) {
                        let j = choose|j: int|
                            0 <= j < i && (#[trigger] self@[j]).0 == self@[i as int].0
                                && owned_by(self@[j].1, file@);
                        assert(self.keys()[j] == self.keys()[i as int]);
                    }
                }
            }
            proof {
                assert forall|k: Seq<char>|
                    crate::names::views_of(r@).contains(k) == (exists|j: int|
                        0 <= j < i + 1 && (#[trigger] self@[j]).0 == k && owned_by(
                            self@[j].1,
                            file@,
                        )) by {
                    if crate::names::views_of(r@).contains(k) {
                        let q = choose|q: int|
                            0 <= q < crate::names::views_of(r@).len() && crate::names::views_of(
                                r@,
                            )[q] == k;
                        if q < rprev.len() {
                            assert(crate::names::views_of(rprev)[q] == k);
                            let j = choose|j: int|
                                0 <= j < i && (#[trigger] self@[j]).0 == k && owned_by(
                                    self@[j].1,
                                    file@,
                                );
                        } else {
                            assert(keep && k == self@[i as int].0);
                        }
                    }
                    if exists|j: int|
                        0 <= j < i + 1 && (#[trigger] self@[j]).0 == k && owned_by(
                            self@[j].1,
                            file@,
                        ) {
                        let j = choose|j: int|
                            0 <= j < i + 1 && (#[trigger] self@[j]).0 == k && owned_by(
                                self@[j].1,
                                file@,
                            );
                        if j < i {
                            assert(crate::names::views_of(rprev).contains(k));
                            let q = choose|q: int|
                                0 <= q < crate::names::views_of(rprev).len()
                                    && crate::names::views_of(rprev)[q] == k;
                            assert(crate::names::views_of(r@)[q] == k);
                        } else {
                            assert(keep) by {
                                assert(owned_by(self@[i as int].1, file@));
                            }
                            assert(crate::names::views_of(r@).last() == k);
                        }
                    }
                }
            }
            i = i + 1;
        }
        proof {
            assert forall|k: Seq<char>|
                crate::names::views_of(r@).contains(k) == (self.has_key(k) && owned_by(
                    self.sym_at(k),
                    file@,
                )) by {
                if self.has_key(k) {
                    self.lemma_key_index(self.key_index(k));
                }
                if exists|j: int|
                    0 <= j < self@.len() && (#[trigger] self@[j]).0 == k && owned_by(
                        self@[j].1,
                        file@,
                    ) {
                    let j = choose|j: int|
                        0 <= j < self@.len() && (#[trigger] self@[j]).0 == k && owned_by(
                            self@[j].1,
                            file@,
                        );
                    self.lemma_key_index(j);
                }
            }
        }
        r
    }

    /// Removes every symbol that `file` owns; the other entries keep their
    /// values and relative order.
    pub fn remove_file_symbols(&mut self, file: &str)
        requires
            old(self).wf(),
        ensures
            final(self).wf(),
            forall|k: Seq<char>|
                final(self).has_key(k) == (old(self).has_key(k) && !owned_by(
                    old(self).sym_at(k),
                    file@,
                )),
            forall|k: Seq<char>|
                final(self).has_key(k) ==> final(self).sym_at(k) == old(self).sym_at(k),
    {
        let ghost t0 = self@;
        let mut kept: Vec<(String, Symbol)> = Vec::new();
        let mut i: usize = 0;
        while i < self.entries.len()
            invariant
                i <= self.entries@.len(),
                self@ == t0,
                t0.map_values(|p: (Seq<char>, SymbolView)| p.0).no_duplicates(),
                forall|j: int|
                    0 <= j < entry_views(kept@).len() ==> sym_kept_from(
                        #[trigger] kept@[j],
                        t0,
                        i as int,
                        file@,
                    ),
                forall|j0: int|
                    0 <= j0 < i && !owned_by((#[trigger] t0[j0]).1, file@) ==> sym_present(
                        entry_views(kept@),
                        t0[j0],
                    ),
                entry_views(kept@).map_values(
                    |p: (Seq<char>, SymbolView)| p.0,
                ).no_duplicates(),
            decreases self.entries@.len() - i,
        {
            let keep = match &self.entries[i].1.source_file {
                Some(f) => !str_eq(f.as_str(), file),
                None => true,
            };
            if keep {
                let ghost k0 = kept@;
                kept.push((self.entries[i].0.clone(), self.entries[i].1.clone()));
                proof {
                    assert(kept@[kept@.len() - 1].1@ == self.entries@[i as int].1@);
                    assert(kept@ =~= k0.push(kept@.last()));
                    assert((kept@.last().0@, kept@.last().1@) == t0[i as int]);
                    assert(!owned_by(t0[i as int].1, file@));
                    assert forall|j: int|
                        0 <= j < kept@.len() implies sym_kept_from(
                        #[trigger] kept@[j],
                        t0,
                        i + 1,
                        file@,
                    ) by {
                        if j < k0.len() {
                            lemma_sym_kept_mono(k0[j], t0, i as int, i + 1, file@);
                        } else {
                            assert((kept@[j].0@, kept@[j].1@) == t0[i as int]);
                        }
                    }
                    assert forall|j0: int|
                        0 <= j0 < i + 1 && !owned_by(
                            (#[trigger] t0[j0]).1,
                            file@,
                        ) implies sym_present(entry_views(kept@), t0[j0]) by {
                        if j0 < i {
                            let q = choose|q: int|
                                0 <= q < entry_views(k0).len() && #[trigger] entry_views(k0)[q]
                                    == t0[j0];
                            assert(entry_views(kept@)[q] == t0[j0]);
                        } else {
                            assert(entry_views(kept@)[entry_views(kept@).len() - 1] == t0[j0]);
                        }
                    }
                    let kk = entry_views(kept@).map_values(|p: (Seq<char>, SymbolView)| p.0);
                    let kk0 = entry_views(k0).map_values(|p: (Seq<char>, SymbolView)| p.0);
                    assert(entry_views(kept@) =~= entry_views(k0).push(
                        (kept@.last().0@, kept@.last().1@),
                    ));
                    assert(kk =~= kk0.push(t0[i as int].0));
                    assert(kk.no_duplicates()) by {
                        assert forall|a: int, b: int|
                            0 <= a < kk.len() && 0 <= b < kk.len() && a != b implies kk[a]
                            != kk[b] by {
                            assert(t0.map_values(|p: (Seq<char>, SymbolView)| p.0)[i as int]
                                == t0[i as int].0);
                            if a < k0.len() && b < k0.len() {
                                assert(kk[a] == kk0[a] && kk[b] == kk0[b]);
                            }
                            if a < k0.len() && b == k0.len() {
                                let ja = choose|j0: int|
                                    0 <= j0 < i && (k0[a].0@, k0[a].1@) == #[trigger] t0[j0]
                                        && !owned_by(t0[j0].1, file@);
                                assert(t0.map_values(|p: (Seq<char>, SymbolView)| p.0)[ja]
                                    == t0[ja].0);
                                assert(kk[a] == kk0[a]);
                                assert(kk0[a] == t0[ja].0);
                                assert(kk[b] == t0[i as int].0);
                            }
                            if b < k0.len() && a == k0.len() {
                                let jb = choose|j0: int|
                                    0 <= j0 < i && (k0[b].0@, k0[b].1@) == #[trigger] t0[j0]
                                        && !owned_by(t0[j0].1, file@);
                                assert(t0.map_values(|p: (Seq<char>, SymbolView)| p.0)[jb]
                                    == t0[jb].0);
                                assert(kk[b] == kk0[b]);
                                assert(kk0[b] == t0[jb].0);
                                assert(kk[a] == t0[i as int].0);
                            }
                        }
                    }
                }
            } else {
                proof {
                    assert forall|j: int|
                        0 <= j < kept@.len() implies sym_kept_from(
                        #[trigger] kept@[j],
                        t0,
                        i + 1,
                        file@,
                    ) by {
                        lemma_sym_kept_mono(kept@[j], t0, i as int, i + 1, file@);
                    }
                    assert forall|j0: int|
                        0 <= j0 < i + 1 && !owned_by(
                            (#[trigger] t0[j0]).1,
                            file@,
                        ) implies sym_present(entry_views(kept@), t0[j0]) by {
                        if j0 == i {
                            assert(owned_by(t0[j0].1, file@));
                        }
                    }
                }
            }
            i = i + 1;
        }
        self.entries = kept;
        proof {
            let t1 = self@;
            assert forall|k: Seq<char>|
                final(self).has_key(k) == (old(self).has_key(k) && !owned_by(
                    old(self).sym_at(k),
                    file@,
                )) by {
                if tbl_has_key(t1, k) {
                    let j = choose|j: int| 0 <= j < t1.len() && (#[trigger] t1[j]).0 == k;
                    assert(sym_kept_from(self.entries@[j], t0, t0.len() as int, file@));
                    let j0 = choose|j0: int|
                        0 <= j0 < t0.len() && (self.entries@[j].0@, self.entries@[j].1@)
                            == #[trigger] t0[j0] && !owned_by(t0[j0].1, file@);
                    assert(t0[j0].0 == k);
                    old(self).lemma_key_index(j0);
                }
                if tbl_has_key(t0, k) && !owned_by(old(self).sym_at(k), file@) {
                    let j0 = old(self).key_index(k);
                    assert(0 <= j0 < t0.len() && t0[j0].0 == k);
                    assert(old(self).sym_at(k) == t0[j0].1);
                    assert(sym_present(t1, t0[j0]));
                    let q = choose|q: int| 0 <= q < t1.len() && #[trigger] t1[q] == t0[j0];
                    assert(t1[q].0 == k);
                }
            }
            assert forall|k: Seq<char>|
                final(self).has_key(k) implies final(self).sym_at(k) == old(self).sym_at(
                k,
            ) by {
                let j = final(self).key_index(k);
                assert(0 <= j < t1.len() && t1[j].0 == k);
                assert(sym_kept_from(self.entries@[j], t0, t0.len() as int, file@));
                let j0 = choose|j0: int|
                    0 <= j0 < t0.len() && (self.entries@[j].0@, self.entries@[j].1@)
                        == #[trigger] t0[j0] && !owned_by(t0[j0].1, file@);
                assert(t0[j0].0 == k);
                old(self).lemma_key_index(j0);
                assert(final(self).sym_at(k) == t1[j].1);
            }
        }
    }
}

/// Whether some entry's symbol carries the unqualified name `name`.
pub open spec fn has_name(t: Seq<(Seq<char>, SymbolView)>, name: Seq<char>) -> bool {
    exists|i: int| 0 <= i < t.len() && (#[trigger] t[i]).1.name == name
}

/// The first entry, in table order, whose symbol carries the unqualified
/// name `name`.
pub open spec fn first_name_index(t: Seq<(Seq<char>, SymbolView)>, name: Seq<char>) -> int {
    choose|i: int|
        0 <= i < t.len() && (#[trigger] t[i]).1.name == name && (forall|j: int|
            0 <= j < i ==> (#[trigger] t[j]).1.name != name)
}

/// Name resolution over the table entries: an exact key match wins;
/// otherwise the first symbol, in table order, whose unqualified name
/// matches; otherwise nothing.
pub open spec fn resolve_target(t: Seq<(Seq<char>, SymbolView)>, name: Seq<char>) -> Option<
    int,
> {
    if tbl_has_key(t, name) {
        Some(tbl_index(t, name))
    } else if has_name(t, name) {
        Some(first_name_index(t, name))
    } else {
        None
    }
}

impl SymbolTable {
    /// Resolves `name` to the index of its symbol: by exact key first, then
    /// by unqualified name in table order.
    pub fn resolve_index(&self, name: &str) -> (r: Option<usize>)
        requires
            self.wf(),
        ensures
            match r {
                Some(i) => i < self@.len() && resolve_target(self@, name@) == Some(i as int),
                None => resolve_target(self@, name@) is None,
            },
    {
        let mut i: usize = 0;
        while i < self.entries.len()
            invariant
                i <= self.entries@.len(),
                self.wf(),
                forall|j: int| 0 <= j < i ==> (#[trigger] self@[j]).0 != name@,
            decreases self.entries@.len() - i,
        {
            if str_eq(self.entries[i].0.as_str(), name) {
                proof {
                    assert(self@[i as int].0 == name@);
                    self.lemma_key_index(i as int);
                }
                return Some(i);
            }
            i = i + 1;
        }
        assert(!tbl_has_key(self@, name@));
        let mut p: usize = 0;
        while p < self.entries.len()
            invariant
                p <= self.entries@.len(),
                self.wf(),
                !tbl_has_key(self@, name@),
                forall|j: int| 0 <= j < p ==> (#[trigger] self@[j]).1.name != name@,
            decreases self.entries@.len() - p,
        {
            if str_eq(self.entries[p].1.name.as_str(), name) {
                proof {
                    assert(self@[p as int].1.name == name@);
                    assert(has_name(self@, name@));
                    let i0 = first_name_index(self@, name@);
                    assert(0 <= i0 < self@.len() && self@[i0].1.name == name@ && (forall|j: int|
                        0 <= j < i0 ==> (#[trigger] self@[j]).1.name != name@));
                    if i0 < p {
                        assert(self@[i0 as int].1.name == name@);
                    }
                    if p < i0 {
                        assert(self@[p as int].1.name != name@);
                    }
                    assert(i0 == p as int);
                }
                return Some(p);
            }
            p = p + 1;
        }
        assert(!has_name(self@, name@));
        None
    }

    /// A borrow of the entry at a known index.
    pub fn entry_at(&self, i: usize) -> (r: &(String, Symbol))
        requires
            i < self@.len(),
        ensures
            (r.0@, r.1@) == self@[i as int],
    {
        &self.entries[i]
    }

    /// Appends a reference to the symbol at index `i`. Only that symbol's
    /// reference list changes.
    pub fn add_reference_at_index(&mut self, i: usize, r: SymbolReference)
        requires
            old(self).wf(),
            i < old(self)@.len(),
        ensures
            final(self).wf(),
            final(self)@ == old(self)@.update(
                i as int,
                (
                    old(self)@[i as int].0,
                    SymbolView {
                        references: old(self)@[i as int].1.references.push(r@),
                        ..old(self)@[i as int].1
                    },
                ),
            ),
    {
        let ghost t0 = self@;
        let mut e = self.entries.remove(i);
        e.1.add_reference(r);
        self.entries.insert(i, e);
        proof {
            assert(self@ =~= t0.update(
                i as int,
                (
                    t0[i as int].0,
                    SymbolView {
                        references: t0[i as int].1.references.push(r@),
                        ..t0[i as int].1
                    },
                ),
            ));
            assert(self.keys() =~= old(self).keys());
        }
    }
}

} // verus!
