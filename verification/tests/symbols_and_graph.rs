use syster::graph::RelationshipGraph;
use syster::population::{populate_syntax_file, KermlAdapter};
use syster::resolver::Resolver;
use syster::symbols::{Symbol, SymbolKind, SymbolTable};
use syster::syntax::{DefinitionDecl, Element, KerMLFile, Span, SysMLFile, SyntaxFile};

fn sym(kind: SymbolKind, name: &str, qualified: &str, file: &str) -> Symbol {
    Symbol::new(
        kind,
        name.to_string(),
        qualified.to_string(),
        Some(Span { start: 0, end: 1 }),
        Some(file.to_string()),
    )
}

#[test]
fn insert_replaces_on_same_key_keeping_order() {
    let mut t = SymbolTable::new();
    t.insert(
        "A".to_string(),
        sym(SymbolKind::Package, "A", "A", "f1"),
    );
    t.insert(
        "B".to_string(),
        sym(SymbolKind::Definition, "B", "B", "f1"),
    );
    t.insert(
        "A".to_string(),
        sym(SymbolKind::Definition, "A", "A", "f2"),
    );

    assert_eq!(t.len(), 2);
    let keys: Vec<String> = t.all_symbols().iter().map(|(k, _)| k.clone()).collect();
    assert_eq!(keys, vec!["A".to_string(), "B".to_string()]);
    let a = t.lookup_global("A").unwrap();
    assert_eq!(a.kind, SymbolKind::Definition);
    assert_eq!(a.source_file, Some("f2".to_string()));
}

#[test]
fn lookup_global_is_exact_match_only() {
    let mut t = SymbolTable::new();
    t.insert(
        "P.Wheel".to_string(),
        sym(SymbolKind::Definition, "Wheel", "P.Wheel", "f"),
    );
    assert!(t.lookup_global("P.Wheel").is_some());
    assert!(t.lookup_global("Wheel").is_none());
}

#[test]
fn lookup_global_mut_edits_in_place() {
    let mut t = SymbolTable::new();
    t.insert(
        "A".to_string(),
        sym(SymbolKind::Usage, "A", "A", "f"),
    );
    {
        let s = t.lookup_global_mut("A");
        s.add_reference(syster::symbols::SymbolReference {
            file: "g".to_string(),
            span: Span { start: 7, end: 9 },
        });
    }
    assert_eq!(t.lookup_global("A").unwrap().references.len(), 1);
}

#[test]
fn resolver_falls_back_to_first_name_match_in_table_order() {
    let mut t = SymbolTable::new();
    t.insert(
        "P.Wheel".to_string(),
        sym(SymbolKind::Definition, "Wheel", "P.Wheel", "f"),
    );
    t.insert(
        "Q.Wheel".to_string(),
        sym(SymbolKind::Definition, "Wheel", "Q.Wheel", "f"),
    );

    let r = Resolver::new();
    let hit = r.resolve(&t, "Wheel").expect("no match");
    assert_eq!(hit.qualified_name, "P.Wheel");
    let exact = r.resolve(&t, "Q.Wheel").expect("no exact match");
    assert_eq!(exact.qualified_name, "Q.Wheel");
    assert!(r.resolve(&t, "Axle").is_none());
}

#[test]
fn one_to_one_replaces_and_one_to_many_appends() {
    let mut g = RelationshipGraph::new();
    g.add_one_to_one("typing", "a", "T1");
    g.add_one_to_one("typing", "a", "T2");
    assert_eq!(g.get_one_to_one("typing", "a"), Some(&"T2".to_string()));
    assert_eq!(g.get_one_to_one("typing", "b"), None);

    g.add_one_to_many("specialization", "a", "S1");
    g.add_one_to_many("specialization", "a", "S2");
    g.add_one_to_many("specialization", "a", "S1");
    assert_eq!(
        g.get_one_to_many("specialization", "a"),
        Some(&vec![
            "S1".to_string(),
            "S2".to_string(),
            "S1".to_string()
        ])
    );
    assert_eq!(g.get_one_to_many("subsetting", "a"), None);
}

#[test]
fn dangling_targets_are_stored_without_validation() {
    let mut g = RelationshipGraph::new();
    g.add_one_to_one("typing", "a", "NotLoadedYet");
    assert_eq!(
        g.get_one_to_one("typing", "a"),
        Some(&"NotLoadedYet".to_string())
    );
}

#[test]
fn kerml_adapter_walks_like_the_main_dialect() {
    let mut st = SymbolTable::new();
    let mut rg = RelationshipGraph::new();
    let file = KerMLFile {
        namespace: Some("K".to_string()),
        elements: vec![Element::Definition(DefinitionDecl {
            name: Some("Thing".to_string()),
            relationships: vec![],
            body: vec![],
            span: None,
        })],
    };
    let r = KermlAdapter::populate(&file, "k.kerml", &mut st, &mut rg);
    assert!(r.is_ok());
    assert!(st.lookup_global("K.Thing").is_some());
}

#[test]
fn dispatcher_skips_kernel_dialect_files() {
    let mut st = SymbolTable::new();
    let mut rg = RelationshipGraph::new();
    let file = SyntaxFile::KerML(KerMLFile {
        namespace: None,
        elements: vec![Element::Definition(DefinitionDecl {
            name: Some("Thing".to_string()),
            relationships: vec![],
            body: vec![],
            span: None,
        })],
    });
    let r = populate_syntax_file(&file, "k.kerml", &mut st, &mut rg);
    assert!(r.is_ok());
    assert_eq!(st.len(), 0);
}

#[test]
fn dispatcher_populates_main_dialect_files() {
    let mut st = SymbolTable::new();
    let mut rg = RelationshipGraph::new();
    let file = SyntaxFile::SysML(SysMLFile {
        namespace: None,
        elements: vec![Element::Definition(DefinitionDecl {
            name: Some("Thing".to_string()),
            relationships: vec![],
            body: vec![],
            span: None,
        })],
    });
    let r = populate_syntax_file(&file, "m.sysml", &mut st, &mut rg);
    assert!(r.is_ok());
    assert!(st.lookup_global("Thing").is_some());
}
