use std::collections::BTreeMap;

use syster::symbols::SymbolKind;
use syster::syntax::{DefinitionDecl, Element, ImportDecl, PackageDecl, RelationDeclKind,
    RelationshipDecl, Span, SysMLFile, SyntaxFile, UsageDecl};
use syster::events::WorkspaceEvent;
use syster::workspace::Workspace;

fn def(name: &str, rels: Vec<RelationshipDecl>, body: Vec<UsageDecl>) -> Element {
    Element::Definition(DefinitionDecl {
        name: Some(name.to_string()),
        relationships: rels,
        body,
        span: Some(Span { start: 0, end: 1 }),
    })
}

fn usage(name: &str, rels: Vec<RelationshipDecl>) -> UsageDecl {
    UsageDecl {
        name: Some(name.to_string()),
        relationships: rels,
        body: vec![],
        span: Some(Span { start: 2, end: 3 }),
    }
}

fn rel(kind: RelationDeclKind, target: &str) -> RelationshipDecl {
    RelationshipDecl {
        kind,
        target: target.to_string(),
    }
}

fn sysml(namespace: Option<&str>, elements: Vec<Element>) -> SyntaxFile {
    SyntaxFile::SysML(SysMLFile {
        namespace: namespace.map(|s| s.to_string()),
        elements,
    })
}

fn vehicle_tree() -> SyntaxFile {
    sysml(
        Some("Demo"),
        vec![
            def(
                "Vehicle",
                vec![rel(RelationDeclKind::Specialization, "Item")],
                vec![usage("wheel", vec![rel(RelationDeclKind::Typing, "Wheel")])],
            ),
            Element::Package(PackageDecl {
                name: Some("Parts".to_string()),
                elements: vec![def("Wheel", vec![], vec![])],
                span: Some(Span { start: 4, end: 5 }),
            }),
        ],
    )
}

fn table_snapshot(w: &Workspace) -> BTreeMap<String, (SymbolKind, String, Option<String>)> {
    let mut out = BTreeMap::new();
    for (key, sym) in w.symbol_table().all_symbols() {
        out.insert(
            key.clone(),
            (sym.kind, sym.name.clone(), sym.source_file.clone()),
        );
    }
    out
}

#[test]
fn add_file_populates_symbols_and_edges() {
    let mut w = Workspace::new();
    let errs = w.add_file("demo.sysml".to_string(), vehicle_tree());
    assert!(errs.is_empty());

    let st = w.symbol_table();
    assert!(st.lookup_global("Demo.Vehicle").is_some());
    assert!(st.lookup_global("Demo.Vehicle.wheel").is_some());
    assert!(st.lookup_global("Demo.Parts").is_some());
    assert!(st.lookup_global("Demo.Parts.Wheel").is_some());
    assert_eq!(st.len(), 4);

    let rg = w.relationship_graph();
    assert_eq!(
        rg.get_one_to_one("typing", "Demo.Vehicle.wheel"),
        Some(&"Wheel".to_string())
    );
    assert_eq!(
        rg.get_one_to_many("specialization", "Demo.Vehicle"),
        Some(&vec!["Item".to_string()])
    );
}

// Removing a file and adding it back from the same tree restores the
// symbol table and relationship graph of a single load.
#[test]
fn remove_then_add_restores_state() {
    let mut w = Workspace::new();
    w.add_file("demo.sysml".to_string(), vehicle_tree());
    let before = table_snapshot(&w);
    let typing_before = w
        .relationship_graph()
        .get_one_to_one("typing", "Demo.Vehicle.wheel")
        .cloned();

    w.remove_file("demo.sysml");
    assert_eq!(w.symbol_table().len(), 0);
    assert!(w
        .relationship_graph()
        .get_one_to_one("typing", "Demo.Vehicle.wheel")
        .is_none());

    w.add_file("demo.sysml".to_string(), vehicle_tree());
    assert_eq!(table_snapshot(&w), before);
    assert_eq!(
        w.relationship_graph()
            .get_one_to_one("typing", "Demo.Vehicle.wheel")
            .cloned(),
        typing_before
    );
    assert_eq!(
        w.relationship_graph()
            .get_one_to_many("specialization", "Demo.Vehicle"),
        Some(&vec!["Item".to_string()])
    );
}

// Loading a file and then updating it with an identical tree leaves the
// symbol table of a single load.
#[test]
fn update_with_identical_tree_is_idempotent() {
    let mut w = Workspace::new();
    w.add_file("demo.sysml".to_string(), vehicle_tree());
    let before = table_snapshot(&w);

    let (errs, _stale) = w.update_file("demo.sysml", vehicle_tree());
    assert!(errs.is_empty());
    assert_eq!(table_snapshot(&w), before);
}

// Population of a file with one well-formed element and one malformed
// relationship: the symbol is inserted, the error list is non-empty, and
// the call itself succeeds.
#[test]
fn malformed_relationship_is_reported_not_fatal() {
    let mut w = Workspace::new();
    let tree = sysml(
        None,
        vec![def(
            "Car",
            vec![rel(RelationDeclKind::Specialization, "")],
            vec![],
        )],
    );
    let errs = w.add_file("bad.sysml".to_string(), tree);
    assert_eq!(errs.len(), 1);
    assert_eq!(w.symbol_table().len(), 1);
    let car = w.symbol_table().lookup_global("Car").expect("Car missing");
    assert_eq!(car.kind, SymbolKind::Definition);
    assert_eq!(car.source_file, Some("bad.sysml".to_string()));
}

#[test]
fn imports_are_recorded_and_update_reports_stale_files() {
    let mut w = Workspace::new();
    let a = sysml(
        None,
        vec![
            Element::Import(ImportDecl {
                target: "b.sysml".to_string(),
                span: None,
            }),
            def("A", vec![], vec![]),
        ],
    );
    let b = sysml(
        None,
        vec![
            Element::Import(ImportDecl {
                target: "c.sysml".to_string(),
                span: None,
            }),
            def("B", vec![], vec![]),
        ],
    );
    let c = sysml(None, vec![def("C", vec![], vec![])]);
    w.add_file("a.sysml".to_string(), a);
    w.add_file("b.sysml".to_string(), b);
    w.add_file("c.sysml".to_string(), c);

    assert_eq!(w.get_dependencies("a.sysml"), vec!["b.sysml".to_string()]);
    assert_eq!(w.get_dependents("b.sysml"), vec!["a.sysml".to_string()]);
    assert!(!w.has_circular_dependency("a.sysml"));

    let c2 = sysml(None, vec![def("C", vec![], vec![]), def("C2", vec![], vec![])]);
    let (errs, stale) = w.update_file("c.sysml", c2);
    assert!(errs.is_empty());
    let mut stale = stale;
    stale.sort();
    assert_eq!(stale, vec!["a.sysml".to_string(), "b.sysml".to_string()]);
    assert!(w.file_needs_repopulation("a.sysml"));
    assert!(w.file_needs_repopulation("b.sysml"));
    assert!(!w.file_needs_repopulation("c.sysml"));
}

#[test]
fn stdlib_flag_is_a_one_way_latch() {
    let mut w = Workspace::new();
    assert!(!w.has_stdlib());
    w.mark_stdlib_loaded();
    assert!(w.has_stdlib());
    w.mark_stdlib_loaded();
    assert!(w.has_stdlib());
}

#[test]
fn unnamed_element_yields_error_but_pass_continues() {
    let mut w = Workspace::new();
    let tree = sysml(
        None,
        vec![
            Element::Definition(DefinitionDecl {
                name: None,
                relationships: vec![],
                body: vec![],
                span: None,
            }),
            def("Good", vec![], vec![]),
        ],
    );
    let errs = w.add_file("f.sysml".to_string(), tree);
    assert_eq!(errs.len(), 1);
    assert!(w.symbol_table().lookup_global("Good").is_some());
}

#[test]
fn kerml_files_are_skipped_silently() {
    let mut w = Workspace::new();
    let tree = SyntaxFile::KerML(syster::syntax::KerMLFile {
        namespace: None,
        elements: vec![def("K", vec![], vec![])],
    });
    let errs = w.add_file("k.kerml".to_string(), tree);
    assert!(errs.is_empty());
    assert_eq!(w.symbol_table().len(), 0);
}

#[test]
fn document_symbols_lists_the_files_own_symbols() {
    let mut w = Workspace::new();
    w.add_file("demo.sysml".to_string(), vehicle_tree());
    w.add_file(
        "other.sysml".to_string(),
        sysml(None, vec![def("Other", vec![], vec![])]),
    );

    let items = w.document_symbols("demo.sysml");
    let names: Vec<String> = items.iter().map(|i| i.name.clone()).collect();
    assert_eq!(names, vec!["Vehicle", "wheel", "Parts", "Wheel"]);
    assert_eq!(items[0].detail, "Demo.Vehicle");
    assert_eq!(items[0].kind, SymbolKind::Definition);

    let other = w.document_symbols("other.sysml");
    assert_eq!(other.len(), 1);
    assert_eq!(other[0].name, "Other");
}

#[test]
fn workspace_logs_events_in_order() {
    let mut w = Workspace::new();
    w.add_file("a.sysml".to_string(), sysml(None, vec![def("A", vec![], vec![])]));
    w.update_file("a.sysml", sysml(None, vec![def("A", vec![], vec![])]));
    w.remove_file("a.sysml");

    assert_eq!(
        w.events,
        vec![
            WorkspaceEvent::FileAdded {
                path: "a.sysml".to_string()
            },
            WorkspaceEvent::FileAdded {
                path: "a.sysml".to_string()
            },
            WorkspaceEvent::FileUpdated {
                path: "a.sysml".to_string()
            },
            WorkspaceEvent::FileRemoved {
                path: "a.sysml".to_string()
            },
        ]
    );
}
