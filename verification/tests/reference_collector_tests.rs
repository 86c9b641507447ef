use syster::reference_collector::ReferenceCollector;
use syster::syntax::{DefinitionDecl, Element, PackageDecl, RelationDeclKind, RelationshipDecl,
    Span, SysMLFile, SyntaxFile, UsageDecl};
use syster::workspace::Workspace;

// Scenario: a definition `Vehicle` with a typing edge to the unqualified
// name "Wheel", and a symbol whose qualified name ends in `Wheel` declared
// elsewhere. After the collector runs, the `Wheel` symbol's reference list
// holds `Vehicle`'s file and span exactly once.
#[test]
fn unqualified_target_is_resolved_by_name() {
    let mut w = Workspace::new();
    let vehicle_span = Span { start: 10, end: 20 };
    let vehicle = SyntaxFile::SysML(SysMLFile {
        namespace: None,
        elements: vec![Element::Definition(DefinitionDecl {
            name: Some("Vehicle".to_string()),
            relationships: vec![RelationshipDecl {
                kind: RelationDeclKind::Typing,
                target: "Wheel".to_string(),
            }],
            body: vec![],
            span: Some(vehicle_span),
        })],
    });
    let parts = SyntaxFile::SysML(SysMLFile {
        namespace: None,
        elements: vec![Element::Package(PackageDecl {
            name: Some("Garage".to_string()),
            elements: vec![Element::Definition(DefinitionDecl {
                name: Some("Wheel".to_string()),
                relationships: vec![],
                body: vec![],
                span: Some(Span { start: 1, end: 2 }),
            })],
            span: Some(Span { start: 0, end: 3 }),
        })],
    });
    w.add_file("vehicle.sysml".to_string(), vehicle);
    w.add_file("parts.sysml".to_string(), parts);

    w.collect_references();

    let wheel = w
        .symbol_table()
        .lookup_global("Garage.Wheel")
        .expect("Garage.Wheel missing");
    assert_eq!(wheel.references.len(), 1);
    assert_eq!(wheel.references[0].file, "vehicle.sysml");
    assert_eq!(wheel.references[0].span, vehicle_span);
}

#[test]
fn exact_key_match_wins_over_name_fallback() {
    let mut w = Workspace::new();
    let tree = SyntaxFile::SysML(SysMLFile {
        namespace: Some("P".to_string()),
        elements: vec![
            Element::Definition(DefinitionDecl {
                name: Some("Base".to_string()),
                relationships: vec![],
                body: vec![],
                span: Some(Span { start: 0, end: 1 }),
            }),
            Element::Definition(DefinitionDecl {
                name: Some("Derived".to_string()),
                relationships: vec![RelationshipDecl {
                    kind: RelationDeclKind::Specialization,
                    target: "P.Base".to_string(),
                }],
                body: vec![],
                span: Some(Span { start: 2, end: 3 }),
            }),
        ],
    });
    w.add_file("p.sysml".to_string(), tree);
    w.collect_references();

    let base = w.symbol_table().lookup_global("P.Base").unwrap();
    assert_eq!(base.references.len(), 1);
    assert_eq!(base.references[0].file, "p.sysml");
}

#[test]
fn unresolvable_targets_record_nothing() {
    let mut w = Workspace::new();
    let tree = SyntaxFile::SysML(SysMLFile {
        namespace: None,
        elements: vec![Element::Definition(DefinitionDecl {
            name: Some("Lonely".to_string()),
            relationships: vec![RelationshipDecl {
                kind: RelationDeclKind::Subsetting,
                target: "Nowhere".to_string(),
            }],
            body: vec![],
            span: Some(Span { start: 0, end: 1 }),
        })],
    });
    w.add_file("l.sysml".to_string(), tree);
    w.collect_references();

    for (_, sym) in w.symbol_table().all_symbols() {
        assert!(sym.references.is_empty());
    }
}

#[test]
fn usage_typing_contributes_a_reference() {
    let mut w = Workspace::new();
    let tree = SyntaxFile::SysML(SysMLFile {
        namespace: None,
        elements: vec![
            Element::Definition(DefinitionDecl {
                name: Some("Engine".to_string()),
                relationships: vec![],
                body: vec![],
                span: Some(Span { start: 0, end: 1 }),
            }),
            Element::Definition(DefinitionDecl {
                name: Some("Car".to_string()),
                relationships: vec![],
                body: vec![UsageDecl {
                    name: Some("engine".to_string()),
                    relationships: vec![RelationshipDecl {
                        kind: RelationDeclKind::Typing,
                        target: "Engine".to_string(),
                    }],
                    body: vec![],
                    span: Some(Span { start: 5, end: 6 }),
                }],
                span: Some(Span { start: 2, end: 3 }),
            }),
        ],
    });
    w.add_file("car.sysml".to_string(), tree);

    let collector = ReferenceCollector::new();
    let mut st = std::mem::replace(&mut w.symbol_table, syster::symbols::SymbolTable::new());
    collector.collect(&mut st, &w.relationship_graph);
    let engine = st.lookup_global("Engine").unwrap();
    assert_eq!(engine.references.len(), 1);
    assert_eq!(engine.references[0].file, "car.sysml");
    assert_eq!(engine.references[0].span, Span { start: 5, end: 6 });
}
