use syster::ast::{AstNode, AstVisitor, Definition, DefinitionKind, Element, Named, Package,
    SysMLFile};

#[test]
fn test_ast_node_trait() {
    let pkg = Package {
        name: Some("TestPackage".to_string()),
        elements: vec![],
    };

    assert_eq!(pkg.node_type(), "Package");
    assert_eq!(pkg.name(), Some("TestPackage"));
    assert!(!pkg.has_children());
}

#[test]
fn test_definition_traits() {
    let def = Definition {
        kind: DefinitionKind::Part,
        name: Some("Vehicle".to_string()),
        body: vec![],
    };

    assert_eq!(def.node_type(), "Definition");
    assert_eq!(def.name(), Some("Vehicle"));
}

struct CountingVisitor {
    packages: usize,
    definitions: usize,
}

impl AstVisitor for CountingVisitor {
    fn visit_package(&mut self, _package: &Package) {
        self.packages += 1;
    }

    fn visit_definition(&mut self, _definition: &Definition) {
        self.definitions += 1;
    }
}

#[test]
fn test_visitor_pattern() {
    let file = SysMLFile {
        namespace: None,
        elements: vec![
            Element::Package(Package {
                name: Some("TestPkg".to_string()),
                elements: vec![],
            }),
            Element::Definition(Definition {
                kind: DefinitionKind::Part,
                name: Some("TestDef".to_string()),
                body: vec![],
            }),
        ],
    };

    let mut visitor = CountingVisitor {
        packages: 0,
        definitions: 0,
    };

    file.accept(&mut visitor);

    assert_eq!(visitor.packages, 1);
    assert_eq!(visitor.definitions, 1);
}
