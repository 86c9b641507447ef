use syster::events::{DependencyEvent, WorkspaceEvent};

#[test]
fn test_workspace_event_creation() {
    let path = String::from("test.sysml");

    let added = WorkspaceEvent::FileAdded { path: path.clone() };
    let updated = WorkspaceEvent::FileUpdated { path: path.clone() };
    let removed = WorkspaceEvent::FileRemoved { path: path.clone() };

    assert!(matches!(added, WorkspaceEvent::FileAdded { .. }));
    assert!(matches!(updated, WorkspaceEvent::FileUpdated { .. }));
    assert!(matches!(removed, WorkspaceEvent::FileRemoved { .. }));
}

#[test]
fn test_workspace_event_equality() {
    let path = String::from("test.sysml");

    let event1 = WorkspaceEvent::FileUpdated { path: path.clone() };
    let event2 = WorkspaceEvent::FileUpdated { path: path.clone() };

    assert_eq!(event1, event2);
}

#[test]
fn test_dependency_event_creation() {
    let from = String::from("app.sysml");
    let to = String::from("base.sysml");

    let added = DependencyEvent::DependencyAdded {
        from: from.clone(),
        to: to.clone(),
    };
    let removed = DependencyEvent::FileRemoved { path: from.clone() };

    assert!(matches!(added, DependencyEvent::DependencyAdded { .. }));
    assert!(matches!(removed, DependencyEvent::FileRemoved { .. }));
}

#[test]
fn test_dependency_event_equality() {
    let from = String::from("app.sysml");
    let to = String::from("base.sysml");

    let event1 = DependencyEvent::DependencyAdded {
        from: from.clone(),
        to: to.clone(),
    };
    let event2 = DependencyEvent::DependencyAdded {
        from: from.clone(),
        to: to.clone(),
    };

    assert_eq!(event1, event2);
}
