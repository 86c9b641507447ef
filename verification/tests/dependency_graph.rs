use syster::dependency_graph::DependencyGraph;
use syster::events::DependencyEvent;

fn sorted(mut v: Vec<String>) -> Vec<String> {
    v.sort();
    v
}

#[test]
fn add_dependency_records_both_directions() {
    let mut g = DependencyGraph::new();
    g.add_dependency("a.sysml", "b.sysml");

    assert_eq!(g.get_dependencies("a.sysml"), vec!["b.sysml".to_string()]);
    assert_eq!(g.get_dependents("b.sysml"), vec!["a.sysml".to_string()]);
    assert_eq!(g.dependencies_count(), 1);
}

#[test]
fn duplicate_edges_are_stored_once() {
    let mut g = DependencyGraph::new();
    g.add_dependency("a", "b");
    g.add_dependency("a", "b");
    assert_eq!(g.dependencies_count(), 1);
    assert_eq!(g.get_dependencies("a").len(), 1);
}

// The dependencies and dependents maps stay exact mirrors across any
// sequence of additions and removals.
#[test]
fn mirror_invariant_after_add_and_remove() {
    let mut g = DependencyGraph::new();
    g.add_dependency("a", "b");
    g.add_dependency("a", "c");
    g.add_dependency("b", "c");
    g.add_dependency("c", "a");

    // every forward edge has its mirror
    for from in ["a", "b", "c"] {
        for to in g.get_dependencies(from) {
            assert!(g.get_dependents(to.as_str()).contains(&from.to_string()));
        }
        for d in g.get_dependents(from) {
            assert!(g.get_dependencies(d.as_str()).contains(&from.to_string()));
        }
    }

    g.remove_file("c");
    assert_eq!(g.get_dependencies("c").len(), 0);
    assert_eq!(g.get_dependents("c").len(), 0);
    assert_eq!(sorted(g.get_dependencies("a")), vec!["b".to_string()]);
    assert_eq!(g.get_dependents("a").len(), 0);
    for from in ["a", "b"] {
        for to in g.get_dependencies(from) {
            assert!(g.get_dependents(to.as_str()).contains(&from.to_string()));
        }
    }
}

// get_all_affected never includes the file itself, even on a cycle through
// its dependents.
#[test]
fn affected_never_contains_the_file_itself() {
    let mut g = DependencyGraph::new();
    g.add_dependency("a", "b");
    g.add_dependency("b", "c");
    g.add_dependency("c", "a");

    let affected = g.get_all_affected("a");
    assert!(!affected.contains(&"a".to_string()));
    assert_eq!(sorted(affected), vec!["b".to_string(), "c".to_string()]);
}

// A DAG reports no circular dependency anywhere; exactly the files lying
// on a cycle are reported, not the files that merely reach one.
#[test]
fn circularity_on_dag_and_cycle() {
    let mut g = DependencyGraph::new();
    g.add_dependency("a", "b");
    g.add_dependency("b", "c");
    assert!(!g.has_circular_dependency("a"));
    assert!(!g.has_circular_dependency("b"));
    assert!(!g.has_circular_dependency("c"));

    g.add_dependency("c", "b");
    assert!(g.has_circular_dependency("b"));
    assert!(g.has_circular_dependency("c"));
    assert!(!g.has_circular_dependency("a"));
}

// A file that only imports into a cycle lies on none itself.
#[test]
fn reaching_a_cycle_is_not_being_on_one() {
    let mut g = DependencyGraph::new();
    g.add_dependency("f", "a");
    g.add_dependency("a", "a");
    assert!(g.has_circular_dependency("a"));
    assert!(!g.has_circular_dependency("f"));
}

// Scenario: A imports B, B imports C; then C -> A closes a cycle.
#[test]
fn chain_scenario() {
    let mut g = DependencyGraph::new();
    g.add_dependency("A", "B");
    g.add_dependency("B", "C");

    assert_eq!(g.get_dependents("C"), vec!["B".to_string()]);
    assert_eq!(
        sorted(g.get_all_affected("C")),
        vec!["A".to_string(), "B".to_string()]
    );
    assert!(!g.has_circular_dependency("A"));

    g.add_dependency("C", "A");
    assert!(g.has_circular_dependency("A"));
    assert!(g.has_circular_dependency("C"));
}

#[test]
fn subscription_sees_later_events() {
    let mut g = DependencyGraph::new();
    g.add_dependency("x", "y");
    let id = g.subscribe();
    g.add_dependency("y", "z");
    g.remove_file("x");

    let evs = g.poll_events(id);
    assert_eq!(
        evs,
        vec![
            DependencyEvent::DependencyAdded {
                from: "y".to_string(),
                to: "z".to_string()
            },
            DependencyEvent::FileRemoved {
                path: "x".to_string()
            },
        ]
    );
    assert_eq!(g.poll_events(id), vec![]);
}

#[test]
fn remove_file_drops_edges_in_both_directions() {
    let mut g = DependencyGraph::new();
    g.add_dependency("a", "b");
    g.add_dependency("b", "a");
    g.add_dependency("b", "c");
    g.remove_file("a");

    assert_eq!(g.get_dependencies("a").len(), 0);
    assert_eq!(g.get_dependents("a").len(), 0);
    assert_eq!(g.get_dependencies("b"), vec!["c".to_string()]);
    assert_eq!(g.dependencies_count(), 1);
}
