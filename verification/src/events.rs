//! Events emitted by the semantic components.
//!
//! The workspace and the dependency graph record an event for every mutation
//! they perform. Observers poll these logs through subscriptions instead of
//! registering callbacks, which keeps the notification mechanism free of
//! shared mutable state.

use vstd::prelude::*;

verus! {

/// Events emitted by the workspace during file operations.
#[derive(Debug, Clone, PartialEq, Eq)]
pub enum WorkspaceEvent {
    /// A file was added to the workspace.
    FileAdded { path: String },
    /// A file's content was updated.
    FileUpdated { path: String },
    /// A file was removed from the workspace.
    FileRemoved { path: String },
}

/// Events emitted by the dependency graph during updates.
#[derive(Debug, PartialEq, Eq)]
pub enum DependencyEvent {
    /// A dependency was added between two files: `from` imports `to`.
    DependencyAdded { from: String, to: String },
    /// A file and all its dependency edges were removed.
    FileRemoved { path: String },
}

/// Spec-level shape of a `WorkspaceEvent`, with strings replaced by their
/// character sequences, so that contracts can pin down logged events.
pub ghost enum WorkspaceEventView {
    FileAdded { path: Seq<char> },
    FileUpdated { path: Seq<char> },
    FileRemoved { path: Seq<char> },
}

impl View for WorkspaceEvent {
    type V = WorkspaceEventView;

    open spec fn view(&self) -> WorkspaceEventView {
        match self {
            WorkspaceEvent::FileAdded { path } => WorkspaceEventView::FileAdded { path: path@ },
            WorkspaceEvent::FileUpdated { path } => WorkspaceEventView::FileUpdated {
                path: path@,
            },
            WorkspaceEvent::FileRemoved { path } => WorkspaceEventView::FileRemoved {
                path: path@,
            },
        }
    }
}

/// Spec-level shape of a `DependencyEvent`, with strings replaced by their
/// character sequences, so that contracts can pin down logged events.
pub ghost enum DependencyEventView {
    DependencyAdded { from: Seq<char>, to: Seq<char> },
    FileRemoved { path: Seq<char> },
}

impl Clone for DependencyEvent {
    fn clone(&self) -> (r: DependencyEvent)
        ensures
            r == *self,
    {
        match self {
            DependencyEvent::DependencyAdded { from, to } => DependencyEvent::DependencyAdded {
                from: from.clone(),
                to: to.clone(),
            },
            DependencyEvent::FileRemoved { path } => DependencyEvent::FileRemoved {
                path: path.clone(),
            },
        }
    }
}

impl View for DependencyEvent {
    type V = DependencyEventView;

    open spec fn view(&self) -> DependencyEventView {
        match self {
            DependencyEvent::DependencyAdded { from, to } => DependencyEventView::DependencyAdded {
                from: from@,
                to: to@,
            },
            DependencyEvent::FileRemoved { path } => DependencyEventView::FileRemoved {
                path: path@,
            },
        }
    }
}

} // verus!
