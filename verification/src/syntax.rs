//! Parsed syntax trees, as the semantic layer consumes them.
//!
//! A grammar-level parser (an external collaborator, outside this library)
//! turns raw text into these trees. A tree exposes an optional root
//! namespace and an ordered list of elements; each element carries an
//! optional name, a span, declared relationships, and body members.

use vstd::prelude::*;

verus! {

/// A source range, in character offsets.
#[derive(Debug, Clone, Copy, PartialEq, Eq, Structural)]
pub struct Span {
    pub start: usize,
    pub end: usize,
}

/// The relationships an element can declare on itself.
#[derive(Debug, Clone, Copy, PartialEq, Eq, Structural)]
pub enum RelationDeclKind {
    Typing,
    Specialization,
    Redefinition,
    Subsetting,
    ReferenceSubsetting,
}

/// A relationship declared on an element, naming its target as written in
/// the source (possibly unqualified, possibly not yet loaded).
#[derive(Debug, Clone, PartialEq, Eq)]
pub struct RelationshipDecl {
    pub kind: RelationDeclKind,
    /// The referenced name exactly as written; empty when the source was
    /// malformed.
    pub target: String,
}

/// A comment kept inside a usage body.
#[derive(Debug, Clone, PartialEq, Eq)]
pub struct Comment {
    pub content: String,
    pub span: Option<Span>,
}

/// A declared usage (a feature of its enclosing scope).
#[derive(Debug, Clone, PartialEq, Eq)]
pub struct UsageDecl {
    pub name: Option<String>,
    pub relationships: Vec<RelationshipDecl>,
    pub body: Vec<Comment>,
    pub span: Option<Span>,
}

/// A declared definition (a classifier).
#[derive(Debug, Clone, PartialEq, Eq)]
pub struct DefinitionDecl {
    pub name: Option<String>,
    pub relationships: Vec<RelationshipDecl>,
    pub body: Vec<UsageDecl>,
    pub span: Option<Span>,
}

/// An import of another file, by the identifier used for that file.
#[derive(Debug, Clone, PartialEq, Eq)]
pub struct ImportDecl {
    pub target: String,
    pub span: Option<Span>,
}

/// An alias for another name.
#[derive(Debug, Clone, PartialEq, Eq)]
pub struct AliasDecl {
    pub name: Option<String>,
    pub target: String,
    pub span: Option<Span>,
}

/// A package, grouping nested elements under its name.
#[derive(Debug)]
pub struct PackageDecl {
    pub name: Option<String>,
    pub elements: Vec<Element>,
    pub span: Option<Span>,
}

/// One top-level or nested element of a file.
#[derive(Debug)]
pub enum Element {
    Package(PackageDecl),
    Definition(DefinitionDecl),
    Usage(UsageDecl),
    Import(ImportDecl),
    Alias(AliasDecl),
}

/// A parsed file in the main modeling dialect.
#[derive(Debug)]
pub struct SysMLFile {
    pub namespace: Option<String>,
    pub elements: Vec<Element>,
}

/// A parsed file in the kernel dialect. Both dialects expose the same
/// shape to the semantic layer.
#[derive(Debug)]
pub struct KerMLFile {
    pub namespace: Option<String>,
    pub elements: Vec<Element>,
}

/// A parsed file of either dialect.
#[derive(Debug)]
pub enum SyntaxFile {
    SysML(SysMLFile),
    KerML(KerMLFile),
}

/// The number of elements in a tree, nested ones included.
pub open spec fn element_count(e: Element) -> nat
    decreases e,
{
    match e {
        Element::Package(p) => 1 + elements_count(p.elements@),
        _ => 1,
    }
}

/// The number of elements in a list of trees, nested ones included.
pub open spec fn elements_count(es: Seq<Element>) -> nat
    decreases es,
{
    if es.len() == 0 {
        0
    } else {
        element_count(es[0]) + elements_count(es.drop_first())
    }
}

} // verus!
