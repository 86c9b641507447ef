//! A simple abstract syntax tree with a visitor, for tooling that walks a
//! file's surface structure without the semantic layer.

use vstd::prelude::*;

verus! {

/// The definition kinds the surface grammar distinguishes.
#[derive(Debug, Clone, Copy, PartialEq, Eq, Hash)]
pub enum DefinitionKind {
    Part,
    Action,
    Requirement,
    Port,
    Item,
    Attribute,
}

/// A package grouping nested elements.
#[derive(Debug)]
pub struct Package {
    pub name: Option<String>,
    pub elements: Vec<Element>,
}

/// A definition with its kind and body members.
#[derive(Debug)]
pub struct Definition {
    pub kind: DefinitionKind,
    pub name: Option<String>,
    pub body: Vec<Element>,
}

/// One element of a file.
#[derive(Debug)]
pub enum Element {
    Package(Package),
    Definition(Definition),
}

/// A parsed file: an optional root namespace and its elements.
#[derive(Debug)]
pub struct SysMLFile {
    pub namespace: Option<String>,
    pub elements: Vec<Element>,
}

/// A node of the tree, with its kind tag.
pub trait AstNode {
    fn node_type(&self) -> &'static str;

    fn has_children(&self) -> bool;
}

/// A node that may carry a name.
pub trait Named {
    fn name(&self) -> Option<&str>;
}

/// A visitor over the elements of a file; implementors override the hooks
/// they care about.
pub trait AstVisitor {
    fn visit_package(&mut self, package: &Package);

    fn visit_definition(&mut self, definition: &Definition);
}

impl AstNode for Package {
    fn node_type(&self) -> (r: &'static str)
        ensures
            r@ == "Package"@,
    {
        "Package"
    }

    fn has_children(&self) -> (r: bool)
        ensures
            r == (self.elements@.len() > 0),
    {
        !self.elements.is_empty()
    }
}

impl Named for Package {
    fn name(&self) -> (r: Option<&str>)
        ensures
            match r {
                Some(n) => self.name is Some && n@ == self.name->Some_0@,
                None => self.name is None,
            },
    {
        match &self.name {
            Some(n) => Some(n.as_str()),
            None => None,
        }
    }
}

impl AstNode for Definition {
    fn node_type(&self) -> (r: &'static str)
        ensures
            r@ == "Definition"@,
    {
        "Definition"
    }

    fn has_children(&self) -> (r: bool)
        ensures
            r == (self.body@.len() > 0),
    {
        !self.body.is_empty()
    }
}

impl Named for Definition {
    fn name(&self) -> (r: Option<&str>)
        ensures
            match r {
                Some(n) => self.name is Some && n@ == self.name->Some_0@,
                None => self.name is None,
            },
    {
        match &self.name {
            Some(n) => Some(n.as_str()),
            None => None,
        }
    }
}

impl SysMLFile {
    /// Walks the top-level elements, handing each to the visitor's hook
    /// for its kind.
    pub fn accept<V: AstVisitor>(&self, visitor: &mut V) {
        let mut i: usize = 0;
        while i < self.elements.len()
            decreases self.elements@.len() - i,
        {
            match &self.elements[i] {
                Element::Package(p) => visitor.visit_package(p),
                Element::Definition(d) => visitor.visit_definition(d),
            }
            i = i + 1;
        }
    }
}

} // verus!
