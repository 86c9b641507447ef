//! Name resolution.
//!
//! A read-only query over the symbol table: an exact key match wins;
//! otherwise the first symbol in table iteration order whose unqualified
//! name matches is taken — a documented tie-break, not a scope rule.

use vstd::prelude::*;

use crate::symbols::{resolve_target, Symbol, SymbolTable};

verus! {

/// Read-only name resolution over a symbol table.
pub struct Resolver {}

impl Resolver {
    pub fn new() -> (r: Resolver) {
        Resolver {  }
    }

    /// Resolves `name`, qualified or bare, to its symbol. Never mutates
    /// the table.
    pub fn resolve<'a>(&self, symbol_table: &'a SymbolTable, name: &str) -> (r: Option<
        &'a Symbol,
    >)
        requires
            symbol_table.wf(),
        ensures
            match r {
                Some(s) => {
                    &&& resolve_target(symbol_table@, name@) is Some
                    &&& s@ == symbol_table@[resolve_target(symbol_table@, name@)->Some_0].1
                },
                None => resolve_target(symbol_table@, name@) is None,
            },
    {
        match symbol_table.resolve_index(name) {
            Some(i) => Some(&symbol_table.entry_at(i).1),
            None => None,
        }
    }
}

} // verus!
