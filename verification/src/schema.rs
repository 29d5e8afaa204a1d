//! Declarative table schemas: the ordered columns a CSV file must carry.
use vstd::prelude::*;

verus! {

/// A single column of a schema.
#[derive(Debug, Clone)]
pub struct Column {
    pub name: String,
    /// The declared value type: `String`, `u64`, `Vec<String>` or `NeurorightsFlags`.
    pub ty: String,
    pub required: bool,
    pub separator: Option<String>,
}

/// A table schema: the table name and its columns, in header order.
#[derive(Debug, Clone)]
pub struct Schema {
    pub table: String,
    pub columns: Vec<Column>,
}

} // verus!
