//! Commands as parsed.
use vstd::prelude::*;
use crate::ast::{Expr, Identifier};
use crate::model::ModelType;

verus! {

/// The columns a select returns.
#[derive(Debug, PartialEq)]
pub enum SelectColumns {
    All,
    /// Expressions with optional aliases.
    Named(Vec<(Expr, Option<String>)>),
}

/// A parsed command.
#[derive(Debug, PartialEq)]
pub enum Command {
    CreateDatabase { name: String, local_file: Option<String> },
    DropDatabase { name: String },
    UseDatabase { name: String },
    CleanDatabase { name: String },
    ImportDatabase { name: String, path: String },
    CreateModel { name: String, schema: Box<ModelType> },
    DropModel { name: String },
    Select {
        cols: SelectColumns,
        from: Option<Vec<(String, Option<String>)>>,
        where_expr: Option<Expr>,
        group_by: Option<Vec<Expr>>,
        having: Option<Expr>,
        order_by: Option<Vec<Expr>>,
        limit: Option<u64>,
    },
    Update {
        model: Identifier,
        where_expr: Option<Expr>,
        set: Vec<(Identifier, Expr)>,
        order_by: Option<Vec<Expr>>,
        limit: Option<u64>,
    },
    Insert { model: Identifier, cols: Option<Vec<Identifier>>, values: Vec<Vec<Expr>> },
    Delete { model: Identifier, where_expr: Option<Expr>, order_by: Option<Vec<Expr>>, limit: Option<u64> },
}

} // verus!
