//! Storage and concurrency core of a multi-model database engine: value types
//! and tuple schemas, an expression and DDL parser, the on-disk page format and
//! a paged buffer cache with read/write locks.
use vstd::prelude::*;

pub mod text;
pub mod value_type;
pub mod tuple;
pub mod ast;
pub mod shunting;
pub mod lru;
pub mod channel;
pub mod page;
pub mod cache;
pub mod dbfile;
pub mod value;
pub mod scan;
pub mod model;
pub mod command;
pub mod parse;
pub mod expr_parse;
pub mod round_trip;
pub mod config;
pub mod db;

verus! {

/// Error kinds surfaced by the parser, the file layer and the model layer.
#[derive(Debug, PartialEq, Clone)]
pub enum Error {
    NotYetImplemented,
    TypeError(String),
    IoError(String),
    ParseError(String),
    Custom(String),
}

pub type Result<T> = core::result::Result<T, Error>;

} // verus!
