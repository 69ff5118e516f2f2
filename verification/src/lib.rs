//! Parser for SQL `CREATE TABLE` statements.
//!
//! The accepted surface syntax is
//! `CREATE TABLE <ident> ( <col> [, <col>]* ) [;]`, where each `<col>` is
//! `<ident> <type> [NOT NULL]` and `<type>` is a bare keyword (INT, TEXT,
//! BOOLEAN, DATE) or `VARCHAR(<uint>)`. Keywords are matched without regard
//! to case; identifiers keep their source spelling.
//!
//! The single entry point is [`parse_query`], which returns either a
//! [`CreateTableQuery`] or a [`ParseError`] saying why the input was
//! rejected. Its result is fully determined by the specification function
//! [`parser::spec_parse`] over the input's character sequence.

pub mod ast;
pub mod grammar;
pub mod laws;
pub mod parser;

pub use ast::{ColumnDef, CreateTableQuery, DataType, NumeralError, ParseError, Rule};
pub use grammar::SQLParser;
pub use parser::parse_query;
