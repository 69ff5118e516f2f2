//! The domain model produced by the parser, the error taxonomy, and the
//! spec-level views of both.

use vstd::prelude::*;

verus! {

/// A SQL data type as it appears in a column definition.
///
/// `Simple` carries a bare type keyword normalized to uppercase; `Varchar`
/// carries the declared length.
#[derive(Debug, PartialEq)]
pub enum DataType {
    Simple(String),
    Varchar(u64),
}

/// A single column definition: its name (case-preserved as written), its
/// data type, and whether a `NOT NULL` constraint followed the type.
#[derive(Debug, PartialEq)]
pub struct ColumnDef {
    pub name: String,
    pub data_type: DataType,
    pub not_null: bool,
}

/// The root of the abstract syntax tree for a `CREATE TABLE` statement:
/// the table name and the columns in declaration order.
#[derive(Debug, PartialEq)]
pub struct CreateTableQuery {
    pub table_name: String,
    pub columns: Vec<ColumnDef>,
}

/// The kinds of grammar rule a syntax node can be tagged with.
#[derive(Debug, Clone, Copy, PartialEq, Eq)]
pub enum Rule {
    CreateQuery,
    Identifier,
    ColumnList,
    ColumnDefinition,
    SimpleType,
    VarcharType,
    Number,
    NotNullConstraint,
}

/// Why a numeral failed conversion to an unsigned 64-bit integer.
#[derive(Debug, Clone, Copy, PartialEq, Eq)]
pub enum NumeralError {
    /// The numeral token contained a character that is not a decimal digit.
    NonDigit,
    /// The numeral's value does not fit in a `u64`.
    Overflow,
}

/// Everything that can go wrong while parsing a statement.
#[derive(Debug, PartialEq)]
pub enum ParseError {
    /// The input does not match the grammar; carries a description of the
    /// expected token.
    ParsingError(String),
    /// The input was empty or held only whitespace.
    NoQueryFound,
    /// The parse tree lacked the expected table-name identifier.
    MissingTableName,
    /// A column node lacked its required name or type.
    InvalidColumnDefinition,
    /// A data-type node matched none of the known variants.
    InvalidDataType,
    /// The numeral inside `VARCHAR(...)` failed integer conversion; wraps
    /// the underlying conversion failure.
    InvalidVarcharLength(NumeralError),
    /// A node of a rule kind the builder did not anticipate.
    UnexpectedRule(Rule),
}

/// Spec-level model of [`DataType`].
pub enum DataTypeV {
    Simple(Seq<char>),
    Varchar(u64),
}

/// Spec-level model of [`ColumnDef`].
pub struct ColumnDefV {
    pub name: Seq<char>,
    pub data_type: DataTypeV,
    pub not_null: bool,
}

/// Spec-level model of [`CreateTableQuery`].
pub struct CreateTableQueryV {
    pub table_name: Seq<char>,
    pub columns: Seq<ColumnDefV>,
}

/// Spec-level model of [`ParseError`].
pub enum ParseErrorV {
    ParsingError(Seq<char>),
    NoQueryFound,
    MissingTableName,
    InvalidColumnDefinition,
    InvalidDataType,
    InvalidVarcharLength(NumeralError),
    UnexpectedRule(Rule),
}

impl View for DataType {
    type V = DataTypeV;

    open spec fn view(&self) -> DataTypeV {
        match self {
            DataType::Simple(name) => DataTypeV::Simple(name@),
            DataType::Varchar(len) => DataTypeV::Varchar(*len),
        }
    }
}

impl View for ColumnDef {
    type V = ColumnDefV;

    open spec fn view(&self) -> ColumnDefV {
        ColumnDefV { name: self.name@, data_type: self.data_type@, not_null: self.not_null }
    }
}

impl View for CreateTableQuery {
    type V = CreateTableQueryV;

    open spec fn view(&self) -> CreateTableQueryV {
        CreateTableQueryV {
            table_name: self.table_name@,
            columns: Seq::new(self.columns@.len(), |i: int| self.columns@[i]@),
        }
    }
}

impl View for ParseError {
    type V = ParseErrorV;

    open spec fn view(&self) -> ParseErrorV {
        match self {
            ParseError::ParsingError(msg) => ParseErrorV::ParsingError(msg@),
            ParseError::NoQueryFound => ParseErrorV::NoQueryFound,
            ParseError::MissingTableName => ParseErrorV::MissingTableName,
            ParseError::InvalidColumnDefinition => ParseErrorV::InvalidColumnDefinition,
            ParseError::InvalidDataType => ParseErrorV::InvalidDataType,
            ParseError::InvalidVarcharLength(why) => ParseErrorV::InvalidVarcharLength(*why),
            ParseError::UnexpectedRule(rule) => ParseErrorV::UnexpectedRule(*rule),
        }
    }
}

} // verus!
