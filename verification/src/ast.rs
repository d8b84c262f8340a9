//! The statement shape the translator reads. The external SQL parser's tree
//! is converted (outside the library) into these plain values; constructs
//! the translator does not support arrive as `Unsupported` nodes and are
//! rejected, never silently dropped.
use vstd::prelude::*;

verus! {

/// A binary operator in a `WHERE` clause.
#[derive(Debug, Clone, Copy, PartialEq, Eq, Structural)]
pub enum BinOp {
    Eq,
    NotEq,
    Lt,
    LtEq,
    Gt,
    GtEq,
    And,
    Or,
}

/// An expression in a `WHERE` clause, a projection or an `ORDER BY` key.
/// Numeric literals keep their spelled digits.
#[derive(Debug)]
pub enum AstExpr {
    Column(String),
    Number(String),
    StringLit(String),
    BoolLit(bool),
    Binary(BinOp, Box<AstExpr>, Box<AstExpr>),
    Not(Box<AstExpr>),
    /// Any operator or node kind outside the supported set.
    Unsupported,
}

/// One item of a `SELECT` list.
#[derive(Debug)]
pub enum AstSelectItem {
    Wildcard,
    /// `column [AS alias]`.
    Column(String, Option<String>),
    /// A computed expression.
    Unsupported,
}

/// One source in a `FROM` clause.
#[derive(Debug)]
pub enum AstSource {
    /// A plain table name: the locator.
    Table(String),
    /// A join, a subquery or another derived source.
    Unsupported,
}

/// One `ORDER BY` item.
#[derive(Debug)]
pub struct AstOrderItem {
    pub key: AstExpr,
    pub descending: bool,
}

/// A parsed `SELECT` statement, reduced to the parts the translator reads.
#[derive(Debug)]
pub struct AstSelect {
    pub sources: Vec<AstSource>,
    pub projection: Vec<AstSelectItem>,
    pub selection: Option<AstExpr>,
    pub order_by: Vec<AstOrderItem>,
    pub limit: Option<AstExpr>,
    pub offset: Option<AstExpr>,
}

/// One parsed statement.
#[derive(Debug)]
pub enum Statement {
    Select(AstSelect),
    /// Any non-`SELECT` statement.
    Unsupported,
}

} // verus!
