//! The abstract syntax the library consumes.
//!
//! SQL parsing itself is an external collaborator: an embedder parses each
//! file with whatever parser it likes and hands the library a list of
//! statements in this shape.  Only the forms the reference extractor walks
//! are distinguished; everything else collapses into an `Other` variant,
//! which the extractor skips.

use vstd::prelude::*;

verus! {

/// One parsed SQL statement.  Only queries carry table references.
pub enum Statement {
    Query(Box<Query>),
    Other,
}

/// A query: an optional list of common table expressions and a body.
pub struct Query {
    pub ctes: Vec<Cte>,
    pub body: SetExpr,
}

/// One common table expression: an alias and the query it names.
pub struct Cte {
    pub alias: String,
    pub query: Box<Query>,
}

/// The set-expression forming a query body.
pub enum SetExpr {
    Select(Box<Select>),
    Query(Box<Query>),
    SetOperation { left: Box<SetExpr>, right: Box<SetExpr> },
    Other,
}

/// A selection: projection, `FROM` items, `WHERE` and `HAVING`.
pub struct Select {
    pub projection: Vec<SelectItem>,
    pub from: Vec<TableWithJoins>,
    pub selection: Option<Expr>,
    pub having: Option<Expr>,
}

/// One item of a projection list.
pub enum SelectItem {
    Wildcard,
    QualifiedWildcard(String),
    UnnamedExpr(Expr),
    ExprWithAlias { expr: Expr, alias: String },
}

/// A `FROM` item: a head relation and the relations joined onto it.
pub struct TableWithJoins {
    pub relation: Relation,
    pub joins: Vec<Relation>,
}

/// A relation in a `FROM` clause.
pub enum Relation {
    Table { name: String },
    Derived(Box<Query>),
    TableFunction(Box<Expr>),
    NestedJoin(Box<TableWithJoins>),
    Other,
}

/// The expression forms that may contain table references.
pub enum Expr {
    Identifier(String),
    CompoundIdentifier(Vec<String>),
    Subquery(Box<Query>),
    InSubquery(Box<Query>),
    InList(Vec<Expr>),
    BinaryOp { left: Box<Expr>, right: Box<Expr> },
    UnaryOp(Box<Expr>),
    Cast(Box<Expr>),
    Function { name: String },
    Case {
        operand: Option<Box<Expr>>,
        conditions: Vec<Expr>,
        results: Vec<Expr>,
        else_result: Option<Box<Expr>>,
    },
    Other,
}

} // verus!
