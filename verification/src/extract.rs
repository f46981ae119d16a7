//! The reference extractor: the table names a statement list depends upon.
//!
//! The walk is purely functional.  `names` is the full list the walk yields,
//! CTE aliases included; the external dependencies are the qualified subset,
//! the names that hold a dot.

use vstd::prelude::*;

use crate::ast::Cte;
use crate::ast::Expr;
use crate::ast::Query;
use crate::ast::Relation;
use crate::ast::Select;
use crate::ast::SetExpr;
use crate::ast::SelectItem;
use crate::ast::Statement;
use crate::ast::TableWithJoins;
use crate::strutil;

verus! {

/// The scalar and aggregate function names that must not be mistaken for
/// table references, compared without regard to case.
pub open spec fn is_builtin_function(s: Seq<char>) -> bool {
    let u = strutil::upper_seq(s);
    ||| u == "COUNT"@
    ||| u == "SUM"@
    ||| u == "AVG"@
    ||| u == "MIN"@
    ||| u == "MAX"@
    ||| u == "DATE"@
    ||| u == "TIME"@
    ||| u == "TIMESTAMP"@
    ||| u == "EXTRACT"@
    ||| u == "CONCAT"@
    ||| u == "SUBSTRING"@
    ||| u == "UPPER"@
    ||| u == "LOWER"@
    ||| u == "COALESCE"@
    ||| u == "NULLIF"@
    ||| u == "CAST"@
    ||| u == "CONVERT"@
    ||| u == "ROUND"@
    ||| u == "FLOOR"@
    ||| u == "CEILING"@
    ||| u == "ABS"@
    ||| u == "DATE_TRUNC"@
    ||| u == "DATE_PART"@
    ||| u == "DATE_DIFF"@
    ||| u == "DATE_ADD"@
    ||| u == "DATE_SUB"@
    ||| u == "CURRENT_DATE"@
    ||| u == "CURRENT_TIME"@
    ||| u == "CURRENT_TIMESTAMP"@
    ||| u == "CASE"@
    ||| u == "IF"@
    ||| u == "IFNULL"@
    ||| u == "NVL"@
    ||| u == "IIF"@
}

/// Decides the built-in filter for one function name.
pub fn check_builtin_function(name: &str) -> (r: bool)
    ensures
        r == is_builtin_function(name@),
{
    let u = strutil::to_upper(name);
    let s = u.as_str();
    ||| strutil::str_eq(s, "COUNT")
    ||| strutil::str_eq(s, "SUM")
    ||| strutil::str_eq(s, "AVG")
    ||| strutil::str_eq(s, "MIN")
    ||| strutil::str_eq(s, "MAX")
    ||| strutil::str_eq(s, "DATE")
    ||| strutil::str_eq(s, "TIME")
    ||| strutil::str_eq(s, "TIMESTAMP")
    ||| strutil::str_eq(s, "EXTRACT")
    ||| strutil::str_eq(s, "CONCAT")
    ||| strutil::str_eq(s, "SUBSTRING")
    ||| strutil::str_eq(s, "UPPER")
    ||| strutil::str_eq(s, "LOWER")
    ||| strutil::str_eq(s, "COALESCE")
    ||| strutil::str_eq(s, "NULLIF")
    ||| strutil::str_eq(s, "CAST")
    ||| strutil::str_eq(s, "CONVERT")
    ||| strutil::str_eq(s, "ROUND")
    ||| strutil::str_eq(s, "FLOOR")
    ||| strutil::str_eq(s, "CEILING")
    ||| strutil::str_eq(s, "ABS")
    ||| strutil::str_eq(s, "DATE_TRUNC")
    ||| strutil::str_eq(s, "DATE_PART")
    ||| strutil::str_eq(s, "DATE_DIFF")
    ||| strutil::str_eq(s, "DATE_ADD")
    ||| strutil::str_eq(s, "DATE_SUB")
    ||| strutil::str_eq(s, "CURRENT_DATE")
    ||| strutil::str_eq(s, "CURRENT_TIME")
    ||| strutil::str_eq(s, "CURRENT_TIMESTAMP")
    ||| strutil::str_eq(s, "CASE")
    ||| strutil::str_eq(s, "IF")
    ||| strutil::str_eq(s, "IFNULL")
    ||| strutil::str_eq(s, "NVL")
    ||| strutil::str_eq(s, "IIF")
}

// ----------------------------------------------------------------------
// The specification of the walk: the exact list of names it yields, in
// traversal order.
// ----------------------------------------------------------------------

pub open spec fn query_names(q: Query) -> Seq<Seq<char>>
    decreases q,
{
    cte_list_names(q.ctes@) + set_expr_names(q.body)
}

pub open spec fn cte_list_names(cs: Seq<Cte>) -> Seq<Seq<char>>
    decreases cs,
{
    if cs.len() == 0 {
        Seq::empty()
    } else {
        cte_list_names(cs.drop_last()) + seq![cs.last().alias@] + query_names(*cs.last().query)
    }
}

pub open spec fn set_expr_names(e: SetExpr) -> Seq<Seq<char>>
    decreases e,
{
    match e {
        SetExpr::Select(s) => select_names(*s),
        SetExpr::Query(q) => query_names(*q),
        SetExpr::SetOperation { left, right } => inner_set_expr_names(*left)
            + inner_set_expr_names(*right),
        SetExpr::Other => Seq::empty(),
    }
}

/// The walk over a selection that is a query body: `FROM`, then `WHERE`,
/// then the projection, then `HAVING`.
pub open spec fn select_names(s: Select) -> Seq<Seq<char>>
    decreases s,
{
    twj_list_names(s.from@) + opt_expr_names(s.selection) + item_list_names(s.projection@)
        + opt_expr_names(s.having)
}

/// The walk over a selection nested inside a set operation: only `FROM` and
/// `WHERE` are visited there.
pub open spec fn inner_set_expr_names(e: SetExpr) -> Seq<Seq<char>>
    decreases e,
{
    match e {
        SetExpr::Select(s) => twj_list_names(s.from@) + opt_expr_names(s.selection),
        SetExpr::Query(q) => query_names(*q),
        SetExpr::SetOperation { left, right } => inner_set_expr_names(*left)
            + inner_set_expr_names(*right),
        SetExpr::Other => Seq::empty(),
    }
}

pub open spec fn twj_list_names(ts: Seq<TableWithJoins>) -> Seq<Seq<char>>
    decreases ts,
{
    if ts.len() == 0 {
        Seq::empty()
    } else {
        twj_list_names(ts.drop_last()) + twj_names(ts.last())
    }
}

pub open spec fn twj_names(t: TableWithJoins) -> Seq<Seq<char>>
    decreases t,
{
    relation_names(t.relation) + relation_list_names(t.joins@)
}

pub open spec fn relation_list_names(rs: Seq<Relation>) -> Seq<Seq<char>>
    decreases rs,
{
    if rs.len() == 0 {
        Seq::empty()
    } else {
        relation_list_names(rs.drop_last()) + relation_names(rs.last())
    }
}

pub open spec fn relation_names(r: Relation) -> Seq<Seq<char>>
    decreases r,
{
    match r {
        Relation::Table { name } => seq![name@],
        Relation::Derived(q) => query_names(*q),
        Relation::TableFunction(e) => expr_names(*e),
        Relation::NestedJoin(t) => twj_names(*t),
        Relation::Other => Seq::empty(),
    }
}

pub open spec fn item_list_names(items: Seq<SelectItem>) -> Seq<Seq<char>>
    decreases items,
{
    if items.len() == 0 {
        Seq::empty()
    } else {
        item_list_names(items.drop_last()) + item_names(items.last())
    }
}

pub open spec fn item_names(item: SelectItem) -> Seq<Seq<char>>
    decreases item,
{
    match item {
        SelectItem::UnnamedExpr(e) => expr_names(e),
        SelectItem::ExprWithAlias { expr, alias: _ } => expr_names(expr),
        SelectItem::Wildcard => Seq::empty(),
        SelectItem::QualifiedWildcard(_) => Seq::empty(),
    }
}

pub open spec fn opt_expr_names(o: Option<Expr>) -> Seq<Seq<char>>
    decreases o,
{
    match o {
        Option::Some(e) => expr_names(e),
        Option::None => Seq::empty(),
    }
}

pub open spec fn expr_names(e: Expr) -> Seq<Seq<char>>
    decreases e,
{
    match e {
        Expr::Subquery(q) => query_names(*q),
        Expr::InSubquery(q) => query_names(*q),
        Expr::InList(list) => expr_list_names(list@),
        Expr::BinaryOp { left, right } => expr_names(*left) + expr_names(*right),
        Expr::UnaryOp(inner) => expr_names(*inner),
        Expr::Cast(inner) => expr_names(*inner),
        Expr::Function { name } => if is_builtin_function(name@) {
            Seq::empty()
        } else {
            seq![name@]
        },
        Expr::Case { operand, conditions, results, else_result } => opt_box_expr_names(operand)
            + expr_list_names(conditions@) + expr_list_names(results@) + opt_box_expr_names(
            else_result,
        ),
        Expr::Identifier(_) => Seq::empty(),
        Expr::CompoundIdentifier(_) => Seq::empty(),
        Expr::Other => Seq::empty(),
    }
}

pub open spec fn opt_box_expr_names(o: Option<Box<Expr>>) -> Seq<Seq<char>>
    decreases o,
{
    match o {
        Option::Some(e) => expr_names(*e),
        Option::None => Seq::empty(),
    }
}

pub open spec fn expr_list_names(es: Seq<Expr>) -> Seq<Seq<char>>
    decreases es,
{
    if es.len() == 0 {
        Seq::empty()
    } else {
        expr_list_names(es.drop_last()) + expr_names(es.last())
    }
}

pub open spec fn statement_names(s: Statement) -> Seq<Seq<char>>
    decreases s,
{
    match s {
        Statement::Query(q) => query_names(*q),
        Statement::Other => Seq::empty(),
    }
}

/// `names(S)`: every name the walk yields over a statement list, in order.
pub open spec fn statement_list_names(ss: Seq<Statement>) -> Seq<Seq<char>>
    decreases ss,
{
    if ss.len() == 0 {
        Seq::empty()
    } else {
        statement_list_names(ss.drop_last()) + statement_names(ss.last())
    }
}

/// A qualified name: one that holds a dot.
pub open spec fn qualified(n: Seq<char>) -> bool {
    strutil::seq_contains_char(n, '.')
}

/// The qualified subset of a name list.
pub open spec fn qualified_of(s: Seq<Seq<char>>) -> Seq<Seq<char>> {
    s.filter(|n: Seq<char>| qualified(n))
}

/// `external(S)`: the qualified subset of `names(S)` — those with a dot.
pub open spec fn external_names(ss: Seq<Statement>) -> Seq<Seq<char>> {
    qualified_of(statement_list_names(ss))
}

// ----------------------------------------------------------------------
// The executable walk.
// ----------------------------------------------------------------------

/// Walks one query: CTE aliases and bodies first, then the query body.
pub fn extract_tables_from_query(q: &Query, out: &mut Vec<String>)
    ensures
        final(out).deep_view() == old(out).deep_view() + query_names(*q),
    decreases *q,
{
    let ghost base = out.deep_view();
    let n: usize = q.ctes.len();
    proof {
        assert(q.ctes@.take(0) =~= Seq::<Cte>::empty());
        assert(base + cte_list_names(q.ctes@.take(0)) =~= base);
    }
    let mut i: usize = 0;
    while i < n
        invariant
            n == q.ctes@.len(),
            0 <= i <= n,
            out.deep_view() == base + cte_list_names(q.ctes@.take(i as int)),
        decreases n - i,
    {
        let ghost before = out.deep_view();
        let cte = &q.ctes[i];
        out.push(cte.alias.clone());
        proof {
            assert(out.deep_view() =~= before + seq![cte.alias@]);
        }
        extract_tables_from_query(&cte.query, out);
        proof {
            assert(q.ctes@.take(i + 1).drop_last() =~= q.ctes@.take(i as int));
            assert(q.ctes@.take(i + 1).last() == q.ctes@[i as int]);
            assert(out.deep_view() =~= base + cte_list_names(q.ctes@.take(i + 1)));
        }
        i = i + 1;
    }
    proof {
        assert(q.ctes@.take(n as int) =~= q.ctes@);
    }
    extract_tables_from_set_expr(&q.body, out);
    proof {
        assert(out.deep_view() =~= base + query_names(*q));
    }
}

/// Walks the body of a query.
pub fn extract_tables_from_set_expr(e: &SetExpr, out: &mut Vec<String>)
    ensures
        final(out).deep_view() == old(out).deep_view() + set_expr_names(*e),
    decreases *e,
{
    let ghost base = out.deep_view();
    match e {
        SetExpr::Select(s) => {
            extract_tables_from_select(s, out);
        },
        SetExpr::Query(q) => {
            extract_tables_from_query(q, out);
        },
        SetExpr::SetOperation { left, right } => {
            extract_tables_from_inner_set_expr(left, out);
            extract_tables_from_inner_set_expr(right, out);
            proof {
                assert(out.deep_view() =~= base + set_expr_names(*e));
            }
        },
        SetExpr::Other => {
            proof {
                assert(out.deep_view() =~= base + set_expr_names(*e));
            }
        },
    }
}

/// Walks an optional expression.
pub fn extract_tables_from_opt_expr(o: &Option<Expr>, out: &mut Vec<String>)
    ensures
        final(out).deep_view() == old(out).deep_view() + opt_expr_names(*o),
    decreases *o,
{
    let ghost base = out.deep_view();
    match o {
        Option::Some(w) => {
            extract_tables_from_expr(w, out);
            proof {
                assert(out.deep_view() =~= base + opt_expr_names(*o));
            }
        },
        Option::None => {
            proof {
                assert(out.deep_view() =~= base + opt_expr_names(*o));
            }
        },
    }
}

/// Walks an optional boxed expression.
pub fn extract_tables_from_opt_box_expr(o: &Option<Box<Expr>>, out: &mut Vec<String>)
    ensures
        final(out).deep_view() == old(out).deep_view() + opt_box_expr_names(*o),
    decreases *o,
{
    let ghost base = out.deep_view();
    match o {
        Option::Some(w) => {
            extract_tables_from_expr(w, out);
            proof {
                assert(out.deep_view() =~= base + opt_box_expr_names(*o));
            }
        },
        Option::None => {
            proof {
                assert(out.deep_view() =~= base + opt_box_expr_names(*o));
            }
        },
    }
}

/// Walks a selection standing as a query body: `FROM`, `WHERE`, the
/// projection, then `HAVING`.
pub fn extract_tables_from_select(s: &Select, out: &mut Vec<String>)
    ensures
        final(out).deep_view() == old(out).deep_view() + select_names(*s),
    decreases *s,
{
    let ghost base = out.deep_view();
    extract_tables_from_twj_list(&s.from, out);
    extract_tables_from_opt_expr(&s.selection, out);
    let ghost mid = out.deep_view();
    proof {
        assert(mid =~= base + twj_list_names(s.from@) + opt_expr_names(s.selection));
    }
    let n: usize = s.projection.len();
    proof {
        assert(s.projection@.take(0) =~= Seq::<SelectItem>::empty());
        assert(mid + item_list_names(s.projection@.take(0)) =~= mid);
    }
    let mut i: usize = 0;
    while i < n
        invariant
            n == s.projection@.len(),
            0 <= i <= n,
            out.deep_view() == mid + item_list_names(s.projection@.take(i as int)),
        decreases n - i,
    {
        let ghost prev = out.deep_view();
        match &s.projection[i] {
            SelectItem::UnnamedExpr(e) => {
                extract_tables_from_expr(e, out);
                proof {
                    assert(out.deep_view() =~= prev + item_names(s.projection@[i as int]));
                }
            },
            SelectItem::ExprWithAlias { expr, alias: _ } => {
                extract_tables_from_expr(expr, out);
                proof {
                    assert(out.deep_view() =~= prev + item_names(s.projection@[i as int]));
                }
            },
            SelectItem::Wildcard => {
                proof {
                    assert(out.deep_view() =~= prev + item_names(s.projection@[i as int]));
                }
            },
            SelectItem::QualifiedWildcard(_) => {
                proof {
                    assert(out.deep_view() =~= prev + item_names(s.projection@[i as int]));
                }
            },
        }
        proof {
            assert(s.projection@.take(i + 1).drop_last() =~= s.projection@.take(i as int));
            assert(s.projection@.take(i + 1).last() == s.projection@[i as int]);
            assert(out.deep_view() =~= mid + item_list_names(s.projection@.take(i + 1)));
        }
        i = i + 1;
    }
    proof {
        assert(s.projection@.take(n as int) =~= s.projection@);
    }
    extract_tables_from_opt_expr(&s.having, out);
    proof {
        assert(out.deep_view() =~= base + select_names(*s));
    }
}

/// Walks a selection nested inside a set operation: `FROM` and `WHERE` only.
pub fn extract_tables_from_inner_set_expr(e: &SetExpr, out: &mut Vec<String>)
    ensures
        final(out).deep_view() == old(out).deep_view() + inner_set_expr_names(*e),
    decreases *e,
{
    let ghost base = out.deep_view();
    match e {
        SetExpr::Select(s) => {
            extract_tables_from_twj_list(&s.from, out);
            extract_tables_from_opt_expr(&s.selection, out);
            proof {
                assert(out.deep_view() =~= base + inner_set_expr_names(*e));
            }
        },
        SetExpr::Query(q) => {
            extract_tables_from_query(q, out);
        },
        SetExpr::SetOperation { left, right } => {
            extract_tables_from_inner_set_expr(left, out);
            extract_tables_from_inner_set_expr(right, out);
            proof {
                assert(out.deep_view() =~= base + inner_set_expr_names(*e));
            }
        },
        SetExpr::Other => {
            proof {
                assert(out.deep_view() =~= base + inner_set_expr_names(*e));
            }
        },
    }
}

/// Walks every `FROM` item of a selection.
pub fn extract_tables_from_twj_list(ts: &Vec<TableWithJoins>, out: &mut Vec<String>)
    ensures
        final(out).deep_view() == old(out).deep_view() + twj_list_names(ts@),
    decreases *ts,
{
    let ghost base = out.deep_view();
    let n: usize = ts.len();
    proof {
        assert(ts@.take(0) =~= Seq::<TableWithJoins>::empty());
        assert(base + twj_list_names(ts@.take(0)) =~= base);
    }
    let mut i: usize = 0;
    while i < n
        invariant
            n == ts@.len(),
            0 <= i <= n,
            out.deep_view() == base + twj_list_names(ts@.take(i as int)),
        decreases n - i,
    {
        extract_tables_from_twj(&ts[i], out);
        proof {
            assert(ts@.take(i + 1).drop_last() =~= ts@.take(i as int));
            assert(ts@.take(i + 1).last() == ts@[i as int]);
            assert(out.deep_view() =~= base + twj_list_names(ts@.take(i + 1)));
        }
        i = i + 1;
    }
    proof {
        assert(ts@.take(n as int) =~= ts@);
    }
}

/// Walks one `FROM` item: its head relation, then each joined relation.
pub fn extract_tables_from_twj(t: &TableWithJoins, out: &mut Vec<String>)
    ensures
        final(out).deep_view() == old(out).deep_view() + twj_names(*t),
    decreases *t,
{
    let ghost base = out.deep_view();
    extract_table_from_relation(&t.relation, out);
    let ghost mid = out.deep_view();
    let n: usize = t.joins.len();
    proof {
        assert(t.joins@.take(0) =~= Seq::<Relation>::empty());
        assert(mid + relation_list_names(t.joins@.take(0)) =~= mid);
    }
    let mut i: usize = 0;
    while i < n
        invariant
            n == t.joins@.len(),
            0 <= i <= n,
            out.deep_view() == mid + relation_list_names(t.joins@.take(i as int)),
        decreases n - i,
    {
        extract_table_from_relation(&t.joins[i], out);
        proof {
            assert(t.joins@.take(i + 1).drop_last() =~= t.joins@.take(i as int));
            assert(t.joins@.take(i + 1).last() == t.joins@[i as int]);
            assert(out.deep_view() =~= mid + relation_list_names(t.joins@.take(i + 1)));
        }
        i = i + 1;
    }
    proof {
        assert(t.joins@.take(n as int) =~= t.joins@);
        assert(out.deep_view() =~= base + twj_names(*t));
    }
}

/// Walks one relation.
pub fn extract_table_from_relation(r: &Relation, out: &mut Vec<String>)
    ensures
        final(out).deep_view() == old(out).deep_view() + relation_names(*r),
    decreases *r,
{
    let ghost base = out.deep_view();
    match r {
        Relation::Table { name } => {
            out.push(name.clone());
            proof {
                assert(out.deep_view() =~= base + relation_names(*r));
            }
        },
        Relation::Derived(q) => {
            extract_tables_from_query(q, out);
        },
        Relation::TableFunction(e) => {
            extract_tables_from_expr(e, out);
        },
        Relation::NestedJoin(t) => {
            extract_tables_from_twj(t, out);
        },
        Relation::Other => {
            proof {
                assert(out.deep_view() =~= base + relation_names(*r));
            }
        },
    }
}

/// Walks one expression, keeping function names that pass the built-in
/// filter as reference candidates.
pub fn extract_tables_from_expr(e: &Expr, out: &mut Vec<String>)
    ensures
        final(out).deep_view() == old(out).deep_view() + expr_names(*e),
    decreases *e,
{
    let ghost base = out.deep_view();
    match e {
        Expr::Subquery(q) => {
            extract_tables_from_query(q, out);
        },
        Expr::InSubquery(q) => {
            extract_tables_from_query(q, out);
        },
        Expr::InList(list) => {
            extract_tables_from_expr_list(list, out);
        },
        Expr::BinaryOp { left, right } => {
            extract_tables_from_expr(left, out);
            extract_tables_from_expr(right, out);
            proof {
                assert(out.deep_view() =~= base + expr_names(*e));
            }
        },
        Expr::UnaryOp(inner) => {
            extract_tables_from_expr(inner, out);
        },
        Expr::Cast(inner) => {
            extract_tables_from_expr(inner, out);
        },
        Expr::Function { name } => {
            if !check_builtin_function(name.as_str()) {
                out.push(name.clone());
                proof {
                    assert(out.deep_view() =~= base + expr_names(*e));
                }
            } else {
                proof {
                    assert(out.deep_view() =~= base + expr_names(*e));
                }
            }
        },
        Expr::Case { operand, conditions, results, else_result } => {
            extract_tables_from_opt_box_expr(operand, out);
            extract_tables_from_expr_list(conditions, out);
            extract_tables_from_expr_list(results, out);
            extract_tables_from_opt_box_expr(else_result, out);
            proof {
                assert(out.deep_view() =~= base + expr_names(*e));
            }
        },
        Expr::Identifier(_) => {
            proof {
                assert(out.deep_view() =~= base + expr_names(*e));
            }
        },
        Expr::CompoundIdentifier(_) => {
            proof {
                assert(out.deep_view() =~= base + expr_names(*e));
            }
        },
        Expr::Other => {
            proof {
                assert(out.deep_view() =~= base + expr_names(*e));
            }
        },
    }
}

/// Walks a list of expressions in order.
pub fn extract_tables_from_expr_list(es: &Vec<Expr>, out: &mut Vec<String>)
    ensures
        final(out).deep_view() == old(out).deep_view() + expr_list_names(es@),
    decreases *es,
{
    let ghost base = out.deep_view();
    let n: usize = es.len();
    proof {
        assert(es@.take(0) =~= Seq::<Expr>::empty());
        assert(base + expr_list_names(es@.take(0)) =~= base);
    }
    let mut i: usize = 0;
    while i < n
        invariant
            n == es@.len(),
            0 <= i <= n,
            out.deep_view() == base + expr_list_names(es@.take(i as int)),
        decreases n - i,
    {
        extract_tables_from_expr(&es[i], out);
        proof {
            assert(es@.take(i + 1).drop_last() =~= es@.take(i as int));
            assert(es@.take(i + 1).last() == es@[i as int]);
            assert(out.deep_view() =~= base + expr_list_names(es@.take(i + 1)));
        }
        i = i + 1;
    }
    proof {
        assert(es@.take(n as int) =~= es@);
    }
}

/// Extracts every table name a statement list references, CTE aliases
/// included, in traversal order.
pub fn get_table_names(statements: &Vec<Statement>) -> (r: Vec<String>)
    ensures
        r.deep_view() == statement_list_names(statements@),
{
    let mut out: Vec<String> = Vec::new();
    proof {
        assert(statements@.take(0) =~= Seq::<Statement>::empty());
        assert(out.deep_view() =~= statement_list_names(statements@.take(0)));
    }
    let n: usize = statements.len();
    let mut i: usize = 0;
    while i < n
        invariant
            n == statements@.len(),
            0 <= i <= n,
            out.deep_view() == statement_list_names(statements@.take(i as int)),
        decreases n - i,
    {
        let ghost before = out.deep_view();
        match &statements[i] {
            Statement::Query(q) => {
                extract_tables_from_query(q, &mut out);
            },
            Statement::Other => {
            },
        }
        proof {
            assert(statements@.take(i + 1).drop_last() =~= statements@.take(i as int));
            assert(statements@.take(i + 1).last() == statements@[i as int]);
            assert(out.deep_view() =~= statement_list_names(statements@.take(i + 1)));
        }
        i = i + 1;
    }
    proof {
        assert(statements@.take(n as int) =~= statements@);
    }
    out
}

/// Keeps the first occurrence of every string, in order.
pub open spec fn dedup_names(s: Seq<Seq<char>>) -> Seq<Seq<char>>
    decreases s,
{
    if s.len() == 0 {
        Seq::empty()
    } else if dedup_names(s.drop_last()).contains(s.last()) {
        dedup_names(s.drop_last())
    } else {
        dedup_names(s.drop_last()).push(s.last())
    }
}

/// Deduplication yields exactly the distinct strings of the input.
pub proof fn lemma_dedup_names(s: Seq<Seq<char>>)
    ensures
        strutil::no_dup_seqs(dedup_names(s)),
        forall|x: Seq<char>| dedup_names(s).contains(x) == s.contains(x),
    decreases s,
{
    if s.len() == 0 {
    } else {
        lemma_dedup_names(s.drop_last());
        let d = dedup_names(s);
        let dp = dedup_names(s.drop_last());
        assert forall|x: Seq<char>| d.contains(x) == s.contains(x) by {
            if d.contains(x) {
                if dp.contains(x) {
                    assert(s.drop_last().contains(x));
                    let i = choose|i: int| 0 <= i < s.drop_last().len() && s.drop_last()[i] == x;
                    assert(s.contains(x)) by {
                        assert(s[i] == x);
                    }
                } else {
                    assert(x == s.last());
                    assert(s.contains(x)) by {
                        assert(s[s.len() - 1] == x);
                    }
                }
            }
            if s.contains(x) {
                let i = choose|i: int| 0 <= i < s.len() && s[i] == x;
                if i < s.len() - 1 {
                    assert(s.drop_last().contains(x)) by {
                        assert(s.drop_last()[i] == x);
                    }
                    if !dp.contains(s.last()) {
                        let j = choose|j: int| 0 <= j < dp.len() && dp[j] == x;
                        assert(d[j] == x);
                    }
                } else {
                    assert(x == s.last());
                    if !dp.contains(x) {
                        assert(d.last() == x);
                    }
                }
            }
        }
        assert(strutil::no_dup_seqs(d)) by {
            if !dp.contains(s.last()) {
                assert forall|i: int, j: int| 0 <= i < j < d.len() implies d[i] != d[j] by {
                    if j == d.len() - 1 {
                        assert(d[i] == dp[i]);
                        assert(d[j] == s.last());
                    } else {
                        assert(d[i] == dp[i] && d[j] == dp[j]);
                    }
                }
            }
        }
    }
}

/// Filters a name list down to the qualified names, in order.
pub fn filter_qualified(names: &Vec<String>) -> (r: Vec<String>)
    ensures
        r.deep_view() == qualified_of(names.deep_view()),
{
    let n: usize = names.len();
    let mut out: Vec<String> = Vec::new();
    proof {
        reveal(Seq::filter);
        assert(names.deep_view().take(0) =~= Seq::<Seq<char>>::empty());
        assert(out.deep_view() =~= names.deep_view().take(0).filter(|n0: Seq<char>| qualified(n0)));
    }
    let mut i: usize = 0;
    while i < n
        invariant
            n == names@.len(),
            0 <= i <= n,
            out.deep_view() == names.deep_view().take(i as int).filter(
                |n0: Seq<char>| qualified(n0),
            ),
        decreases n - i,
    {
        let ghost prev = out.deep_view();
        if strutil::contains_char(names[i].as_str(), '.') {
            out.push(names[i].clone());
            proof {
                assert(out.deep_view() =~= prev.push(names.deep_view()[i as int]));
            }
        }
        proof {
            reveal(Seq::filter);
            let dv = names.deep_view();
            assert(dv.take(i + 1).drop_last() =~= dv.take(i as int));
            assert(dv.take(i + 1).last() == dv[i as int]);
            assert(out.deep_view() =~= dv.take(i + 1).filter(|n0: Seq<char>| qualified(n0)));
        }
        i = i + 1;
    }
    proof {
        assert(names.deep_view().take(n as int) =~= names.deep_view());
    }
    out
}

/// Extracts only the qualified (schema-prefixed) table references.
pub fn get_external_table_deps(statements: &Vec<Statement>) -> (r: Vec<String>)
    ensures
        r.deep_view() == external_names(statements@),
{
    let names = get_table_names(statements);
    filter_qualified(&names)
}

/// Extracts the qualified table references with duplicates dropped: the
/// reference set of a statement list.
pub fn get_external_table_deps_set(statements: &Vec<Statement>) -> (r: Vec<String>)
    ensures
        r.deep_view() == dedup_names(external_names(statements@)),
        strutil::no_dup_seqs(r.deep_view()),
        forall|x: Seq<char>| r.deep_view().contains(x) == external_names(statements@).contains(x),
{
    let ext = get_external_table_deps(statements);
    let n: usize = ext.len();
    let mut out: Vec<String> = Vec::new();
    proof {
        assert(ext.deep_view().take(0) =~= Seq::<Seq<char>>::empty());
        assert(out.deep_view() =~= dedup_names(ext.deep_view().take(0)));
    }
    let mut i: usize = 0;
    while i < n
        invariant
            n == ext@.len(),
            0 <= i <= n,
            out.deep_view() == dedup_names(ext.deep_view().take(i as int)),
        decreases n - i,
    {
        let ghost prev = out.deep_view();
        let ghost dv = ext.deep_view();
        proof {
            assert(dv.take(i + 1).drop_last() =~= dv.take(i as int));
            assert(dv.take(i + 1).last() == dv[i as int]);
        }
        let x = ext[i].clone();
        assert(x@ == dv[i as int]);
        strutil::push_unique(&mut out, x);
        proof {
            assert(out.deep_view() =~= dedup_names(dv.take(i + 1)));
        }
        i = i + 1;
    }
    proof {
        assert(ext.deep_view().take(n as int) =~= ext.deep_view());
        lemma_dedup_names(ext.deep_view());
    }
    out
}

/// The qualified subset is drawn from the full name list: every external
/// reference is one of the walked names, and a name is external exactly when
/// it is qualified.
pub proof fn lemma_external_subset_of_names(ss: Seq<Statement>)
    ensures
        forall|x: Seq<char>| #[trigger] external_names(ss).contains(x) ==> statement_list_names(
            ss,
        ).contains(x),
        forall|x: Seq<char>| #[trigger] external_names(ss).contains(x) <==> (statement_list_names(
            ss,
        ).contains(x) && qualified(x)),
{
    broadcast use vstd::seq_lib::group_filter_ensures;

    let names = statement_list_names(ss);
    let pred = |n: Seq<char>| qualified(n);
    lemma_filter_in_source(names);
    assert forall|x: Seq<char>| #[trigger] external_names(ss).contains(x) implies (names.contains(
        x,
    ) && qualified(x)) by {
        let i = choose|i: int| 0 <= i < external_names(ss).len() && external_names(ss)[i] == x;
        assert(pred(external_names(ss)[i]));
    }
    assert forall|x: Seq<char>| names.contains(x) && qualified(x)
        implies #[trigger] external_names(ss).contains(x) by {
        let i = choose|i: int| 0 <= i < names.len() && names[i] == x;
        assert(pred(names[i]));
        assert(names.filter(pred).contains(names[i]));
    }
}

/// Every element the qualification filter keeps stands in its input.
proof fn lemma_filter_in_source(s: Seq<Seq<char>>)
    ensures
        forall|x: Seq<char>| #[trigger] qualified_of(s).contains(x) ==> s.contains(x),
    decreases s,
{
    reveal(Seq::filter);
    if s.len() == 0 {
    } else {
        lemma_filter_in_source(s.drop_last());
        assert forall|x: Seq<char>| #[trigger] qualified_of(s).contains(x) implies s.contains(
            x,
        ) by {
            if qualified_of(s.drop_last()).contains(x) {
                assert(s.drop_last().contains(x));
                let i = choose|i: int| 0 <= i < s.drop_last().len() && s.drop_last()[i] == x;
                assert(s[i] == x);
                assert(s.contains(x));
            } else {
                assert(qualified_of(s) == if qualified(s.last()) {
                    qualified_of(s.drop_last()).push(s.last())
                } else {
                    qualified_of(s.drop_last())
                });
                assert(x == s.last());
                assert(s.contains(x)) by {
                    assert(s[s.len() - 1] == x);
                }
            }
        }
    }
}

/// No unqualified name — a CTE alias among them — ever reaches the external
/// set: everything external holds a dot.
pub proof fn lemma_external_all_qualified(ss: Seq<Statement>)
    ensures
        forall|x: Seq<char>| #[trigger] external_names(ss).contains(x) ==> qualified(x),
{
    lemma_external_subset_of_names(ss);
}

// ----------------------------------------------------------------------
// The CTE aliases of a statement list, at every depth.
// ----------------------------------------------------------------------

pub open spec fn query_aliases(q: Query) -> Seq<Seq<char>>
    decreases q,
{
    cte_list_aliases(q.ctes@) + set_expr_aliases(q.body)
}

pub open spec fn cte_list_aliases(cs: Seq<Cte>) -> Seq<Seq<char>>
    decreases cs,
{
    if cs.len() == 0 {
        Seq::empty()
    } else {
        cte_list_aliases(cs.drop_last()) + seq![cs.last().alias@] + query_aliases(
            *cs.last().query,
        )
    }
}

pub open spec fn set_expr_aliases(e: SetExpr) -> Seq<Seq<char>>
    decreases e,
{
    match e {
        SetExpr::Select(s) => select_aliases(*s),
        SetExpr::Query(q) => query_aliases(*q),
        SetExpr::SetOperation { left, right } => inner_set_expr_aliases(*left)
            + inner_set_expr_aliases(*right),
        SetExpr::Other => Seq::empty(),
    }
}

pub open spec fn select_aliases(s: Select) -> Seq<Seq<char>>
    decreases s,
{
    twj_list_aliases(s.from@) + opt_expr_aliases(s.selection) + item_list_aliases(s.projection@)
        + opt_expr_aliases(s.having)
}

pub open spec fn inner_set_expr_aliases(e: SetExpr) -> Seq<Seq<char>>
    decreases e,
{
    match e {
        SetExpr::Select(s) => twj_list_aliases(s.from@) + opt_expr_aliases(s.selection),
        SetExpr::Query(q) => query_aliases(*q),
        SetExpr::SetOperation { left, right } => inner_set_expr_aliases(*left)
            + inner_set_expr_aliases(*right),
        SetExpr::Other => Seq::empty(),
    }
}

pub open spec fn twj_list_aliases(ts: Seq<TableWithJoins>) -> Seq<Seq<char>>
    decreases ts,
{
    if ts.len() == 0 {
        Seq::empty()
    } else {
        twj_list_aliases(ts.drop_last()) + twj_aliases(ts.last())
    }
}

pub open spec fn twj_aliases(t: TableWithJoins) -> Seq<Seq<char>>
    decreases t,
{
    relation_aliases(t.relation) + relation_list_aliases(t.joins@)
}

pub open spec fn relation_list_aliases(rs: Seq<Relation>) -> Seq<Seq<char>>
    decreases rs,
{
    if rs.len() == 0 {
        Seq::empty()
    } else {
        relation_list_aliases(rs.drop_last()) + relation_aliases(rs.last())
    }
}

pub open spec fn relation_aliases(r: Relation) -> Seq<Seq<char>>
    decreases r,
{
    match r {
        Relation::Table { name: _ } => Seq::empty(),
        Relation::Derived(q) => query_aliases(*q),
        Relation::TableFunction(e) => expr_aliases(*e),
        Relation::NestedJoin(t) => twj_aliases(*t),
        Relation::Other => Seq::empty(),
    }
}

pub open spec fn item_list_aliases(items: Seq<SelectItem>) -> Seq<Seq<char>>
    decreases items,
{
    if items.len() == 0 {
        Seq::empty()
    } else {
        item_list_aliases(items.drop_last()) + item_aliases(items.last())
    }
}

pub open spec fn item_aliases(item: SelectItem) -> Seq<Seq<char>>
    decreases item,
{
    match item {
        SelectItem::UnnamedExpr(e) => expr_aliases(e),
        SelectItem::ExprWithAlias { expr, alias: _ } => expr_aliases(expr),
        SelectItem::Wildcard => Seq::empty(),
        SelectItem::QualifiedWildcard(_) => Seq::empty(),
    }
}

pub open spec fn opt_expr_aliases(o: Option<Expr>) -> Seq<Seq<char>>
    decreases o,
{
    match o {
        Option::Some(e) => expr_aliases(e),
        Option::None => Seq::empty(),
    }
}

pub open spec fn opt_box_expr_aliases(o: Option<Box<Expr>>) -> Seq<Seq<char>>
    decreases o,
{
    match o {
        Option::Some(e) => expr_aliases(*e),
        Option::None => Seq::empty(),
    }
}

pub open spec fn expr_aliases(e: Expr) -> Seq<Seq<char>>
    decreases e,
{
    match e {
        Expr::Subquery(q) => query_aliases(*q),
        Expr::InSubquery(q) => query_aliases(*q),
        Expr::InList(list) => expr_list_aliases(list@),
        Expr::BinaryOp { left, right } => expr_aliases(*left) + expr_aliases(*right),
        Expr::UnaryOp(inner) => expr_aliases(*inner),
        Expr::Cast(inner) => expr_aliases(*inner),
        Expr::Function { name: _ } => Seq::empty(),
        Expr::Case { operand, conditions, results, else_result } => opt_box_expr_aliases(operand)
            + expr_list_aliases(conditions@) + expr_list_aliases(results@) + opt_box_expr_aliases(
            else_result,
        ),
        Expr::Identifier(_) => Seq::empty(),
        Expr::CompoundIdentifier(_) => Seq::empty(),
        Expr::Other => Seq::empty(),
    }
}

pub open spec fn expr_list_aliases(es: Seq<Expr>) -> Seq<Seq<char>>
    decreases es,
{
    if es.len() == 0 {
        Seq::empty()
    } else {
        expr_list_aliases(es.drop_last()) + expr_aliases(es.last())
    }
}

pub open spec fn statement_aliases(s: Statement) -> Seq<Seq<char>>
    decreases s,
{
    match s {
        Statement::Query(q) => query_aliases(*q),
        Statement::Other => Seq::empty(),
    }
}

/// Every CTE alias the walk passes over a statement list, at any depth.
pub open spec fn statement_list_aliases(ss: Seq<Statement>) -> Seq<Seq<char>>
    decreases ss,
{
    if ss.len() == 0 {
        Seq::empty()
    } else {
        statement_list_aliases(ss.drop_last()) + statement_aliases(ss.last())
    }
}

/// One list holds only strings the other also holds.
pub open spec fn name_subset(a: Seq<Seq<char>>, b: Seq<Seq<char>>) -> bool {
    forall|x: Seq<char>| #[trigger] a.contains(x) ==> b.contains(x)
}

proof fn lemma_concat_contains(a: Seq<Seq<char>>, b: Seq<Seq<char>>, x: Seq<char>)
    ensures
        (a + b).contains(x) <==> (a.contains(x) || b.contains(x)),
{
    if (a + b).contains(x) {
        let i = choose|i: int| 0 <= i < (a + b).len() && (a + b)[i] == x;
        if i < a.len() {
            assert(a[i] == x);
        } else {
            assert(b[i - a.len()] == x);
        }
    }
    if a.contains(x) {
        let i = choose|i: int| 0 <= i < a.len() && a[i] == x;
        assert((a + b)[i] == x);
    }
    if b.contains(x) {
        let i = choose|i: int| 0 <= i < b.len() && b[i] == x;
        assert((a + b)[a.len() + i] == x);
    }
}

proof fn lemma_subset_concat(a1: Seq<Seq<char>>, b1: Seq<Seq<char>>, a2: Seq<Seq<char>>, b2: Seq<Seq<char>>)
    requires
        name_subset(a1, a2),
        name_subset(b1, b2),
    ensures
        name_subset(a1 + b1, a2 + b2),
{
    assert forall|x: Seq<char>| #[trigger] (a1 + b1).contains(x) implies (a2 + b2).contains(
        x,
    ) by {
        lemma_concat_contains(a1, b1, x);
        lemma_concat_contains(a2, b2, x);
    }
}

proof fn lemma_query_aliases_in_names(q: Query)
    ensures
        name_subset(query_aliases(q), query_names(q)),
    decreases q,
{
    lemma_cte_list_aliases_in_names(q.ctes@);
    lemma_set_expr_aliases_in_names(q.body);
    lemma_subset_concat(
        cte_list_aliases(q.ctes@),
        set_expr_aliases(q.body),
        cte_list_names(q.ctes@),
        set_expr_names(q.body),
    );
}

proof fn lemma_cte_list_aliases_in_names(cs: Seq<Cte>)
    ensures
        name_subset(cte_list_aliases(cs), cte_list_names(cs)),
    decreases cs,
{
    if cs.len() == 0 {
    } else {
        lemma_cte_list_aliases_in_names(cs.drop_last());
        lemma_query_aliases_in_names(*cs.last().query);
        assert(name_subset(seq![cs.last().alias@], seq![cs.last().alias@])) by {
            assert forall|x: Seq<char>| #[trigger] seq![cs.last().alias@].contains(x)
                implies seq![cs.last().alias@].contains(x) by {}
        }
        lemma_subset_concat(
            cte_list_aliases(cs.drop_last()),
            seq![cs.last().alias@],
            cte_list_names(cs.drop_last()),
            seq![cs.last().alias@],
        );
        lemma_subset_concat(
            cte_list_aliases(cs.drop_last()) + seq![cs.last().alias@],
            query_aliases(*cs.last().query),
            cte_list_names(cs.drop_last()) + seq![cs.last().alias@],
            query_names(*cs.last().query),
        );
    }
}

proof fn lemma_set_expr_aliases_in_names(e: SetExpr)
    ensures
        name_subset(set_expr_aliases(e), set_expr_names(e)),
    decreases e,
{
    match e {
        SetExpr::Select(s) => {
            lemma_select_aliases_in_names(*s);
        },
        SetExpr::Query(q) => {
            lemma_query_aliases_in_names(*q);
        },
        SetExpr::SetOperation { left, right } => {
            lemma_inner_set_expr_aliases_in_names(*left);
            lemma_inner_set_expr_aliases_in_names(*right);
            lemma_subset_concat(
                inner_set_expr_aliases(*left),
                inner_set_expr_aliases(*right),
                inner_set_expr_names(*left),
                inner_set_expr_names(*right),
            );
        },
        SetExpr::Other => {
        },
    }
}

proof fn lemma_select_aliases_in_names(s: Select)
    ensures
        name_subset(select_aliases(s), select_names(s)),
    decreases s,
{
    lemma_twj_list_aliases_in_names(s.from@);
    lemma_opt_expr_aliases_in_names(s.selection);
    lemma_item_list_aliases_in_names(s.projection@);
    lemma_opt_expr_aliases_in_names(s.having);
    lemma_subset_concat(
        twj_list_aliases(s.from@),
        opt_expr_aliases(s.selection),
        twj_list_names(s.from@),
        opt_expr_names(s.selection),
    );
    lemma_subset_concat(
        twj_list_aliases(s.from@) + opt_expr_aliases(s.selection),
        item_list_aliases(s.projection@),
        twj_list_names(s.from@) + opt_expr_names(s.selection),
        item_list_names(s.projection@),
    );
    lemma_subset_concat(
        twj_list_aliases(s.from@) + opt_expr_aliases(s.selection) + item_list_aliases(
            s.projection@,
        ),
        opt_expr_aliases(s.having),
        twj_list_names(s.from@) + opt_expr_names(s.selection) + item_list_names(s.projection@),
        opt_expr_names(s.having),
    );
}

proof fn lemma_inner_set_expr_aliases_in_names(e: SetExpr)
    ensures
        name_subset(inner_set_expr_aliases(e), inner_set_expr_names(e)),
    decreases e,
{
    match e {
        SetExpr::Select(s) => {
            lemma_twj_list_aliases_in_names(s.from@);
            lemma_opt_expr_aliases_in_names(s.selection);
            lemma_subset_concat(
                twj_list_aliases(s.from@),
                opt_expr_aliases(s.selection),
                twj_list_names(s.from@),
                opt_expr_names(s.selection),
            );
        },
        SetExpr::Query(q) => {
            lemma_query_aliases_in_names(*q);
        },
        SetExpr::SetOperation { left, right } => {
            lemma_inner_set_expr_aliases_in_names(*left);
            lemma_inner_set_expr_aliases_in_names(*right);
            lemma_subset_concat(
                inner_set_expr_aliases(*left),
                inner_set_expr_aliases(*right),
                inner_set_expr_names(*left),
                inner_set_expr_names(*right),
            );
        },
        SetExpr::Other => {
        },
    }
}

proof fn lemma_twj_list_aliases_in_names(ts: Seq<TableWithJoins>)
    ensures
        name_subset(twj_list_aliases(ts), twj_list_names(ts)),
    decreases ts,
{
    if ts.len() == 0 {
    } else {
        lemma_twj_list_aliases_in_names(ts.drop_last());
        lemma_twj_aliases_in_names(ts.last());
        lemma_subset_concat(
            twj_list_aliases(ts.drop_last()),
            twj_aliases(ts.last()),
            twj_list_names(ts.drop_last()),
            twj_names(ts.last()),
        );
    }
}

proof fn lemma_twj_aliases_in_names(t: TableWithJoins)
    ensures
        name_subset(twj_aliases(t), twj_names(t)),
    decreases t,
{
    lemma_relation_aliases_in_names(t.relation);
    lemma_relation_list_aliases_in_names(t.joins@);
    lemma_subset_concat(
        relation_aliases(t.relation),
        relation_list_aliases(t.joins@),
        relation_names(t.relation),
        relation_list_names(t.joins@),
    );
}

proof fn lemma_relation_list_aliases_in_names(rs: Seq<Relation>)
    ensures
        name_subset(relation_list_aliases(rs), relation_list_names(rs)),
    decreases rs,
{
    if rs.len() == 0 {
    } else {
        lemma_relation_list_aliases_in_names(rs.drop_last());
        lemma_relation_aliases_in_names(rs.last());
        lemma_subset_concat(
            relation_list_aliases(rs.drop_last()),
            relation_aliases(rs.last()),
            relation_list_names(rs.drop_last()),
            relation_names(rs.last()),
        );
    }
}

proof fn lemma_relation_aliases_in_names(r: Relation)
    ensures
        name_subset(relation_aliases(r), relation_names(r)),
    decreases r,
{
    match r {
        Relation::Table { name: _ } => {
        },
        Relation::Derived(q) => {
            lemma_query_aliases_in_names(*q);
        },
        Relation::TableFunction(e) => {
            lemma_expr_aliases_in_names(*e);
        },
        Relation::NestedJoin(t) => {
            lemma_twj_aliases_in_names(*t);
        },
        Relation::Other => {
        },
    }
}

proof fn lemma_item_list_aliases_in_names(items: Seq<SelectItem>)
    ensures
        name_subset(item_list_aliases(items), item_list_names(items)),
    decreases items,
{
    if items.len() == 0 {
    } else {
        lemma_item_list_aliases_in_names(items.drop_last());
        lemma_item_aliases_in_names(items.last());
        lemma_subset_concat(
            item_list_aliases(items.drop_last()),
            item_aliases(items.last()),
            item_list_names(items.drop_last()),
            item_names(items.last()),
        );
    }
}

proof fn lemma_item_aliases_in_names(item: SelectItem)
    ensures
        name_subset(item_aliases(item), item_names(item)),
    decreases item,
{
    match item {
        SelectItem::UnnamedExpr(e) => {
            lemma_expr_aliases_in_names(e);
        },
        SelectItem::ExprWithAlias { expr, alias: _ } => {
            lemma_expr_aliases_in_names(expr);
        },
        SelectItem::Wildcard => {
        },
        SelectItem::QualifiedWildcard(_) => {
        },
    }
}

proof fn lemma_opt_expr_aliases_in_names(o: Option<Expr>)
    ensures
        name_subset(opt_expr_aliases(o), opt_expr_names(o)),
    decreases o,
{
    match o {
        Option::Some(e) => {
            lemma_expr_aliases_in_names(e);
        },
        Option::None => {
        },
    }
}

proof fn lemma_opt_box_expr_aliases_in_names(o: Option<Box<Expr>>)
    ensures
        name_subset(opt_box_expr_aliases(o), opt_box_expr_names(o)),
    decreases o,
{
    match o {
        Option::Some(e) => {
            lemma_expr_aliases_in_names(*e);
        },
        Option::None => {
        },
    }
}

proof fn lemma_expr_aliases_in_names(e: Expr)
    ensures
        name_subset(expr_aliases(e), expr_names(e)),
    decreases e,
{
    match e {
        Expr::Subquery(q) => {
            lemma_query_aliases_in_names(*q);
        },
        Expr::InSubquery(q) => {
            lemma_query_aliases_in_names(*q);
        },
        Expr::InList(list) => {
            lemma_expr_list_aliases_in_names(list@);
        },
        Expr::BinaryOp { left, right } => {
            lemma_expr_aliases_in_names(*left);
            lemma_expr_aliases_in_names(*right);
            lemma_subset_concat(
                expr_aliases(*left),
                expr_aliases(*right),
                expr_names(*left),
                expr_names(*right),
            );
        },
        Expr::UnaryOp(inner) => {
            lemma_expr_aliases_in_names(*inner);
        },
        Expr::Cast(inner) => {
            lemma_expr_aliases_in_names(*inner);
        },
        Expr::Function { name: _ } => {
        },
        Expr::Case { operand, conditions, results, else_result } => {
            lemma_opt_box_expr_aliases_in_names(operand);
            lemma_expr_list_aliases_in_names(conditions@);
            lemma_expr_list_aliases_in_names(results@);
            lemma_opt_box_expr_aliases_in_names(else_result);
            lemma_subset_concat(
                opt_box_expr_aliases(operand),
                expr_list_aliases(conditions@),
                opt_box_expr_names(operand),
                expr_list_names(conditions@),
            );
            lemma_subset_concat(
                opt_box_expr_aliases(operand) + expr_list_aliases(conditions@),
                expr_list_aliases(results@),
                opt_box_expr_names(operand) + expr_list_names(conditions@),
                expr_list_names(results@),
            );
            lemma_subset_concat(
                opt_box_expr_aliases(operand) + expr_list_aliases(conditions@)
                    + expr_list_aliases(results@),
                opt_box_expr_aliases(else_result),
                opt_box_expr_names(operand) + expr_list_names(conditions@) + expr_list_names(
                    results@,
                ),
                opt_box_expr_names(else_result),
            );
        },
        Expr::Identifier(_) => {
        },
        Expr::CompoundIdentifier(_) => {
        },
        Expr::Other => {
        },
    }
}

proof fn lemma_expr_list_aliases_in_names(es: Seq<Expr>)
    ensures
        name_subset(expr_list_aliases(es), expr_list_names(es)),
    decreases es,
{
    if es.len() == 0 {
    } else {
        lemma_expr_list_aliases_in_names(es.drop_last());
        lemma_expr_aliases_in_names(es.last());
        lemma_subset_concat(
            expr_list_aliases(es.drop_last()),
            expr_aliases(es.last()),
            expr_list_names(es.drop_last()),
            expr_names(es.last()),
        );
    }
}

proof fn lemma_statement_aliases_in_names(s: Statement)
    ensures
        name_subset(statement_aliases(s), statement_names(s)),
    decreases s,
{
    match s {
        Statement::Query(q) => {
            lemma_query_aliases_in_names(*q);
        },
        Statement::Other => {
        },
    }
}

/// Every CTE alias the walk passes, at any depth, is recorded among the
/// walked names; and an unqualified alias — one without a dot — is never
/// among the external references.
pub proof fn lemma_cte_aliases_in_names(ss: Seq<Statement>)
    ensures
        name_subset(statement_list_aliases(ss), statement_list_names(ss)),
        forall|a: Seq<char>|
            #[trigger] statement_list_aliases(ss).contains(a) && !qualified(a)
                ==> !external_names(ss).contains(a),
    decreases ss,
{
    if ss.len() == 0 {
    } else {
        lemma_cte_aliases_in_names(ss.drop_last());
        lemma_statement_aliases_in_names(ss.last());
        lemma_subset_concat(
            statement_list_aliases(ss.drop_last()),
            statement_aliases(ss.last()),
            statement_list_names(ss.drop_last()),
            statement_names(ss.last()),
        );
    }
    lemma_external_all_qualified(ss);
}

} // verus!
