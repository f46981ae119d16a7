//! End-to-end tests of the reference extractor, the model records and the
//! collection, with SQL parsed by sqlparser and converted into the crate's
//! statement shape.

use std::collections::HashSet;

use feather_flow::ast;
use feather_flow::collection::SqlModelCollection;
use feather_flow::extract;
use feather_flow::model::SqlModel;
use feather_flow::model::YamlConfigData;
use feather_flow::model::YamlModelData;
use feather_flow::model::YamlSourceData;

use sqlparser::ast as sp;
use sqlparser::dialect::DuckDbDialect;
use sqlparser::parser::Parser as SqlParser;

fn conv_stmts(stmts: Vec<sp::Statement>) -> Vec<ast::Statement> {
    stmts.into_iter().map(conv_stmt).collect()
}

fn conv_stmt(s: sp::Statement) -> ast::Statement {
    match s {
        sp::Statement::Query(q) => ast::Statement::Query(Box::new(conv_query(*q))),
        _ => ast::Statement::Other,
    }
}

fn conv_query(q: sp::Query) -> ast::Query {
    let ctes = match q.with {
        Some(w) => w.cte_tables.into_iter().map(conv_cte).collect(),
        None => Vec::new(),
    };
    ast::Query { ctes, body: conv_set_expr(*q.body) }
}

fn conv_cte(c: sp::Cte) -> ast::Cte {
    ast::Cte { alias: c.alias.name.value, query: Box::new(conv_query(*c.query)) }
}

fn conv_set_expr(e: sp::SetExpr) -> ast::SetExpr {
    match e {
        sp::SetExpr::Select(s) => ast::SetExpr::Select(Box::new(conv_select(*s))),
        sp::SetExpr::Query(q) => ast::SetExpr::Query(Box::new(conv_query(*q))),
        sp::SetExpr::SetOperation { left, right, .. } => ast::SetExpr::SetOperation {
            left: Box::new(conv_set_expr(*left)),
            right: Box::new(conv_set_expr(*right)),
        },
        _ => ast::SetExpr::Other,
    }
}

fn conv_select(s: sp::Select) -> ast::Select {
    ast::Select {
        projection: s.projection.into_iter().map(conv_item).collect(),
        from: s.from.into_iter().map(conv_twj).collect(),
        selection: s.selection.map(conv_expr),
        having: s.having.map(conv_expr),
    }
}

fn conv_item(i: sp::SelectItem) -> ast::SelectItem {
    match i {
        sp::SelectItem::UnnamedExpr(e) => ast::SelectItem::UnnamedExpr(conv_expr(e)),
        sp::SelectItem::ExprWithAlias { expr, alias } => {
            ast::SelectItem::ExprWithAlias { expr: conv_expr(expr), alias: alias.value }
        }
        sp::SelectItem::QualifiedWildcard(kind, _) => {
            ast::SelectItem::QualifiedWildcard(kind.to_string())
        }
        _ => ast::SelectItem::Wildcard,
    }
}

fn conv_twj(t: sp::TableWithJoins) -> ast::TableWithJoins {
    ast::TableWithJoins {
        relation: conv_rel(t.relation),
        joins: t.joins.into_iter().map(|j| conv_rel(j.relation)).collect(),
    }
}

fn conv_rel(r: sp::TableFactor) -> ast::Relation {
    match r {
        sp::TableFactor::Table { name, .. } => ast::Relation::Table { name: name.to_string() },
        sp::TableFactor::Derived { subquery, .. } => {
            ast::Relation::Derived(Box::new(conv_query(*subquery)))
        }
        sp::TableFactor::TableFunction { expr, .. } => {
            ast::Relation::TableFunction(Box::new(conv_expr(expr)))
        }
        sp::TableFactor::NestedJoin { table_with_joins, .. } => {
            ast::Relation::NestedJoin(Box::new(conv_twj(*table_with_joins)))
        }
        _ => ast::Relation::Other,
    }
}

fn conv_expr(e: sp::Expr) -> ast::Expr {
    match e {
        sp::Expr::Identifier(i) => ast::Expr::Identifier(i.value),
        sp::Expr::CompoundIdentifier(is) => {
            ast::Expr::CompoundIdentifier(is.into_iter().map(|i| i.value).collect())
        }
        sp::Expr::Subquery(q) => ast::Expr::Subquery(Box::new(conv_query(*q))),
        sp::Expr::InSubquery { subquery, .. } => {
            ast::Expr::InSubquery(Box::new(conv_query(*subquery)))
        }
        sp::Expr::InList { list, .. } => {
            ast::Expr::InList(list.into_iter().map(conv_expr).collect())
        }
        sp::Expr::BinaryOp { left, right, .. } => ast::Expr::BinaryOp {
            left: Box::new(conv_expr(*left)),
            right: Box::new(conv_expr(*right)),
        },
        sp::Expr::UnaryOp { expr, .. } => ast::Expr::UnaryOp(Box::new(conv_expr(*expr))),
        sp::Expr::Cast { expr, .. } => ast::Expr::Cast(Box::new(conv_expr(*expr))),
        sp::Expr::Function(f) => ast::Expr::Function { name: f.name.to_string() },
        sp::Expr::Case {
            operand,
            conditions,
            else_result,
            ..
        } => {
            let mut conds = Vec::new();
            let mut results = Vec::new();
            for cw in conditions {
                conds.push(conv_expr(cw.condition));
                results.push(conv_expr(cw.result));
            }
            ast::Expr::Case {
                operand: operand.map(|b| Box::new(conv_expr(*b))),
                conditions: conds,
                results,
                else_result: else_result.map(|b| Box::new(conv_expr(*b))),
            }
        }
        _ => ast::Expr::Other,
    }
}

fn parse(sql: &str) -> Vec<ast::Statement> {
    let dialect = DuckDbDialect {};
    conv_stmts(SqlParser::parse_sql(&dialect, sql).unwrap())
}

fn table_names(sql: &str) -> Vec<String> {
    extract::get_table_names(&parse(sql))
}

fn make_model(path: &str, root: &str, sql: &str) -> SqlModel {
    let mut m = SqlModel::from_content(
        path,
        root,
        sql.to_string(),
        parse(sql),
        "generic",
        true,
        Vec::new(),
    );
    m.extract_dependencies();
    m
}

fn yaml_schema(model_name: &str, schema: &str) -> YamlConfigData {
    YamlConfigData {
        version: 2,
        models: vec![YamlModelData {
            name: model_name.to_string(),
            description: None,
            meta: None,
            config: None,
            database_name: None,
            schema_name: Some(schema.to_string()),
            object_name: None,
            columns: None,
        }],
        sources: Vec::new(),
    }
}

fn assert_set_equals(set: &HashSet<String>, expected: &[&str]) {
    let expected_set: HashSet<String> = expected.iter().map(|s| s.to_string()).collect();
    assert_eq!(
        set, &expected_set,
        "Sets are not equal. Set: {:?}, Expected: {:?}",
        set, expected_set
    );
}

fn as_set(v: Vec<String>) -> HashSet<String> {
    v.into_iter().collect()
}

#[test]
fn test_assert_set_equals_helper() {
    // This test ensures that our helper function is used
    let mut set = HashSet::new();
    set.insert("a".to_string());
    set.insert("b".to_string());

    // This should pass
    assert_set_equals(&set, &["a", "b"]);

    // We're just calling the function to make sure it's used
    let differing_set = HashSet::from_iter(vec!["c".to_string(), "d".to_string()]);
    assert_ne!(set, differing_set);
}

#[test]
fn test_simple_query() {
    let deps = table_names("SELECT * FROM users JOIN orders ON users.id = orders.user_id");
    assert!(deps.contains(&"users".to_string()));
    assert!(deps.contains(&"orders".to_string()));
    assert!(deps.len() >= 2);
}

#[test]
fn test_schema_prefixed_tables() {
    let deps =
        table_names("SELECT * FROM public.users JOIN sales.orders ON users.id = orders.user_id");
    assert!(deps.contains(&"public.users".to_string()));
    assert!(deps.contains(&"sales.orders".to_string()));
    assert!(deps.len() >= 2);
}

#[test]
fn test_query_with_cte() {
    let sql = "
        WITH user_orders AS (
            SELECT u.*, o.order_id
            FROM users u
            JOIN orders o ON u.id = o.user_id
        )
        SELECT * FROM user_orders JOIN products p ON p.id = user_orders.product_id
    ";
    let deps = table_names(sql);
    assert!(deps.contains(&"users".to_string()));
    assert!(deps.contains(&"orders".to_string()));
    assert!(deps.contains(&"products".to_string()));
    assert!(deps.contains(&"user_orders".to_string()));
    assert!(deps.len() >= 4);
}

#[test]
fn test_query_with_subquery() {
    let sql = "
        SELECT *
        FROM users
        WHERE id IN (
            SELECT user_id FROM orders WHERE total > 100
        )
    ";
    let deps = table_names(sql);
    assert!(deps.contains(&"users".to_string()));
    assert!(deps.contains(&"orders".to_string()));
    assert!(deps.len() >= 2);
}

#[test]
fn test_complex_query() {
    let sql = "
        WITH recent_orders AS (
            SELECT * FROM orders WHERE order_date > '2023-01-01'
        ),
        premium_users AS (
            SELECT u.*
            FROM users u
            JOIN user_subscriptions s ON u.id = s.user_id
            WHERE s.plan = 'premium'
        )
        SELECT
            u.name,
            o.order_id,
            (SELECT COUNT(*) FROM order_items WHERE order_id = o.order_id) AS item_count
        FROM premium_users u
        JOIN recent_orders o ON u.id = o.user_id
        WHERE u.id IN (SELECT user_id FROM user_activity WHERE last_login > '2023-06-01')
    ";
    let deps = table_names(sql);
    let expected = vec![
        "orders",
        "users",
        "user_subscriptions",
        "recent_orders",
        "premium_users",
        "order_items",
        "user_activity",
    ];
    for &table in &expected {
        assert!(
            deps.contains(&table.to_string()),
            "Missing expected table: {}. Found: {:?}",
            table,
            deps
        );
    }
    assert!(deps.len() >= expected.len());
}

#[test]
fn test_derived_tables() {
    let sql = "
        SELECT a.*, b.*
        FROM (SELECT id, name FROM users WHERE active = true) a
        JOIN (SELECT user_id, COUNT(*) as order_count FROM orders GROUP BY user_id) b
        ON a.id = b.user_id
    ";
    let deps = table_names(sql);
    assert!(deps.contains(&"users".to_string()));
    assert!(deps.contains(&"orders".to_string()));
    assert!(deps.len() >= 2);
}

#[test]
fn test_nested_ctes() {
    let sql = "
        WITH level1 AS (
            SELECT * FROM base_table
        ),
        level2 AS (
            WITH inner_cte AS (
                SELECT * FROM level1 JOIN other_table ON level1.id = other_table.id
            )
            SELECT * FROM inner_cte
        )
        SELECT * FROM level2
    ";
    let deps = table_names(sql);
    assert!(deps.contains(&"base_table".to_string()));
    assert!(deps.contains(&"other_table".to_string()));
    assert!(deps.contains(&"level1".to_string()));
    assert!(deps.contains(&"inner_cte".to_string()));
    assert!(deps.contains(&"level2".to_string()));
    assert!(deps.len() >= 5);
}

#[test]
fn test_set_operations() {
    let sql = "
        SELECT * FROM table1
        UNION
        SELECT * FROM table2
        EXCEPT
        SELECT * FROM table3
        INTERSECT
        SELECT * FROM table4
    ";
    let deps = table_names(sql);
    assert!(deps.contains(&"table1".to_string()));
    assert!(deps.contains(&"table2".to_string()));
    assert!(deps.contains(&"table3".to_string()));
    assert!(deps.contains(&"table4".to_string()));
    assert!(deps.len() >= 4);
}

#[test]
fn test_table_functions() {
    let deps = table_names("SELECT * FROM table_func()");
    assert!(deps.contains(&"table_func".to_string()));
}

#[test]
fn test_builtin_functions_filtered() {
    let deps = table_names("SELECT COUNT(id), my_schema.my_udf(id) FROM t");
    assert!(!deps.contains(&"COUNT".to_string()));
    assert!(deps.contains(&"my_schema.my_udf".to_string()));
}

#[test]
fn test_cte_names_recorded_but_never_external() {
    // CTE aliases land among the names yet stay out of the external set
    let sql = "WITH recent AS (SELECT * FROM orders WHERE order_date > '2023-01-01')
               SELECT * FROM users JOIN recent ON users.id = recent.id";
    let names = as_set(table_names(sql));
    assert_set_equals(&names, &["recent", "users", "orders"]);
    let external = as_set(extract::get_external_table_deps(&parse(sql)));
    assert_set_equals(&external, &[]);

    let sql2 = "WITH recent AS (SELECT * FROM sales.orders WHERE order_date > '2023-01-01')
                SELECT * FROM public.users JOIN recent ON users.id = recent.id";
    let external2 = as_set(extract::get_external_table_deps(&parse(sql2)));
    assert_set_equals(&external2, &["public.users", "sales.orders"]);
    let names2 = as_set(table_names(sql2));
    assert!(names2.contains("recent"));
    assert!(!external2.contains("recent"));
}

#[test]
fn test_create_model_from_content() {
    let sql = "SELECT id, name FROM users";
    let model = SqlModel::from_content(
        "/tmp/test_model.sql",
        "/tmp",
        sql.to_string(),
        parse(sql),
        "generic",
        true,
        Vec::new(),
    );

    assert_eq!(model.name, "test_model");
    assert_eq!(model.file_name, "test_model.sql");
    assert_eq!(model.raw_sql, sql);
    assert!(!model.checksum.is_empty());
    assert_eq!(model.ast.len(), 1); // Should have one statement
    assert_eq!(model.unique_id, "model.test_model");
}

#[test]
fn test_extract_dependencies() {
    let sql = "SELECT id, name FROM schema1.users JOIN schema2.orders ON schema1.users.id = schema2.orders.user_id";
    let model = make_model("/tmp/test_model.sql", "/tmp", sql);

    assert!(model.referenced_tables.contains(&"schema1.users".to_string()));
    assert!(model.referenced_tables.contains(&"schema2.orders".to_string()));
    assert_eq!(model.referenced_tables.len(), 2);
}

#[test]
fn test_extract_dependencies_idempotent() {
    let sql = "SELECT id FROM a.t JOIN b.u ON a.t.id = b.u.id";
    let mut model = make_model("/tmp/m.sql", "/tmp", sql);
    let first = model.referenced_tables.clone();
    model.extract_dependencies();
    assert_eq!(first, model.referenced_tables);
}

#[test]
fn test_checksum_is_sha256_hex() {
    let sql = "SELECT 1";
    let model = make_model("/tmp/c/c.sql", "/tmp", sql);
    // independently computed digest over the same bytes
    let digest = <sha2::Sha256 as sha2::Digest>::digest(sql.as_bytes());
    let mut expected = String::new();
    for b in digest.iter() {
        expected.push_str(&format!("{:02x}", b));
    }
    assert_eq!(model.checksum, expected);
    assert_eq!(model.checksum.len(), 64);
    assert_ne!(model.checksum, sql);
}

#[test]
fn test_model_depth_calculation() {
    // a linear chain: model_a feeds model_b feeds model_c
    let root = "/proj";
    let mut collection = SqlModelCollection::new();

    let model_a = make_model(
        "/proj/model_a/model_a.sql",
        root,
        "SELECT id, name FROM external_source",
    );
    let model_b = make_model(
        "/proj/model_b/model_b.sql",
        root,
        "SELECT id, name FROM public.model_a WHERE active = true",
    );
    let model_c = make_model(
        "/proj/model_c/model_c.sql",
        root,
        "SELECT a.id, b.name FROM public.model_a a JOIN public.model_b b ON a.id = b.id",
    );

    collection.add_model(model_a);
    collection.add_model(model_b);
    collection.add_model(model_c);
    collection.build_dependency_graph();

    let a = collection.get_model("model.model_a.model_a").expect("Model A not found");
    assert_eq!(a.depth, Some(0), "Source model A should have depth 0");
    // the unqualified name never becomes a reference at all
    assert!(a.referenced_tables.is_empty());
    assert!(a.external_sources.is_empty());
    assert_set_equals(
        &as_set(a.downstream_models.clone()),
        &["model.model_b.model_b", "model.model_c.model_c"],
    );

    let b = collection.get_model("model.model_b.model_b").expect("Model B not found");
    assert_eq!(b.depth, Some(1), "Intermediate model B should have depth 1");

    let c = collection.get_model("model.model_c.model_c").expect("Model C not found");
    assert_eq!(c.depth, Some(2), "Terminal model C should have depth 2");
    assert_set_equals(
        &as_set(c.upstream_models.clone()),
        &["model.model_a.model_a", "model.model_b.model_b"],
    );

    assert!(!collection.has_missing_sources());
    assert!(collection.detect_cycles().is_empty());
}

fn build_diamond() -> SqlModelCollection {
    // declared imports feed a staging chain
    let root = "/proj";
    let mut collection = SqlModelCollection::new();

    let mut model_a = make_model(
        "/proj/model_a/model_a.sql",
        root,
        "SELECT t1.id, t2.name FROM ext_schema1.table1 t1 JOIN ext_schema2.table2 t2 ON t1.id = t2.id",
    );
    model_a.apply_yaml_config(yaml_schema("model_a", "staging"));

    let mut model_b = make_model(
        "/proj/model_b/model_b.sql",
        root,
        "SELECT a.id, e.value FROM staging.model_a a JOIN ext_schema3.table3 e ON a.id = e.id",
    );
    model_b.apply_yaml_config(yaml_schema("model_b", "staging"));

    let mut model_c = make_model(
        "/proj/model_c/model_c.sql",
        root,
        "SELECT a.id, b.value FROM staging.model_a a JOIN staging.model_b b ON a.id = b.id",
    );
    model_c.apply_yaml_config(yaml_schema("model_c", "staging"));

    collection.add_model(model_a);
    collection.add_model(model_b);
    collection.add_model(model_c);

    collection.add_import_definitions(vec![
        YamlSourceData {
            name: "ext1".to_string(),
            database: "ext_schema1".to_string(),
            tables: vec!["table1".to_string()],
        },
        YamlSourceData {
            name: "ext2".to_string(),
            database: "ext_schema2".to_string(),
            tables: vec!["table2".to_string()],
        },
        YamlSourceData {
            name: "ext3".to_string(),
            database: "ext_schema3".to_string(),
            tables: vec!["table3".to_string()],
        },
    ]);

    collection.build_dependency_graph();
    collection
}

#[test]
fn test_declared_imports_are_not_missing() {
    let collection = build_diamond();

    let a = collection.get_model("model.model_a.model_a").unwrap();
    assert_set_equals(
        &as_set(a.external_sources.clone()),
        &["ext_schema1.table1", "ext_schema2.table2"],
    );
    assert_eq!(a.depth, Some(0));

    let b = collection.get_model("model.model_b.model_b").unwrap();
    assert_set_equals(&as_set(b.external_sources.clone()), &["ext_schema3.table3"]);
    assert_eq!(b.depth, Some(1));

    let c = collection.get_model("model.model_c.model_c").unwrap();
    assert_set_equals(&as_set(c.external_sources.clone()), &[]);
    assert_eq!(c.depth, Some(2));

    assert!(!collection.has_missing_sources());
    assert!(collection.get_missing_sources().is_empty());
}

#[test]
fn test_undeclared_import_is_reported() {
    let root = "/proj";
    let mut collection = SqlModelCollection::new();
    let model_a = make_model(
        "/proj/model_a/model_a.sql",
        root,
        "SELECT id FROM some_other.raw_table",
    );
    collection.add_model(model_a);
    collection.build_dependency_graph();

    let a = collection.get_model("model.model_a.model_a").unwrap();
    assert_set_equals(&as_set(a.external_sources.clone()), &["some_other.raw_table"]);
    assert!(collection.has_missing_sources());
    let missing = collection.get_missing_sources();
    assert_eq!(missing.len(), 1);
    assert_eq!(missing[0].0, "model.model_a.model_a");
    assert_eq!(missing[0].1, vec!["some_other.raw_table".to_string()]);

    let report = collection.get_missing_sources_report();
    assert_eq!(report.len(), 1);
    assert_eq!(
        report[0],
        "Model 'model_a' references undefined external import(s): 'some_other.raw_table'"
    );
}

#[test]
fn test_serialized_outputs_are_reproducible() {
    // two separate runs over the same inputs: byte-identical documents
    let first = build_diamond();
    let second = build_diamond();
    assert_eq!(first.to_json_string(), second.to_json_string());
    assert_eq!(first.to_yaml_string(), second.to_yaml_string());
    assert_eq!(first.to_dot_graph(), second.to_dot_graph());
    assert_eq!(first.to_text(), second.to_text());
    assert!(first.to_json_string().contains("\"model.model_a.model_a\""));
    assert!(first.to_yaml_string().starts_with("version: 1\nmodels:\n"));
    assert!(first.to_dot_graph().starts_with("digraph models {\n"));
}

#[test]
fn test_rebuild_is_idempotent() {
    let mut collection = build_diamond();
    let before = collection.to_json_string();
    collection.build_dependency_graph();
    let after = collection.to_json_string();
    assert_eq!(before, after);
}

#[test]
fn test_cycle_is_detected() {
    let root = "/proj";
    let mut collection = SqlModelCollection::new();
    let x = make_model("/proj/x/x.sql", root, "SELECT id FROM public.y");
    let y = make_model("/proj/y/y.sql", root, "SELECT id FROM public.x");
    collection.add_model(x);
    collection.add_model(y);
    collection.build_dependency_graph();

    let mx = collection.get_model("model.x.x").unwrap();
    assert_eq!(mx.depth, None);
    let cycles = collection.detect_cycles();
    assert!(!cycles.is_empty());
    for cyc in &cycles {
        for id in cyc {
            assert!(id == "model.x.x" || id == "model.y.y");
        }
    }
}

#[test]
fn test_yaml_metadata_applied() {
    let sql = "SELECT id, name FROM users";
    let mut model = make_model("/proj/test_model/test_model.sql", "/proj", sql);
    let cfg = YamlConfigData {
        version: 2,
        models: vec![YamlModelData {
            name: "test_model".to_string(),
            description: Some("A test model for unit testing".to_string()),
            meta: Some(vec![
                feather_flow::model::MetaEntry {
                    key: "owner".to_string(),
                    value: feather_flow::model::MetaValue::Str("test_team".to_string()),
                },
                feather_flow::model::MetaEntry {
                    key: "tags".to_string(),
                    value: feather_flow::model::MetaValue::StrList(vec![
                        "test".to_string(),
                        "example".to_string(),
                    ]),
                },
            ]),
            config: Some(feather_flow::model::YamlModelConfigData {
                materialized: Some("table".to_string()),
            }),
            database_name: Some("test_db".to_string()),
            schema_name: Some("test_schema".to_string()),
            object_name: Some("test_model_table".to_string()),
            columns: Some(vec![
                feather_flow::model::YamlColumnData {
                    name: "id".to_string(),
                    description: Some("The primary key".to_string()),
                    data_type: Some("integer".to_string()),
                    tests: None,
                    meta: None,
                },
                feather_flow::model::YamlColumnData {
                    name: "name".to_string(),
                    description: Some("The user's name".to_string()),
                    data_type: Some("string".to_string()),
                    tests: None,
                    meta: None,
                },
            ]),
        }],
        sources: Vec::new(),
    };
    model.apply_yaml_config(cfg);

    assert_eq!(model.description, Some("A test model for unit testing".to_string()));
    assert_eq!(model.materialized, Some("table".to_string()));
    assert_eq!(model.database, Some("test_db".to_string()));
    assert_eq!(model.schema, Some("test_schema".to_string()));
    assert_eq!(model.object_name, Some("test_model_table".to_string()));
    assert_eq!(model.tags, vec!["test".to_string(), "example".to_string()]);
    assert_eq!(model.columns.len(), 2);
    let id_col = model.columns.iter().find(|c| c.name == "id").unwrap();
    assert_eq!(id_col.description, Some("The primary key".to_string()));
    assert_eq!(id_col.data_type, Some("integer".to_string()));
    let name_col = model.columns.iter().find(|c| c.name == "name").unwrap();
    assert_eq!(name_col.description, Some("The user's name".to_string()));
    assert_eq!(name_col.data_type, Some("string".to_string()));
}

#[test]
fn test_validate_structure_result() {
    let sql = "SELECT 1";
    let ok = SqlModel::from_content(
        "/p/m/m.sql",
        "/p",
        sql.to_string(),
        parse(sql),
        "generic",
        true,
        Vec::new(),
    );
    assert!(ok.validate_structure().is_ok());

    let bad = SqlModel::from_content(
        "/p/m/m.sql",
        "/p",
        sql.to_string(),
        parse(sql),
        "generic",
        false,
        vec!["Missing YAML file: m".to_string()],
    );
    let err = bad.validate_structure().unwrap_err();
    assert_eq!(err, "Invalid model structure for /p/m/m.sql: Missing YAML file: m");
}

#[test]
fn test_imports_directory_path() {
    assert_eq!(feather_flow::collection::get_imports_directory_path("/proj"), "/proj/models/imports");
    assert_eq!(
        feather_flow::collection::get_imports_directory_path("/proj/models"),
        "/proj/models/imports"
    );
    assert_eq!(feather_flow::collection::get_imports_directory_path("models"), "models/imports");
    assert_eq!(
        feather_flow::collection::get_imports_directory_path("/datamodels"),
        "/datamodels/models/imports"
    );
}
