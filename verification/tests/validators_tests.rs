//! Tests of the directory-structure validator over plain directory
//! listings.

use feather_flow::validate::validate_model_structure;
use feather_flow::validate::validate_models_directory;
use feather_flow::validate::DirEntry;

fn dir(path: &str, files: &[&str]) -> DirEntry {
    DirEntry {
        path: path.to_string(),
        is_dir: true,
        files: files.iter().map(|f| f.to_string()).collect(),
    }
}

#[test]
fn test_validate_model_structure_valid() {
    let result = validate_model_structure(&dir(
        "/proj/test_model",
        &["test_model.sql", "test_model.yml"],
    ));
    assert!(result.is_valid);
    assert!(result.errors.is_empty());
}

#[test]
fn test_validate_model_structure_missing_sql() {
    let result = validate_model_structure(&dir("/proj/stg_customers", &["stg_customers.yml"]));
    assert!(!result.is_valid);
    assert_eq!(result.errors.len(), 1);
    assert!(result.errors[0].contains("Missing SQL file"));
}

#[test]
fn test_validate_model_structure_missing_yml() {
    let result = validate_model_structure(&dir("/proj/test_model", &["test_model.sql"]));
    assert!(!result.is_valid);
    assert_eq!(result.errors.len(), 1);
    assert!(result.errors[0].contains("Missing YAML file"));
}

#[test]
fn test_validate_model_structure_unexpected_file() {
    let result = validate_model_structure(&dir(
        "/proj/stg_customers",
        &["stg_customers.sql", "stg_customers.yml", "notes.md"],
    ));
    assert!(!result.is_valid);
    assert_eq!(result.errors.len(), 1);
    assert!(result.errors[0].contains("Unexpected file"));
}

#[test]
fn test_validate_model_structure_wrong_sql_name() {
    let result = validate_model_structure(&dir(
        "/proj/test_model",
        &["wrong_name.sql", "test_model.yml"],
    ));
    assert!(!result.is_valid);
    assert_eq!(result.errors.len(), 2); // Missing correct SQL file + unexpected file
    assert!(result.errors[0].contains("Missing SQL file"));
    assert!(result.errors[1].contains("Unexpected file"));
}

#[test]
fn test_validate_imports_directory_yml_only() {
    // under an imports subtree the missing-SQL case passes
    let imports_result =
        validate_model_structure(&dir("/proj/models/imports", &["imports.yml"]));
    assert!(
        imports_result.is_valid,
        "Imports directory should be valid with just YAML: {:?}",
        imports_result.errors
    );
    assert!(imports_result.errors.is_empty());

    let raw_data_result =
        validate_model_structure(&dir("/proj/models/imports/raw_data", &["raw_data.yml"]));
    assert!(
        raw_data_result.is_valid,
        "Raw data directory should be valid with just YAML: {:?}",
        raw_data_result.errors
    );
    assert!(raw_data_result.errors.is_empty());

    let stg_result =
        validate_model_structure(&dir("/proj/imports/stg_customers", &["stg_customers.yml"]));
    assert!(stg_result.is_valid);
}

#[test]
fn test_validate_imports_directory_with_unexpected_file() {
    let imports_result = validate_model_structure(&dir(
        "/proj/models/imports",
        &["imports.yml", "README.md"],
    ));
    assert!(!imports_result.is_valid);
    assert_eq!(imports_result.errors.len(), 1);
    assert!(imports_result.errors[0].contains("Unexpected file in imports directory"));
}

#[test]
fn test_validate_models_directory_nested() {
    let dirs = vec![
        dir("/proj/models", &[]),
        dir("/proj/models/staging", &[]),
        dir(
            "/proj/models/staging/stg_customers",
            &["stg_customers.sql", "stg_customers.yml"],
        ),
        dir(
            "/proj/models/staging/stg_orders",
            &["stg_orders.sql", "stg_orders.yml"],
        ),
        dir("/proj/models/marts", &[]),
        dir("/proj/models/marts/finance", &[]),
        dir(
            "/proj/models/marts/finance/daily_trends",
            &["daily_trends.sql"],
        ),
        dir(
            "/proj/models/marts/finance/monthly_trends",
            &["monthly_trends.yml"],
        ),
        dir(
            "/proj/models/marts/finance/spending_categories",
            &["spending_categories.sql", "spending_categories.yml", "notes.md"],
        ),
    ];

    let results = validate_models_directory(&dirs);
    assert_eq!(results.len(), 5); // Should find all 5 model directories

    let valid_count = results.iter().filter(|r| r.is_valid).count();
    let invalid_count = results.iter().filter(|r| !r.is_valid).count();
    assert_eq!(valid_count, 2);
    assert_eq!(invalid_count, 3);

    let daily = results
        .iter()
        .find(|r| r.path == "/proj/models/marts/finance/daily_trends")
        .unwrap();
    assert!(!daily.is_valid);
    assert!(daily.errors[0].contains("Missing YAML file"));

    let spending = results
        .iter()
        .find(|r| r.path == "/proj/models/marts/finance/spending_categories")
        .unwrap();
    assert!(!spending.is_valid);
    assert!(spending.errors[0].contains("Unexpected file"));
}

#[test]
fn test_demo_project_structure() {
    // The demo project is not present here; its models directory stands in
    // as a path that is no directory at all, which earns the single failing
    // result.
    let dirs = vec![DirEntry {
        path: "/workspaces/FeatherFlow/demo_project/models".to_string(),
        is_dir: false,
        files: Vec::new(),
    }];
    let results = validate_models_directory(&dirs);
    assert_eq!(results.len(), 1);
    assert!(!results[0].is_valid);
    assert!(results[0].errors[0].contains("Path is not a directory"));
}
