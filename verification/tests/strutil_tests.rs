//! Tests of the string helpers the library builds on.

use feather_flow::strutil;

#[test]
fn test_case_folding() {
    assert_eq!(strutil::to_upper("count"), "COUNT");
    assert_eq!(strutil::to_upper("Date_Trunc"), "DATE_TRUNC");
    assert_eq!(strutil::to_upper("ALREADY"), "ALREADY");
    assert_eq!(strutil::to_upper(""), "");
}

#[test]
fn test_decimal_rendering() {
    assert_eq!(strutil::usize_to_string(0), "0");
    assert_eq!(strutil::usize_to_string(7), "7");
    assert_eq!(strutil::usize_to_string(10), "10");
    assert_eq!(strutil::usize_to_string(90210), "90210");
}

#[test]
fn test_sorting_is_ascending() {
    let v = vec![
        "model.b".to_string(),
        "model.a".to_string(),
        "model.c".to_string(),
        "model.a".to_string(),
    ];
    let sorted = strutil::sorted_strings(&v);
    assert_eq!(
        sorted,
        vec![
            "model.a".to_string(),
            "model.a".to_string(),
            "model.b".to_string(),
            "model.c".to_string()
        ]
    );
}

#[test]
fn test_substring_and_suffix_helpers() {
    assert!(strutil::contains_substring("/proj/imports/raw", "/imports/"));
    assert!(!strutil::contains_substring("/proj/importless", "/imports/"));
    assert!(strutil::ends_with("stg.sql", ".sql"));
    assert_eq!(strutil::strip_suffix("stg.sql", ".sql"), "stg");
    assert_eq!(strutil::strip_suffix("stg.yml", ".sql"), "stg.yml");
    assert_eq!(strutil::base_name("/a/b/c.sql"), "c.sql");
    assert_eq!(strutil::base_name("c.sql"), "c.sql");
    assert_eq!(strutil::parent_dir_of("/a/b/c.sql"), "/a/b");
    assert_eq!(strutil::parent_dir_of("c.sql"), "");
    assert_eq!(strutil::replace_seps_with_dots("a/b/c"), "a.b.c");
    assert_eq!(strutil::relative_to("/root/x/y.sql", "/root"), "x/y.sql");
    assert_eq!(strutil::relative_to("/rootless/y.sql", "/root"), "/rootless/y.sql");
}

#[test]
fn test_join_strings() {
    let v = vec!["a".to_string(), "b".to_string(), "c".to_string()];
    assert_eq!(strutil::join_strings(&v, ", "), "a, b, c");
    let one = vec!["a".to_string()];
    assert_eq!(strutil::join_strings(&one, ", "), "a");
    let none: Vec<String> = Vec::new();
    assert_eq!(strutil::join_strings(&none, ", "), "");
}
