use virtual_file_system::sql_conversion::{generate_sql_statements, QueryBuilder};
use virtual_file_system::test_utils::assert_ok;
use virtual_file_system::text::{chars_of, decimal_string, join};
use virtual_file_system::types::{ColumnMetadata, DataType};

fn column(name: &str, data_type: DataType, samples: &[&str], nullable: bool) -> ColumnMetadata {
    ColumnMetadata {
        name: name.to_string(),
        data_type,
        sample_values: samples.iter().map(|s| s.to_string()).collect(),
        nullable,
        unique_count: samples.len(),
        numeric_stats: None,
        string_stats: None,
    }
}

#[test]
fn sql_types_of_the_data_types() {
    assert_eq!(DataType::Integer.to_sql_type(), "INTEGER");
    assert_eq!(DataType::Float.to_sql_type(), "NUMERIC");
    assert_eq!(DataType::Text.to_sql_type(), "TEXT");
    assert_eq!(DataType::Boolean.to_sql_type(), "BOOLEAN");
    assert_eq!(DataType::Enum.to_sql_type(), "ENUM");
    assert_eq!(DataType::Unknown.to_sql_type(), "TEXT");
}

#[test]
fn an_enum_column_gets_a_type_of_its_own() {
    let columns = vec![
        column("Grade", DataType::Enum, &["A", "B"], false),
        column("score", DataType::Integer, &["1", "2"], true),
    ];
    let sql = generate_sql_statements("results", &columns);
    assert_eq!(
        sql.create_table,
        "CREATE TYPE grade_type AS ENUM ('A', 'B');\nCREATE TABLE results (\n    Grade grade_type NOT NULL,\n    score INTEGER NULL\n);"
    );
    assert!(sql.create_table.lines().next().unwrap().starts_with("CREATE TYPE grade_type AS ENUM ("));
    assert!(sql.create_table.contains("    Grade grade_type "));
    assert_eq!(sql.insert_template, "INSERT INTO results (Grade, score) VALUES ($1, $2);");
}

#[test]
fn placeholders_are_numbered_without_gaps() {
    let columns: Vec<ColumnMetadata> =
        (0..12).map(|i| column(&format!("c{}", i), DataType::Text, &[], false)).collect();
    let sql = generate_sql_statements("wide", &columns);
    let values = sql.insert_template.split(" VALUES (").nth(1).unwrap();
    let values = values.strip_suffix(");").unwrap();
    let expected: Vec<String> = (1..=12).map(|i| format!("${}", i)).collect();
    assert_eq!(values.split(", ").collect::<Vec<_>>(), expected);
    assert_eq!(sql.insert_template.matches('$').count(), columns.len());
}

#[test]
fn every_type_in_a_table() {
    let columns = vec![
        column("a", DataType::Integer, &[], false),
        column("b", DataType::Float, &[], true),
        column("c", DataType::Text, &[], false),
        column("d", DataType::Boolean, &[], true),
        column("e", DataType::Unknown, &[], false),
        column("F G", DataType::Enum, &["x"], false),
    ];
    let sql = generate_sql_statements("t", &columns);
    assert_eq!(
        sql.create_table,
        "CREATE TYPE f g_type AS ENUM ('x');\nCREATE TABLE t (\n    a INTEGER NOT NULL,\n    b NUMERIC NULL,\n    c TEXT NOT NULL,\n    d BOOLEAN NULL,\n    e TEXT NOT NULL,\n    F G f g_type NOT NULL\n);"
    );
}

#[test]
fn a_table_without_columns() {
    let sql = generate_sql_statements("empty", &Vec::new());
    assert_eq!(sql.create_table, "CREATE TABLE empty (\n\n);");
    assert_eq!(sql.insert_template, "INSERT INTO empty () VALUES ();");
}

#[test]
fn a_builder_appends() {
    let mut builder = QueryBuilder::new("SELECT ");
    builder.push("1");
    builder.push(";");
    assert_eq!(builder.build(), "SELECT 1;");
}

#[test]
fn numerals_and_joins() {
    assert_eq!(decimal_string(0), "0");
    assert_eq!(decimal_string(7), "7");
    assert_eq!(decimal_string(10), "10");
    assert_eq!(decimal_string(1234567890), "1234567890");
    assert_eq!(decimal_string(usize::MAX), usize::MAX.to_string());
    assert_eq!(join(&Vec::new(), ", "), "");
    assert_eq!(join(&vec!["a".to_string()], ", "), "a");
    assert_eq!(join(&vec!["a".to_string(), "".to_string(), "c".to_string()], ", "), "a, , c");
    assert_eq!(chars_of("h\u{e9}!"), vec!['h', '\u{e9}', '!']);
}

#[test]
fn assert_ok_hands_out_the_value() {
    let result: Result<u32, String> = Ok(3);
    assert_eq!(assert_ok(result, "a number"), 3);
}
