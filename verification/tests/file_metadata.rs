use virtual_file_system::file_metadata::{check_first_row, get_csv_schema, FileMetadata};

fn types(metadata: &FileMetadata) -> Vec<(&str, &str)> {
    metadata.column_types.iter().map(|(name, kind)| (name.as_str(), kind.as_str())).collect()
}

#[test]
fn test_get_csv_schema() {
    let csv_content = "id,name,age\n1,Alice,30\n2,Bob,25\n3,Charlie,35";
    let schema = get_csv_schema(csv_content).unwrap();
    let expected_schema = "Schema { \
        fields: [\
            Field { name: \"id\", data_type: Int64 }, \
            Field { name: \"name\", data_type: Utf8 }, \
            Field { name: \"age\", data_type: Int64 }\
        ] \
    }";
    assert_eq!(schema, expected_schema);
}

#[test]
fn a_schema_needs_a_header_and_a_row_of_its_width() {
    assert_eq!(get_csv_schema("").unwrap_err(), "Empty CSV");
    assert_eq!(get_csv_schema("a,b").unwrap_err(), "Only header in CSV");
    assert_eq!(get_csv_schema("a,b\n").unwrap_err(), "Only header in CSV");
    assert_eq!(get_csv_schema("a,b\n1").unwrap_err(), "Mismatched header and data columns");
    assert_eq!(get_csv_schema("a,b\n1,2,3").unwrap_err(), "Mismatched header and data columns");
    assert_eq!(
        get_csv_schema("x,y,z\r\n+1, 2,2.5e3\r\n").unwrap(),
        "Schema { fields: [Field { name: \"x\", data_type: Int64 }, Field { name: \"y\", data_type: Utf8 }, Field { name: \"z\", data_type: Float64 }] }"
    );
}

#[test]
fn a_first_look() {
    let content = "id,name,score\n1,Alice,0\n2,,3.5\n3, ,0 \n";
    assert!(check_first_row(content));
    let metadata = FileMetadata::analyze_csv(content).unwrap();
    assert_eq!(metadata.row_count, 3);
    assert_eq!(metadata.column_count, 3);
    assert_eq!(metadata.missing_values, 2);
    assert_eq!(metadata.zero_values, 2);
    assert_eq!(types(&metadata), vec![("id", "Integer"), ("name", "Text"), ("score", "Integer")]);
}

#[test]
fn the_first_row_suggests_the_types() {
    let metadata = FileMetadata::analyze_csv("a,b,c,d\n+7,1.5, 3,nan\nx,y,z,w").unwrap();
    assert_eq!(
        types(&metadata),
        vec![("a", "Integer"), ("b", "Float"), ("c", "Text"), ("d", "Float")]
    );
    assert_eq!(metadata.row_count, 2);
    assert_eq!(metadata.missing_values, 0);
    assert_eq!(metadata.zero_values, 0);
}

#[test]
fn lines_end_at_line_feeds() {
    assert_eq!(FileMetadata::analyze_csv("").unwrap_err(), "Empty CSV");

    let header_only = FileMetadata::analyze_csv("a,b").unwrap();
    assert_eq!(header_only.row_count, 0);
    assert_eq!(header_only.column_count, 2);
    assert!(header_only.column_types.is_empty());

    let blank_line = FileMetadata::analyze_csv("\n").unwrap();
    assert_eq!(blank_line.row_count, 0);
    assert_eq!(blank_line.column_count, 1);

    // An empty line is a row with one missing field.
    let with_gap = FileMetadata::analyze_csv("a\n1\n\n0\n").unwrap();
    assert_eq!(with_gap.row_count, 3);
    assert_eq!(with_gap.missing_values, 1);
    assert_eq!(with_gap.zero_values, 1);

    // A carriage return before a line feed belongs to the line ending.
    let windows = FileMetadata::analyze_csv("a,b\r\n1,x\r\n").unwrap();
    assert_eq!(windows.column_count, 2);
    assert_eq!(types(&windows), vec![("a", "Integer"), ("b", "Text")]);

    // A carriage return at the end of the text does not.
    let bare = FileMetadata::analyze_csv("a,b\n1,2\r").unwrap();
    assert_eq!(types(&bare), vec![("a", "Integer"), ("b", "Text")]);
}

#[test]
fn a_header_name_twice_keeps_the_later_type() {
    let metadata = FileMetadata::analyze_csv("a,b,a\n1,2,x\n").unwrap();
    assert_eq!(types(&metadata), vec![("a", "Text"), ("b", "Integer")]);
}

#[test]
fn a_wide_first_row_does_not_fit() {
    assert!(!check_first_row("a,b\n1,2,3\n"));
    assert!(check_first_row("a,b\n1\n1,2,3\n"));
    assert!(check_first_row("a,b"));
    assert!(check_first_row(""));
    let metadata = FileMetadata::analyze_csv("a,b\n1\n1,2,3\n").unwrap();
    assert_eq!(metadata.row_count, 2);
    assert_eq!(types(&metadata), vec![("a", "Integer")]);
}
