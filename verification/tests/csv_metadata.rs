use virtual_file_system::csv_metadata::{AnalysisStep, CSVMetadata};
use virtual_file_system::frequency::FrequencyTable;
use virtual_file_system::csv_metadata::analyze_sample;
use virtual_file_system::reader::{read_sample, AnalysisError, Sample, NO_HEADER_ROW};
use virtual_file_system::statistical_methods::Thresholds;
use virtual_file_system::types::DataType;

const SAMPLE_CSV: &[u8] =
    b"id,name,price,quantity\n1,Item 1,10.50,100\n2,Item 2,15.75,200\n3,Item 3,20.00,300";

/// The confidence of a frequency table, in millionths.
fn score(frequencies: &FrequencyTable, total_count: usize) -> u64 {
    let counts = frequencies.counts();
    let unique_count = counts.len() as f64;
    let total = total_count as f64;
    let repeating: usize = counts.iter().filter(|&&count| count > 1).sum();
    let repeat_ratio = repeating as f64 / total;
    let entropy = -counts
        .iter()
        .map(|&count| {
            let p = count as f64 / total;
            if p > 0.0 { p * p.ln() } else { 0.0 }
        })
        .sum::<f64>();
    let mut score = 0.0;
    score += 0.4 * (1.0 / (1.0 + unique_count / total.sqrt()));
    score += 0.4 * repeat_ratio;
    score += 0.2 * (entropy / unique_count).min(1.0);
    if (5..=25).contains(&counts.len()) && repeat_ratio > 0.5 {
        score += 0.1;
    }
    (score.min(1.0).max(0.0) * 1_000_000.0).ceil() as u64
}

fn analyze(csv_data: &[u8]) -> Result<CSVMetadata, AnalysisError> {
    let config = Thresholds::default();
    let mut step = CSVMetadata::analyze(csv_data, &config)?;
    loop {
        match step {
            AnalysisStep::Done(metadata) => return Ok(metadata),
            AnalysisStep::NeedsScore(pending) => {
                let confidence = score(pending.frequencies(), pending.total_count());
                step = pending.resume(confidence);
            }
        }
    }
}

#[test]
fn test_csv_metadata_generation() {
    let metadata = analyze(SAMPLE_CSV).unwrap();

    assert_eq!(metadata.row_count, 3);
    assert_eq!(metadata.column_count, 4);

    assert!(matches!(metadata.column("id").unwrap().data_type, DataType::Integer));
    assert!(matches!(metadata.column("name").unwrap().data_type, DataType::Text));
    assert!(matches!(metadata.column("price").unwrap().data_type, DataType::Float));
    assert!(matches!(metadata.column("quantity").unwrap().data_type, DataType::Integer));
}

#[test]
fn sample_needs_no_score() {
    let step = CSVMetadata::analyze(SAMPLE_CSV, &Thresholds::default()).unwrap();
    assert!(matches!(step, AnalysisStep::Done(_)));
}

#[test]
fn sample_sql_is_in_header_order() {
    let metadata = analyze(SAMPLE_CSV).unwrap();
    let sql = metadata.sql_statements.unwrap();
    assert_eq!(
        sql.create_table,
        "CREATE TABLE my_table (\n    id INTEGER NOT NULL,\n    name TEXT NOT NULL,\n    price NUMERIC NOT NULL,\n    quantity INTEGER NOT NULL\n);"
    );
    assert_eq!(
        sql.insert_template,
        "INSERT INTO my_table (id, name, price, quantity) VALUES ($1, $2, $3, $4);"
    );
}

#[test]
fn test_large_numbers() {
    let metadata = analyze(b"big_int,small_int\n9999999999,-42\n8888888888,-100").unwrap();
    assert!(matches!(metadata.column("big_int").unwrap().data_type, DataType::Integer));
    assert!(matches!(metadata.column("small_int").unwrap().data_type, DataType::Integer));
}

#[test]
fn test_mixed_number_types() {
    let metadata = analyze(b"mixed\n1\n2.5\n3").unwrap();
    assert!(matches!(metadata.column("mixed").unwrap().data_type, DataType::Float));
}

#[test]
fn sampling_is_bounded() {
    let mut data = String::from("n,label\n");
    for i in 0..5000 {
        data.push_str(&format!("{},row {}\n", i, i));
    }
    let metadata = analyze(data.as_bytes()).unwrap();
    assert_eq!(metadata.row_count, 1000);
    assert_eq!(metadata.column_count, 2);
    let expected: Vec<Vec<String>> =
        (0..5).map(|i| vec![format!("{}", i), format!("row {}", i)]).collect();
    assert_eq!(metadata.sample_rows, expected);
    assert_eq!(metadata.column("n").unwrap().unique_count, 1000);
}

#[test]
fn a_fault_after_the_thousandth_row_is_not_seen() {
    let mut data = String::from("n\n");
    for i in 0..1000 {
        data.push_str(&format!("{}\n", i));
    }
    data.push_str("1,2,3\n");
    let metadata = analyze(data.as_bytes()).unwrap();
    assert_eq!(metadata.row_count, 1000);
}

#[test]
fn an_unreadable_row_fails_the_analysis() {
    let outcome = analyze(b"a,b\n1,2\n3\n");
    assert!(matches!(outcome, Err(AnalysisError::RowRead(_))));
    let outcome = analyze(b"a,b\n1,\xff\n");
    assert!(matches!(outcome, Err(AnalysisError::RowRead(_))));
}

#[test]
fn an_unreadable_header_fails_the_analysis() {
    let outcome = analyze(b"a,\xff\n1,2\n");
    assert!(matches!(outcome, Err(AnalysisError::HeaderRead(_))));
}

#[test]
fn input_without_a_header_row_fails_on_the_header() {
    for data in [&b""[..], &b"\n"[..], &b"\n\n\r\n"[..]] {
        let outcome = analyze(data);
        match outcome {
            Err(AnalysisError::HeaderRead(description)) => {
                assert_eq!(description, NO_HEADER_ROW);
            }
            other => panic!("unexpected {:?}", other),
        }
    }
    assert_eq!(
        analyze(b"").unwrap_err().message(),
        "Failed to read headers: the input has no header row"
    );
    assert!(matches!(
        CSVMetadata::analyze(b"", &Thresholds::default()),
        Err(AnalysisError::HeaderRead(_))
    ));
}

#[test]
fn a_header_alone_is_a_table_without_rows() {
    let metadata = analyze(b"a,b\n").unwrap();
    assert_eq!(metadata.row_count, 0);
    assert_eq!(metadata.column_count, 2);
    assert_eq!(metadata.columns.len(), 2);
    assert!(metadata.sample_rows.is_empty());
    assert!(matches!(metadata.column("a").unwrap().data_type, DataType::Text));
}

#[test]
fn equal_header_fields_share_a_column() {
    let metadata = analyze(b"x,y,x\n1,a,2\n3,b,4\n").unwrap();
    assert_eq!(metadata.column_count, 3);
    assert_eq!(metadata.columns.len(), 2);
    let x = metadata.column("x").unwrap();
    assert_eq!(x.unique_count, 4);
    assert_eq!(x.sample_values, vec!["1", "2", "3", "4"]);
    assert!(metadata.column("z").is_none());
}

#[test]
fn blank_cells_make_a_column_nullable() {
    let metadata = analyze(b"a,b\n1,x\n,y\n3,  \n").unwrap();
    let a = metadata.column("a").unwrap();
    assert!(a.nullable);
    assert_eq!(a.unique_count, 2);
    assert!(matches!(a.data_type, DataType::Integer));
    let b = metadata.column("b").unwrap();
    assert!(b.nullable);
    assert_eq!(b.sample_values, vec!["x", "y"]);
}

#[test]
fn a_column_of_blanks_is_text() {
    let metadata = analyze(b"a,b\n,1\n,2\n").unwrap();
    let a = metadata.column("a").unwrap();
    assert!(matches!(a.data_type, DataType::Text));
    assert_eq!(a.unique_count, 0);
    assert!(a.nullable);
}

fn column_csv(name: &str, values: &[&str]) -> Vec<u8> {
    let mut data = String::from(name);
    data.push('\n');
    for value in values {
        data.push_str(value);
        data.push('\n');
    }
    data.into_bytes()
}

#[test]
fn truth_values_are_boolean_and_codes_are_integer() {
    let truths = ["true", "false", "true", "false", "true", "false", "true", "false", "true", "false"];
    let metadata = analyze(&column_csv("flag", &truths)).unwrap();
    assert!(matches!(metadata.column("flag").unwrap().data_type, DataType::Boolean));

    let codes = ["1", "2", "3", "1", "2", "3", "1", "2", "3", "1", "2", "3"];
    let metadata = analyze(&column_csv("code", &codes)).unwrap();
    assert!(matches!(metadata.column("code").unwrap().data_type, DataType::Integer));
}

#[test]
fn a_small_balanced_set_is_an_enum_without_a_score() {
    let kinds = ["Fire", "Fire", "Water", "Water", "Grass", "Grass", "Electric", "Electric", "Psychic", "Psychic"];
    let step = CSVMetadata::analyze(&column_csv("Kind", &kinds), &Thresholds::default()).unwrap();
    let metadata = match step {
        AnalysisStep::Done(metadata) => metadata,
        AnalysisStep::NeedsScore(_) => panic!("no score is needed"),
    };
    let kind = metadata.column("Kind").unwrap();
    assert!(matches!(kind.data_type, DataType::Enum));
    assert_eq!(kind.unique_count, 5);
    let sql = metadata.sql_statements.unwrap();
    assert_eq!(
        sql.create_table,
        "CREATE TYPE kind_type AS ENUM ('Fire', 'Water', 'Grass', 'Electric', 'Psychic');\nCREATE TABLE my_table (\n    Kind kind_type NOT NULL\n);"
    );
}

#[test]
fn many_categories_wait_for_their_score() {
    let words = ["a", "b", "c", "d", "e", "f", "g", "h", "i", "j"];
    let mut values: Vec<&str> = Vec::new();
    for _ in 0..30 {
        values.extend_from_slice(&words);
    }
    let data = column_csv("word", &values);
    let step = CSVMetadata::analyze(&data, &Thresholds::default()).unwrap();
    let pending = match step {
        AnalysisStep::NeedsScore(pending) => pending,
        AnalysisStep::Done(_) => panic!("a score is needed"),
    };
    assert_eq!(pending.total_count(), 300);
    assert_eq!(pending.frequencies().len(), 10);
    assert_eq!(pending.frequencies().get("c"), 30);

    let accepted = match pending.resume(700_001) {
        AnalysisStep::Done(metadata) => metadata,
        AnalysisStep::NeedsScore(_) => panic!("one column only"),
    };
    assert!(matches!(accepted.column("word").unwrap().data_type, DataType::Enum));

    let pending = match CSVMetadata::analyze(&data, &Thresholds::default()).unwrap() {
        AnalysisStep::NeedsScore(pending) => pending,
        AnalysisStep::Done(_) => panic!("a score is needed"),
    };
    let refused = match pending.resume(700_000) {
        AnalysisStep::Done(metadata) => metadata,
        AnalysisStep::NeedsScore(_) => panic!("one column only"),
    };
    assert!(matches!(refused.column("word").unwrap().data_type, DataType::Text));

    let scored = analyze(&data).unwrap();
    assert!(matches!(scored.column("word").unwrap().data_type, DataType::Enum));
}

#[test]
fn failures_have_messages() {
    let header = analyze(b"a,\xff\n1,2\n").unwrap_err();
    assert!(header.message().starts_with("Failed to read headers: CSV parse error: "));
    match &header {
        AnalysisError::HeaderRead(description) => {
            assert!(description.starts_with("CSV parse error: "));
            assert!(description.contains("invalid utf-8"));
        }
        other => panic!("unexpected {:?}", other),
    }

    let row = analyze(b"a,b\n1,2\n3\n").unwrap_err();
    match &row {
        AnalysisError::RowRead(description) => assert_eq!(&row.message(), description),
        other => panic!("unexpected {:?}", other),
    }
    assert!(row.message().contains("found record with 1 fields"));

    assert_eq!(
        AnalysisError::ColumnLookup(12).message(),
        "No header for a field of data row 12"
    );
    assert_eq!(
        AnalysisError::HeaderRead("bad".to_string()).message(),
        "Failed to read headers: bad"
    );
}

#[test]
fn quoted_fields_are_read_as_one() {
    let metadata = analyze(b"name,note\n\"Doe, Jane\",\"said \"\"hi\"\"\"\nRoe,\n").unwrap();
    assert_eq!(metadata.row_count, 2);
    assert_eq!(metadata.sample_rows[0], vec!["Doe, Jane", "said \"hi\""]);
    assert!(metadata.column("note").unwrap().nullable);
}

#[test]
fn several_columns_wait_in_turn() {
    let words = ["a", "b", "c", "d", "e", "f", "g", "h", "i", "j"];
    let mut data = String::from("id,first,flag,second\n");
    for i in 0..300 {
        let flag = if i % 2 == 0 { "yes" } else { "no" };
        data.push_str(&format!("{},{},{},{}\n", i, words[i % 10], flag, words[(i * 3) % 10]));
    }
    let config = Thresholds::default();
    let first = match CSVMetadata::analyze(data.as_bytes(), &config).unwrap() {
        AnalysisStep::NeedsScore(pending) => pending,
        AnalysisStep::Done(_) => panic!("two columns need a score"),
    };
    assert_eq!(first.frequencies().value(0), "a");
    let second = match first.resume(1_000_000) {
        AnalysisStep::NeedsScore(pending) => pending,
        AnalysisStep::Done(_) => panic!("one more column needs a score"),
    };
    assert_eq!(second.frequencies().value(1), "d");
    let metadata = match second.resume(0) {
        AnalysisStep::Done(metadata) => metadata,
        AnalysisStep::NeedsScore(_) => panic!("no column is left"),
    };
    let kinds: Vec<DataType> = metadata.columns.iter().map(|column| column.data_type).collect();
    assert_eq!(
        kinds,
        vec![DataType::Integer, DataType::Enum, DataType::Boolean, DataType::Text]
    );
    let names: Vec<&str> = metadata.columns.iter().map(|column| column.name.as_str()).collect();
    assert_eq!(names, vec!["id", "first", "flag", "second"]);
    assert_eq!(
        metadata.sql_statements.unwrap().insert_template,
        "INSERT INTO my_table (id, first, flag, second) VALUES ($1, $2, $3, $4);"
    );
}

fn sample(headers: &[&str], rows: &[&[&str]]) -> Sample {
    Sample {
        headers: headers.iter().map(|s| s.to_string()).collect(),
        rows: rows.iter().map(|row| row.iter().map(|s| s.to_string()).collect()).collect(),
    }
}

fn finish(step: AnalysisStep) -> CSVMetadata {
    let mut step = step;
    loop {
        match step {
            AnalysisStep::Done(metadata) => return metadata,
            AnalysisStep::NeedsScore(pending) => {
                let confidence = score(pending.frequencies(), pending.total_count());
                step = pending.resume(confidence);
            }
        }
    }
}

#[test]
fn given_rows_are_analysed_without_a_reader() {
    let given = sample(
        &["id", "name", "price", "quantity"],
        &[
            &["1", "Item 1", "10.50", "100"],
            &["2", "Item 2", "15.75", "200"],
            &["3", "Item 3", "20.00", "300"],
        ],
    );
    assert!(given.is_well_formed());
    let metadata = finish(analyze_sample(given, &Thresholds::default()));
    assert_eq!(metadata.row_count, 3);
    assert_eq!(metadata.column_count, 4);
    let kinds: Vec<DataType> = metadata.columns.iter().map(|column| column.data_type).collect();
    assert_eq!(
        kinds,
        vec![DataType::Integer, DataType::Text, DataType::Float, DataType::Integer]
    );
    assert_eq!(metadata.sample_rows.len(), 3);
    assert_eq!(metadata.sample_rows[1], vec!["2", "Item 2", "15.75", "200"]);
}

#[test]
fn a_short_row_leaves_its_last_columns_without_a_cell() {
    let given = sample(&["a", "b"], &[&["1", "x"], &["2"], &[]]);
    assert!(given.is_well_formed());
    let metadata = finish(analyze_sample(given, &Thresholds::default()));
    assert_eq!(metadata.row_count, 3);
    let a = metadata.column("a").unwrap();
    assert_eq!(a.unique_count, 2);
    assert!(!a.nullable);
    let b = metadata.column("b").unwrap();
    assert_eq!(b.unique_count, 1);
    assert!(!b.nullable);
}

#[test]
fn a_sample_is_well_formed_when_no_row_is_too_wide() {
    assert!(sample(&[], &[]).is_well_formed());
    assert!(sample(&["a"], &[&["1"], &[]]).is_well_formed());
    assert!(!sample(&["a"], &[&["1", "2"]]).is_well_formed());
    assert!(!sample(&[], &[&["1"]]).is_well_formed());
    let row: &[&str] = &["1"];
    let many: Vec<&[&str]> = vec![row; 1001];
    assert!(!sample(&["a"], &many).is_well_formed());
    assert!(sample(&["a"], &many[..1000]).is_well_formed());
}

#[test]
fn a_read_sample_is_the_header_and_the_rows() {
    let read = read_sample(b"a,b\n1,2\n3,4\n").unwrap();
    assert_eq!(read.headers, vec!["a", "b"]);
    assert_eq!(read.rows, vec![vec!["1", "2"], vec!["3", "4"]]);
    assert!(read.is_well_formed());
    assert!(matches!(read_sample(b""), Err(AnalysisError::HeaderRead(_))));
}
