use virtual_file_system::column::{
    accumulate, analyze_column, column_metadata, could_be_enum, determine_best_type,
    non_blank_values, ColumnAnalysis,
};
use virtual_file_system::statistical_methods::Thresholds;
use virtual_file_system::types::DataType;

fn strings(values: &[&str]) -> Vec<String> {
    values.iter().map(|s| s.to_string()).collect()
}

#[test]
fn a_new_accumulator_has_every_flag_on() {
    let analysis = ColumnAnalysis::new();
    assert!(analysis.could_be_integer);
    assert!(analysis.could_be_float);
    assert!(analysis.could_be_boolean);
    assert!(analysis.could_be_enum);
    assert!(analysis.unique_values.is_empty());
    assert_eq!(analysis.total_values, 0);
    assert_eq!(analysis.non_empty_values, 0);
}

#[test]
fn flags_never_come_back_on() {
    let mut analysis = ColumnAnalysis::new();
    analysis.observe("1");
    assert!(analysis.could_be_integer && analysis.could_be_float && analysis.could_be_boolean);
    analysis.observe("2.5");
    assert!(!analysis.could_be_integer && analysis.could_be_float && !analysis.could_be_boolean);
    analysis.observe("3");
    assert!(!analysis.could_be_integer && analysis.could_be_float && !analysis.could_be_boolean);
    analysis.observe("x");
    assert!(!analysis.could_be_integer && !analysis.could_be_float);
    for value in ["1", "0", "true", "4", ""] {
        analysis.observe(value);
        assert!(!analysis.could_be_integer);
        assert!(!analysis.could_be_float);
        assert!(!analysis.could_be_boolean);
    }
    assert_eq!(analysis.total_values, 9);
    assert_eq!(analysis.non_empty_values, 8);
    assert_eq!(analysis.unique_values, strings(&["1", "2.5", "3", "x", "0", "true", "4"]));
}

#[test]
fn blank_cells_are_counted_and_nothing_else() {
    let analysis = accumulate(&strings(&["", "  ", "\t", "7", " 7"]));
    assert_eq!(analysis.total_values, 5);
    assert_eq!(analysis.non_empty_values, 2);
    assert_eq!(analysis.unique_values, strings(&["7", " 7"]));
    assert!(analysis.could_be_integer);
    assert_eq!(non_blank_values(&strings(&["", "a", " ", "b"])), strings(&["a", "b"]));
}

#[test]
fn the_order_of_the_types() {
    let config = Thresholds::default();

    let nothing = analyze_column(&strings(&["", " "]), &config, 0);
    assert_eq!(determine_best_type(&nothing), DataType::Text);

    let truths = analyze_column(&strings(&["true", "false", "true"]), &config, 0);
    assert_eq!(determine_best_type(&truths), DataType::Boolean);

    let bits = analyze_column(&strings(&["1", "0", "1", "1"]), &config, 0);
    assert_eq!(determine_best_type(&bits), DataType::Boolean);

    let codes = analyze_column(&strings(&["1", "2", "3"]), &config, 0);
    assert_eq!(determine_best_type(&codes), DataType::Integer);

    let three_words = analyze_column(&strings(&["y", "n", "t"]), &config, 0);
    assert!(three_words.could_be_boolean);
    assert_eq!(determine_best_type(&three_words), DataType::Text);

    let prices = analyze_column(&strings(&["10.50", "15.75", "20.00"]), &config, 0);
    assert_eq!(determine_best_type(&prices), DataType::Float);

    let signed = analyze_column(&strings(&["+1", "+2", "+3"]), &config, 0);
    assert_eq!(determine_best_type(&signed), DataType::Float);

    let names = analyze_column(&strings(&["Item 1", "Item 2", "Item 3"]), &config, 0);
    assert_eq!(determine_best_type(&names), DataType::Text);
}

#[test]
fn repeated_codes_are_integers_though_categorical() {
    let config = Thresholds::default();
    let generations = strings(&[
        "1", "1", "1", "2", "2", "2", "3", "3", "3", "4", "4", "5", "5", "6", "6", "7", "7",
    ]);
    assert!(could_be_enum(&generations, &config, 0));
    let analysis = analyze_column(&generations, &config, 0);
    assert!(analysis.could_be_enum);
    assert_eq!(determine_best_type(&analysis), DataType::Integer);

    let stats = strings(&[
        "45", "50", "65", "70", "80", "85", "90", "95", "100", "110", "120", "130",
    ]);
    assert!(!could_be_enum(&stats, &config, 1_000_000));
    let analysis = analyze_column(&stats, &config, 1_000_000);
    assert_eq!(determine_best_type(&analysis), DataType::Integer);
}

#[test]
fn blank_cells_do_not_count_towards_the_categories() {
    let config = Thresholds::default();
    let mut values = strings(&["a", "b", "a", "b", "a", "b", "a", "b", "a"]);
    for _ in 0..10 {
        values.push(String::new());
    }
    assert!(!could_be_enum(&values, &config, 1_000_000));
    values.push("b".to_string());
    assert!(could_be_enum(&values, &config, 0));
    let analysis = analyze_column(&values, &config, 0);
    assert_eq!(determine_best_type(&analysis), DataType::Enum);
    let metadata = column_metadata("letter", &analysis);
    assert_eq!(metadata.name, "letter");
    assert_eq!(metadata.data_type, DataType::Enum);
    assert_eq!(metadata.sample_values, strings(&["a", "b"]));
    assert!(metadata.nullable);
    assert_eq!(metadata.unique_count, 2);
    assert!(metadata.numeric_stats.is_none());
    assert!(metadata.string_stats.is_none());
}

#[test]
fn sample_values_are_the_first_five() {
    let values = strings(&["g", "f", "e", "g", "d", "c", "b", "a"]);
    let analysis = accumulate(&values);
    let metadata = column_metadata("letters", &analysis);
    assert_eq!(metadata.sample_values, strings(&["g", "f", "e", "d", "c"]));
    assert_eq!(metadata.unique_count, 7);
    assert!(!metadata.nullable);
}
