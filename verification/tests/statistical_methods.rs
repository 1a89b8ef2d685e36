use virtual_file_system::statistical_methods::{
    analyze_distribution, quick_frequency_check, Screening, Thresholds, MILLION,
};

fn strings(values: &[&str]) -> Vec<String> {
    values.iter().map(|s| s.to_string()).collect()
}

/// The thresholds with another share for a significant category.
fn with_ratio(min_category_size_ratio: u32) -> Thresholds {
    Thresholds { min_category_size_ratio, ..Thresholds::default() }
}

fn categorical_detection(config: &Thresholds) {
    let generations = strings(&[
        "1", "1", "1", "2", "2", "2", "3", "3", "3", "4", "4", "5", "5", "6", "6", "7", "7",
    ]);
    let analysis = analyze_distribution(&generations, config, 0);
    assert!(analysis.is_categorical);
    assert!(analysis.category_count < 8);

    let stats = strings(&[
        "45", "50", "65", "70", "80", "85", "90", "95", "100", "110", "120", "130",
    ]);
    let analysis = analyze_distribution(&stats, config, 0);
    assert!(!analysis.is_categorical);

    let types = strings(&[
        "Fire", "Fire", "Water", "Water", "Grass", "Grass", "Electric", "Electric", "Psychic",
        "Psychic",
    ]);
    let analysis = analyze_distribution(&types, config, 0);
    assert!(analysis.is_categorical);
    assert!(analysis.category_count < 10);
}

fn edge_cases(config: &Thresholds) {
    let single = vec!["value".to_string()];
    let analysis = analyze_distribution(&single, config, 0);
    assert!(!analysis.is_categorical);

    let unique: Vec<String> = (0..20).map(|i| i.to_string()).collect();
    let analysis = analyze_distribution(&unique, config, 0);
    assert!(!analysis.is_categorical);

    let boolean = strings(&[
        "true", "false", "true", "false", "true", "false", "true", "false", "true", "false",
    ]);
    let analysis = analyze_distribution(&boolean, config, 0);
    assert!(analysis.is_categorical);
}

#[test]
fn test_categorical_detection() {
    categorical_detection(&Thresholds::default());
}

#[test]
fn test_edge_cases() {
    edge_cases(&Thresholds::default());
}

#[test]
fn statistical_methods_test_categorical_detection() {
    categorical_detection(&with_ratio(50_000));
}

#[test]
fn statistical_methods_test_edge_cases() {
    edge_cases(&with_ratio(50_000));
}

#[test]
fn standard_thresholds() {
    let config = Thresholds::default();
    assert_eq!(config.min_total_values, 10);
    assert_eq!(config.max_categories, 20);
    assert_eq!(config.min_category_size_ratio, 20_000);
    assert_eq!(config.confidence_threshold, 700_000);
    assert_eq!(MILLION, 1_000_000);
}

#[test]
fn few_values_are_rejected_whatever_the_score() {
    let config = Thresholds::default();
    let values = strings(&["a", "a", "a", "b", "b", "b", "a", "b", "a"]);
    let check = quick_frequency_check(&values, &config);
    assert!(!check.should_analyze);
    assert_eq!(check.total_count, 9);
    assert_eq!(check.frequencies.len(), 0);
    assert_eq!(check.screen(&config), Screening::Rejected);
    let analysis = analyze_distribution(&values, &config, 1_000_000);
    assert!(!analysis.is_categorical);
    assert_eq!(analysis.confidence_score, 0);
    assert_eq!(analysis.category_count, 0);
}

#[test]
fn distinct_values_are_rejected_whatever_the_score() {
    let config = Thresholds::default();
    let values: Vec<String> = (0..15).map(|i| format!("v{}", i)).collect();
    let check = quick_frequency_check(&values, &config);
    assert!(!check.should_analyze);
    assert_eq!(check.frequencies.len(), 15);
    let analysis = analyze_distribution(&values, &config, 1_000_000);
    assert!(!analysis.is_categorical);
    assert_eq!(analysis.category_count, 15);
    assert_eq!(analysis.debug_info.repeated_count, 0);
}

#[test]
fn too_many_categories_are_rejected() {
    let config = Thresholds::default();
    let mut values: Vec<String> = Vec::new();
    for round in 0..3 {
        for i in 0..21 {
            let _ = round;
            values.push(format!("c{}", i));
        }
    }
    let check = quick_frequency_check(&values, &config);
    assert!(!check.should_analyze);
    assert_eq!(check.frequencies.len(), 21);
    assert!(!analyze_distribution(&values, &config, 1_000_000).is_categorical);
}

#[test]
fn the_tally_keeps_the_order_of_first_appearance() {
    let config = Thresholds::default();
    let values = strings(&["b", "a", "b", "c", "b", "a", "b", "c", "b", "a", "d"]);
    let check = quick_frequency_check(&values, &config);
    assert!(check.should_analyze);
    assert_eq!(check.total_count, 11);
    let table = &check.frequencies;
    assert_eq!(table.len(), 4);
    assert_eq!(table.value(0), "b");
    assert_eq!(table.count(0), 5);
    assert_eq!(table.value(3), "d");
    assert_eq!(table.counts(), vec![5, 3, 2, 1]);
    assert_eq!(table.get("a"), 3);
    assert_eq!(table.get("z"), 0);
    let analysis = analyze_distribution(&values, &config, 0);
    assert_eq!(analysis.debug_info.total_count, 11);
    assert_eq!(analysis.debug_info.repeated_count, 10);
    assert_eq!(analysis.debug_info.value_frequencies.counts(), vec![5, 3, 2, 1]);
}

/// A hundred values: nine categories of eleven, and one value that occurs once.
fn lopsided() -> Vec<String> {
    let mut values: Vec<String> = Vec::new();
    for i in 0..99 {
        values.push(format!("c{}", i % 9));
    }
    values.push("rare".to_string());
    values
}

#[test]
fn the_score_decides_what_the_screening_leaves_open() {
    let config = Thresholds::default();
    let values = lopsided();
    let check = quick_frequency_check(&values, &config);
    assert!(check.should_analyze);
    assert_eq!(check.screen(&config), Screening::Undecided);

    let analysis = analyze_distribution(&values, &config, 700_000);
    assert!(!analysis.is_categorical);
    assert_eq!(analysis.confidence_score, 700_000);

    let analysis = analyze_distribution(&values, &config, 700_001);
    assert!(analysis.is_categorical);
    assert_eq!(analysis.confidence_score, 700_001);
    assert_eq!(analysis.category_count, 10);

    let analysis = analyze_distribution(&values, &config, 5_000_000);
    assert!(analysis.is_categorical);
    assert_eq!(analysis.confidence_score, 1_000_000);
}

#[test]
fn a_small_set_with_a_rare_category_is_left_open() {
    // Two hundred values: a category below the share of two hundredths, which is four.
    let mut values: Vec<String> = Vec::new();
    for i in 0..197 {
        values.push(if i % 2 == 0 { "x".to_string() } else { "y".to_string() });
    }
    for _ in 0..3 {
        values.push("z".to_string());
    }
    let config = Thresholds::default();
    let check = quick_frequency_check(&values, &config);
    assert!(check.should_analyze);
    assert_eq!(check.screen(&config), Screening::Undecided);

    // With four of them the category is significant, and the set is accepted.
    values[0] = "z".to_string();
    let check = quick_frequency_check(&values, &config);
    assert_eq!(check.screen(&config), Screening::Categorical);
    let analysis = analyze_distribution(&values, &config, 0);
    assert!(analysis.is_categorical);
    assert_eq!(analysis.confidence_score, 1_000_000);
}

#[test]
fn no_significant_category_is_rejected() {
    // Every category has two of thirty values; the share asked for is a half.
    let config = with_ratio(500_000);
    let values: Vec<String> = (0..30).map(|i| format!("c{}", i % 15)).collect();
    let check = quick_frequency_check(&values, &config);
    assert!(!check.should_analyze);
    assert_eq!(check.screen(&config), Screening::Rejected);
}
