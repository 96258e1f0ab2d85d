//! End-to-end conversion runs against a real in-memory worksheet.

use csv_converter::categories::{domain_contains, fits_list_limit, normalized_domain, CategoryAccumulator};
use csv_converter::logic::{convert_records, defs_from_types, parse_column_types};
use csv_converter::types::{ColDefinition, ColType};
use rust_xlsxwriter::Workbook;

fn rows(data: &[&[&str]]) -> Vec<Vec<String>> {
    data.iter()
        .map(|r| r.iter().map(|s| s.to_string()).collect())
        .collect()
}

#[test]
fn three_records_discovery_mode() {
    let mut workbook = Workbook::new();
    let worksheet = workbook.add_worksheet();
    let types = parse_column_types("int,date,kbn_list");
    let defs = defs_from_types(&types);
    let records = rows(&[
        &["1", "2020-01-01", "A"],
        &["2", "2020/02/02", "B"],
        &["3", "bad-date", "C"],
    ]);
    let summary = convert_records(worksheet, &records, &defs, 0).unwrap();
    assert_eq!(summary.max_data_row, Some(2));
    assert_eq!(summary.validation_lists.len(), 3);
    assert_eq!(summary.validation_lists[0], None);
    assert_eq!(summary.validation_lists[1], None);
    assert_eq!(
        summary.validation_lists[2],
        Some(vec!["A".to_string(), "B".to_string(), "C".to_string()])
    );
}

#[test]
fn empty_input_emits_no_validation() {
    let mut workbook = Workbook::new();
    let worksheet = workbook.add_worksheet();
    let types = parse_column_types("int,date,kbn_list");
    let defs = defs_from_types(&types);
    let records: Vec<Vec<String>> = Vec::new();
    let summary = convert_records(worksheet, &records, &defs, 0).unwrap();
    assert_eq!(summary.max_data_row, None);
    assert_eq!(summary.validation_lists, vec![None, None, None]);
}

#[test]
fn header_only_input_emits_no_validation() {
    let mut workbook = Workbook::new();
    let worksheet = workbook.add_worksheet();
    let types = parse_column_types("kbn_list");
    let defs = defs_from_types(&types);
    let records = rows(&[&["category"]]);
    let summary = convert_records(worksheet, &records, &defs, 1).unwrap();
    assert_eq!(summary.max_data_row, None);
    assert_eq!(summary.validation_lists, vec![None]);
}

#[test]
fn discovery_values_are_sorted_and_deduplicated() {
    let mut workbook = Workbook::new();
    let worksheet = workbook.add_worksheet();
    let types = parse_column_types("kbn_list");
    let defs = defs_from_types(&types);
    let records = rows(&[&["kbn"], &["B"], &["A"], &["B"], &[""], &["A"]]);
    let summary = convert_records(worksheet, &records, &defs, 1).unwrap();
    assert_eq!(summary.max_data_row, Some(5));
    assert_eq!(
        summary.validation_lists[0],
        Some(vec!["A".to_string(), "B".to_string()])
    );
}

#[test]
fn oversized_discovered_list_is_skipped() {
    let mut workbook = Workbook::new();
    let worksheet = workbook.add_worksheet();
    let types = parse_column_types("kbn_list");
    let defs = defs_from_types(&types);
    let long_value = "x".repeat(300);
    let records = vec![vec![long_value]];
    let summary = convert_records(worksheet, &records, &defs, 0).unwrap();
    assert_eq!(summary.max_data_row, Some(0));
    assert_eq!(summary.validation_lists[0], None);
}

#[test]
fn fixed_domain_dropdown_is_the_domain_itself() {
    let mut workbook = Workbook::new();
    let worksheet = workbook.add_worksheet();
    let defs = vec![ColDefinition {
        width: Some(12),
        col_type: ColType::KbnList,
        kbn_values: Some(vec![3, 1, 2, 3]),
    }];
    // observed data does not influence the fixed-domain list
    let records = rows(&[&["9"], &["not a number"], &["2"]]);
    let summary = convert_records(worksheet, &records, &defs, 0).unwrap();
    assert_eq!(summary.max_data_row, Some(2));
    assert_eq!(
        summary.validation_lists[0],
        Some(vec!["1".to_string(), "2".to_string(), "3".to_string()])
    );
}

#[test]
fn empty_fixed_domain_is_skipped() {
    let mut workbook = Workbook::new();
    let worksheet = workbook.add_worksheet();
    let defs = vec![ColDefinition {
        width: None,
        col_type: ColType::KbnList,
        kbn_values: Some(Vec::new()),
    }];
    let records = rows(&[&["1"]]);
    let summary = convert_records(worksheet, &records, &defs, 0).unwrap();
    assert_eq!(summary.validation_lists[0], None);
}

#[test]
fn excess_fields_fall_back_to_text_columns() {
    let mut workbook = Workbook::new();
    let worksheet = workbook.add_worksheet();
    let types = parse_column_types("int");
    let defs = defs_from_types(&types);
    let records = rows(&[&["1", "extra", "more"]]);
    let summary = convert_records(worksheet, &records, &defs, 0).unwrap();
    assert_eq!(summary.max_data_row, Some(0));
}

#[test]
fn run_survives_unparsable_fields() {
    let mut workbook = Workbook::new();
    let worksheet = workbook.add_worksheet();
    let types = parse_column_types("int,date");
    let defs = defs_from_types(&types);
    let records = rows(&[&["not a number", "not a date"], &["1.5", "2021-12-31"]]);
    assert!(convert_records(worksheet, &records, &defs, 0).is_ok());
}

#[test]
fn accumulator_keeps_values_sorted_and_distinct() {
    let mut acc = CategoryAccumulator::new(2);
    acc.insert_value(0, "pear");
    acc.insert_value(0, "apple");
    acc.insert_value(0, "pear");
    acc.insert_value(1, "zebra");
    assert_eq!(acc.cols[0], vec!["apple".to_string(), "pear".to_string()]);
    assert_eq!(acc.cols[1], vec!["zebra".to_string()]);
}

#[test]
fn domain_normalization_sorts_and_deduplicates() {
    let nd = normalized_domain(&vec![3, 1, 2, 3, 1]);
    assert_eq!(nd, vec![1, 2, 3]);
    assert!(domain_contains(&nd, 2));
    assert!(!domain_contains(&nd, 4));
}

#[test]
fn list_limit_guard_counts_joined_length() {
    // single value of 255 characters joins to exactly the limit
    let ok = vec!["y".repeat(255)];
    assert!(fits_list_limit(&ok));
    let too_long = vec!["y".repeat(256)];
    assert!(!fits_list_limit(&too_long));
    // separators count: 128 two-character values join to 128*2 + 127 = 383
    let many: Vec<String> = (0..128).map(|_| "ab".to_string()).collect();
    assert!(!fits_list_limit(&many));
    // doubled quotes count twice
    let quotes = vec!["\"".repeat(128)];
    assert!(!fits_list_limit(&quotes));
    let fewer_quotes = vec!["\"".repeat(127)];
    assert!(fits_list_limit(&fewer_quotes));
}

#[test]
fn saved_workbook_round_trips_through_the_writer() {
    let mut workbook = Workbook::new();
    let worksheet = workbook.add_worksheet();
    let types = parse_column_types("int,date,kbn_list");
    let defs = defs_from_types(&types);
    let records = rows(&[
        &["id", "when", "kind"],
        &["1", "2020-01-01", "A"],
        &["2.25", "2020/02/02", "B"],
    ]);
    let summary = convert_records(worksheet, &records, &defs, 1).unwrap();
    assert_eq!(summary.max_data_row, Some(2));
    let saved = workbook.save_to_buffer().unwrap();
    assert!(!saved.is_empty());
}
