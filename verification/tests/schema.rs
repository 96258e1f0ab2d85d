//! Schema parsing and text primitives.

use csv_converter::logic::parse_column_types;
use csv_converter::text::{parse_u8_decimal, replace_slashes, trim_str, u8_to_decimal, str_lt, str_eq, eq_ignore_case_str};
use csv_converter::types::ColType;

#[test]
fn tag_list_maps_each_piece() {
    let types = parse_column_types("int,date,kbn_list");
    assert_eq!(types, vec![ColType::Int, ColType::Date, ColType::KbnList]);
}

#[test]
fn tags_are_case_insensitive_and_trimmed() {
    let types = parse_column_types("INT, Date ,KBN_LIST");
    assert_eq!(types, vec![ColType::Int, ColType::Date, ColType::KbnList]);
}

#[test]
fn unrecognized_tags_fall_back_to_text() {
    let types = parse_column_types("str,float,,bool");
    assert_eq!(
        types,
        vec![ColType::Str, ColType::Str, ColType::Str, ColType::Str]
    );
}

#[test]
fn empty_schema_is_one_text_column() {
    let types = parse_column_types("");
    assert_eq!(types, vec![ColType::Str]);
}

#[test]
fn from_str_each_tag() {
    assert_eq!(ColType::from_str("int"), ColType::Int);
    assert_eq!(ColType::from_str("date"), ColType::Date);
    assert_eq!(ColType::from_str("kbn_list"), ColType::KbnList);
    assert_eq!(ColType::from_str("anything"), ColType::Str);
    assert_eq!(ColType::from_str("DATE"), ColType::Date);
}

#[test]
fn trim_removes_surrounding_whitespace() {
    assert_eq!(trim_str("  a b\t"), "a b");
    assert_eq!(trim_str("\r\n"), "");
    assert_eq!(trim_str("x"), "x");
}

#[test]
fn case_insensitive_compare() {
    assert!(eq_ignore_case_str("Kbn_List", "kbn_list"));
    assert!(!eq_ignore_case_str("kbn", "kbn_list"));
}

#[test]
fn slash_replacement() {
    assert_eq!(replace_slashes("2020/02/02"), "2020-02-02");
    assert_eq!(replace_slashes("no-slash"), "no-slash");
    assert_eq!(replace_slashes(""), "");
}

#[test]
fn u8_parsing_accepts_digits_up_to_255() {
    assert_eq!(parse_u8_decimal("0"), Some(0));
    assert_eq!(parse_u8_decimal("7"), Some(7));
    assert_eq!(parse_u8_decimal("255"), Some(255));
    assert_eq!(parse_u8_decimal("256"), None);
    assert_eq!(parse_u8_decimal(""), None);
    assert_eq!(parse_u8_decimal("12a"), None);
    assert_eq!(parse_u8_decimal("-1"), None);
}

#[test]
fn u8_rendering() {
    assert_eq!(u8_to_decimal(0), "0");
    assert_eq!(u8_to_decimal(9), "9");
    assert_eq!(u8_to_decimal(42), "42");
    assert_eq!(u8_to_decimal(255), "255");
}

#[test]
fn lexicographic_order_on_strings() {
    assert!(str_lt("A", "B"));
    assert!(str_lt("A", "AB"));
    assert!(!str_lt("B", "A"));
    assert!(!str_lt("A", "A"));
    assert!(str_eq("abc", "abc"));
    assert!(!str_eq("abc", "abd"));
}
