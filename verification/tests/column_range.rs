use sd8viz_cli::column_range::{ColumnRange, ColumnRangeError};

#[test]
fn test_column_range_new() {
    let range = ColumnRange::new("Sheet1", "A", "Z");
    assert_eq!(range.sheet_name, "Sheet1");
    assert_eq!(range.start_col, "A");
    assert_eq!(range.end_col, "Z");
}

#[test]
fn test_to_api_string_basic() {
    let range = ColumnRange::new("Sheet1", "A", "C");
    // "Sheet1!A:C" -> "Sheet1%21A%3AC"
    assert_eq!(range.to_api_string(), "Sheet1%21A%3AC");
}

#[test]
fn test_to_api_string_with_spaces() {
    let range = ColumnRange::new("My Sheet", "B", "AA");
    // "My Sheet!B:AA" -> "My%20Sheet%21B%3AAA"
    assert_eq!(range.to_api_string(), "My%20Sheet%21B%3AAA");
}

#[test]
fn test_try_from_vec_success() {
    let params = vec!["Data".to_string(), "A".to_string(), "F".to_string()];
    let range = ColumnRange::try_from(&params).expect("Should succeed with 3 params");
    assert_eq!(range.sheet_name, "Data");
    assert_eq!(range.start_col, "A");
    assert_eq!(range.end_col, "F");
}

#[test]
fn test_try_from_vec_wrong_length() {
    let params = vec!["Sheet1".to_string(), "A".to_string()];
    let result = ColumnRange::try_from(&params);
    assert!(result.is_err());
    assert_eq!(
        result.unwrap_err().message(),
        "Expecting 3 parameters for column range, found 2"
    );
}

#[test]
fn try_from_too_many_values_reports_the_count() {
    let params: Vec<String> = (0..12).map(|i| i.to_string()).collect();
    let err = ColumnRange::try_from(&params).unwrap_err();
    assert_eq!(err, ColumnRangeError::WrongParameterCount { found: 12 });
    assert_eq!(err.message(), "Expecting 3 parameters for column range, found 12");
}

#[test]
fn try_from_no_values() {
    let params: Vec<String> = Vec::new();
    let err = ColumnRange::try_from(&params).unwrap_err();
    assert_eq!(err.message(), "Expecting 3 parameters for column range, found 0");
}

#[test]
fn to_api_string_encodes_non_ascii_and_reserved_bytes() {
    // É is C3 89 in UTF-8; '/' and '&' are reserved; '-', '.', '_', '~' are kept.
    let range = ColumnRange::new("É/&-._~", "A", "B");
    assert_eq!(range.to_api_string(), "%C3%89%2F%26-._~%21A%3AB");
}

#[test]
fn to_api_string_is_url_safe() {
    let range = ColumnRange::new("Données 2024 (v2)", "A", "ZZ");
    let encoded = range.to_api_string();
    assert!(encoded
        .chars()
        .all(|c| c.is_ascii_alphanumeric() || "-._~%".contains(c)));
}

#[test]
fn to_api_string_decodes_back_to_the_range() {
    let range = ColumnRange::new("Données 2024 (v2)!", "B", "AA");
    let decoded = urlencoding::decode(&range.to_api_string()).unwrap().into_owned();
    assert_eq!(decoded, "Données 2024 (v2)!!B:AA");
}
