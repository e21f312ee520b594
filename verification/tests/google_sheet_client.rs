use sd8viz_cli::column_range::ColumnRange;
use sd8viz_cli::google_sheet_client::{
    rows_to_records, FetchAction, FetchError, FetchEvent, FetchStage, GoogleSheetClient, RowWarning,
    SheetFetch, SheetRecords, TransformError,
};
use sd8viz_cli::json::{JsonObject, JsonValue};

fn s(text: &str) -> JsonValue {
    JsonValue::Str(text.to_string())
}

fn arr(items: Vec<JsonValue>) -> JsonValue {
    JsonValue::Array(items)
}

fn row(cells: &[&str]) -> JsonValue {
    arr(cells.iter().map(|c| s(c)).collect())
}

fn obj(entries: Vec<(&str, JsonValue)>) -> JsonValue {
    JsonValue::Object(JsonObject {
        entries: entries.into_iter().map(|(k, v)| (k.to_string(), v)).collect(),
    })
}

fn field<'a>(record: &'a JsonObject, key: &str) -> &'a JsonValue {
    record.get(&key.to_string()).expect("record should have the key")
}

fn text(value: &JsonValue) -> &str {
    match value {
        JsonValue::Str(t) => t.as_str(),
        other => panic!("expected a string, got {:?}", other),
    }
}

fn records(values: JsonValue) -> SheetRecords {
    rows_to_records(values).expect("values should turn into records")
}

/// Drives a fetch up to the point where the answer's JSON is handed in.
fn fetch_until_body(client: &GoogleSheetClient, fetch: &mut SheetFetch) {
    match fetch.step(client, FetchEvent::Begin) {
        FetchAction::SendRequest { .. } => {}
        other => panic!("expected a request, got {:?}", other),
    }
    match fetch.step(client, FetchEvent::Responded { status: 200, status_text: "200 OK".to_string() }) {
        FetchAction::ReadJsonBody => {}
        other => panic!("expected to read the body, got {:?}", other),
    }
}

fn test_fetch() -> (GoogleSheetClient, SheetFetch) {
    let client = GoogleSheetClient::new("test-token".to_string(), Some("http://127.0.0.1:9"));
    let fetch = client.begin_fetch("test-id", &ColumnRange::new("Sheet1", "A", "B"));
    (client, fetch)
}

fn finish_error(action: FetchAction) -> FetchError {
    match action {
        FetchAction::Finish(Err(e)) => e,
        other => panic!("expected the fetch to fail, got {:?}", other),
    }
}

#[test]
fn test_new_with_none() {
    let client = GoogleSheetClient::new(String::new(), None::<&str>);
    assert_eq!(client.base_url, "https://sheets.googleapis.com");
}

#[test]
fn test_new_with_argument() {
    let client = GoogleSheetClient::new(String::new(), Some("https://test.com"));
    assert_eq!(client.base_url, "https://test.com");
}

#[test]
fn test_transform_to_typed() {
    let input = arr(vec![row(&["name", "value"]), row(&["Alice", "Alpha"]), row(&["Bob", "Beta"])]);

    let result = records(input);

    assert_eq!(result.records.len(), 2);
    assert_eq!(text(field(&result.records[0], "name")), "Alice");
    assert_eq!(text(field(&result.records[0], "value")), "Alpha");
    assert_eq!(text(field(&result.records[1], "name")), "Bob");
    assert_eq!(text(field(&result.records[1], "value")), "Beta");
}

#[test]
fn test_transform_to_typed_not_json_array() {
    let input = obj(vec![("z", s("y"))]);

    let err = rows_to_records(input).unwrap_err();
    assert!(err.message().starts_with("Unexpected Google Sheet format, expected array"));
}

#[test]
fn test_transform_to_typed_empty_array() {
    let input = arr(vec![]);

    let err = rows_to_records(input).expect_err("Expect Err Result when payload is not JSON array, but got Ok");
    assert!(err.message().starts_with("No rows found, is the Google Sheet empty?"));
}

#[test]
fn test_transform_to_typed_no_headers() {
    let input = arr(vec![
        arr(vec![obj(vec![("no", s("headers"))])]),
        row(&["Alice", "Alpha"]),
        row(&["Bob", "Beta"]),
    ]);

    let err = rows_to_records(input).unwrap_err();
    assert!(err.message().starts_with("Failed to deserialize headers from fetched Google Sheet"));
}

#[test]
fn test_transform_to_typed_invalid_json_cell() {
    // The records are built; the cell that is an object is what the row type
    // rejects, and the fetch reports that rejection.
    let input = arr(vec![
        row(&["header1", "header2"]),
        arr(vec![s("Alice"), obj(vec![("Alpha", s("Beta"))])]),
        row(&["Bob", "Beta"]),
    ]);
    let (client, mut fetch) = test_fetch();
    fetch_until_body(&client, &mut fetch);
    match fetch.step(&client, FetchEvent::BodyParsed(obj(vec![("values", input)]))) {
        FetchAction::ReadRows(out) => {
            assert_eq!(out.records.len(), 2);
            assert!(matches!(field(&out.records[0], "header2"), JsonValue::Object(_)));
        }
        other => panic!("expected the records, got {:?}", other),
    }
    let err = finish_error(fetch.step(&client, FetchEvent::RowsRejected));
    assert!(err
        .cause()
        .unwrap()
        .message()
        .starts_with("Failed to deserialize Google Sheet rows containing contact information"));
}

#[test]
fn test_transform_to_typed_empty_values() {
    let input = arr(vec![row(&["name", "value"]), row(&["Alice"])]);

    let result = records(input);
    assert_eq!(result.records.len(), 1);
    assert_eq!(text(field(&result.records[0], "name")), "Alice");
    assert_eq!(text(field(&result.records[0], "value")), "");
}

#[test]
fn later_column_wins_for_a_repeated_header() {
    let result = records(arr(vec![row(&["a", "b", "a"]), row(&["1", "2", "3"])]));
    let record = &result.records[0];
    assert_eq!(record.len(), 2);
    assert_eq!(text(field(record, "a")), "3");
    assert_eq!(text(field(record, "b")), "2");
}

#[test]
fn long_row_is_cut_and_reported() {
    let result = records(arr(vec![
        row(&["Precinct", "Status"]),
        row(&["2-01"]),
        row(&["2-02", "xyz"]),
        row(&["3-02", "abc", "def"]),
    ]));
    assert_eq!(result.records.len(), 3);
    assert_eq!(result.records[2].len(), 2);
    assert_eq!(text(field(&result.records[2], "Status")), "abc");
    assert_eq!(result.warnings, vec![RowWarning::ExtraValues { values: 3, headers: 2 }]);
    assert_eq!(
        result.warnings[0].message(),
        "Warning: Row has 3 values, but only 2 headers defined. Extra values will be ignored."
    );
}

#[test]
fn row_that_is_not_an_array_is_left_out_and_reported() {
    let result = records(arr(vec![
        row(&["Precinct", "Status"]),
        row(&["2-01"]),
        obj(vec![]),
        row(&["3-02", "abc"]),
    ]));
    assert_eq!(result.records.len(), 2);
    assert_eq!(text(field(&result.records[1], "Precinct")), "3-02");
    assert_eq!(result.warnings, vec![RowWarning::NotAnArray]);
    assert_eq!(result.warnings[0].message(), "Row is not an array, will be ignored.");
}

#[test]
fn header_row_only_gives_no_records() {
    let result = records(arr(vec![row(&["Precinct"])]));
    assert!(result.records.is_empty());
    assert!(result.warnings.is_empty());
}

#[test]
fn fetch_sends_the_values_request() {
    let client = GoogleSheetClient::new("test-token".to_string(), Some("https://test.com"));
    let mut fetch = client.begin_fetch("test-id", &ColumnRange::new("Sheet1", "A", "B"));
    assert_eq!(fetch.stage, FetchStage::Start);
    match fetch.step(&client, FetchEvent::Begin) {
        FetchAction::SendRequest { url, authorization, content_type } => {
            assert_eq!(url, "https://test.com/v4/spreadsheets/test-id/values/Sheet1%21A%3AB");
            assert_eq!(authorization, "Bearer test-token");
            assert_eq!(content_type, "application/json");
        }
        other => panic!("expected a request, got {:?}", other),
    }
    assert_eq!(fetch.stage, FetchStage::AwaitingResponse);
}

#[test]
fn fetch_happy_path_hands_out_records_then_succeeds() {
    let (client, mut fetch) = test_fetch();
    fetch_until_body(&client, &mut fetch);
    let body = obj(vec![("values", arr(vec![row(&["Precinct"]), row(&["2-01"]), row(&["3-02"])]))]);
    match fetch.step(&client, FetchEvent::BodyParsed(body)) {
        FetchAction::ReadRows(out) => {
            assert_eq!(out.records.len(), 2);
            assert_eq!(text(field(&out.records[0], "Precinct")), "2-01");
            assert_eq!(text(field(&out.records[1], "Precinct")), "3-02");
        }
        other => panic!("expected the records, got {:?}", other),
    }
    assert!(matches!(fetch.step(&client, FetchEvent::RowsRead), FetchAction::Finish(Ok(()))));
    assert_eq!(fetch.stage, FetchStage::Finished);
}

#[test]
fn fetch_reports_a_failed_send() {
    let (client, mut fetch) = test_fetch();
    fetch.step(&client, FetchEvent::Begin);
    let err = finish_error(fetch.step(&client, FetchEvent::SendFailed));
    assert!(err.message().starts_with("Failure sending request to fetch Google Sheet"));
    assert_eq!(
        err.message(),
        "Failure sending request to fetch Google Sheet id test-id, range Sheet1%21A%3AB"
    );
}

#[test]
fn fetch_reports_an_unsuccessful_status() {
    let (client, mut fetch) = test_fetch();
    fetch.step(&client, FetchEvent::Begin);
    let event = FetchEvent::Responded { status: 500, status_text: "500 Internal Server Error".to_string() };
    let err = finish_error(fetch.step(&client, event));
    assert!(err.message().starts_with("Unsuccessful return code"));
    assert_eq!(
        err.message(),
        "Unsuccessful return code 500 Internal Server Error fetching Google Sheet id test-id, range Sheet1%21A%3AB"
    );
}

#[test]
fn fetch_accepts_every_2xx_status() {
    let (client, mut fetch) = test_fetch();
    fetch.step(&client, FetchEvent::Begin);
    let event = FetchEvent::Responded { status: 299, status_text: "299".to_string() };
    assert!(matches!(fetch.step(&client, event), FetchAction::ReadJsonBody));
}

#[test]
fn fetch_reports_a_body_that_is_not_json() {
    let (client, mut fetch) = test_fetch();
    fetch_until_body(&client, &mut fetch);
    let err = finish_error(fetch.step(&client, FetchEvent::BodyNotJson));
    assert!(err.message().starts_with("Failed to parse JSON of Google Sheet"));
}

#[test]
fn fetch_reports_a_missing_values_property() {
    let (client, mut fetch) = test_fetch();
    fetch_until_body(&client, &mut fetch);
    let body = obj(vec![(
        "not-values-property",
        arr(vec![row(&["name", "value"]), row(&["item1", "100"])]),
    )]);
    let err = finish_error(fetch.step(&client, FetchEvent::BodyParsed(body)));
    assert!(err.message().starts_with("No values property found in Google Sheet JSON"));
}

#[test]
fn fetch_of_an_empty_sheet_fails_to_deserialize() {
    let (client, mut fetch) = test_fetch();
    fetch_until_body(&client, &mut fetch);
    let err = finish_error(fetch.step(&client, FetchEvent::BodyParsed(obj(vec![("values", arr(vec![]))]))));
    assert!(err.message().starts_with("Failed to deserialize Google Sheet"));
    assert_eq!(err.cause().unwrap().message(), TransformError::NoRows.message());
}

#[test]
fn fetch_expects_events_in_order() {
    let (client, mut fetch) = test_fetch();
    assert!(fetch.expects_event(&FetchEvent::Begin));
    assert!(!fetch.expects_event(&FetchEvent::RowsRead));
    fetch.step(&client, FetchEvent::Begin);
    assert!(!fetch.expects_event(&FetchEvent::Begin));
    assert!(fetch.expects_event(&FetchEvent::SendFailed));
}

#[test]
fn a_row_that_is_not_an_array_only_adds_a_warning() {
    let sheet = |with_extra: bool| {
        let mut rows = vec![row(&["Precinct", "Status"]), row(&["2-01", "x", "y"]), row(&["3-02"])];
        if with_extra {
            rows.insert(2, s("not a row"));
        }
        records(arr(rows))
    };
    let plain = sheet(false);
    let more = sheet(true);
    assert_eq!(plain.records.len(), more.records.len());
    for (a, b) in plain.records.iter().zip(more.records.iter()) {
        assert_eq!(text(field(a, "Precinct")), text(field(b, "Precinct")));
        assert_eq!(text(field(a, "Status")), text(field(b, "Status")));
    }
    assert_eq!(plain.warnings, vec![RowWarning::ExtraValues { values: 3, headers: 2 }]);
    assert_eq!(
        more.warnings,
        vec![RowWarning::ExtraValues { values: 3, headers: 2 }, RowWarning::NotAnArray]
    );
}
