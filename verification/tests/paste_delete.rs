use mynosql_ui::json::{JsonValue, PARTITION_KEY, ROW_KEY};
use mynosql_ui::paste::{paste_delete_plan, paste_input_text, parse_paste_delete_input};
use mynosql_ui::dialogs::{bulk_preview, paste_preview, PREVIEW_LIMIT};

fn s(x: &str) -> String {
    x.to_string()
}

fn item(pk: &str, rk: &str) -> JsonValue {
    JsonValue::Object(vec![
        (s(PARTITION_KEY), JsonValue::Str(s(pk))),
        (s(ROW_KEY), JsonValue::Str(s(rk))),
    ])
}

fn err(doc: JsonValue) -> String {
    match paste_delete_plan(&doc) {
        Err(e) => e,
        Ok(_) => panic!("expected an error"),
    }
}

#[test]
fn empty_paste_is_refused() {
    assert_eq!(paste_input_text("   \n\t ").unwrap_err(), "Input is empty.");
    assert_eq!(paste_input_text("  [1] ").unwrap(), "[1]");
}

#[test]
fn groups_rows_by_partition_in_key_order() {
    let doc = JsonValue::Array(vec![item("b", "1"), item("a", "2"), item("b", "3"), item("c", "4")]);
    let (groups, total, touched) = paste_delete_plan(&doc).unwrap();
    assert_eq!(
        groups,
        vec![
            (s("a"), vec![s("2")]),
            (s("b"), vec![s("1"), s("3")]),
            (s("c"), vec![s("4")]),
        ]
    );
    assert_eq!(total, 4);
    assert_eq!(touched, 3);
    let rows: usize = groups.iter().map(|(_, r)| r.len()).sum();
    assert_eq!(rows, total);
}

#[test]
fn extra_entries_are_ignored() {
    let doc = JsonValue::Array(vec![JsonValue::Object(vec![
        (s("TimeStamp"), JsonValue::Number(s("5"))),
        (s(ROW_KEY), JsonValue::Str(s("r"))),
        (s(PARTITION_KEY), JsonValue::Str(s("p"))),
    ])]);
    let (groups, total, touched) = paste_delete_plan(&doc).unwrap();
    assert_eq!(groups, vec![(s("p"), vec![s("r")])]);
    assert_eq!((total, touched), (1, 1));
}

#[test]
fn top_level_must_be_an_array() {
    assert_eq!(err(JsonValue::Object(vec![])), "Top-level JSON must be an array.");
    assert_eq!(err(JsonValue::Null), "Top-level JSON must be an array.");
}

#[test]
fn array_must_not_be_empty() {
    assert_eq!(err(JsonValue::Array(vec![])), "Array is empty.");
}

#[test]
fn item_errors_name_the_first_bad_item() {
    assert_eq!(
        err(JsonValue::Array(vec![item("a", "1"), JsonValue::Number(s("3")), JsonValue::Null])),
        "Item #1 is not an object (expected { PartitionKey, RowKey })."
    );
    assert_eq!(
        err(JsonValue::Array(vec![JsonValue::Object(vec![(s(ROW_KEY), JsonValue::Str(s("1")))])])),
        "Item #0 is missing a string \"PartitionKey\" field."
    );
    assert_eq!(
        err(JsonValue::Array(vec![JsonValue::Object(vec![
            (s(PARTITION_KEY), JsonValue::Str(s("a"))),
            (s(ROW_KEY), JsonValue::Number(s("1"))),
        ])])),
        "Item #0 is missing a string \"RowKey\" field."
    );
    assert_eq!(
        err(JsonValue::Array(vec![item("a", "1"), item("", "2")])),
        "Item #1: PartitionKey is empty."
    );
    assert_eq!(
        err(JsonValue::Array(vec![item("a", ""), item("", "2")])),
        "Item #0: RowKey is empty."
    );
}

#[test]
fn previews_stop_at_the_limit() {
    let keys: Vec<String> = (0..60).map(|i| i.to_string()).collect();
    let (shown, extra) = bulk_preview(&keys);
    assert_eq!(shown.len(), PREVIEW_LIMIT);
    assert_eq!(shown[49], "49");
    assert_eq!(extra, 10);
    let (shown, extra) = bulk_preview(&vec![s("x")]);
    assert_eq!((shown, extra), (vec![s("x")], 0));

    let groups = vec![(s("a"), (0..30).map(|i| i.to_string()).collect::<Vec<_>>()), (s("b"), (0..30).map(|i| i.to_string()).collect())];
    let (pairs, extra) = paste_preview(&groups, 60);
    assert_eq!(pairs.len(), 50);
    assert_eq!(pairs[29], (s("a"), s("29")));
    assert_eq!(pairs[30], (s("b"), s("0")));
    assert_eq!(extra, 10);
    let (pairs, extra) = paste_preview(&vec![(s("a"), vec![s("1")])], 1);
    assert_eq!(pairs, vec![(s("a"), s("1"))]);
    assert_eq!(extra, 0);
}

#[test]
fn pasted_text_is_trimmed_parsed_and_planned() {
    assert_eq!(parse_paste_delete_input(" \n\t ").unwrap_err(), "Input is empty.");
    let e = parse_paste_delete_input("[{").unwrap_err();
    assert!(e.starts_with("Invalid JSON: "), "{}", e);
    assert_eq!(parse_paste_delete_input(" {} ").unwrap_err(), "Top-level JSON must be an array.");
    let (groups, total, touched) = parse_paste_delete_input(
        "\n [ {\"PartitionKey\": \"b\", \"RowKey\": \"1\"}, {\"RowKey\": \"2\", \"PartitionKey\": \"a\"}, {\"PartitionKey\": \"b\", \"RowKey\": \"3\", \"X\": 5} ] ",
    )
    .unwrap();
    assert_eq!(groups, vec![(s("a"), vec![s("2")]), (s("b"), vec![s("1"), s("3")])]);
    assert_eq!((total, touched), (3, 2));
    assert_eq!(
        parse_paste_delete_input("[{\"PartitionKey\": 1, \"RowKey\": \"2\"}]").unwrap_err(),
        "Item #0 is missing a string \"PartitionKey\" field."
    );
}
