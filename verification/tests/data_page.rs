use mynosql_ui::data_page::{
    build_writer_tables, derive_table_connectivity, derive_table_metrics, derive_table_stats,
    empty_state_chips, single_partition_jump, table_header_meta,
};
use mynosql_ui::data_rows::{build_rows_state, filter_rows, find_row, DataRow};
use mynosql_ui::data_state::{DataState, DialogState, DEFAULT_PAGE_SIZE};
use mynosql_ui::data_view::{data_view, DrawerView};
use mynosql_ui::dialogs::{compression_labels, DeleteRequest};
use mynosql_ui::json::{compact_json, get_string_field, keys_of, JsonValue, PARTITION_KEY, ROW_KEY};
use mynosql_ui::models::{
    InitializedApiModel, PartitionMetricApiModel, ReaderApiModel, StatusApiModel, TableApiModel,
    TableListItemApiModel, WriterApiModel,
};

fn s(x: &str) -> String {
    x.to_string()
}

fn row(pk: &str, rk: &str, extra: &[&str]) -> DataRow {
    let mut entries = vec![
        (s(PARTITION_KEY), JsonValue::Str(s(pk))),
        (s(ROW_KEY), JsonValue::Str(s(rk))),
    ];
    for k in extra {
        entries.push((s(k), JsonValue::Number(s("1"))));
    }
    DataRow { value: JsonValue::Object(entries) }
}

fn metric(pk: &str) -> PartitionMetricApiModel {
    PartitionMetricApiModel { partition_key: s(pk), records_count: 1, data_size: 2 }
}

fn loaded_state() -> DataState {
    let mut st = DataState::default();
    st.begin_table_load("t");
    st.begin_rows_load("t", "p");
    st.set_rows("t", "p", vec![row("p", "r1", &["Name"]), row("p", "r2", &["Age", "Name"]), row("p", "R3", &[])]);
    st
}

#[test]
fn json_fields_and_keys() {
    let r = row("p", "r", &["X"]);
    assert_eq!(get_string_field(&r.value, ROW_KEY), Some(s("r")));
    assert_eq!(get_string_field(&r.value, "X"), None);
    assert_eq!(get_string_field(&JsonValue::Null, ROW_KEY), None);
    assert_eq!(keys_of(&r.value), vec![s("PartitionKey"), s("RowKey"), s("X")]);
    assert!(keys_of(&JsonValue::Bool(true)).is_empty());
}

#[test]
fn headers_put_the_fixed_columns_first() {
    let rows = vec![row("p", "1", &["Name", "TimeStamp"]), row("p", "2", &["Age", "Name"]), DataRow { value: JsonValue::Null }];
    let (headers, rows) = build_rows_state(rows);
    assert_eq!(headers, vec![s("PartitionKey"), s("RowKey"), s("TimeStamp"), s("Name"), s("Age")]);
    assert_eq!(rows.len(), 3);
    let (headers, _) = build_rows_state(vec![]);
    assert_eq!(headers, vec![s("PartitionKey"), s("RowKey"), s("TimeStamp")]);
}

#[test]
fn row_filter_and_lookup() {
    let rows = vec![row("p", "Alpha", &[]), row("p", "beta", &[]), row("p", "ALPHABET", &[])];
    assert_eq!(filter_rows(&rows, "alpha"), vec![0, 2]);
    assert_eq!(filter_rows(&rows, ""), vec![0, 1, 2]);
    assert_eq!(find_row(&rows, "beta"), Some(1));
    assert_eq!(find_row(&rows, "BETA"), None);
}

#[test]
fn fresh_state() {
    let st = DataState::default();
    assert!(!st.tables_loaded);
    assert_eq!(st.page_size, DEFAULT_PAGE_SIZE);
    assert_eq!(st.current_page, 0);
    assert!(st.dialog.is_none());
}

#[test]
fn table_load_drops_rows_and_checks() {
    let mut st = loaded_state();
    st.toggle_row_check(s("r1"));
    st.set_page(3);
    assert!(!st.needs_table_load("t"));
    assert!(st.needs_table_load("u"));
    st.begin_table_load("u");
    assert!(st.rows.is_empty());
    assert!(st.headers.is_empty());
    assert!(!st.rows_ready);
    assert!(st.loaded_rows_for.is_none());
    assert!(st.checked_keys.is_empty());
    assert_eq!(st.current_page, 0);
    assert_eq!(st.loaded_for_table, Some(s("u")));
}

#[test]
fn stale_partition_details_are_ignored() {
    let mut st = DataState::default();
    st.begin_table_load("t");
    st.set_partition_details("other", vec![metric("x")]);
    assert!(st.partitions.is_none());
    st.set_partition_details("t", vec![metric("b"), metric("a")]);
    assert_eq!(st.partitions, Some(vec![s("b"), s("a")]));
    assert_eq!(st.partition_metrics.len(), 2);
}

#[test]
fn stale_rows_are_ignored() {
    let mut st = DataState::default();
    st.begin_rows_load("t", "p");
    st.set_rows("t", "q", vec![row("q", "1", &[])]);
    assert!(st.rows.is_empty());
    assert!(!st.rows_ready);
    st.set_rows("t", "p", vec![row("p", "1", &["Z"])]);
    assert!(st.rows_ready);
    assert_eq!(st.rows.len(), 1);
    assert_eq!(st.headers, vec![s("PartitionKey"), s("RowKey"), s("TimeStamp"), s("Z")]);
    st.clear_rows_scope();
    assert!(st.loaded_rows_for.is_none());
    assert!(!st.rows_ready);
}

#[test]
fn page_size_is_never_zero() {
    let mut st = DataState::default();
    st.set_page(4);
    st.set_page_size(0);
    assert_eq!(st.page_size, 1);
    assert_eq!(st.current_page, 0);
    st.set_page(2);
    st.reset_pagination();
    assert_eq!(st.current_page, 0);
    st.set_page_size(200);
    assert_eq!(st.page_size, 200);
}

#[test]
fn dialogs_clear_stale_errors() {
    let mut st = DataState::default();
    st.open_dialog(DialogState::DeleteOne { partition_key: s("p"), row_key: s("r") });
    st.set_write_error(s("write access is disabled"));
    assert_eq!(st.write_error, Some(s("write access is disabled")));
    st.open_dialog(DialogState::DeleteOne { partition_key: s("p"), row_key: s("r") });
    assert!(st.write_error.is_none());
    st.set_write_error(s("again"));
    st.close_dialog();
    assert!(st.dialog.is_none());
    assert!(st.write_error.is_none());
}

#[test]
fn toggling_a_row_twice_restores_the_checks() {
    let mut st = DataState::default();
    st.toggle_row_check(s("a"));
    st.toggle_row_check(s("b"));
    st.toggle_row_check(s("a"));
    assert_eq!(st.checked_keys, vec![s("b")]);
    st.toggle_row_check(s("a"));
    st.toggle_row_check(s("a"));
    assert_eq!(st.checked_keys, vec![s("b")]);
}

#[test]
fn check_all_and_uncheck_all() {
    let mut st = DataState::default();
    st.toggle_row_check(s("z"));
    st.toggle_all_check(true, &vec![s("a"), s("b"), s("a")]);
    let mut keys = st.checked_keys.clone();
    keys.sort();
    assert_eq!(keys, vec![s("a"), s("b"), s("z")]);
    st.toggle_all_check(false, &vec![s("a"), s("q")]);
    let mut keys = st.checked_keys.clone();
    keys.sort();
    assert_eq!(keys, vec![s("b"), s("z")]);
    st.clear_checked();
    assert!(st.checked_keys.is_empty());
}

#[test]
fn after_deletes() {
    let mut st = loaded_state();
    st.toggle_all_check(true, &vec![s("r1"), s("r2"), s("R3")]);
    st.open_dialog(DialogState::DeleteOne { partition_key: s("p"), row_key: s("r1") });
    st.finish_delete_one("r1");
    assert!(st.dialog.is_none());
    assert!(st.loaded_rows_for.is_none());
    let mut keys = st.checked_keys.clone();
    keys.sort();
    assert_eq!(keys, vec![s("R3"), s("r2")]);
    st.finish_bulk_delete(&vec![s("r2")]);
    assert_eq!(st.checked_keys, vec![s("R3")]);
    st.finish_paste_delete();
    assert!(st.checked_keys.is_empty());
}

#[test]
fn paste_dialog_transitions() {
    let mut st = DataState::default();
    st.paste_input(s("ignored"));
    assert!(st.dialog.is_none());
    st.open_dialog(DialogState::PasteDelete { raw: String::new(), parsed: None, total_rows: 0, partitions_touched: 0, error: None });
    st.paste_parsed(Err(s("Array is empty.")));
    match &st.dialog {
        Some(DialogState::PasteDelete { error, parsed, .. }) => {
            assert_eq!(error.as_deref(), Some("Array is empty."));
            assert!(parsed.is_none());
        }
        _ => panic!("paste dialog expected"),
    }
    st.paste_parsed(Ok((vec![(s("p"), vec![s("r")])], 1, 1)));
    match &st.dialog {
        Some(DialogState::PasteDelete { total_rows, partitions_touched, error, parsed, .. }) => {
            assert_eq!((*total_rows, *partitions_touched), (1, 1));
            assert!(error.is_none());
            assert!(parsed.is_some());
        }
        _ => panic!("paste dialog expected"),
    }
    match st.delete_request() {
        Some(DeleteRequest::Many { groups }) => assert_eq!(groups, vec![(s("p"), vec![s("r")])]),
        _ => panic!("many expected"),
    }
    st.paste_input(s("[]"));
    match &st.dialog {
        Some(DialogState::PasteDelete { raw, parsed, total_rows, error, .. }) => {
            assert_eq!(raw, "[]");
            assert!(parsed.is_none());
            assert_eq!(*total_rows, 0);
            assert!(error.is_none());
        }
        _ => panic!("paste dialog expected"),
    }
    assert!(st.delete_request().is_none());
}

#[test]
fn delete_requests_follow_the_dialog() {
    let mut st = DataState::default();
    assert!(st.delete_request().is_none());
    st.open_dialog(DialogState::DeleteOne { partition_key: s("p"), row_key: s("r") });
    match st.delete_request() {
        Some(DeleteRequest::One { partition_key, row_key }) => assert_eq!((partition_key, row_key), (s("p"), s("r"))),
        _ => panic!("one expected"),
    }
    st.open_dialog(DialogState::BulkDelete { partition_key: s("p"), row_keys: vec![s("a"), s("b")] });
    match st.delete_request() {
        Some(DeleteRequest::Bulk { partition_key, row_keys }) => {
            assert_eq!(partition_key, "p");
            assert_eq!(row_keys, vec![s("a"), s("b")]);
        }
        _ => panic!("bulk expected"),
    }
    st.open_dialog(DialogState::Compression { table: s("t"), compressed: false, force: false, busy: false });
    assert!(st.delete_request().is_none());
}

#[test]
fn compression_dialog_applies_once() {
    let mut st = DataState::default();
    assert!(st.begin_compression_apply().is_none());
    st.open_dialog(DialogState::Compression { table: s("t"), compressed: true, force: false, busy: false });
    st.set_compression_force(true);
    assert_eq!(st.begin_compression_apply(), Some((s("t"), false, true)));
    assert!(st.begin_compression_apply().is_none());
    st.compression_failed(s("denied"));
    assert_eq!(st.write_error, Some(s("denied")));
    match &st.dialog {
        Some(DialogState::Compression { busy, force, .. }) => {
            assert!(!*busy);
            assert!(*force);
        }
        _ => panic!("compression expected"),
    }
    assert_eq!(st.begin_compression_apply(), Some((s("t"), false, true)));
}

#[test]
fn compression_wording() {
    let l = compression_labels(false, false);
    assert_eq!(l.current, "not compressed");
    assert_eq!(l.action, "Enable compression");
    assert_eq!(l.force, "Compress the rows already in memory as well");
    assert_eq!(l.apply, "Enable compression");
    let l = compression_labels(true, true);
    assert_eq!(l.current, "compressed");
    assert_eq!(l.action, "Disable compression");
    assert_eq!(l.force, "Decompress the rows already in memory as well");
    assert_eq!(l.apply, "Applying\u{2026}");
}

#[test]
fn view_of_a_loaded_partition() {
    let mut st = loaded_state();
    st.set_page_size(2);
    st.toggle_row_check(s("r2"));
    st.toggle_row_check(s("elsewhere"));
    let t = Some(s("t"));
    let p = Some(s("p"));
    let v = data_view(&st, &t, &p, &Some(s("r2")), "");
    assert!(v.scope_matches);
    assert!(v.rows_ready);
    assert!(v.partitions_match);
    assert_eq!(v.filtered, vec![0, 1, 2]);
    assert_eq!((v.window.current_page, v.window.start, v.window.end), (0, 0, 2));
    assert_eq!(v.visible_keys, vec![s("r1"), s("r2")]);
    assert_eq!(v.checked_in_partition, vec![s("r2")]);
    assert!(matches!(v.drawer, DrawerView::Row(1)));

    st.set_page(5);
    let v = data_view(&st, &t, &p, &Some(s("missing")), "r");
    assert_eq!(v.filtered, vec![0, 1, 2]);
    assert_eq!((v.window.current_page, v.window.start, v.window.end), (1, 2, 3));
    assert_eq!(v.visible_keys, vec![s("R3")]);
    match v.drawer {
        DrawerView::NotFound(msg) => assert_eq!(msg, "No row with key \"missing\" in this partition."),
        _ => panic!("not found expected"),
    }

    let v = data_view(&st, &t, &p, &None, "R1");
    assert_eq!(v.filtered, vec![0]);
    assert!(matches!(v.drawer, DrawerView::Hidden));
}

#[test]
fn view_of_another_scope() {
    let st = loaded_state();
    let v = data_view(&st, &Some(s("t")), &Some(s("other")), &Some(s("r1")), "");
    assert!(!v.scope_matches);
    assert!(v.filtered.is_empty());
    assert!(v.visible_keys.is_empty());
    assert!(matches!(v.drawer, DrawerView::Loading));
    let v = data_view(&st, &None, &None, &None, "");
    assert!(!v.partitions_match);
    let v = data_view(&st, &Some(s("t")), &None, &None, "");
    assert!(v.partitions_match);
}

fn table_model(name: &str, compressed: bool) -> TableApiModel {
    TableApiModel {
        name: s(name),
        persist: true,
        compressed,
        max_partitions_amount: None,
        max_rows_per_partition: None,
        partitions_count: 3,
        data_size: 4096,
        records_amount: 10,
        expiration_index_records_amount: 0,
        last_update_time: 1_700_000_000_123_456,
        last_persist_time: None,
        last_persist_duration: vec![],
        next_persist_time: Some(0),
        persist_amount: 0,
        avg_entity_size: 0,
    }
}

fn status() -> Option<StatusApiModel> {
    let reader = |tables: &[&str], is_node: bool| ReaderApiModel {
        id: String::new(),
        name: String::new(),
        namespace: s("default"),
        ip: String::new(),
        tables: tables.iter().map(|t| s(t)).collect(),
        last_incoming_time: String::new(),
        connected_time: String::new(),
        pending_to_send: 0,
        sent_per_second: vec![],
        is_node,
        latency: None,
    };
    let writer = |name: &str, tables: &[&str]| WriterApiModel {
        name: s(name),
        namespace: s("default"),
        version: String::new(),
        last_update: String::new(),
        tables: tables.iter().map(|t| s(t)).collect(),
    };
    let mut st = StatusApiModel::default();
    st.initialized = Some(InitializedApiModel {
        readers: vec![reader(&["a", "b"], false), reader(&["a"], true), reader(&["a"], false)],
        writers: vec![writer("w1", &["a", "b"]), writer("w2", &["b", "a"]), writer("w3", &["c"])],
        tables: vec![table_model("a", false), table_model("b", true)],
    });
    Some(st)
}

#[test]
fn table_connectivity_and_stats() {
    let st = status();
    let (writers, readers) = derive_table_connectivity(&st, "a");
    assert_eq!(writers, vec![s("w1"), s("w2")]);
    assert_eq!(readers, 2);
    assert_eq!(derive_table_connectivity(&None, "a"), (vec![], 0));
    assert_eq!(derive_table_stats(&st, "b"), Some(1));
    assert_eq!(derive_table_stats(&st, "zzz"), None);
    let m = derive_table_metrics(&st);
    assert_eq!(m.len(), 2);
    assert_eq!(m[1].0, "b");
    assert_eq!((m[1].1.partitions_count, m[1].1.data_size), (3, 4096));
    let mut w = build_writer_tables(&st);
    w.sort();
    assert_eq!(w, vec![s("a"), s("b"), s("c")]);
    assert!(build_writer_tables(&None).is_empty());
}

#[test]
fn header_meta_texts() {
    let m = table_header_meta(&table_model("a", false));
    assert_eq!(m.compression, "non compressed");
    assert_eq!(m.next_persist, "\u{2014}");
    assert_eq!(m.updated, "2023-11-14T22:13:20.123456Z");
    let mut t = table_model("b", true);
    t.next_persist_time = Some(1_000_000);
    let m = table_header_meta(&t);
    assert_eq!(m.compression, "compressed");
    assert_eq!(m.next_persist, "1970-01-01T00:00:01.000000Z");
}

#[test]
fn empty_state_offers_eight_tables() {
    let tables: Vec<TableListItemApiModel> = (0..10).map(|i| TableListItemApiModel { name: format!("t{}", i) }).collect();
    let chips = empty_state_chips(&tables);
    assert_eq!(chips.len(), 8);
    assert_eq!(chips[7], "t7");
    assert_eq!(empty_state_chips(&tables[..2].to_vec()), vec![s("t0"), s("t1")]);
}

#[test]
fn single_partition_tables_open_directly() {
    assert_eq!(single_partition_jump(&vec![metric("only")], true, &None), Some(s("only")));
    assert_eq!(single_partition_jump(&vec![metric("only")], false, &None), None);
    assert_eq!(single_partition_jump(&vec![metric("only")], true, &Some(s("p"))), None);
    assert_eq!(single_partition_jump(&vec![metric("a"), metric("b")], true, &None), None);
}

#[test]
fn well_formed_state_check() {
    let mut st = DataState::default();
    assert!(st.is_wf());
    st.checked_keys = vec![s("a"), s("b"), s("a")];
    assert!(!st.is_wf());
    st.checked_keys = vec![s("a")];
    st.page_size = 0;
    assert!(!st.is_wf());
}

fn from_serde(v: &serde_json::Value) -> JsonValue {
    match v {
        serde_json::Value::Null => JsonValue::Null,
        serde_json::Value::Bool(b) => JsonValue::Bool(*b),
        serde_json::Value::Number(n) => JsonValue::Number(n.to_string()),
        serde_json::Value::String(t) => JsonValue::Str(t.clone()),
        serde_json::Value::Array(a) => JsonValue::Array(a.iter().map(from_serde).collect()),
        serde_json::Value::Object(m) => {
            JsonValue::Object(m.iter().map(|(k, x)| (k.clone(), from_serde(x))).collect())
        }
    }
}

#[test]
fn compact_json_writes_what_serde_json_writes() {
    let texts = [
        "null",
        "true",
        "[]",
        "{}",
        "{\"b\": [1, 2.5, -3, {\"x\": null}], \"a\": \"q\\\"uote\\n\\u0001\u{e9}\", \"c\": false}",
        "[[], [[]], {\"k\": {}}]",
    ];
    for t in texts {
        let v: serde_json::Value = serde_json::from_str(t).unwrap();
        assert_eq!(compact_json(&from_serde(&v)), v.to_string());
    }
}

#[test]
fn row_filter_searches_the_compact_json() {
    let rows = vec![row("p", "r1", &["Name"]), row("p", "r2", &[])];
    assert_eq!(compact_json(&rows[0].value), "{\"PartitionKey\":\"p\",\"RowKey\":\"r1\",\"Name\":1}");
    assert_eq!(filter_rows(&rows, "\"ROWKEY\":\"R1\""), vec![0]);
    assert_eq!(filter_rows(&rows, "\"name\":1"), vec![0]);
    assert_eq!(filter_rows(&rows, "}"), vec![0, 1]);
    assert_eq!(filter_rows(&rows, "\"rowkey\": "), Vec::<usize>::new());
}
