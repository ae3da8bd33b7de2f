use mynosql_ui::connections::{
    chart_maxima, namespace_readers, namespace_writers, reader_kind, sort_writers,
    ConnectionsState, Sample, MAX_POINTS,
};
use mynosql_ui::export::{export_script, location_script};
use mynosql_ui::models::{ConnectionReaderApiModel, ConnectionWriterApiModel, ConnectionsApiModel};
use mynosql_ui::settings::{
    footer_line, format_remaining, writes_card_view, FooterLine, HealthThresholds,
    SettingsState, WritesKind, WritesWindow, DEFAULT_BAD_MS, DEFAULT_WARN_MS,
};

fn s(x: &str) -> String {
    x.to_string()
}

#[test]
fn remaining_time_text() {
    assert_eq!(format_remaining(0), "0m 00s");
    assert_eq!(format_remaining(65), "1m 05s");
    assert_eq!(format_remaining(600), "10m 00s");
    assert_eq!(format_remaining(3599), "59m 59s");
}

#[test]
fn thresholds_form_validation() {
    let mut f = SettingsState::default();
    f.sync_from(HealthThresholds { warn_ms: 3000, bad_ms: 10000 });
    assert_eq!((f.warn_ms.as_str(), f.bad_ms.as_str()), ("3000", "10000"));
    f.edit_warn(s("abc"));
    assert!(f.begin_save().is_none());
    assert_eq!(f.error.as_deref(), Some("Both fields must be positive whole numbers (ms)."));
    f.edit_warn(s("20000"));
    assert!(f.begin_save().is_none());
    assert_eq!(f.error.as_deref(), Some("Green\u{2192}Yellow threshold must be smaller than Yellow\u{2192}Red."));
    f.edit_warn(s("10000"));
    assert!(f.begin_save().is_none());
    f.edit_warn(s("500"));
    let t = f.begin_save().unwrap();
    assert_eq!((t.warn_ms, t.bad_ms), (500, 10000));
    assert!(f.saving);
    assert!(f.error.is_none());
    f.save_succeeded();
    assert!(!f.saving);
    assert_eq!(f.message.as_deref(), Some("Saved."));
    f.save_failed("offline");
    assert_eq!(f.error.as_deref(), Some("Save failed: offline"));
    f.edit_bad(s("1"));
    assert!(f.message.is_none());
    f.sync_from(HealthThresholds { warn_ms: 1, bad_ms: 2 });
    assert_eq!(f.bad_ms, "1");
}

#[test]
fn reset_puts_the_defaults_back() {
    let mut f = SettingsState::default();
    f.edit_warn(s("1"));
    f.reset();
    assert_eq!(f.warn_ms, DEFAULT_WARN_MS.to_string());
    assert_eq!(f.bad_ms, DEFAULT_BAD_MS.to_string());
    assert!(DEFAULT_WARN_MS < DEFAULT_BAD_MS);
}

#[test]
fn footer_prefers_the_message() {
    assert!(matches!(footer_line(&Some(s("ok")), &Some(s("bad"))), FooterLine::Success(m) if m == "ok"));
    assert!(matches!(footer_line(&None, &Some(s("bad"))), FooterLine::Failure(m) if m == "bad"));
    assert!(matches!(footer_line(&None, &None), FooterLine::Nothing));
}

#[test]
fn write_windows() {
    let mut w = WritesWindow::default();
    w.begin_toggle();
    assert!(w.saving);
    w.toggle_succeeded(WritesKind::Ui, true, Some((true, Some(1200))));
    assert!(!w.saving && w.enabled);
    assert_eq!(w.message.as_deref(), Some("Write access enabled. 20m 00s left."));
    w.toggle_succeeded(WritesKind::Mcp, true, Some((true, None)));
    assert_eq!(w.message.as_deref(), Some("MCP writes enabled."));
    w.toggle_succeeded(WritesKind::Mcp, false, None);
    assert!(!w.enabled);
    assert_eq!(w.message.as_deref(), Some("MCP writes disabled."));
    w.toggle_failed("timeout");
    assert_eq!(w.error.as_deref(), Some("Failed: timeout"));
    w.apply_poll(true, Some(61));
    let v = writes_card_view(&w);
    assert_eq!(v.status, "enabled \u{2014} ~1m 01s left");
    assert_eq!(v.status_color, "var(--ok)");
    assert_eq!(v.remaining, "1m 01s");
    assert_eq!(v.enable_label, "Extend +10 min");
    w.apply_poll(false, None);
    let v = writes_card_view(&w);
    assert_eq!(v.status, "disabled");
    assert_eq!(v.remaining, "\u{2014}");
    assert_eq!(v.enable_label, "Enable for 10 min");
    w.begin_toggle();
    assert_eq!(writes_card_view(&w).enable_label, "Working\u{2026}");
}

fn answer(i: u64) -> ConnectionsApiModel {
    ConnectionsApiModel {
        incoming_per_second: i,
        outgoing_per_second: 2 * i,
        write_payloads_per_second: 0,
        write_bytes_per_second: i % 7,
        readers: vec![],
        writers: vec![],
    }
}

#[test]
fn history_keeps_the_newest_samples() {
    let mut c = ConnectionsState::default();
    for i in 0..130 {
        c.push(answer(i));
    }
    assert_eq!(c.history.len(), MAX_POINTS);
    assert_eq!(c.history[0].incoming, 10);
    assert_eq!(c.history[MAX_POINTS - 1].incoming, 129);
    assert_eq!(c.snapshot.as_ref().unwrap().incoming_per_second, 129);
}

#[test]
fn chart_tops() {
    let m = chart_maxima(&vec![]);
    assert_eq!((m.traffic, m.payloads, m.throughput), (1, 1, 1));
    let h = vec![
        Sample { incoming: 5, outgoing: 9, payloads: 0, write_bytes: 100 },
        Sample { incoming: 12, outgoing: 3, payloads: 4, write_bytes: 7 },
    ];
    let m = chart_maxima(&h);
    assert_eq!((m.traffic, m.payloads, m.throughput), (12, 4, 100));
}

fn conn_reader(ns: &str) -> ConnectionReaderApiModel {
    ConnectionReaderApiModel {
        id: String::new(),
        name: String::new(),
        namespace: s(ns),
        ip: String::new(),
        incoming_per_second: 0,
        outgoing_per_second: 0,
        pending_to_send: 0,
        is_node: false,
        latency: None,
    }
}

fn conn_writer(name: &str, session: &str, ns: &str) -> ConnectionWriterApiModel {
    ConnectionWriterApiModel {
        session: s(session),
        name: s(name),
        namespace: s(ns),
        version: String::new(),
        addr: String::new(),
        tables: vec![],
        last_incoming_time: String::new(),
        req_per_second: 0,
        bytes_per_second: 0,
    }
}

#[test]
fn lists_keep_the_current_namespace() {
    let readers = vec![conn_reader("default"), conn_reader("prod"), conn_reader("default")];
    assert_eq!(namespace_readers(&readers, "default"), vec![0, 2]);
    let writers = vec![conn_writer("a", "1", "prod"), conn_writer("b", "2", "default")];
    assert_eq!(namespace_writers(&writers, "prod"), vec![0]);
    assert!(namespace_writers(&writers, "none").is_empty());
}

#[test]
fn writers_sort_by_name_then_session() {
    let w = vec![conn_writer("b", "1", "d"), conn_writer("a", "9", "d"), conn_writer("a", "2", "d")];
    let order: Vec<(String, String)> = sort_writers(w).into_iter().map(|w| (w.name, w.session)).collect();
    assert_eq!(order, vec![(s("a"), s("2")), (s("a"), s("9")), (s("b"), s("1"))]);
}

#[test]
fn reader_kinds() {
    assert_eq!(reader_kind(true), "node");
    assert_eq!(reader_kind(false), "reader");
}

#[test]
fn export_scripts() {
    assert_eq!(
        export_script("/api/rows?table=a&pk=\"x\""),
        "window.location.href = \"/api/rows?table=a&pk=\\\"x\\\"\";"
    );
    assert_eq!(location_script(None), "window.location.href = \"\";");
    assert_eq!(location_script(Some(s("\"u\""))), "window.location.href = \"u\";");
}

#[test]
fn export_script_escapes_like_json() {
    assert_eq!(
        export_script("a\\b\n\t\r\u{8}\u{c}\u{1}\u{1f}\u{7f}\u{e9}"),
        "window.location.href = \"a\\\\b\\n\\t\\r\\b\\f\\u0001\\u001f\u{7f}\u{e9}\";"
    );
}
