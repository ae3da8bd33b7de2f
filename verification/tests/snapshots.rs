use mynosql_ui::data_rows::DataRow;
use mynosql_ui::json::JsonValue;
use mynosql_ui::models::{SnapshotFileApiModel, SnapshotTableApiModel};
use mynosql_ui::snapshots::{RestoreDialog, SnapshotsState};
use mynosql_ui::snapshots_view::{
    first_restore_request, RestoreRequest,
    failure_message, list_state, restore_dialog_view, snapshots_view, sort_files,
    table_restore_error, ListState, SnapshotFailure,
};

fn s(x: &str) -> String {
    x.to_string()
}

fn tables(names: &[&str]) -> Vec<SnapshotTableApiModel> {
    names.iter().map(|n| SnapshotTableApiModel { name: s(n), partitions_count: 1 }).collect()
}

fn with_tables() -> SnapshotsState {
    let mut st = SnapshotsState::default();
    st.begin_tables_load("f1");
    st.set_tables("f1", tables(&["a", "b", "c"]));
    st
}

#[test]
fn files_sort_newest_first() {
    let files = vec![
        SnapshotFileApiModel { name: s("2024-01-02.zip"), size: 1 },
        SnapshotFileApiModel { name: s("2024-03-01.zip"), size: 2 },
        SnapshotFileApiModel { name: s("2023-12-31.zip"), size: 3 },
    ];
    let names: Vec<String> = sort_files(files).into_iter().map(|f| f.name).collect();
    assert_eq!(names, vec!["2024-03-01.zip", "2024-01-02.zip", "2023-12-31.zip"]);
}

#[test]
fn files_load_and_snapshot_making() {
    let mut st = SnapshotsState::default();
    assert!(!st.files_started);
    st.begin_files_load();
    assert!(st.files_started && !st.files_ready);
    st.set_files(vec![SnapshotFileApiModel { name: s("x.zip"), size: 9 }]);
    assert!(st.files_ready);
    st.begin_make_snapshot();
    assert!(st.making_snapshot);
    st.make_snapshot_done();
    assert!(!st.making_snapshot);
    assert!(!st.files_started);
    st.begin_make_snapshot();
    st.make_snapshot_error(s("boom"));
    assert!(!st.making_snapshot);
    assert_eq!(st.error, Some(s("boom")));
}

#[test]
fn stale_tables_partitions_rows_are_ignored() {
    let mut st = with_tables();
    st.set_tables("f2", tables(&["z"]));
    assert_eq!(st.tables.len(), 3);
    st.begin_partitions_load("f1", "a");
    st.set_partitions("f1", "b", vec![s("x")]);
    assert!(st.partitions.is_empty() && !st.partitions_ready);
    st.set_partitions("f1", "a", vec![s("p")]);
    assert_eq!(st.partitions, vec![s("p")]);
    assert!(st.partitions_ready);
    st.begin_rows_load("f1", "a", "p");
    st.set_rows("f1", "a", "q", vec![s("PartitionKey")], vec![]);
    assert!(!st.rows_ready);
    st.set_rows("f1", "a", "p", vec![s("PartitionKey")], vec![DataRow { value: JsonValue::Null }]);
    assert!(st.rows_ready);
    assert_eq!(st.rows.len(), 1);
}

#[test]
fn table_checks() {
    let mut st = with_tables();
    st.toggle_table_check("b");
    st.toggle_table_check("a");
    assert_eq!(st.selected_tables(), vec![s("a"), s("b")]);
    st.toggle_table_check("b");
    assert_eq!(st.selected_tables(), vec![s("a")]);
    st.toggle_all_tables_check(true);
    assert_eq!(st.selected_tables(), vec![s("a"), s("b"), s("c")]);
    st.toggle_all_tables_check(false);
    assert!(st.selected_tables().is_empty());
    st.toggle_table_check("c");
    st.clear_table_checks();
    assert!(st.selected_tables().is_empty());
    st.toggle_table_check("c");
    st.begin_tables_load("f2");
    assert!(st.checked_tables.is_empty());
}

#[test]
fn restore_dialog_lifecycle() {
    let mut st = with_tables();
    st.toggle_table_check("a");
    st.open_restore(vec![s("a"), s("b")]);
    st.set_clean_table(true);
    let plan = st.restore_plan(&Some(s("f1"))).unwrap();
    assert_eq!(plan.file, "f1");
    assert_eq!(plan.tables, vec![s("a"), s("b")]);
    assert!(plan.partition.is_none());
    assert!(plan.clean);
    assert!(st.restore_plan(&None).is_none());
    st.restore_begin();
    assert!(st.restore_plan(&Some(s("f1"))).is_none());
    st.restore_set_completed(1);
    let v = restore_dialog_view(st.restore.as_ref().unwrap());
    assert!(v.multi);
    assert_eq!(v.restore_label, "Restoring\u{2026} (1/2)");
    assert_eq!(v.restored_verb, " have been restored from ");
    st.restore_error(table_restore_error("b", "denied"));
    {
        let d = st.restore.as_ref().unwrap();
        assert!(!d.in_progress);
        assert_eq!(d.error.as_deref(), Some("Table 'b': denied"));
    }
    st.restore_begin();
    assert!(st.restore.as_ref().unwrap().error.is_none());
    st.restore_done();
    assert!(st.restore.as_ref().unwrap().done);
    assert!(st.checked_tables.is_empty());
    assert!(st.restore_plan(&Some(s("f1"))).is_none());
    st.close_restore();
    assert!(st.restore.is_none());
}

#[test]
fn partition_restore_wording() {
    let mut st = SnapshotsState::default();
    st.open_restore_partition(s("t"), s("p"));
    let d = st.restore.as_ref().unwrap();
    assert_eq!(d.tables, vec![s("t")]);
    assert_eq!(d.partition, Some(s("p")));
    let v = restore_dialog_view(d);
    assert!(!v.multi);
    assert!(!v.show_clean);
    assert_eq!(v.first_table, "t");
    assert_eq!(v.restore_label, "Restore");
    assert_eq!(v.restored_verb, " has been restored from ");
    let busy = RestoreDialog { tables: vec![s("t")], partition: None, clean_table: false, in_progress: true, completed: 0, error: None, done: false };
    let v = restore_dialog_view(&busy);
    assert_eq!(v.restore_label, "Restoring\u{2026}");
    assert!(v.show_clean);
}

#[test]
fn refresh_forgets_the_deepest_level() {
    let mut st = with_tables();
    st.begin_files_load();
    st.begin_partitions_load("f1", "a");
    st.begin_rows_load("f1", "a", "p");
    st.refresh(true, true, true);
    assert!(st.loaded_rows_for.is_none());
    assert!(st.loaded_for_table.is_some());
    st.refresh(true, true, false);
    assert!(st.loaded_for_table.is_none());
    assert!(st.loaded_for_file.is_some());
    st.refresh(true, false, false);
    assert!(st.loaded_for_file.is_none());
    assert!(st.files_started);
    st.refresh(false, false, false);
    assert!(!st.files_started);
}

#[test]
fn view_scopes_and_loading() {
    let mut st = with_tables();
    st.toggle_table_check("a");
    st.toggle_table_check("c");
    let v = snapshots_view(&st, &Some(s("f1")), &None, &None);
    assert!(v.tables_scope && v.tables_ready);
    assert!(!v.loading);
    assert_eq!(v.selected_count, 2);
    assert!(!v.all_checked);
    st.toggle_table_check("b");
    let v = snapshots_view(&st, &Some(s("f1")), &None, &None);
    assert!(v.all_checked);
    let v = snapshots_view(&st, &Some(s("f2")), &None, &None);
    assert!(!v.tables_scope);
    assert!(v.loading);
    assert_eq!(v.selected_count, 0);
    let v = snapshots_view(&st, &None, &None, &None);
    assert!(v.loading);
    let v = snapshots_view(&st, &Some(s("f1")), &Some(s("a")), &None);
    assert!(!v.partitions_scope);
    assert!(v.loading);
}

#[test]
fn list_states() {
    assert!(matches!(list_state(true, 0), ListState::Loading));
    assert!(matches!(list_state(false, 0), ListState::Empty));
    assert!(matches!(list_state(true, 3), ListState::Items));
}

#[test]
fn failure_messages() {
    assert_eq!(failure_message(SnapshotFailure::Snapshots, "x"), "Failed to load snapshots: x");
    assert_eq!(failure_message(SnapshotFailure::Tables, "x"), "Failed to load tables: x");
    assert_eq!(failure_message(SnapshotFailure::Partitions, "x"), "Failed to load partitions: x");
    assert_eq!(failure_message(SnapshotFailure::Rows, "x"), "Failed to load rows: x");
    assert_eq!(failure_message(SnapshotFailure::MakeSnapshot, "x"), "Failed to make snapshot: x");
}

#[test]
fn files_with_the_same_name_keep_their_order() {
    let files = vec![
        SnapshotFileApiModel { name: s("b.zip"), size: 1 },
        SnapshotFileApiModel { name: s("a.zip"), size: 2 },
        SnapshotFileApiModel { name: s("b.zip"), size: 3 },
        SnapshotFileApiModel { name: s("a.zip"), size: 4 },
    ];
    let sizes: Vec<u64> = sort_files(files).into_iter().map(|f| f.size).collect();
    assert_eq!(sizes, vec![1, 3, 2, 4]);
}

fn plan(tables: &[&str], partition: Option<&str>) -> mynosql_ui::snapshots_view::RestorePlan {
    mynosql_ui::snapshots_view::RestorePlan {
        file: s("f1"),
        tables: tables.iter().map(|t| s(t)).collect(),
        partition: partition.map(s),
        clean: true,
    }
}

#[test]
fn restore_runs_table_by_table() {
    let mut st = with_tables();
    st.toggle_table_check("a");
    st.open_restore(vec![s("a"), s("b")]);
    st.restore_begin();
    let p = plan(&["a", "b"], None);
    let first = first_restore_request(&p).unwrap();
    assert!(matches!(&first, RestoreRequest::Table { table, index: 0, clean: true, .. } if table == "a"));
    let second = st.restore_step(&p, &first, Ok(())).unwrap();
    assert!(matches!(&second, RestoreRequest::Table { table, index: 1, .. } if table == "b"));
    assert_eq!(st.restore.as_ref().unwrap().completed, 1);
    assert!(st.restore_step(&p, &second, Ok(())).is_none());
    let d = st.restore.as_ref().unwrap();
    assert!(d.done && !d.in_progress);
    assert_eq!(d.completed, 2);
    assert!(st.checked_tables.is_empty());
}

#[test]
fn restore_stops_at_the_first_failure() {
    let mut st = with_tables();
    st.open_restore(vec![s("a"), s("b"), s("c")]);
    st.restore_begin();
    let p = plan(&["a", "b", "c"], None);
    let first = first_restore_request(&p).unwrap();
    let second = st.restore_step(&p, &first, Ok(())).unwrap();
    assert!(st.restore_step(&p, &second, Err(s("write access is disabled"))).is_none());
    let d = st.restore.as_ref().unwrap();
    assert!(!d.in_progress && !d.done);
    assert_eq!(d.completed, 1);
    assert_eq!(d.error.as_deref(), Some("Table 'b': write access is disabled"));
}

#[test]
fn partition_restore_is_one_request() {
    let mut st = SnapshotsState::default();
    st.open_restore_partition(s("t"), s("p"));
    st.restore_begin();
    let p = plan(&["t"], Some("p"));
    let first = first_restore_request(&p).unwrap();
    assert!(matches!(&first, RestoreRequest::Partition { table, partition, .. } if table == "t" && partition == "p"));
    assert!(st.restore_step(&p, &first, Err(s("nope"))).is_none());
    assert_eq!(st.restore.as_ref().unwrap().error.as_deref(), Some("nope"));
    st.restore_begin();
    assert!(st.restore_step(&p, &first, Ok(())).is_none());
    assert!(st.restore.as_ref().unwrap().done);
    assert!(first_restore_request(&plan(&[], None)).is_none());
}
