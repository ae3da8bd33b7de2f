use mynosql_ui::models::{PartitionMetricApiModel, TableListItemApiModel};
use mynosql_ui::pagination::{page_window, picked_page_size, table_pagination, PAGE_SIZE_OPTIONS};
use mynosql_ui::panes::{
    visible_size_fits, filter_names, find_partition_metrics, find_table_metrics, partitions_pane, tables_pane,
    TableListMetrics,
};

fn s(x: &str) -> String {
    x.to_string()
}

fn metric(pk: &str, records: u64, size: u64) -> PartitionMetricApiModel {
    PartitionMetricApiModel { partition_key: s(pk), records_count: records, data_size: size }
}

#[test]
fn filter_is_case_insensitive() {
    let names = vec![s("Orders"), s("bids"), s("ORDER-lines")];
    assert_eq!(filter_names(&names, "order"), vec![s("Orders"), s("ORDER-lines")]);
    assert_eq!(filter_names(&names, ""), names);
    assert!(filter_names(&names, "zzz").is_empty());
}

#[test]
fn table_metrics_take_the_last_entry() {
    let entries = vec![
        (s("a"), TableListMetrics { partitions_count: 1, data_size: 10 }),
        (s("a"), TableListMetrics { partitions_count: 2, data_size: 20 }),
    ];
    let m = find_table_metrics(&entries, "a").unwrap();
    assert_eq!((m.partitions_count, m.data_size), (2, 20));
    assert!(find_table_metrics(&entries, "b").is_none());
}

#[test]
fn tables_pane_rows() {
    let tables = vec![
        TableListItemApiModel { name: s("alpha") },
        TableListItemApiModel { name: s("beta") },
        TableListItemApiModel { name: s("gamma") },
    ];
    let metrics = vec![
        (s("alpha"), TableListMetrics { partitions_count: 1, data_size: 100 }),
        (s("gamma"), TableListMetrics { partitions_count: 2, data_size: 50 }),
    ];
    let view = tables_pane(&tables, "a", "beta", &vec![s("gamma")], &metrics);
    assert_eq!(view.total, 3);
    assert_eq!(view.total_size, Some(150));
    assert!(view.rows[1].active);
    assert!(view.rows[2].has_writer);
    assert!(!view.rows[0].has_writer);
    assert!(view.rows[1].metrics.is_none());
    let filtered = tables_pane(&tables, "GAM", "beta", &vec![], &vec![]);
    assert_eq!(filtered.total, 1);
    assert_eq!(filtered.rows[0].name, "gamma");
    assert_eq!(filtered.total_size, None);
}

#[test]
fn partitions_pane_rows() {
    let parts = vec![s("p1"), s("p2")];
    let metrics = vec![metric("p1", 5, 500)];
    let rows = partitions_pane(&parts, "", Some(s("p2")), &metrics);
    assert_eq!(rows.len(), 2);
    assert_eq!((rows[0].records, rows[0].size), (5, 500));
    assert!(!rows[0].active);
    assert_eq!((rows[1].records, rows[1].size), (0, 0));
    assert!(rows[1].active);
    assert_eq!(find_partition_metrics(&metrics, "p1"), (5, 500));
}

#[test]
fn page_window_clamps_the_page() {
    let w = page_window(250, 100, 7);
    assert_eq!((w.current_page, w.start, w.end), (2, 200, 250));
    let w = page_window(0, 100, 3);
    assert_eq!((w.current_page, w.start, w.end), (0, 0, 0));
    let w = page_window(200, 100, 1);
    assert_eq!((w.current_page, w.start, w.end), (1, 100, 200));
}

#[test]
fn pagination_bar() {
    assert!(table_pagination(0, 50, 0).is_none());
    let v = table_pagination(120, 50, 1).unwrap();
    assert_eq!(v.total_pages, 3);
    assert_eq!(v.page, 1);
    assert_eq!((v.start, v.end), (51, 100));
    assert!(!v.is_first);
    assert!(!v.is_last);
    assert_eq!((v.prev_page, v.next_page, v.last_page), (0, 2, 2));
    assert_eq!(v.page_label, "Page 2 of 3");
    let v = table_pagination(120, 50, 9).unwrap();
    assert_eq!(v.page, 2);
    assert_eq!((v.start, v.end), (101, 120));
    assert!(v.is_last);
    assert_eq!(v.next_page, 2);
}

#[test]
fn page_sizes() {
    assert_eq!(PAGE_SIZE_OPTIONS, [50, 100, 200, 500]);
    assert_eq!(picked_page_size(0), 1);
    assert_eq!(picked_page_size(200), 200);
}

#[test]
fn tables_list_size_fits_or_not() {
    let tables = vec![TableListItemApiModel { name: s("a") }, TableListItemApiModel { name: s("b") }];
    let small = vec![
        (s("a"), TableListMetrics { partitions_count: 1, data_size: 10 }),
        (s("b"), TableListMetrics { partitions_count: 1, data_size: 20 }),
    ];
    assert!(visible_size_fits(&tables, "", &small));
    let huge = vec![
        (s("a"), TableListMetrics { partitions_count: 1, data_size: u64::MAX }),
        (s("b"), TableListMetrics { partitions_count: 1, data_size: 1 }),
    ];
    assert!(!visible_size_fits(&tables, "", &huge));
    assert!(visible_size_fits(&tables, "a", &huge));
}
