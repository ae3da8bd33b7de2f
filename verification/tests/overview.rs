use mynosql_ui::models::{ReaderApiModel, TableApiModel, WriterApiModel};
use mynosql_ui::overview::{
    count_distinct_nodes, node_table_badges, nodes_latency, nodes_latency_tone, nodes_subtitle,
    sort_nodes, stats_totals, table_coverage, NodesLatency,
};
use mynosql_ui::tones::{
    classify_latency, compact_unit, compute_health, duration_unit, reader_counts_line,
    reader_stat_tone, reader_tone_counts, size_unit, tone_to_delta, writer_state_label,
    CompactUnit, DeltaTone, DurationUnit, HealthTone, SizeUnit, StatTone, StateTone,
};
use mynosql_ui::home::{home_content, partition_readers, HomeContent};
use mynosql_ui::models::{InitializedApiModel, StatusApiModel};

fn reader(id: &str, name: &str, ns: &str, tables: &[&str], is_node: bool, latency: Option<i64>) -> ReaderApiModel {
    ReaderApiModel {
        id: id.to_string(),
        name: name.to_string(),
        namespace: ns.to_string(),
        ip: "10.0.0.1".to_string(),
        tables: tables.iter().map(|t| t.to_string()).collect(),
        last_incoming_time: String::new(),
        connected_time: String::new(),
        pending_to_send: 0,
        sent_per_second: vec![],
        is_node,
        latency,
    }
}

fn writer(name: &str, tables: &[&str]) -> WriterApiModel {
    WriterApiModel {
        name: name.to_string(),
        namespace: "default".to_string(),
        version: "1.0".to_string(),
        last_update: String::new(),
        tables: tables.iter().map(|t| t.to_string()).collect(),
    }
}

fn table(name: &str, partitions: u64, records: u64) -> TableApiModel {
    TableApiModel {
        name: name.to_string(),
        persist: true,
        compressed: false,
        max_partitions_amount: None,
        max_rows_per_partition: None,
        partitions_count: partitions,
        data_size: 0,
        records_amount: records,
        expiration_index_records_amount: 0,
        last_update_time: 0,
        last_persist_time: None,
        last_persist_duration: vec![],
        next_persist_time: None,
        persist_amount: 0,
        avg_entity_size: 0,
    }
}

#[test]
fn latency_tones_at_the_thresholds() {
    assert_eq!(classify_latency(99_999), StateTone::Good);
    assert_eq!(classify_latency(100_000), StateTone::Warn);
    assert_eq!(classify_latency(299_999), StateTone::Warn);
    assert_eq!(classify_latency(300_000), StateTone::Bad);
    assert_eq!(classify_latency(-1), StateTone::Good);
}

#[test]
fn stat_tones_map_to_delta_tones() {
    assert_eq!(tone_to_delta(StatTone::Good), DeltaTone::Good);
    assert_eq!(tone_to_delta(StatTone::Warn), DeltaTone::Warn);
    assert_eq!(tone_to_delta(StatTone::Bad), DeltaTone::Bad);
    assert_eq!(tone_to_delta(StatTone::Info), DeltaTone::Neutral);
}

#[test]
fn health_banner_prefers_stalled_readers() {
    let (tone, headline, sub) = compute_health(&[StateTone::Good, StateTone::Bad, StateTone::Warn]);
    assert_eq!(tone, HealthTone::Bad);
    assert_eq!(headline, "1 connection are stalled");
    assert_eq!(sub, "One or more reader streams have not received data for over 10 seconds.");
    let (tone, headline, _) = compute_health(&[StateTone::Warn, StateTone::Warn]);
    assert_eq!(tone, HealthTone::Warn);
    assert_eq!(headline, "2 connections are slow");
    let (tone, headline, sub) = compute_health(&[]);
    assert_eq!(tone, HealthTone::Good);
    assert_eq!(headline, "All systems nominal");
    assert_eq!(sub, "All writers and readers are sending data within expected windows.");
}

#[test]
fn reader_counts() {
    let tones = [StateTone::Good, StateTone::Warn, StateTone::Bad, StateTone::Good, StateTone::Neutral];
    assert_eq!(reader_tone_counts(&tones), (2, 1, 1));
    assert_eq!(reader_counts_line(2, 1, 1), "2 ok \u{b7} 1 slow \u{b7} 1 stalled");
    assert_eq!(reader_stat_tone(0, 1), StatTone::Bad);
    assert_eq!(reader_stat_tone(3, 0), StatTone::Warn);
    assert_eq!(reader_stat_tone(0, 0), StatTone::Good);
}

#[test]
fn writer_state_labels() {
    assert_eq!(writer_state_label(StateTone::Good), "live");
    assert_eq!(writer_state_label(StateTone::Warn), "lagging");
    assert_eq!(writer_state_label(StateTone::Bad), "stalled");
    assert_eq!(writer_state_label(StateTone::Neutral), "\u{2014}");
}

#[test]
fn unit_tiers() {
    assert_eq!(size_unit(1023), SizeUnit::Bytes);
    assert_eq!(size_unit(1024), SizeUnit::Kilo);
    assert_eq!(size_unit(1024 * 1024), SizeUnit::Mega);
    assert_eq!(size_unit(1024 * 1024 * 1024), SizeUnit::Giga);
    assert_eq!(duration_unit(0), DurationUnit::Zero);
    assert_eq!(duration_unit(999), DurationUnit::Micros);
    assert_eq!(duration_unit(1_000), DurationUnit::Millis);
    assert_eq!(duration_unit(1_000_000), DurationUnit::Seconds);
    assert_eq!(compact_unit(999), CompactUnit::Plain);
    assert_eq!(compact_unit(1_000), CompactUnit::Thousands);
    assert_eq!(compact_unit(1_000_000), CompactUnit::Millions);
    assert_eq!(compact_unit(1_000_000_000), CompactUnit::Billions);
}

#[test]
fn distinct_nodes_count_names_once() {
    let nodes = vec![
        reader("1", "node-a", "default", &[], true, None),
        reader("2", "node-b", "default", &[], true, None),
        reader("3", "node-a", "default", &[], true, None),
    ];
    assert_eq!(count_distinct_nodes(&nodes), 2);
    assert_eq!(count_distinct_nodes(&[]), 0);
}

#[test]
fn nodes_sort_by_name_namespace_id() {
    let nodes = vec![
        reader("2", "b", "x", &[], true, None),
        reader("9", "a", "y", &[], true, None),
        reader("1", "a", "x", &[], true, None),
        reader("0", "a", "y", &[], true, None),
    ];
    let ids: Vec<String> = sort_nodes(nodes).into_iter().map(|n| n.id).collect();
    assert_eq!(ids, vec!["1", "0", "9", "2"]);
}

#[test]
fn node_badges_show_three_then_more() {
    let tables: Vec<String> = ["a", "b", "c", "d", "e"].iter().map(|s| s.to_string()).collect();
    let (shown, more) = node_table_badges(&tables);
    assert_eq!(shown, vec!["a", "b", "c"]);
    assert_eq!(more, Some("+2".to_string()));
    let (shown, more) = node_table_badges(&tables[..3].to_vec());
    assert_eq!(shown.len(), 3);
    assert_eq!(more, None);
}

#[test]
fn nodes_subtitle_text() {
    assert_eq!(nodes_subtitle(2, 5), "2 connected \u{b7} 5 connections");
}

#[test]
fn nodes_latency_is_the_worst_reported() {
    assert_eq!(nodes_latency(&[]), NodesLatency::NoNodes);
    let silent = vec![reader("1", "n", "d", &[], true, None)];
    assert_eq!(nodes_latency(&silent), NodesLatency::NotReported);
    let nodes = vec![
        reader("1", "n", "d", &[], true, Some(120_000)),
        reader("2", "m", "d", &[], true, None),
        reader("3", "o", "d", &[], true, Some(350_000)),
    ];
    let l = nodes_latency(&nodes);
    assert_eq!(l, NodesLatency::Worst(350_000));
    assert_eq!(nodes_latency_tone(l), StatTone::Bad);
    assert_eq!(nodes_latency_tone(NodesLatency::NotReported), StatTone::Info);
}

#[test]
fn stats_totals_add_up() {
    let tables = vec![table("a", 3, 100), table("b", 4, 50)];
    let writers = vec![writer("w1", &["a", "b"]), writer("w2", &["a"])];
    let t = stats_totals(&tables, &writers);
    assert_eq!(t.table_count, 2);
    assert_eq!(t.partitions, 7);
    assert_eq!(t.total_rows, 150);
    assert_eq!(t.writer_count, 2);
    assert_eq!(t.writer_bindings, 3);
}

#[test]
fn coverage_counts_written_tables_and_ranks_reads() {
    let tables = vec![table("a", 1, 1), table("b", 1, 1), table("c", 1, 1)];
    let writers = vec![writer("w", &["a", "c"])];
    let readers = vec![
        reader("1", "r1", "d", &["b", "a"], false, None),
        reader("2", "r2", "d", &["b"], false, None),
    ];
    let view = table_coverage(&tables, &writers, &readers);
    assert_eq!(view.covered, 2);
    assert_eq!(view.total_tables, 3);
    assert_eq!(view.top, vec![("b".to_string(), 2), ("a".to_string(), 1)]);
    assert_eq!(view.max_reads, 2);
    let empty = table_coverage(&tables, &writers, &[]);
    assert!(empty.top.is_empty());
    assert_eq!(empty.max_reads, 1);
}

#[test]
fn home_shows_what_the_status_allows() {
    assert!(matches!(home_content(&None), HomeContent::Connecting));
    let loading = StatusApiModel::default();
    assert!(matches!(home_content(&Some(loading)), HomeContent::Initializing));
    let mut ready = StatusApiModel::default();
    ready.initialized = Some(InitializedApiModel { readers: vec![], writers: vec![], tables: vec![] });
    assert!(matches!(home_content(&Some(ready)), HomeContent::Overview));
}

#[test]
fn readers_split_into_nodes_and_clients() {
    let all = vec![
        reader("1", "a", "d", &[], true, None),
        reader("2", "b", "d", &[], false, None),
        reader("3", "c", "d", &[], true, None),
    ];
    let (nodes, clients) = partition_readers(all);
    let n: Vec<String> = nodes.into_iter().map(|r| r.id).collect();
    let c: Vec<String> = clients.into_iter().map(|r| r.id).collect();
    assert_eq!(n, vec!["1", "3"]);
    assert_eq!(c, vec!["2"]);
}
