use mynosql_ui::models::{
    InitializedApiModel, NamespaceApiModel, ReaderApiModel, StatusApiModel, WriterApiModel,
};
use mynosql_ui::routes::{
    build_data_crumbs, nav_class, parse_data_route, parse_snapshot_route, route_crumbs,
    section_for_route, AppRoute, Crumb, SidebarSection,
};
use mynosql_ui::shell::{
    namespace_change_needed, namespace_options, next_refresh_token, next_theme, shell_summary,
    sidebar_live, stored_namespace_stale, AppContext,
};

fn reader(ns: &str) -> ReaderApiModel {
    ReaderApiModel {
        id: String::new(),
        name: String::new(),
        namespace: ns.to_string(),
        ip: String::new(),
        tables: vec![],
        last_incoming_time: String::new(),
        connected_time: String::new(),
        pending_to_send: 0,
        sent_per_second: vec![],
        is_node: false,
        latency: None,
    }
}

fn writer(ns: &str) -> WriterApiModel {
    WriterApiModel {
        name: String::new(),
        namespace: ns.to_string(),
        version: String::new(),
        last_update: String::new(),
        tables: vec![],
    }
}

fn crumbs(c: Vec<Crumb>) -> Vec<(String, bool)> {
    c.into_iter().map(|c| (c.label, c.active)).collect()
}

fn s(x: &str) -> String {
    x.to_string()
}

#[test]
fn shell_summary_offline() {
    let r = shell_summary(&None, None);
    assert!(!r.online);
    assert_eq!(r.tables_count, 0);
    assert_eq!(r.clients_count, 0);
    assert!(r.clients_by_namespace.is_empty());
    assert_eq!(r.clients_in_current_ns, 0);
}

#[test]
fn shell_summary_groups_connections_by_namespace() {
    let mut status = StatusApiModel::default();
    status.initialized = Some(InitializedApiModel {
        readers: vec![reader("default"), reader("beta"), reader("alpha"), reader("default")],
        writers: vec![writer("alpha"), writer("default")],
        tables: vec![],
    });
    let r = shell_summary(&Some(status.clone()), None);
    assert!(r.online);
    assert_eq!(r.clients_count, 6);
    assert_eq!(
        r.clients_by_namespace,
        vec![(s("default"), 3), (s("alpha"), 2), (s("beta"), 1)]
    );
    assert_eq!(r.clients_in_current_ns, 3);
    let r = shell_summary(&Some(status), Some(s("beta")));
    assert_eq!(r.clients_in_current_ns, 1);
}

#[test]
fn namespace_change_only_when_different() {
    assert!(!namespace_change_needed("prod", Some(s("prod"))));
    assert!(namespace_change_needed("prod", Some(s("test"))));
    assert!(!namespace_change_needed("", None));
    assert!(namespace_change_needed("prod", None));
}

#[test]
fn refresh_token_wraps() {
    assert_eq!(next_refresh_token(0), 1);
    assert_eq!(next_refresh_token(u64::MAX), 0);
}

#[test]
fn sidebar_live_line() {
    let on = sidebar_live(true, 4, 2);
    assert_eq!(on.dot_class, "sidebar__live-dot");
    assert_eq!(on.live_text, "Live \u{b7} 4 clients");
    assert!(on.show_breakdown);
    let off = sidebar_live(false, 4, 2);
    assert_eq!(off.dot_class, "sidebar__live-dot offline");
    assert_eq!(off.live_text, "Offline");
    assert!(!off.show_breakdown);
    assert!(!sidebar_live(true, 4, 1).show_breakdown);
}

#[test]
fn namespace_picker_entries() {
    let list = vec![
        NamespaceApiModel { name: s("default"), tables_amount: 3 },
        NamespaceApiModel { name: s("prod"), tables_amount: 12 },
    ];
    let opts = namespace_options(&list, "");
    assert_eq!(opts[0].value, "");
    assert_eq!(opts[0].label, "default \u{b7} 3");
    assert!(opts[0].selected);
    assert_eq!(opts[1].value, "prod");
    assert_eq!(opts[1].label, "prod \u{b7} 12");
    assert!(!opts[1].selected);
}

#[test]
fn stale_stored_namespace() {
    let list = vec![NamespaceApiModel { name: s("prod"), tables_amount: 1 }];
    assert!(stored_namespace_stale(&list, &Some(s("gone"))));
    assert!(!stored_namespace_stale(&list, &Some(s("prod"))));
    assert!(!stored_namespace_stale(&list, &None));
}

#[test]
fn theme_toggles_back_and_forth() {
    assert_eq!(next_theme("dark"), "light");
    assert_eq!(next_theme("light"), "dark");
    assert_eq!(next_theme(next_theme("light")), "light");
    assert_eq!(next_theme(next_theme("dark")), "dark");
}

#[test]
fn app_context_starts_empty() {
    let c = AppContext::default();
    assert!(c.status.is_none());
    assert_eq!(c.refresh_token, 0);
}

#[test]
fn sections_of_routes() {
    assert_eq!(section_for_route(&AppRoute::Home), SidebarSection::Overview);
    assert_eq!(section_for_route(&AppRoute::DataRow { table: s("t"), partition: s("p"), row: s("r") }), SidebarSection::Tables);
    assert_eq!(section_for_route(&AppRoute::SnapshotFile { file: s("f") }), SidebarSection::Snapshots);
    assert_eq!(section_for_route(&AppRoute::Connections), SidebarSection::Connections);
    assert_eq!(section_for_route(&AppRoute::Settings), SidebarSection::Settings);
    assert_eq!(section_for_route(&AppRoute::NotFound { segments: vec![s("x")] }), SidebarSection::Overview);
}

#[test]
fn route_parameters() {
    assert_eq!(
        parse_data_route(&AppRoute::DataPartition { table: s("t"), partition: s("p") }),
        (Some(s("t")), Some(s("p")), None)
    );
    assert_eq!(parse_data_route(&AppRoute::Home), (None, None, None));
    assert_eq!(
        parse_snapshot_route(&AppRoute::SnapshotPartition { file: s("f"), table: s("t"), partition: s("p") }),
        (Some(s("f")), Some(s("t")), Some(s("p")))
    );
    assert_eq!(parse_snapshot_route(&AppRoute::Data), (None, None, None));
}

#[test]
fn data_crumbs_mark_the_deepest_segment() {
    assert_eq!(
        crumbs(build_data_crumbs(&AppRoute::Data)),
        vec![(s("MyNoSql"), false), (s("Tables"), true)]
    );
    assert_eq!(
        crumbs(build_data_crumbs(&AppRoute::DataRow { table: s("t"), partition: s("p"), row: s("r") })),
        vec![(s("MyNoSql"), false), (s("Tables"), false), (s("t"), false), (s("p"), false), (s("r"), true)]
    );
    assert_eq!(
        crumbs(build_data_crumbs(&AppRoute::DataTable { table: s("t") })),
        vec![(s("MyNoSql"), false), (s("Tables"), false), (s("t"), true)]
    );
}

#[test]
fn page_crumbs() {
    assert_eq!(crumbs(route_crumbs(&AppRoute::Settings)), vec![(s("MyNoSql"), false), (s("Settings"), true)]);
    assert_eq!(crumbs(route_crumbs(&AppRoute::SnapshotTable { file: s("f"), table: s("t") })), vec![(s("MyNoSql"), false), (s("Snapshots"), true)]);
    assert_eq!(crumbs(route_crumbs(&AppRoute::Home)), vec![(s("MyNoSql"), false), (s("Overview"), true)]);
}

#[test]
fn nav_classes() {
    assert_eq!(nav_class(true), "sidebar__nav-item active");
    assert_eq!(nav_class(false), "sidebar__nav-item");
}
