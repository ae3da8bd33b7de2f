use vstd::prelude::*;

verus! {

/// The pages of the UI and the path parameters they carry.
#[derive(Clone, Debug)]
pub enum AppRoute {
    Home,
    Data,
    DataTable { table: String },
    DataPartition { table: String, partition: String },
    DataRow { table: String, partition: String, row: String },
    Connections,
    Snapshots,
    SnapshotFile { file: String },
    SnapshotTable { file: String, table: String },
    SnapshotPartition { file: String, table: String, partition: String },
    Settings,
    NotFound { segments: Vec<String> },
}

/// The entry of the sidebar a page belongs to.
#[derive(Clone, Copy, Debug, PartialEq, Eq, Structural)]
pub enum SidebarSection {
    Overview,
    Tables,
    Connections,
    Snapshots,
    Settings,
}

/// One breadcrumb of the top bar; the active one is the page shown.
#[derive(Clone, Debug)]
pub struct Crumb {
    pub label: String,
    pub active: bool,
}

impl Crumb {
    pub open spec fn spec_view(self) -> (Seq<char>, bool) {
        (self.label@, self.active)
    }
}

/// The crumbs as text and flag.
pub open spec fn crumbs_view(crumbs: Seq<Crumb>) -> Seq<(Seq<char>, bool)> {
    crumbs.map_values(|c: Crumb| c.spec_view())
}

/// The view of an optional text.
pub open spec fn opt_view(o: Option<String>) -> Option<Seq<char>> {
    match o {
        Some(s) => Some(s@),
        None => None,
    }
}

/// The sidebar entry of a page: the data pages belong to Tables, the snapshot
/// pages to Snapshots, an unknown path to Overview.
pub open spec fn spec_section(route: AppRoute) -> SidebarSection {
    match route {
        AppRoute::Home => SidebarSection::Overview,
        AppRoute::Data | AppRoute::DataTable { .. } | AppRoute::DataPartition { .. }
        | AppRoute::DataRow { .. } => SidebarSection::Tables,
        AppRoute::Connections => SidebarSection::Connections,
        AppRoute::Snapshots | AppRoute::SnapshotFile { .. } | AppRoute::SnapshotTable { .. }
        | AppRoute::SnapshotPartition { .. } => SidebarSection::Snapshots,
        AppRoute::Settings => SidebarSection::Settings,
        AppRoute::NotFound { .. } => SidebarSection::Overview,
    }
}

pub fn section_for_route(route: &AppRoute) -> (s: SidebarSection)
    ensures
        s == spec_section(*route),
{
    match route {
        AppRoute::Home => SidebarSection::Overview,
        AppRoute::Data | AppRoute::DataTable { .. } | AppRoute::DataPartition { .. }
        | AppRoute::DataRow { .. } => SidebarSection::Tables,
        AppRoute::Connections => SidebarSection::Connections,
        AppRoute::Snapshots | AppRoute::SnapshotFile { .. } | AppRoute::SnapshotTable { .. }
        | AppRoute::SnapshotPartition { .. } => SidebarSection::Snapshots,
        AppRoute::Settings => SidebarSection::Settings,
        AppRoute::NotFound { .. } => SidebarSection::Overview,
    }
}

/// `(table, partition, row)` named by a data page; `None` for what it does not name.
pub open spec fn spec_data_route(route: AppRoute) -> (
    Option<Seq<char>>,
    Option<Seq<char>>,
    Option<Seq<char>>,
) {
    match route {
        AppRoute::DataTable { table } => (Some(table@), None, None),
        AppRoute::DataPartition { table, partition } => (Some(table@), Some(partition@), None),
        AppRoute::DataRow { table, partition, row } => (
            Some(table@),
            Some(partition@),
            Some(row@),
        ),
        _ => (None, None, None),
    }
}

/// Extracts `(table, partition, row)` from a data route.
pub fn parse_data_route(route: &AppRoute) -> (r: (Option<String>, Option<String>, Option<String>))
    ensures
        (opt_view(r.0), opt_view(r.1), opt_view(r.2)) == spec_data_route(*route),
{
    match route {
        AppRoute::DataTable { table } => (Some(table.clone()), None, None),
        AppRoute::DataPartition { table, partition } => {
            (Some(table.clone()), Some(partition.clone()), None)
        },
        AppRoute::DataRow { table, partition, row } => (
            Some(table.clone()),
            Some(partition.clone()),
            Some(row.clone()),
        ),
        _ => (None, None, None),
    }
}

/// `(file, table, partition)` named by a snapshot page.
pub open spec fn spec_snapshot_route(route: AppRoute) -> (
    Option<Seq<char>>,
    Option<Seq<char>>,
    Option<Seq<char>>,
) {
    match route {
        AppRoute::SnapshotFile { file } => (Some(file@), None, None),
        AppRoute::SnapshotTable { file, table } => (Some(file@), Some(table@), None),
        AppRoute::SnapshotPartition { file, table, partition } => (
            Some(file@),
            Some(table@),
            Some(partition@),
        ),
        _ => (None, None, None),
    }
}

/// Extracts `(file, table, partition)` from a snapshot route.
pub fn parse_snapshot_route(route: &AppRoute) -> (r: (
    Option<String>,
    Option<String>,
    Option<String>,
))
    ensures
        (opt_view(r.0), opt_view(r.1), opt_view(r.2)) == spec_snapshot_route(*route),
{
    match route {
        AppRoute::SnapshotFile { file } => (Some(file.clone()), None, None),
        AppRoute::SnapshotTable { file, table } => (Some(file.clone()), Some(table.clone()), None),
        AppRoute::SnapshotPartition { file, table, partition } => (
            Some(file.clone()),
            Some(table.clone()),
            Some(partition.clone()),
        ),
        _ => (None, None, None),
    }
}

/// A snapshot page names its file, its table and its partition exactly when
/// its route carries them, each as the route holds it; each level below the
/// file is named only under the one above; other pages name none.
pub proof fn lemma_snapshot_route_fields(route: AppRoute)
    ensures
        ({
            let (file, table, partition) = spec_snapshot_route(route);
            &&& route matches AppRoute::SnapshotFile { file: f } ==> file == Some(f@)
            &&& route matches AppRoute::SnapshotTable { file: f, .. } ==> file == Some(f@)
            &&& route matches AppRoute::SnapshotPartition { file: f, .. } ==> file == Some(f@)
            &&& route matches AppRoute::SnapshotTable { table: t, .. } ==> table == Some(t@)
            &&& route matches AppRoute::SnapshotPartition { table: t, .. } ==> table == Some(t@)
            &&& route matches AppRoute::SnapshotPartition { partition: p, .. } ==> partition == Some(
                p@,
            )
            &&& file is Some <==> (route is SnapshotFile || route is SnapshotTable
                || route is SnapshotPartition)
            &&& table is Some <==> (route is SnapshotTable || route is SnapshotPartition)
            &&& partition is Some <==> route is SnapshotPartition
        }),
{
}

/// A data page names its table, its partition and its row exactly when its
/// route carries them, each as the route holds it; other pages name none.
pub proof fn lemma_data_route_fields(route: AppRoute)
    ensures
        ({
            let (table, partition, row) = spec_data_route(route);
            &&& route matches AppRoute::DataTable { table: t } ==> table == Some(t@)
            &&& route matches AppRoute::DataPartition { table: t, .. } ==> table == Some(t@)
            &&& route matches AppRoute::DataRow { table: t, .. } ==> table == Some(t@)
            &&& route matches AppRoute::DataPartition { partition: p, .. } ==> partition == Some(p@)
            &&& route matches AppRoute::DataRow { partition: p, .. } ==> partition == Some(p@)
            &&& route matches AppRoute::DataRow { row: w, .. } ==> row == Some(w@)
            &&& table is Some <==> (route is DataTable || route is DataPartition || route is DataRow)
            &&& partition is Some <==> (route is DataPartition || route is DataRow)
            &&& row is Some <==> route is DataRow
        }),
{
}

/// The breadcrumbs of a data page: the product, "Tables", then each path
/// segment the page names, the deepest one active.
pub open spec fn spec_data_crumbs(route: AppRoute) -> Seq<(Seq<char>, bool)> {
    let (table, partition, row) = spec_data_route(route);
    let base = seq![("MyNoSql"@, false), ("Tables"@, table is None)];
    let with_table = match table {
        Some(t) => base.push((t, partition is None)),
        None => base,
    };
    let with_partition = match partition {
        Some(p) => with_table.push((p, row is None)),
        None => with_table,
    };
    match row {
        Some(r) => with_partition.push((r, true)),
        None => with_partition,
    }
}

fn crumb(label: &str, active: bool) -> (c: Crumb)
    ensures
        c.spec_view() == (label@, active),
{
    Crumb { label: label.to_owned(), active }
}

/// Breadcrumbs for the data routes, reflecting `/data/<table>/<partition>/<row>`
/// with the deepest selected segment marked active.
pub fn build_data_crumbs(route: &AppRoute) -> (crumbs: Vec<Crumb>)
    ensures
        crumbs_view(crumbs@) == spec_data_crumbs(*route),
{
    let (table, partition, row) = parse_data_route(route);
    let mut crumbs: Vec<Crumb> = Vec::new();
    crumbs.push(crumb("MyNoSql", false));
    crumbs.push(crumb("Tables", table.is_none()));
    let ghost base = crumbs_view(crumbs@);
    proof {
        assert(base =~= seq![("MyNoSql"@, false), ("Tables"@, table is None)]);
    }
    let partition_none = partition.is_none();
    let row_none = row.is_none();
    if let Some(t) = table {
        crumbs.push(Crumb { label: t, active: partition_none });
    }
    let ghost with_table = crumbs_view(crumbs@);
    if let Some(p) = partition {
        crumbs.push(Crumb { label: p, active: row_none });
    }
    let ghost with_partition = crumbs_view(crumbs@);
    if let Some(r) = row {
        crumbs.push(Crumb { label: r, active: true });
    }
    proof {
        assert(crumbs_view(crumbs@) =~= spec_data_crumbs(*route));
    }
    crumbs
}

/// The breadcrumbs of a page: the product, then the page, or the data path.
pub open spec fn spec_route_crumbs(route: AppRoute) -> Seq<(Seq<char>, bool)> {
    match route {
        AppRoute::Connections => seq![("MyNoSql"@, false), ("Connections"@, true)],
        AppRoute::Snapshots | AppRoute::SnapshotFile { .. } | AppRoute::SnapshotTable { .. }
        | AppRoute::SnapshotPartition { .. } => seq![("MyNoSql"@, false), ("Snapshots"@, true)],
        AppRoute::Settings => seq![("MyNoSql"@, false), ("Settings"@, true)],
        AppRoute::Data | AppRoute::DataTable { .. } | AppRoute::DataPartition { .. }
        | AppRoute::DataRow { .. } => spec_data_crumbs(route),
        AppRoute::Home | AppRoute::NotFound { .. } => seq![("MyNoSql"@, false), ("Overview"@, true)],
    }
}

fn page_crumbs(page: &str) -> (crumbs: Vec<Crumb>)
    ensures
        crumbs_view(crumbs@) == seq![("MyNoSql"@, false), (page@, true)],
{
    let mut crumbs: Vec<Crumb> = Vec::new();
    crumbs.push(crumb("MyNoSql", false));
    crumbs.push(crumb(page, true));
    proof {
        assert(crumbs_view(crumbs@) =~= seq![("MyNoSql"@, false), (page@, true)]);
    }
    crumbs
}

/// The breadcrumbs the top bar shows for a page.
pub fn route_crumbs(route: &AppRoute) -> (crumbs: Vec<Crumb>)
    ensures
        crumbs_view(crumbs@) == spec_route_crumbs(*route),
{
    match route {
        AppRoute::Connections => page_crumbs("Connections"),
        AppRoute::Snapshots | AppRoute::SnapshotFile { .. } | AppRoute::SnapshotTable { .. }
        | AppRoute::SnapshotPartition { .. } => page_crumbs("Snapshots"),
        AppRoute::Settings => page_crumbs("Settings"),
        AppRoute::Data | AppRoute::DataTable { .. } | AppRoute::DataPartition { .. }
        | AppRoute::DataRow { .. } => build_data_crumbs(route),
        AppRoute::Home | AppRoute::NotFound { .. } => page_crumbs("Overview"),
    }
}

/// The CSS class of a sidebar entry.
pub open spec fn spec_nav_class(active: bool) -> Seq<char> {
    if active {
        "sidebar__nav-item active"@
    } else {
        "sidebar__nav-item"@
    }
}

pub fn nav_class(active: bool) -> (c: &'static str)
    ensures
        c@ == spec_nav_class(active),
{
    if active {
        "sidebar__nav-item active"
    } else {
        "sidebar__nav-item"
    }
}

} // verus!
