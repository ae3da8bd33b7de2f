use vstd::prelude::*;

use crate::models::{PartitionMetricApiModel, TableListItemApiModel};
use crate::tally::{contains_str, lemma_views_push, views};
use crate::text::{contains_text, lowercase, seq_contains, to_lowercase};

verus! {

/// A list entry stays visible under a filter when the filter is empty or
/// occurs in the entry, both taken in lower case.
pub open spec fn name_matches(name: Seq<char>, filter: Seq<char>) -> bool {
    lowercase(filter).len() == 0 || seq_contains(lowercase(name), lowercase(filter))
}

/// The names that stay visible under `filter`, in order.
pub open spec fn filter_views(names: Seq<Seq<char>>, filter: Seq<char>) -> Seq<Seq<char>>
    decreases names.len(),
{
    if names.len() == 0 {
        seq![]
    } else {
        let rest = filter_views(names.drop_last(), filter);
        if name_matches(names.last(), filter) { rest.push(names.last()) } else { rest }
    }
}

/// The names of `names` that stay visible under the filter box's text.
pub fn filter_names(names: &Vec<String>, filter: &str) -> (r: Vec<String>)
    ensures
        views(r@) == filter_views(views(names@), filter@),
{
    let needle = to_lowercase(filter);
    let needle_empty = needle.unicode_len() == 0;
    let mut out: Vec<String> = Vec::new();
    let mut i: usize = 0;
    while i < names.len()
        invariant
            i <= names.len(),
            needle@ == lowercase(filter@),
            needle_empty == (needle@.len() == 0),
            views(out@) == filter_views(views(names@).take(i as int), filter@),
        decreases names.len() - i,
    {
        let ghost before = out@;
        let keep = needle_empty || contains_text(to_lowercase(names[i].as_str()).as_str(), needle.as_str());
        proof {
            assert(views(names@).take(i + 1).drop_last() =~= views(names@).take(i as int));
            assert(views(names@).take(i + 1).last() == names@[i as int]@);
        }
        if keep {
            out.push(names[i].clone());
            proof {
                lemma_views_push(before, names@[i as int]);
            }
        }
        i = i + 1;
    }
    proof {
        assert(views(names@).take(names@.len() as int) =~= views(names@));
    }
    out
}

/// What the tables list shows next to a table name: partitions and bytes,
/// taken from the status poll.
#[derive(Clone, Copy, Debug)]
pub struct TableListMetrics {
    pub partitions_count: u64,
    pub data_size: u64,
}

/// The metrics listed for `name`: the last entry with that name, as a map
/// that entries are inserted into in order keeps it.
pub open spec fn lookup_metrics(entries: Seq<(String, TableListMetrics)>, name: Seq<char>) -> Option<
    TableListMetrics,
>
    decreases entries.len(),
{
    if entries.len() == 0 {
        None
    } else if entries.last().0@ == name {
        Some(entries.last().1)
    } else {
        lookup_metrics(entries.drop_last(), name)
    }
}

pub fn find_table_metrics(entries: &Vec<(String, TableListMetrics)>, name: &str) -> (r: Option<
    TableListMetrics,
>)
    ensures
        r == lookup_metrics(entries@, name@),
{
    let target = name.to_owned();
    let mut i: usize = entries.len();
    proof {
        assert(entries@.take(i as int) =~= entries@);
    }
    while i > 0
        invariant
            i <= entries.len(),
            target@ == name@,
            lookup_metrics(entries@, name@) == lookup_metrics(entries@.take(i as int), name@),
        decreases i,
    {
        proof {
            assert(entries@.take(i as int).drop_last() =~= entries@.take(i - 1));
        }
        if entries[i - 1].0 == target {
            return Some(entries[i - 1].1);
        }
        i = i - 1;
    }
    None
}

/// Bytes of the visible tables that have metrics.
pub open spec fn visible_size(visible: Seq<Seq<char>>, entries: Seq<(String, TableListMetrics)>) -> int
    decreases visible.len(),
{
    if visible.len() == 0 {
        0
    } else {
        visible_size(visible.drop_last(), entries) + match lookup_metrics(entries, visible.last()) {
            Some(m) => m.data_size as int,
            None => 0,
        }
    }
}

proof fn lemma_visible_size_monotone(
    visible: Seq<Seq<char>>,
    entries: Seq<(String, TableListMetrics)>,
    i: int,
)
    requires
        0 <= i <= visible.len(),
    ensures
        0 <= visible_size(visible.take(i), entries) <= visible_size(visible, entries),
    decreases visible.len() - i,
{
    if i < visible.len() {
        lemma_visible_size_monotone(visible, entries, i + 1);
        assert(visible.take(i + 1).drop_last() =~= visible.take(i));
        lemma_visible_size_nonneg(visible.take(i), entries);
    } else {
        assert(visible.take(i) =~= visible);
        lemma_visible_size_nonneg(visible, entries);
    }
}

proof fn lemma_visible_size_nonneg(visible: Seq<Seq<char>>, entries: Seq<(String, TableListMetrics)>)
    ensures
        visible_size(visible, entries) >= 0,
    decreases visible.len(),
{
    if visible.len() > 0 {
        lemma_visible_size_nonneg(visible.drop_last(), entries);
    }
}

/// Whether the bytes of the tables the filter leaves fit a `u64`, as the
/// tables list needs to add them up.
pub fn visible_size_fits(
    tables: &Vec<TableListItemApiModel>,
    filter: &str,
    metrics: &Vec<(String, TableListMetrics)>,
) -> (r: bool)
    ensures
        r == (visible_size(filter_views(table_item_names(tables@), filter@), metrics@) <= u64::MAX),
{
    let mut names: Vec<String> = Vec::new();
    let mut i: usize = 0;
    while i < tables.len()
        invariant
            i <= tables.len(),
            views(names@) == table_item_names(tables@.take(i as int)),
        decreases tables.len() - i,
    {
        let ghost before = names@;
        names.push(tables[i].name.clone());
        proof {
            lemma_views_push(before, tables@[i as int].name);
            assert(table_item_names(tables@.take(i + 1)) =~= table_item_names(tables@.take(i as int)).push(
                tables@[i as int].name@,
            ));
        }
        i = i + 1;
    }
    proof {
        assert(tables@.take(tables@.len() as int) =~= tables@);
    }
    let visible = filter_names(&names, filter);
    let ghost vis = views(visible@);
    let mut size: u64 = 0;
    let mut k: usize = 0;
    proof {
        assert(vis.take(0) =~= Seq::<Seq<char>>::empty());
    }
    while k < visible.len()
        invariant
            k <= visible.len(),
            vis == views(visible@),
            vis == filter_views(table_item_names(tables@), filter@),
            size == visible_size(vis.take(k as int), metrics@),
        decreases visible.len() - k,
    {
        let m = find_table_metrics(metrics, visible[k].as_str());
        proof {
            assert(vis.take(k + 1).drop_last() =~= vis.take(k as int));
            assert(vis.take(k + 1).last() == visible@[k as int]@);
            lemma_visible_size_monotone(vis, metrics@, k + 1);
        }
        match m {
            Some(mm) => {
                match size.checked_add(mm.data_size) {
                    Some(next) => size = next,
                    None => {
                        proof {
                            lemma_visible_size_monotone(vis, metrics@, k + 1);
                        }
                        return false;
                    },
                }
            },
            None => {},
        }
        k = k + 1;
    }
    proof {
        assert(vis.take(vis.len() as int) =~= vis);
    }
    true
}

/// One row of the tables list.
pub struct TablesPaneRow {
    pub name: String,
    pub active: bool,
    pub has_writer: bool,
    /// `None` for a table the status poll has not covered yet, shown as a dash.
    pub metrics: Option<TableListMetrics>,
}

/// What the tables list shows.
pub struct TablesPaneView {
    pub rows: Vec<TablesPaneRow>,
    /// Tables that stay visible under the filter.
    pub total: usize,
    /// Bytes of the visible tables; `None` until the status poll has answered,
    /// since "0b" next to a full list would read as an empty database.
    pub total_size: Option<u64>,
}

/// The names of a table list.
pub open spec fn table_item_names(tables: Seq<TableListItemApiModel>) -> Seq<Seq<char>> {
    tables.map_values(|t: TableListItemApiModel| t.name@)
}

/// The tables list: the tables the filter leaves, the selected one marked, a
/// dot on those some writer writes, and their metrics.
pub fn tables_pane(
    tables: &Vec<TableListItemApiModel>,
    filter: &str,
    selected: &str,
    writer_tables: &Vec<String>,
    metrics: &Vec<(String, TableListMetrics)>,
) -> (r: TablesPaneView)
    requires
        visible_size(filter_views(table_item_names(tables@), filter@), metrics@) <= u64::MAX,
    ensures
        r.total == r.rows.len(),
        r.rows@.map_values(|row: TablesPaneRow| row.name@) == filter_views(
            table_item_names(tables@),
            filter@,
        ),
        forall|i: int| 0 <= i < r.rows.len() ==> {
            &&& (#[trigger] r.rows@[i]).active == (r.rows@[i].name@ == selected@)
            &&& r.rows@[i].has_writer == views(writer_tables@).contains(r.rows@[i].name@)
            &&& r.rows@[i].metrics == lookup_metrics(metrics@, r.rows@[i].name@)
        },
        metrics.len() == 0 ==> r.total_size is None,
        metrics.len() > 0 ==> r.total_size == Some(
            visible_size(filter_views(table_item_names(tables@), filter@), metrics@) as u64,
        ),
{
    let mut names: Vec<String> = Vec::new();
    let mut i: usize = 0;
    while i < tables.len()
        invariant
            i <= tables.len(),
            views(names@) == table_item_names(tables@.take(i as int)),
        decreases tables.len() - i,
    {
        let ghost before = names@;
        names.push(tables[i].name.clone());
        proof {
            lemma_views_push(before, tables@[i as int].name);
            assert(table_item_names(tables@.take(i + 1)) =~= table_item_names(tables@.take(i as int)).push(
                tables@[i as int].name@,
            ));
        }
        i = i + 1;
    }
    proof {
        assert(tables@.take(tables@.len() as int) =~= tables@);
    }
    let visible = filter_names(&names, filter);
    let ghost vis = views(visible@);
    let selected_owned = selected.to_owned();
    let mut rows: Vec<TablesPaneRow> = Vec::new();
    let mut size: u64 = 0;
    let mut k: usize = 0;
    while k < visible.len()
        invariant
            k <= visible.len(),
            vis == views(visible@),
            vis == filter_views(table_item_names(tables@), filter@),
            visible_size(vis, metrics@) <= u64::MAX,
            selected_owned@ == selected@,
            rows.len() == k,
            rows@.map_values(|row: TablesPaneRow| row.name@) == vis.take(k as int),
            size == visible_size(vis.take(k as int), metrics@),
            forall|j: int| 0 <= j < k ==> {
                &&& (#[trigger] rows@[j]).active == (rows@[j].name@ == selected@)
                &&& rows@[j].has_writer == views(writer_tables@).contains(rows@[j].name@)
                &&& rows@[j].metrics == lookup_metrics(metrics@, rows@[j].name@)
            },
        decreases visible.len() - k,
    {
        let name = visible[k].clone();
        let m = find_table_metrics(metrics, name.as_str());
        proof {
            assert(vis.take(k + 1).drop_last() =~= vis.take(k as int));
            assert(vis.take(k + 1).last() == name@);
            lemma_visible_size_monotone(vis, metrics@, k + 1);
        }
        match m {
            Some(mm) => size = size + mm.data_size,
            None => {},
        }
        let active = name == selected_owned;
        let has_writer = contains_str(writer_tables, name.as_str());
        let ghost before = rows@;
        rows.push(TablesPaneRow { name, active, has_writer, metrics: m });
        proof {
            assert(rows@.map_values(|row: TablesPaneRow| row.name@) =~= before.map_values(
                |row: TablesPaneRow| row.name@,
            ).push(vis[k as int]));
            assert(vis.take(k + 1) =~= vis.take(k as int).push(vis[k as int]));
        }
        k = k + 1;
    }
    proof {
        assert(vis.take(vis.len() as int) =~= vis);
    }
    let total = rows.len();
    let total_size = if metrics.len() == 0 {
        None
    } else {
        Some(size)
    };
    TablesPaneView { rows, total, total_size }
}

/// One row of the partitions list.
pub struct PartitionsPaneRow {
    pub partition_key: String,
    pub active: bool,
    /// Records and bytes; zero while the metrics poll has not covered the partition.
    pub records: u64,
    pub size: u64,
}

/// The metrics of a partition: the last entry with its key.
pub open spec fn lookup_partition(metrics: Seq<PartitionMetricApiModel>, key: Seq<char>) -> Option<
    PartitionMetricApiModel,
>
    decreases metrics.len(),
{
    if metrics.len() == 0 {
        None
    } else if metrics.last().partition_key@ == key {
        Some(metrics.last())
    } else {
        lookup_partition(metrics.drop_last(), key)
    }
}

/// Records and bytes of a partition, zero when it has no metrics.
pub fn find_partition_metrics(metrics: &Vec<PartitionMetricApiModel>, key: &str) -> (r: (u64, u64))
    ensures
        r == match lookup_partition(metrics@, key@) {
            Some(m) => (m.records_count, m.data_size),
            None => (0u64, 0u64),
        },
{
    let target = key.to_owned();
    let mut i: usize = metrics.len();
    proof {
        assert(metrics@.take(i as int) =~= metrics@);
    }
    while i > 0
        invariant
            i <= metrics.len(),
            target@ == key@,
            lookup_partition(metrics@, key@) == lookup_partition(metrics@.take(i as int), key@),
        decreases i,
    {
        proof {
            assert(metrics@.take(i as int).drop_last() =~= metrics@.take(i - 1));
        }
        if metrics[i - 1].partition_key == target {
            return (metrics[i - 1].records_count, metrics[i - 1].data_size);
        }
        i = i - 1;
    }
    (0, 0)
}

/// The partitions list: the partitions the filter leaves, the selected one
/// marked, with their records and bytes.
pub fn partitions_pane(
    partitions: &Vec<String>,
    filter: &str,
    selected: Option<String>,
    metrics: &Vec<PartitionMetricApiModel>,
) -> (r: Vec<PartitionsPaneRow>)
    ensures
        r@.map_values(|row: PartitionsPaneRow| row.partition_key@) == filter_views(
            views(partitions@),
            filter@,
        ),
        forall|i: int| 0 <= i < r.len() ==> {
            &&& (#[trigger] r@[i]).active == (crate::routes::opt_view(selected) == Some(
                r@[i].partition_key@,
            ))
            &&& (r@[i].records, r@[i].size) == match lookup_partition(metrics@, r@[i].partition_key@) {
                Some(m) => (m.records_count, m.data_size),
                None => (0u64, 0u64),
            }
        },
{
    let visible = filter_names(partitions, filter);
    let ghost vis = views(visible@);
    let mut rows: Vec<PartitionsPaneRow> = Vec::new();
    let mut k: usize = 0;
    while k < visible.len()
        invariant
            k <= visible.len(),
            vis == views(visible@),
            rows.len() == k,
            rows@.map_values(|row: PartitionsPaneRow| row.partition_key@) == vis.take(k as int),
            forall|j: int| 0 <= j < k ==> {
                &&& (#[trigger] rows@[j]).active == (crate::routes::opt_view(selected) == Some(
                    rows@[j].partition_key@,
                ))
                &&& (rows@[j].records, rows@[j].size) == match lookup_partition(
                    metrics@,
                    rows@[j].partition_key@,
                ) {
                    Some(m) => (m.records_count, m.data_size),
                    None => (0u64, 0u64),
                }
            },
        decreases visible.len() - k,
    {
        let key = visible[k].clone();
        let (records, size) = find_partition_metrics(metrics, key.as_str());
        let active = match &selected {
            Some(s) => *s == key,
            None => false,
        };
        let ghost before = rows@;
        rows.push(PartitionsPaneRow { partition_key: key, active, records, size });
        proof {
            assert(rows@.map_values(|row: PartitionsPaneRow| row.partition_key@) =~= before.map_values(
                |row: PartitionsPaneRow| row.partition_key@,
            ).push(vis[k as int]));
            assert(vis.take(k + 1) =~= vis.take(k as int).push(vis[k as int]));
        }
        k = k + 1;
    }
    proof {
        assert(vis.take(vis.len() as int) =~= vis);
    }
    rows
}

} // verus!
