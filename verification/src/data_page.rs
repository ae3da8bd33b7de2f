use vstd::prelude::*;
use crate::keyset::{key_set, distinct_keys, key_set_insert};
use crate::models::{
    InitializedApiModel, PartitionMetricApiModel, ReaderApiModel, StatusApiModel, TableApiModel,
    TableListItemApiModel, WriterApiModel,
};
use crate::order::{is_stable_arrangement, SortOrder, is_sorted, sort_stable, lex_le, str_le, lemma_lex_total, lemma_lex_transitive};
use crate::overview::written_tables;
use crate::panes::TableListMetrics;
use crate::tally::{views, lemma_views_push, contains_str};
use crate::utils::{format_unix_microseconds, iso_timestamp};

verus! {

/// Tables on the "select a table" screen offered as shortcuts.
pub const EMPTY_STATE_CHIPS: usize = 8;

/// The connections and tables of a status answer, once the server has loaded.
pub open spec fn initialized_of(status: Option<StatusApiModel>) -> Option<InitializedApiModel> {
    match status {
        Some(s) => s.initialized,
        None => None,
    }
}

/// The tables the writers of a status answer write, each writer's list in turn.
pub open spec fn status_written_tables(status: Option<StatusApiModel>) -> Seq<Seq<char>> {
    match initialized_of(status) {
        Some(init) => written_tables(init.writers@),
        None => Seq::empty(),
    }
}

/// The tables some writer writes, each once.
pub fn build_writer_tables(status: &Option<StatusApiModel>) -> (r: Vec<String>)
    ensures
        distinct_keys(r@),
        key_set(r@) == status_written_tables(*status).to_set(),
{
    let mut set: Vec<String> = Vec::new();
    proof {
        assert(key_set(set@) =~= Set::<Seq<char>>::empty());
    }
    if let Some(s) = status {
        if let Some(init) = &s.initialized {
            let writers = &init.writers;
            let mut i: usize = 0;
            proof {
                assert(writers@.take(0) =~= Seq::<WriterApiModel>::empty());
                assert(written_tables(writers@.take(0)).to_set() =~= Set::<Seq<char>>::empty());
            }
            while i < writers.len()
                invariant
                    i <= writers.len(),
                    distinct_keys(set@),
                    key_set(set@) == written_tables(writers@.take(i as int)).to_set(),
                decreases writers.len() - i,
            {
                let tables = &writers[i].tables;
                let ghost start = written_tables(writers@.take(i as int));
                let mut k: usize = 0;
                proof {
                    assert(views(tables@).take(0) =~= Seq::<Seq<char>>::empty());
                    assert(start + views(tables@).take(0) =~= start);
                }
                while k < tables.len()
                    invariant
                        k <= tables.len(),
                        tables@ == writers@[i as int].tables@,
                        distinct_keys(set@),
                        key_set(set@) == (start + views(tables@).take(k as int)).to_set(),
                    decreases tables.len() - k,
                {
                    key_set_insert(&mut set, tables[k].clone());
                    proof {
                        assert(start + views(tables@).take(k + 1) =~= (start + views(tables@).take(
                            k as int,
                        )).push(tables@[k as int]@));
                        (start + views(tables@).take(k as int)).lemma_push_to_set_commute(tables@[k as int]@);
                    }
                    k = k + 1;
                }
                proof {
                    assert(views(tables@).take(k as int) =~= views(tables@));
                    assert(writers@.take(i + 1).drop_last() =~= writers@.take(i as int));
                    assert(writers@.take(i + 1).last() == writers@[i as int]);
                }
                i = i + 1;
            }
            proof {
                assert(writers@.take(i as int) =~= writers@);
            }
        }
    }
    set
}

/// The names of the writers that write `table`, in order.
pub open spec fn writers_of(writers: Seq<WriterApiModel>, table: Seq<char>) -> Seq<Seq<char>>
    decreases writers.len(),
{
    if writers.len() == 0 {
        Seq::empty()
    } else if views(writers.last().tables@).contains(table) {
        writers_of(writers.drop_last(), table).push(writers.last().name@)
    } else {
        writers_of(writers.drop_last(), table)
    }
}

/// How many client readers (not replicating nodes) read `table`.
pub open spec fn client_readers_of(readers: Seq<ReaderApiModel>, table: Seq<char>) -> nat
    decreases readers.len(),
{
    if readers.len() == 0 {
        0
    } else {
        client_readers_of(readers.drop_last(), table) + (if !readers.last().is_node && views(
            readers.last().tables@,
        ).contains(table) {
            1nat
        } else {
            0nat
        })
    }
}

proof fn lemma_client_readers_le(readers: Seq<ReaderApiModel>, table: Seq<char>)
    ensures
        client_readers_of(readers, table) <= readers.len(),
    decreases readers.len(),
{
    if readers.len() > 0 {
        lemma_client_readers_le(readers.drop_last(), table);
    }
}

/// The writers of `table` and the number of client readers reading it, for
/// the table toolbar.
pub fn derive_table_connectivity(status: &Option<StatusApiModel>, table: &str) -> (r: (Vec<String>, usize))
    ensures
        match initialized_of(*status) {
            Some(init) => views(r.0@) == writers_of(init.writers@, table@) && r.1 == client_readers_of(
                init.readers@,
                table@,
            ),
            None => r.0@.len() == 0 && r.1 == 0,
        },
{
    let mut writers: Vec<String> = Vec::new();
    let mut readers: usize = 0;
    if let Some(s) = status {
        if let Some(init) = &s.initialized {
            let ws = &init.writers;
            let mut i: usize = 0;
            proof {
                assert(ws@.take(0) =~= Seq::<WriterApiModel>::empty());
            }
            while i < ws.len()
                invariant
                    i <= ws.len(),
                    views(writers@) == writers_of(ws@.take(i as int), table@),
                decreases ws.len() - i,
            {
                proof {
                    assert(ws@.take(i + 1).drop_last() =~= ws@.take(i as int));
                    assert(ws@.take(i + 1).last() == ws@[i as int]);
                }
                if contains_str(&ws[i].tables, table) {
                    let ghost before = writers@;
                    writers.push(ws[i].name.clone());
                    proof {
                        lemma_views_push(before, writers@.last());
                    }
                }
                i = i + 1;
            }
            proof {
                assert(ws@.take(i as int) =~= ws@);
            }
            let rs = &init.readers;
            let mut j: usize = 0;
            proof {
                assert(rs@.take(0) =~= Seq::<ReaderApiModel>::empty());
            }
            while j < rs.len()
                invariant
                    j <= rs.len(),
                    readers == client_readers_of(rs@.take(j as int), table@),
                decreases rs.len() - j,
            {
                proof {
                    assert(rs@.take(j + 1).drop_last() =~= rs@.take(j as int));
                    assert(rs@.take(j + 1).last() == rs@[j as int]);
                    lemma_client_readers_le(rs@.take(j + 1), table@);
                }
                if !rs[j].is_node && contains_str(&rs[j].tables, table) {
                    readers = readers + 1;
                }
                j = j + 1;
            }
            proof {
                assert(rs@.take(j as int) =~= rs@);
            }
        }
    }
    (writers, readers)
}

/// The statistics of `table`: the position of the first entry with that
/// name in the status answer's table list.
pub fn derive_table_stats(status: &Option<StatusApiModel>, table: &str) -> (r: Option<usize>)
    ensures
        match initialized_of(*status) {
            Some(init) => match r {
                Some(i) => i < init.tables.len() && init.tables@[i as int].name@ == table@ && forall|j: int|
                    0 <= j < i ==> (#[trigger] init.tables@[j]).name@ != table@,
                None => forall|j: int| 0 <= j < init.tables.len() ==> (#[trigger] init.tables@[j]).name@
                    != table@,
            },
            None => r is None,
        },
{
    match status {
        Some(s) => match &s.initialized {
            Some(init) => {
                let target = table.to_owned();
                let mut i: usize = 0;
                while i < init.tables.len()
                    invariant
                        i <= init.tables.len(),
                        initialized_of(*status) == Some(*init),
                        target@ == table@,
                        forall|j: int| 0 <= j < i ==> (#[trigger] init.tables@[j]).name@ != table@,
                    decreases init.tables.len() - i,
                {
                    if init.tables[i].name == target {
                        return Some(i);
                    }
                    i = i + 1;
                }
                None
            },
            None => None,
        },
        None => None,
    }
}

/// Partitions and bytes of each table of a status answer, in its order.
pub open spec fn table_metrics_of(tables: Seq<TableApiModel>) -> Seq<(Seq<char>, TableListMetrics)> {
    tables.map_values(
        |t: TableApiModel|
            (t.name@, TableListMetrics { partitions_count: t.partitions_count, data_size: t.data_size }),
    )
}

/// Partitions and bytes of each table the status answer lists, for the
/// tables list.
pub fn derive_table_metrics(status: &Option<StatusApiModel>) -> (r: Vec<(String, TableListMetrics)>)
    ensures
        r@.map_values(|e: (String, TableListMetrics)| (e.0@, e.1)) == match initialized_of(*status) {
            Some(init) => table_metrics_of(init.tables@),
            None => Seq::empty(),
        },
{
    let mut out: Vec<(String, TableListMetrics)> = Vec::new();
    match status {
        Some(s) => match &s.initialized {
            Some(init) => {
                let tables = &init.tables;
                let mut i: usize = 0;
                while i < tables.len()
                    invariant
                        i <= tables.len(),
                        out@.map_values(|e: (String, TableListMetrics)| (e.0@, e.1)) == table_metrics_of(
                            tables@.take(i as int),
                        ),
                    decreases tables.len() - i,
                {
                    let ghost before = out@;
                    let t = &tables[i];
                    out.push(
                        (
                            t.name.clone(),
                            TableListMetrics { partitions_count: t.partitions_count, data_size: t.data_size },
                        ),
                    );
                    proof {
                        assert(out@.map_values(|e: (String, TableListMetrics)| (e.0@, e.1)) =~= before.map_values(
                            |e: (String, TableListMetrics)| (e.0@, e.1),
                        ).push(table_metrics_of(tables@)[i as int]));
                        assert(table_metrics_of(tables@.take(i + 1)) =~= table_metrics_of(
                            tables@.take(i as int),
                        ).push(table_metrics_of(tables@)[i as int]));
                    }
                    i = i + 1;
                }
                proof {
                    assert(tables@.take(i as int) =~= tables@);
                }
            },
            None => {
                proof {
                    assert(out@.map_values(|e: (String, TableListMetrics)| (e.0@, e.1)) =~= Seq::empty());
                }
            },
        },
        None => {
            proof {
                assert(out@.map_values(|e: (String, TableListMetrics)| (e.0@, e.1)) =~= Seq::empty());
            }
        },
    }
    out
}

impl SortOrder for TableListItemApiModel {
    open spec fn before(a: Self, b: Self) -> bool {
        lex_le(a.name@, b.name@)
    }

    proof fn lemma_before_total(a: Self, b: Self) {
        lemma_lex_total(a.name@, b.name@);
    }

    proof fn lemma_before_transitive(a: Self, b: Self, c: Self) {
        lemma_lex_transitive(a.name@, b.name@, c.name@);
    }

    fn comes_before(&self, other: &Self) -> (r: bool) {
        str_le(self.name.as_str(), other.name.as_str())
    }
}

/// The tables list in name order.
pub fn sort_tables(tables: Vec<TableListItemApiModel>) -> (r: Vec<TableListItemApiModel>)
    ensures
        is_sorted(r@),
        r@.to_multiset() == tables@.to_multiset(),
        exists|p: Seq<int>| is_stable_arrangement(tables@, r@, p),
{
    sort_stable(tables)
}

/// The names offered as shortcuts on the "select a table" screen: the first
/// few tables of the list.
pub fn empty_state_chips(tables: &Vec<TableListItemApiModel>) -> (r: Vec<String>)
    ensures
        views(r@) == tables@.take(
            if tables.len() < EMPTY_STATE_CHIPS { tables.len() as int } else { EMPTY_STATE_CHIPS as int },
        ).map_values(|t: TableListItemApiModel| t.name@),
{
    let mut out: Vec<String> = Vec::new();
    let mut i: usize = 0;
    while i < tables.len() && i < EMPTY_STATE_CHIPS
        invariant
            i <= tables.len(),
            i <= EMPTY_STATE_CHIPS,
            views(out@) == tables@.take(i as int).map_values(|t: TableListItemApiModel| t.name@),
        decreases tables.len() - i,
    {
        let ghost before = out@;
        out.push(tables[i].name.clone());
        proof {
            lemma_views_push(before, out@.last());
            assert(tables@.take(i + 1).map_values(|t: TableListItemApiModel| t.name@) =~= tables@.take(
                i as int,
            ).map_values(|t: TableListItemApiModel| t.name@).push(tables@[i as int].name@));
        }
        i = i + 1;
    }
    out
}

/// The partition to open by itself when a table with a single partition is
/// first listed and the URL names no partition.
pub fn single_partition_jump(
    details: &Vec<PartitionMetricApiModel>,
    first: bool,
    url_partition: &Option<String>,
) -> (r: Option<String>)
    ensures
        match r {
            Some(p) => first && url_partition is None && details.len() == 1 && p@
                == details@[0].partition_key@,
            None => !(first && url_partition is None && details.len() == 1),
        },
{
    if first && url_partition.is_none() && details.len() == 1 {
        Some(details[0].partition_key.clone())
    } else {
        None
    }
}

/// What the header of a table shows of its statistics.
pub struct TableHeaderMeta {
    /// The compression badge.
    pub compression: &'static str,
    /// When the table is next persisted; a dash when no time is scheduled.
    pub next_persist: String,
    /// When the table was last written.
    pub updated: String,
}

/// The header texts for a table's statistics.
pub fn table_header_meta(t: &TableApiModel) -> (r: TableHeaderMeta)
    ensures
        r.compression@ == (if t.compressed { "compressed"@ } else { "non compressed"@ }),
        r.next_persist@ == match t.next_persist_time {
            Some(v) => if v > 0 { iso_timestamp(v as int) } else { "\u{2014}"@ },
            None => "\u{2014}"@,
        },
        r.updated@ == iso_timestamp(t.last_update_time as int),
{
    let compression = if t.compressed { "compressed" } else { "non compressed" };
    let next_persist = match t.next_persist_time {
        Some(v) => if v > 0 {
            format_unix_microseconds(v)
        } else {
            String::from_str("\u{2014}")
        },
        None => String::from_str("\u{2014}"),
    };
    let updated = format_unix_microseconds(t.last_update_time);
    TableHeaderMeta { compression, next_persist, updated }
}

} // verus!
