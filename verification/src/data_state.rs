use vstd::prelude::*;
use crate::data_rows::{DataRow, rows_headers, build_rows_state};
use crate::keyset::{key_set, distinct_keys, toggled, key_set_insert, key_set_remove, key_set_toggle};
use crate::models::{PartitionMetricApiModel, TableListItemApiModel};
use crate::tally::views;

verus! {

/// Rows per page until the user picks another size.
pub const DEFAULT_PAGE_SIZE: usize = 100;

/// The confirm dialog open over the data page.
#[derive(Clone, Debug)]
pub enum DialogState {
    DeleteOne { partition_key: String, row_key: String },
    BulkDelete { partition_key: String, row_keys: Vec<String> },
    PasteDelete {
        raw: String,
        /// Row keys grouped by partition, once the pasted text has been read.
        parsed: Option<Vec<(String, Vec<String>)>>,
        total_rows: usize,
        partitions_touched: usize,
        error: Option<String>,
    },
    /// Turn in-memory compression on or off for a table. `compressed` is what
    /// the server reported when the dialog opened; the dialog offers the
    /// opposite.
    Compression {
        table: String,
        compressed: bool,
        /// Also re-encode the rows already in memory.
        force: bool,
        /// A request is in flight.
        busy: bool,
    },
}

/// Everything the data page remembers between renders.
pub struct DataState {
    pub tables: Vec<TableListItemApiModel>,
    pub tables_loaded: bool,
    /// Table whose partition list is loaded or loading.
    pub loaded_for_table: Option<String>,
    pub partitions: Option<Vec<String>>,
    /// Per-partition records and bytes for `loaded_for_table`; for a key
    /// listed twice the later entry counts.
    pub partition_metrics: Vec<PartitionMetricApiModel>,
    /// (table, partition) whose rows are loaded or loading.
    pub loaded_rows_for: Option<(String, String)>,
    /// The rows for `loaded_rows_for` have arrived.
    pub rows_ready: bool,
    pub headers: Vec<String>,
    pub rows: Vec<DataRow>,
    pub dialog: Option<DialogState>,
    /// Why the last write from the open dialog failed.
    pub write_error: Option<String>,
    /// Row keys ticked in the rows table, each once.
    pub checked_keys: Vec<String>,
    pub page_size: usize,
    pub current_page: usize,
}

/// The text of an optional string.
pub open spec fn text_of(o: Option<String>) -> Option<Seq<char>> {
    match o {
        Some(s) => Some(s@),
        None => None,
    }
}

/// The texts of an optional (table, partition) pair.
pub open spec fn scope_of(o: Option<(String, String)>) -> Option<(Seq<char>, Seq<char>)> {
    match o {
        Some((t, p)) => Some((t@, p@)),
        None => None,
    }
}

impl Default for DataState {
    /// The state of a freshly opened data page.
    fn default() -> (s: Self)
        ensures
            s.wf(),
            s.tables@.len() == 0,
            !s.tables_loaded,
            s.loaded_for_table is None,
            s.partitions is None,
            s.partition_metrics@.len() == 0,
            s.loaded_rows_for is None,
            !s.rows_ready,
            s.headers@.len() == 0,
            s.rows@.len() == 0,
            s.dialog is None,
            s.write_error is None,
            s.checked().is_empty(),
            s.page_size == DEFAULT_PAGE_SIZE,
            s.current_page == 0,
    {
        let s = DataState {
            tables: Vec::new(),
            tables_loaded: false,
            loaded_for_table: None,
            partitions: None,
            partition_metrics: Vec::new(),
            loaded_rows_for: None,
            rows_ready: false,
            headers: Vec::new(),
            rows: Vec::new(),
            dialog: None,
            write_error: None,
            checked_keys: Vec::new(),
            page_size: DEFAULT_PAGE_SIZE,
            current_page: 0,
        };
        proof {
            assert(s.checked() =~= Set::<Seq<char>>::empty());
        }
        s
    }
}

impl DataState {
    /// A page size of at least one row, and each checked key once.
    pub open spec fn wf(&self) -> bool {
        &&& self.page_size >= 1
        &&& distinct_keys(self.checked_keys@)
    }

    /// Whether the page size is at least one row and each checked key is
    /// held once, as `data_view` needs.
    pub fn is_wf(&self) -> (r: bool)
        ensures
            r == self.wf(),
    {
        if self.page_size < 1 {
            return false;
        }
        let n = self.checked_keys.len();
        let mut i: usize = 0;
        while i < n
            invariant
                n == self.checked_keys.len(),
                i <= n,
                forall|a: int, b: int| 0 <= a < b < n && a < i ==> views(self.checked_keys@)[a]
                    != views(self.checked_keys@)[b],
            decreases n - i,
        {
            let mut j: usize = i + 1;
            while j < n
                invariant
                    n == self.checked_keys.len(),
                    i < n,
                    i + 1 <= j <= n,
                    forall|b: int| i < b < j ==> views(self.checked_keys@)[i as int] != views(self.checked_keys@)[b],
                decreases n - j,
            {
                if self.checked_keys[i] == self.checked_keys[j] {
                    assert(views(self.checked_keys@)[i as int] == views(self.checked_keys@)[j as int]);
                    return false;
                }
                j = j + 1;
            }
            i = i + 1;
        }
        true
    }

    /// The set of checked row keys.
    pub open spec fn checked(&self) -> Set<Seq<char>> {
        key_set(self.checked_keys@)
    }


    /// Stores the tables list.
    pub fn set_tables(&mut self, tables: Vec<TableListItemApiModel>)
        ensures
            *final(self) == (DataState { tables, tables_loaded: true, ..*old(self) }),
    {
        self.tables = tables;
        self.tables_loaded = true;
    }

    /// Marks the tables list as loaded, though it failed to arrive.
    pub fn mark_tables_loaded(&mut self)
        ensures
            *final(self) == (DataState { tables_loaded: true, ..*old(self) }),
    {
        self.tables_loaded = true;
    }

    /// Starts loading the partition list for `table`; drops the partitions,
    /// rows and checks of the table shown before.
    pub fn begin_table_load(&mut self, table: &str)
        requires
            old(self).wf(),
        ensures
            final(self).wf(),
            text_of(final(self).loaded_for_table) == Some(table@),
            final(self).partitions is None,
            final(self).partition_metrics@.len() == 0,
            final(self).loaded_rows_for is None,
            !final(self).rows_ready,
            final(self).headers@.len() == 0,
            final(self).rows@.len() == 0,
            final(self).checked().is_empty(),
            final(self).current_page == 0,
            final(self).tables == old(self).tables,
            final(self).tables_loaded == old(self).tables_loaded,
            final(self).dialog == old(self).dialog,
            final(self).write_error == old(self).write_error,
            final(self).page_size == old(self).page_size,
    {
        self.loaded_for_table = Some(table.to_owned());
        self.partitions = None;
        self.partition_metrics = Vec::new();
        self.loaded_rows_for = None;
        self.rows_ready = false;
        self.headers = Vec::new();
        self.rows = Vec::new();
        self.checked_keys = Vec::new();
        self.current_page = 0;
        proof {
            assert(self.checked() =~= Set::<Seq<char>>::empty());
        }
    }

    /// Whether the partition list of `table` still has to be loaded: it is
    /// neither loaded nor loading.
    pub fn needs_table_load(&self, table: &str) -> (r: bool)
        ensures
            r == (text_of(self.loaded_for_table) != Some(table@)),
    {
        match &self.loaded_for_table {
            Some(t) => !(*t == table.to_owned()),
            None => true,
        }
    }

    /// Stores fetched partition details for `table`, unless another table was
    /// selected meanwhile: the keys in the order fetched, and the metrics.
    pub fn set_partition_details(&mut self, table: &str, details: Vec<PartitionMetricApiModel>)
        ensures
            text_of(old(self).loaded_for_table) != Some(table@) ==> *final(self) == *old(self),
            text_of(old(self).loaded_for_table) == Some(table@) ==> {
                &&& final(self).partitions is Some
                &&& views(final(self).partitions->Some_0@) == details@.map_values(
                    |d: PartitionMetricApiModel| d.partition_key@,
                )
                &&& final(self).partition_metrics == details
                &&& *final(self) == (DataState {
                    partitions: final(self).partitions,
                    partition_metrics: details,
                    ..*old(self)
                })
            },
    {
        if self.needs_table_load(table) {
            return;
        }
        let mut keys: Vec<String> = Vec::new();
        let mut i: usize = 0;
        while i < details.len()
            invariant
                i <= details.len(),
                views(keys@) == details@.take(i as int).map_values(
                    |d: PartitionMetricApiModel| d.partition_key@,
                ),
            decreases details.len() - i,
        {
            let ghost before = keys@;
            keys.push(details[i].partition_key.clone());
            proof {
                crate::tally::lemma_views_push(before, keys@.last());
                assert(details@.take(i + 1).map_values(|d: PartitionMetricApiModel| d.partition_key@)
                    =~= details@.take(i as int).map_values(
                    |d: PartitionMetricApiModel| d.partition_key@,
                ).push(details@[i as int].partition_key@));
            }
            i = i + 1;
        }
        proof {
            assert(details@.take(i as int) =~= details@);
        }
        self.partitions = Some(keys);
        self.partition_metrics = details;
    }

    /// Starts loading rows for `(table, partition)`; drops the rows and
    /// checks shown before.
    pub fn begin_rows_load(&mut self, table: &str, partition: &str)
        requires
            old(self).wf(),
        ensures
            final(self).wf(),
            scope_of(final(self).loaded_rows_for) == Some((table@, partition@)),
            !final(self).rows_ready,
            final(self).headers@.len() == 0,
            final(self).rows@.len() == 0,
            final(self).checked().is_empty(),
            final(self).current_page == 0,
            final(self).tables == old(self).tables,
            final(self).tables_loaded == old(self).tables_loaded,
            final(self).loaded_for_table == old(self).loaded_for_table,
            final(self).partitions == old(self).partitions,
            final(self).partition_metrics == old(self).partition_metrics,
            final(self).dialog == old(self).dialog,
            final(self).write_error == old(self).write_error,
            final(self).page_size == old(self).page_size,
    {
        self.loaded_rows_for = Some((table.to_owned(), partition.to_owned()));
        self.rows_ready = false;
        self.headers = Vec::new();
        self.rows = Vec::new();
        self.checked_keys = Vec::new();
        self.current_page = 0;
        proof {
            assert(self.checked() =~= Set::<Seq<char>>::empty());
        }
    }

    /// Whether `(table, partition)` is the scope of the loaded or loading rows.
    pub fn rows_scope_is(&self, table: &str, partition: &str) -> (r: bool)
        ensures
            r == (scope_of(self.loaded_rows_for) == Some((table@, partition@))),
    {
        match &self.loaded_rows_for {
            Some((t, p)) => *t == table.to_owned() && *p == partition.to_owned(),
            None => false,
        }
    }

    /// Shows page `page` (counted from 0).
    pub fn set_page(&mut self, page: usize)
        ensures
            *final(self) == (DataState { current_page: page, ..*old(self) }),
    {
        self.current_page = page;
    }

    /// Shows `size` rows per page (at least one), from the first page.
    pub fn set_page_size(&mut self, size: usize)
        ensures
            *final(self) == (DataState {
                page_size: if size >= 1 { size } else { 1 },
                current_page: 0,
                ..*old(self)
            }),
    {
        self.page_size = if size >= 1 { size } else { 1 };
        self.current_page = 0;
    }

    /// Goes back to the first page.
    pub fn reset_pagination(&mut self)
        ensures
            *final(self) == (DataState { current_page: 0, ..*old(self) }),
    {
        self.current_page = 0;
    }

    /// Stores fetched rows for `(table, partition)` with their columns, unless
    /// another scope was selected meanwhile.
    pub fn set_rows(&mut self, table: &str, partition: &str, rows: Vec<DataRow>)
        ensures
            scope_of(old(self).loaded_rows_for) != Some((table@, partition@)) ==> *final(self) == *old(self),
            scope_of(old(self).loaded_rows_for) == Some((table@, partition@)) ==> {
                &&& views(final(self).headers@) == rows_headers(rows@)
                &&& *final(self) == (DataState {
                    headers: final(self).headers,
                    rows,
                    rows_ready: true,
                    ..*old(self)
                })
            },
    {
        if self.rows_scope_is(table, partition) {
            let (headers, rows) = build_rows_state(rows);
            self.headers = headers;
            self.rows = rows;
            self.rows_ready = true;
        }
    }

    /// Forgets the rows scope, so that the rows are fetched again.
    pub fn clear_rows_scope(&mut self)
        ensures
            *final(self) == (DataState { loaded_rows_for: None, rows_ready: false, ..*old(self) }),
    {
        self.loaded_rows_for = None;
        self.rows_ready = false;
    }

    /// Opens a dialog, dropping any error of an earlier attempt.
    pub fn open_dialog(&mut self, dialog: DialogState)
        ensures
            *final(self) == (DataState { dialog: Some(dialog), write_error: None, ..*old(self) }),
    {
        self.dialog = Some(dialog);
        self.write_error = None;
    }

    /// Closes the dialog and drops its error.
    pub fn close_dialog(&mut self)
        ensures
            *final(self) == (DataState { dialog: None, write_error: None, ..*old(self) }),
    {
        self.dialog = None;
        self.write_error = None;
    }

    /// Records why a write from the open dialog failed.
    pub fn set_write_error(&mut self, err: String)
        ensures
            *final(self) == (DataState { write_error: Some(err), ..*old(self) }),
    {
        self.write_error = Some(err);
    }

    /// Ticks row `key` when it is unticked, and unticks it when it is ticked.
    pub fn toggle_row_check(&mut self, key: String)
        requires
            old(self).wf(),
        ensures
            final(self).wf(),
            final(self).checked() == toggled(old(self).checked(), key@),
            *final(self) == (DataState { checked_keys: final(self).checked_keys, ..*old(self) }),
    {
        key_set_toggle(&mut self.checked_keys, key);
    }

    /// Ticks every key of `keys`, or with `check_all` false unticks them.
    pub fn toggle_all_check(&mut self, check_all: bool, keys: &Vec<String>)
        requires
            old(self).wf(),
        ensures
            final(self).wf(),
            final(self).checked() == (if check_all {
                old(self).checked().union(views(keys@).to_set())
            } else {
                old(self).checked().difference(views(keys@).to_set())
            }),
            *final(self) == (DataState { checked_keys: final(self).checked_keys, ..*old(self) }),
    {
        let mut i: usize = 0;
        while i < keys.len()
            invariant
                i <= keys.len(),
                self.wf(),
                *self == (DataState { checked_keys: self.checked_keys, ..*old(self) }),
                self.checked() == (if check_all {
                    old(self).checked().union(views(keys@.take(i as int)).to_set())
                } else {
                    old(self).checked().difference(views(keys@.take(i as int)).to_set())
                }),
            decreases keys.len() - i,
        {
            let ghost before = self.checked();
            if check_all {
                key_set_insert(&mut self.checked_keys, keys[i].clone());
            } else {
                key_set_remove(&mut self.checked_keys, keys[i].as_str());
            }
            proof {
                let now = views(keys@.take(i + 1)).to_set();
                let was = views(keys@.take(i as int)).to_set();
                assert(views(keys@.take(i + 1)) =~= views(keys@.take(i as int)).push(keys@[i as int]@));
                views(keys@.take(i as int)).lemma_push_to_set_commute(keys@[i as int]@);
                assert(now =~= was.insert(keys@[i as int]@));
                if check_all {
                    assert(self.checked() =~= old(self).checked().union(now));
                } else {
                    assert(self.checked() =~= old(self).checked().difference(now));
                }
            }
            i = i + 1;
        }
        proof {
            assert(keys@.take(i as int) =~= keys@);
        }
    }

    /// Unticks every row.
    pub fn clear_checked(&mut self)
        requires
            old(self).wf(),
        ensures
            final(self).wf(),
            final(self).checked().is_empty(),
            *final(self) == (DataState { checked_keys: final(self).checked_keys, ..*old(self) }),
    {
        self.checked_keys = Vec::new();
        proof {
            assert(self.checked() =~= Set::<Seq<char>>::empty());
        }
    }

    /// After a row was deleted: closes the dialog, unticks the row, and
    /// forgets the rows so that they are fetched again.
    pub fn finish_delete_one(&mut self, row_key: &str)
        requires
            old(self).wf(),
        ensures
            final(self).wf(),
            final(self).checked() == old(self).checked().remove(row_key@),
            *final(self) == (DataState {
                dialog: None,
                write_error: None,
                loaded_rows_for: None,
                rows_ready: false,
                checked_keys: final(self).checked_keys,
                ..*old(self)
            }),
    {
        self.close_dialog();
        key_set_remove(&mut self.checked_keys, row_key);
        self.clear_rows_scope();
    }

    /// After a bulk delete: closes the dialog, unticks the deleted rows, and
    /// forgets the rows so that they are fetched again.
    pub fn finish_bulk_delete(&mut self, row_keys: &Vec<String>)
        requires
            old(self).wf(),
        ensures
            final(self).wf(),
            final(self).checked() == old(self).checked().difference(views(row_keys@).to_set()),
            *final(self) == (DataState {
                dialog: None,
                write_error: None,
                loaded_rows_for: None,
                rows_ready: false,
                checked_keys: final(self).checked_keys,
                ..*old(self)
            }),
    {
        self.close_dialog();
        self.toggle_all_check(false, row_keys);
        self.clear_rows_scope();
    }

    /// After a paste delete: closes the dialog, unticks every row, and forgets
    /// the rows so that they are fetched again.
    pub fn finish_paste_delete(&mut self)
        requires
            old(self).wf(),
        ensures
            final(self).wf(),
            final(self).checked().is_empty(),
            *final(self) == (DataState {
                dialog: None,
                write_error: None,
                loaded_rows_for: None,
                rows_ready: false,
                checked_keys: final(self).checked_keys,
                ..*old(self)
            }),
    {
        self.close_dialog();
        self.clear_checked();
        self.clear_rows_scope();
    }

    /// The pasted text changed: keeps it, and forgets what the old text gave.
    pub fn paste_input(&mut self, raw: String)
        ensures
            old(self).dialog matches Some(DialogState::PasteDelete { .. }) ==> *final(self) == (DataState {
                dialog: Some(
                    DialogState::PasteDelete {
                        raw,
                        parsed: None,
                        total_rows: 0,
                        partitions_touched: 0,
                        error: None,
                    },
                ),
                ..*old(self)
            }),
            !(old(self).dialog matches Some(DialogState::PasteDelete { .. })) ==> *final(self) == *old(self),
    {
        match self.dialog.take() {
            Some(DialogState::PasteDelete { .. }) => {
                self.dialog = Some(
                    DialogState::PasteDelete {
                        raw,
                        parsed: None,
                        total_rows: 0,
                        partitions_touched: 0,
                        error: None,
                    },
                );
            },
            other => {
                self.dialog = other;
            },
        }
    }

    /// Stores what reading the pasted text gave: the grouped keys with their
    /// counts, or the reason it was refused.
    pub fn paste_parsed(&mut self, result: Result<(Vec<(String, Vec<String>)>, usize, usize), String>)
        ensures
            (match old(self).dialog {
                Some(DialogState::PasteDelete { raw, .. }) => *final(self) == (DataState {
                    dialog: Some(
                        match result {
                            Ok((groups, total, touched)) => DialogState::PasteDelete {
                                raw,
                                parsed: Some(groups),
                                total_rows: total,
                                partitions_touched: touched,
                                error: None,
                            },
                            Err(msg) => DialogState::PasteDelete {
                                raw,
                                parsed: None,
                                total_rows: 0,
                                partitions_touched: 0,
                                error: Some(msg),
                            },
                        },
                    ),
                    ..*old(self)
                }),
                _ => *final(self) == *old(self),
            }),
    {
        match self.dialog.take() {
            Some(DialogState::PasteDelete { raw, .. }) => {
                let d = match result {
                    Ok((groups, total, touched)) => DialogState::PasteDelete {
                        raw,
                        parsed: Some(groups),
                        total_rows: total,
                        partitions_touched: touched,
                        error: None,
                    },
                    Err(msg) => DialogState::PasteDelete {
                        raw,
                        parsed: None,
                        total_rows: 0,
                        partitions_touched: 0,
                        error: Some(msg),
                    },
                };
                self.dialog = Some(d);
            },
            other => {
                self.dialog = other;
            },
        }
    }

    /// Ticks or unticks "re-encode the rows already in memory".
    pub fn set_compression_force(&mut self, force: bool)
        ensures
            (match old(self).dialog {
                Some(DialogState::Compression { table, compressed, busy, .. }) => *final(self) == (DataState {
                    dialog: Some(DialogState::Compression { table, compressed, force, busy }),
                    ..*old(self)
                }),
                _ => *final(self) == *old(self),
            }),
    {
        match self.dialog.take() {
            Some(DialogState::Compression { table, compressed, busy, .. }) => {
                self.dialog = Some(DialogState::Compression { table, compressed, force, busy });
            },
            other => {
                self.dialog = other;
            },
        }
    }

    /// Starts applying the compression change, unless one is in flight:
    /// marks the dialog busy and gives the table, the flag to set (the
    /// opposite of what the server reported) and whether to re-encode.
    pub fn begin_compression_apply(&mut self) -> (r: Option<(String, bool, bool)>)
        ensures
            (match old(self).dialog {
                Some(DialogState::Compression { table, compressed, force, busy }) => if busy {
                    r is None && *final(self) == *old(self)
                } else {
                    &&& r is Some
                    &&& r->Some_0.0@ == table@
                    &&& r->Some_0.1 == !compressed
                    &&& r->Some_0.2 == force
                    &&& *final(self) == (DataState {
                        dialog: Some(DialogState::Compression { table, compressed, force, busy: true }),
                        ..*old(self)
                    })
                },
                _ => r is None && *final(self) == *old(self),
            }),
    {
        match self.dialog.take() {
            Some(DialogState::Compression { table, compressed, force, busy }) => {
                if busy {
                    self.dialog = Some(DialogState::Compression { table, compressed, force, busy });
                    None
                } else {
                    let name = table.clone();
                    self.dialog = Some(DialogState::Compression { table, compressed, force, busy: true });
                    Some((name, !compressed, force))
                }
            },
            other => {
                self.dialog = other;
                None
            },
        }
    }

    /// The compression change failed: the dialog can be used again, and
    /// shows why.
    pub fn compression_failed(&mut self, err: String)
        ensures
            (match old(self).dialog {
                Some(DialogState::Compression { table, compressed, force, .. }) => *final(self) == (DataState {
                    dialog: Some(DialogState::Compression { table, compressed, force, busy: false }),
                    write_error: Some(err),
                    ..*old(self)
                }),
                _ => *final(self) == (DataState { write_error: Some(err), ..*old(self) }),
            }),
    {
        match self.dialog.take() {
            Some(DialogState::Compression { table, compressed, force, .. }) => {
                self.dialog = Some(DialogState::Compression { table, compressed, force, busy: false });
            },
            other => {
                self.dialog = other;
            },
        }
        self.set_write_error(err);
    }
}

} // verus!
