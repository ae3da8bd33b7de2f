use vstd::prelude::*;
use crate::data_rows::DataRow;
use crate::data_state::text_of;
use crate::keyset::{key_set, distinct_keys, toggled, key_set_insert, key_set_contains, key_set_toggle};
use crate::models::{SnapshotFileApiModel, SnapshotTableApiModel};

use crate::tally::{views, lemma_views_push};


verus! {

/// The texts of an optional (file, table) pair.
pub open spec fn pair_of(o: Option<(String, String)>) -> Option<(Seq<char>, Seq<char>)> {
    match o {
        Some((a, b)) => Some((a@, b@)),
        None => None,
    }
}

/// The texts of an optional (file, table, partition) triple.
pub open spec fn triple_of(o: Option<(String, String, String)>) -> Option<(Seq<char>, Seq<char>, Seq<char>)> {
    match o {
        Some((a, b, c)) => Some((a@, b@, c@)),
        None => None,
    }
}

/// The confirmation dialog of a restore from a snapshot. `tables` holds one
/// or more whole tables; with a `partition` it is a single table, and only
/// that partition's rows are restored.
pub struct RestoreDialog {
    pub tables: Vec<String>,
    pub partition: Option<String>,
    pub clean_table: bool,
    pub in_progress: bool,
    /// How many of `tables` are restored so far.
    pub completed: usize,
    pub error: Option<String>,
    pub done: bool,
}

/// Everything the snapshots page remembers between renders.
pub struct SnapshotsState {
    pub files: Vec<SnapshotFileApiModel>,
    pub files_started: bool,
    pub files_ready: bool,
    /// File whose tables are loaded or loading.
    pub loaded_for_file: Option<String>,
    pub tables: Vec<SnapshotTableApiModel>,
    pub tables_ready: bool,
    /// Tables of the file ticked for a restore, each once.
    pub checked_tables: Vec<String>,
    /// (file, table) whose partitions are loaded or loading.
    pub loaded_for_table: Option<(String, String)>,
    pub partitions: Vec<String>,
    pub partitions_ready: bool,
    /// (file, table, partition) whose rows are loaded or loading.
    pub loaded_rows_for: Option<(String, String, String)>,
    pub row_headers: Vec<String>,
    pub rows: Vec<DataRow>,
    pub rows_ready: bool,
    pub restore: Option<RestoreDialog>,
    /// A request to make a snapshot is in flight.
    pub making_snapshot: bool,
    pub error: Option<String>,
}

/// The names of snapshot tables, in order.
pub open spec fn snapshot_table_names(tables: Seq<SnapshotTableApiModel>) -> Seq<Seq<char>> {
    tables.map_values(|t: SnapshotTableApiModel| t.name@)
}

impl Default for SnapshotsState {
    /// The state of a freshly opened snapshots page.
    fn default() -> (s: Self)
        ensures
            s.wf(),
            s.files@.len() == 0,
            !s.files_started,
            !s.files_ready,
            s.loaded_for_file is None,
            s.tables@.len() == 0,
            !s.tables_ready,
            s.checked().is_empty(),
            s.loaded_for_table is None,
            s.partitions@.len() == 0,
            !s.partitions_ready,
            s.loaded_rows_for is None,
            s.row_headers@.len() == 0,
            s.rows@.len() == 0,
            !s.rows_ready,
            s.restore is None,
            !s.making_snapshot,
            s.error is None,
    {
        let s = SnapshotsState {
            files: Vec::new(),
            files_started: false,
            files_ready: false,
            loaded_for_file: None,
            tables: Vec::new(),
            tables_ready: false,
            checked_tables: Vec::new(),
            loaded_for_table: None,
            partitions: Vec::new(),
            partitions_ready: false,
            loaded_rows_for: None,
            row_headers: Vec::new(),
            rows: Vec::new(),
            rows_ready: false,
            restore: None,
            making_snapshot: false,
            error: None,
        };
        proof {
            assert(s.checked() =~= Set::<Seq<char>>::empty());
        }
        s
    }
}

impl SnapshotsState {
    /// Each ticked table once.
    pub open spec fn wf(&self) -> bool {
        distinct_keys(self.checked_tables@)
    }

    /// The set of ticked tables.
    pub open spec fn checked(&self) -> Set<Seq<char>> {
        key_set(self.checked_tables@)
    }


    /// Starts loading the files list.
    pub fn begin_files_load(&mut self)
        ensures
            *final(self) == (SnapshotsState {
                files_started: true,
                files_ready: false,
                error: None,
                ..*old(self)
            }),
    {
        self.files_started = true;
        self.files_ready = false;
        self.error = None;
    }

    /// Stores the files list.
    pub fn set_files(&mut self, files: Vec<SnapshotFileApiModel>)
        ensures
            *final(self) == (SnapshotsState { files, files_ready: true, ..*old(self) }),
    {
        self.files = files;
        self.files_ready = true;
    }

    /// A request to make a snapshot was sent.
    pub fn begin_make_snapshot(&mut self)
        ensures
            *final(self) == (SnapshotsState { making_snapshot: true, error: None, ..*old(self) }),
    {
        self.making_snapshot = true;
        self.error = None;
    }

    /// The snapshot was made: the files list is loaded again, so that it
    /// shows the new one.
    pub fn make_snapshot_done(&mut self)
        ensures
            *final(self) == (SnapshotsState {
                making_snapshot: false,
                files_started: false,
                ..*old(self)
            }),
    {
        self.making_snapshot = false;
        self.files_started = false;
    }

    /// Making the snapshot failed, for the reason given.
    pub fn make_snapshot_error(&mut self, err: String)
        ensures
            *final(self) == (SnapshotsState { making_snapshot: false, error: Some(err), ..*old(self) }),
    {
        self.making_snapshot = false;
        self.error = Some(err);
    }

    /// A load failed, for the reason given.
    pub fn set_error(&mut self, err: String)
        ensures
            *final(self) == (SnapshotsState { error: Some(err), ..*old(self) }),
    {
        self.error = Some(err);
    }

    /// Starts loading the tables of `file`; drops the tables and ticks of the
    /// file shown before.
    pub fn begin_tables_load(&mut self, file: &str)
        requires
            old(self).wf(),
        ensures
            final(self).wf(),
            text_of(final(self).loaded_for_file) == Some(file@),
            final(self).tables@.len() == 0,
            !final(self).tables_ready,
            final(self).checked().is_empty(),
            final(self).error is None,
            *final(self) == (SnapshotsState {
                loaded_for_file: final(self).loaded_for_file,
                tables: final(self).tables,
                tables_ready: false,
                checked_tables: final(self).checked_tables,
                error: None,
                ..*old(self)
            }),
    {
        self.loaded_for_file = Some(file.to_owned());
        self.tables = Vec::new();
        self.tables_ready = false;
        self.checked_tables = Vec::new();
        self.error = None;
        proof {
            assert(self.checked() =~= Set::<Seq<char>>::empty());
        }
    }

    /// Whether the tables of `file` still have to be loaded.
    pub fn needs_tables_load(&self, file: &str) -> (r: bool)
        ensures
            r == (text_of(self.loaded_for_file) != Some(file@)),
    {
        match &self.loaded_for_file {
            Some(f) => !(*f == file.to_owned()),
            None => true,
        }
    }

    /// Ticks table `table` when unticked, unticks it when ticked.
    pub fn toggle_table_check(&mut self, table: &str)
        requires
            old(self).wf(),
        ensures
            final(self).wf(),
            final(self).checked() == toggled(old(self).checked(), table@),
            *final(self) == (SnapshotsState { checked_tables: final(self).checked_tables, ..*old(self) }),
    {
        key_set_toggle(&mut self.checked_tables, table.to_owned());
    }

    /// Ticks every table of the file, or with `check_all` false none.
    pub fn toggle_all_tables_check(&mut self, check_all: bool)
        requires
            old(self).wf(),
        ensures
            final(self).wf(),
            final(self).checked() == (if check_all {
                snapshot_table_names(old(self).tables@).to_set()
            } else {
                Set::<Seq<char>>::empty()
            }),
            *final(self) == (SnapshotsState { checked_tables: final(self).checked_tables, ..*old(self) }),
    {
        let mut set: Vec<String> = Vec::new();
        proof {
            assert(key_set(set@) =~= Set::<Seq<char>>::empty());
        }
        if check_all {
            let mut i: usize = 0;
            proof {
                assert(snapshot_table_names(self.tables@.take(0)).to_set() =~= Set::<Seq<char>>::empty());
            }
            while i < self.tables.len()
                invariant
                    i <= self.tables.len(),
                    distinct_keys(set@),
                    key_set(set@) == snapshot_table_names(self.tables@.take(i as int)).to_set(),
                decreases self.tables.len() - i,
            {
                key_set_insert(&mut set, self.tables[i].name.clone());
                proof {
                    let names = snapshot_table_names(self.tables@.take(i as int));
                    assert(snapshot_table_names(self.tables@.take(i + 1)) =~= names.push(
                        self.tables@[i as int].name@,
                    ));
                    names.lemma_push_to_set_commute(self.tables@[i as int].name@);
                }
                i = i + 1;
            }
            proof {
                assert(self.tables@.take(i as int) =~= self.tables@);
            }
        }
        self.checked_tables = set;
    }

    /// Unticks every table.
    pub fn clear_table_checks(&mut self)
        ensures
            final(self).wf(),
            final(self).checked().is_empty(),
            *final(self) == (SnapshotsState { checked_tables: final(self).checked_tables, ..*old(self) }),
    {
        self.checked_tables = Vec::new();
        proof {
            assert(self.checked() =~= Set::<Seq<char>>::empty());
        }
    }

    /// The ticked tables, in the order the file lists them.
    pub fn selected_tables(&self) -> (r: Vec<String>)
        ensures
            views(r@) == snapshot_table_names(self.tables@).filter(|n: Seq<char>| self.checked().contains(n)),
    {
        let ghost names = snapshot_table_names(self.tables@);
        let ghost set = self.checked();
        let mut out: Vec<String> = Vec::new();
        let mut i: usize = 0;
        proof {
            assert(names.take(0).filter(|n: Seq<char>| set.contains(n)) =~= Seq::<Seq<char>>::empty());
        }
        while i < self.tables.len()
            invariant
                i <= self.tables.len(),
                names == snapshot_table_names(self.tables@),
                set == self.checked(),
                views(out@) == names.take(i as int).filter(|n: Seq<char>| set.contains(n)),
            decreases self.tables.len() - i,
        {
            proof {
                assert(names.take(i + 1).drop_last() =~= names.take(i as int));
                assert(names.take(i + 1).last() == self.tables@[i as int].name@);
                reveal(Seq::filter);
            }
            if key_set_contains(&self.checked_tables, self.tables[i].name.as_str()) {
                let ghost before = out@;
                out.push(self.tables[i].name.clone());
                proof {
                    lemma_views_push(before, out@.last());
                }
            }
            i = i + 1;
        }
        proof {
            assert(names.take(i as int) =~= names);
        }
        out
    }

    /// Stores the tables of `file`, unless another file was opened meanwhile.
    pub fn set_tables(&mut self, file: &str, tables: Vec<SnapshotTableApiModel>)
        ensures
            text_of(old(self).loaded_for_file) == Some(file@) ==> *final(self) == (SnapshotsState {
                tables,
                tables_ready: true,
                ..*old(self)
            }),
            text_of(old(self).loaded_for_file) != Some(file@) ==> *final(self) == *old(self),
    {
        if !self.needs_tables_load(file) {
            self.tables = tables;
            self.tables_ready = true;
        }
    }

    /// Whether the partitions of `(file, table)` still have to be loaded.
    pub fn needs_partitions_load(&self, file: &str, table: &str) -> (r: bool)
        ensures
            r == (pair_of(self.loaded_for_table) != Some((file@, table@))),
    {
        match &self.loaded_for_table {
            Some((f, t)) => !(*f == file.to_owned() && *t == table.to_owned()),
            None => true,
        }
    }

    /// Starts loading the partitions of `(file, table)`.
    pub fn begin_partitions_load(&mut self, file: &str, table: &str)
        ensures
            pair_of(final(self).loaded_for_table) == Some((file@, table@)),
            final(self).partitions@.len() == 0,
            *final(self) == (SnapshotsState {
                loaded_for_table: final(self).loaded_for_table,
                partitions: final(self).partitions,
                partitions_ready: false,
                error: None,
                ..*old(self)
            }),
    {
        self.loaded_for_table = Some((file.to_owned(), table.to_owned()));
        self.partitions = Vec::new();
        self.partitions_ready = false;
        self.error = None;
    }

    /// Stores the partitions of `(file, table)`, unless another table was
    /// opened meanwhile.
    pub fn set_partitions(&mut self, file: &str, table: &str, partitions: Vec<String>)
        ensures
            pair_of(old(self).loaded_for_table) == Some((file@, table@)) ==> *final(self) == (SnapshotsState {
                partitions,
                partitions_ready: true,
                ..*old(self)
            }),
            pair_of(old(self).loaded_for_table) != Some((file@, table@)) ==> *final(self) == *old(self),
    {
        if !self.needs_partitions_load(file, table) {
            self.partitions = partitions;
            self.partitions_ready = true;
        }
    }

    /// Whether the rows of `(file, table, partition)` still have to be loaded.
    pub fn needs_rows_load(&self, file: &str, table: &str, partition: &str) -> (r: bool)
        ensures
            r == (triple_of(self.loaded_rows_for) != Some((file@, table@, partition@))),
    {
        match &self.loaded_rows_for {
            Some((f, t, p)) => !(*f == file.to_owned() && *t == table.to_owned() && *p == partition.to_owned()),
            None => true,
        }
    }

    /// Starts loading the rows of `(file, table, partition)`.
    pub fn begin_rows_load(&mut self, file: &str, table: &str, partition: &str)
        ensures
            triple_of(final(self).loaded_rows_for) == Some((file@, table@, partition@)),
            final(self).row_headers@.len() == 0,
            final(self).rows@.len() == 0,
            *final(self) == (SnapshotsState {
                loaded_rows_for: final(self).loaded_rows_for,
                row_headers: final(self).row_headers,
                rows: final(self).rows,
                rows_ready: false,
                error: None,
                ..*old(self)
            }),
    {
        self.loaded_rows_for = Some((file.to_owned(), table.to_owned(), partition.to_owned()));
        self.row_headers = Vec::new();
        self.rows = Vec::new();
        self.rows_ready = false;
        self.error = None;
    }

    /// Stores the rows of `(file, table, partition)` with their columns,
    /// unless another partition was opened meanwhile.
    pub fn set_rows(
        &mut self,
        file: &str,
        table: &str,
        partition: &str,
        headers: Vec<String>,
        rows: Vec<DataRow>,
    )
        ensures
            triple_of(old(self).loaded_rows_for) == Some((file@, table@, partition@)) ==> *final(self) == (
            SnapshotsState { row_headers: headers, rows, rows_ready: true, ..*old(self) }),
            triple_of(old(self).loaded_rows_for) != Some((file@, table@, partition@)) ==> *final(self)
                == *old(self),
    {
        if !self.needs_rows_load(file, table, partition) {
            self.row_headers = headers;
            self.rows = rows;
            self.rows_ready = true;
        }
    }

    /// Opens the restore dialog for whole tables.
    pub fn open_restore(&mut self, tables: Vec<String>)
        ensures
            *final(self) == (SnapshotsState {
                restore: Some(
                    RestoreDialog {
                        tables,
                        partition: None,
                        clean_table: false,
                        in_progress: false,
                        completed: 0,
                        error: None,
                        done: false,
                    },
                ),
                ..*old(self)
            }),
    {
        self.restore = Some(
            RestoreDialog {
                tables,
                partition: None,
                clean_table: false,
                in_progress: false,
                completed: 0,
                error: None,
                done: false,
            },
        );
    }

    /// Opens the restore dialog for one partition of a table.
    pub fn open_restore_partition(&mut self, table: String, partition: String)
        ensures
            final(self).restore is Some,
            ({
                let d = final(self).restore->Some_0;
                &&& d.tables@.len() == 1
                &&& d.tables@[0] == table
                &&& d.partition == Some(partition)
                &&& !d.clean_table
                &&& !d.in_progress
                &&& d.completed == 0
                &&& d.error is None
                &&& !d.done
            }),
            *final(self) == (SnapshotsState { restore: final(self).restore, ..*old(self) }),
    {
        let mut tables: Vec<String> = Vec::new();
        tables.push(table);
        self.restore = Some(
            RestoreDialog {
                tables,
                partition: Some(partition),
                clean_table: false,
                in_progress: false,
                completed: 0,
                error: None,
                done: false,
            },
        );
    }

    /// Ticks or unticks "clean table before restore".
    pub fn set_clean_table(&mut self, value: bool)
        ensures
            (match old(self).restore {
                Some(d) => *final(self) == (SnapshotsState {
                    restore: Some(RestoreDialog { clean_table: value, ..d }),
                    ..*old(self)
                }),
                None => *final(self) == *old(self),
            }),
    {
        match self.restore.take() {
            Some(d) => {
                self.restore = Some(RestoreDialog { clean_table: value, ..d });
            },
            None => {},
        }
    }

    /// The restore was sent: nothing restored yet, no error.
    pub fn restore_begin(&mut self)
        ensures
            (match old(self).restore {
                Some(d) => *final(self) == (SnapshotsState {
                    restore: Some(RestoreDialog { in_progress: true, completed: 0, error: None, ..d }),
                    ..*old(self)
                }),
                None => *final(self) == *old(self),
            }),
    {
        match self.restore.take() {
            Some(d) => {
                self.restore = Some(RestoreDialog { in_progress: true, completed: 0, error: None, ..d });
            },
            None => {},
        }
    }

    /// `completed` of the tables are restored.
    pub fn restore_set_completed(&mut self, completed: usize)
        ensures
            (match old(self).restore {
                Some(d) => *final(self) == (SnapshotsState {
                    restore: Some(RestoreDialog { completed, ..d }),
                    ..*old(self)
                }),
                None => *final(self) == *old(self),
            }),
    {
        match self.restore.take() {
            Some(d) => {
                self.restore = Some(RestoreDialog { completed, ..d });
            },
            None => {},
        }
    }

    /// The restore finished; the ticks are dropped, since the tables are no
    /// longer pending.
    pub fn restore_done(&mut self)
        ensures
            final(self).wf(),
            final(self).checked().is_empty(),
            (match old(self).restore {
                Some(d) => *final(self) == (SnapshotsState {
                    restore: Some(RestoreDialog { in_progress: false, done: true, ..d }),
                    checked_tables: final(self).checked_tables,
                    ..*old(self)
                }),
                None => *final(self) == (SnapshotsState { checked_tables: final(self).checked_tables, ..*old(self) }),
            }),
    {
        match self.restore.take() {
            Some(d) => {
                self.restore = Some(RestoreDialog { in_progress: false, done: true, ..d });
            },
            None => {},
        }
        self.clear_table_checks();
    }

    /// The restore failed, for the reason given.
    pub fn restore_error(&mut self, err: String)
        ensures
            (match old(self).restore {
                Some(d) => *final(self) == (SnapshotsState {
                    restore: Some(RestoreDialog { in_progress: false, error: Some(err), ..d }),
                    ..*old(self)
                }),
                None => *final(self) == *old(self),
            }),
    {
        match self.restore.take() {
            Some(d) => {
                self.restore = Some(RestoreDialog { in_progress: false, error: Some(err), ..d });
            },
            None => {},
        }
    }

    /// Closes the restore dialog.
    pub fn close_restore(&mut self)
        ensures
            *final(self) == (SnapshotsState { restore: None, ..*old(self) }),
    {
        self.restore = None;
    }

    /// Refresh: forgets the deepest level the URL shows, so that it is
    /// loaded again.
    pub fn refresh(&mut self, has_file: bool, has_table: bool, has_partition: bool)
        ensures
            !has_file ==> *final(self) == (SnapshotsState { files_started: false, ..*old(self) }),
            has_file && !has_table ==> *final(self) == (SnapshotsState { loaded_for_file: None, ..*old(self) }),
            has_file && has_table && !has_partition ==> *final(self) == (SnapshotsState {
                loaded_for_table: None,
                ..*old(self)
            }),
            has_file && has_table && has_partition ==> *final(self) == (SnapshotsState {
                loaded_rows_for: None,
                ..*old(self)
            }),
    {
        if !has_file {
            self.files_started = false;
        } else if !has_table {
            self.loaded_for_file = None;
        } else if !has_partition {
            self.loaded_for_table = None;
        } else {
            self.loaded_rows_for = None;
        }
    }
}

} // verus!
