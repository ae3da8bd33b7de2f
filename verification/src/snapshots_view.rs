use vstd::prelude::*;
use crate::data_state::text_of;
use crate::dialogs::copy_strings;
use crate::keyset::{key_set, key_set_contains};
use crate::models::SnapshotFileApiModel;
use crate::order::{is_stable_arrangement, SortOrder, is_sorted, sort_stable, lex_le, str_le, lemma_lex_total, lemma_lex_transitive};
use crate::snapshots::{RestoreDialog, SnapshotsState, pair_of, triple_of, snapshot_table_names};
use crate::tally::views;
use crate::text::{decimal, push_decimal};

verus! {

impl SortOrder for SnapshotFileApiModel {
    /// Newest first: snapshot files are named by their time, so a later name
    /// comes first.
    open spec fn before(a: Self, b: Self) -> bool {
        lex_le(b.name@, a.name@)
    }

    proof fn lemma_before_total(a: Self, b: Self) {
        lemma_lex_total(a.name@, b.name@);
    }

    proof fn lemma_before_transitive(a: Self, b: Self, c: Self) {
        lemma_lex_transitive(c.name@, b.name@, a.name@);
    }

    fn comes_before(&self, other: &Self) -> (r: bool) {
        str_le(other.name.as_str(), self.name.as_str())
    }
}

/// The snapshot files, by name in descending order.
pub fn sort_files(files: Vec<SnapshotFileApiModel>) -> (r: Vec<SnapshotFileApiModel>)
    ensures
        is_sorted(r@),
        r@.to_multiset() == files@.to_multiset(),
        exists|p: Seq<int>| is_stable_arrangement(files@, r@, p),
{
    sort_stable(files)
}

/// What fails on the snapshots page.
pub enum SnapshotFailure {
    Snapshots,
    Tables,
    Partitions,
    Rows,
    MakeSnapshot,
}

/// The start of the message for a failure.
pub open spec fn failure_prefix(kind: SnapshotFailure) -> Seq<char> {
    match kind {
        SnapshotFailure::Snapshots => "Failed to load snapshots: "@,
        SnapshotFailure::Tables => "Failed to load tables: "@,
        SnapshotFailure::Partitions => "Failed to load partitions: "@,
        SnapshotFailure::Rows => "Failed to load rows: "@,
        SnapshotFailure::MakeSnapshot => "Failed to make snapshot: "@,
    }
}

/// The message shown when a request of the page fails with `err`.
pub fn failure_message(kind: SnapshotFailure, err: &str) -> (m: String)
    ensures
        m@ == failure_prefix(kind) + err@,
{
    let mut m = match kind {
        SnapshotFailure::Snapshots => String::from_str("Failed to load snapshots: "),
        SnapshotFailure::Tables => String::from_str("Failed to load tables: "),
        SnapshotFailure::Partitions => String::from_str("Failed to load partitions: "),
        SnapshotFailure::Rows => String::from_str("Failed to load rows: "),
        SnapshotFailure::MakeSnapshot => String::from_str("Failed to make snapshot: "),
    };
    m.append(err);
    m
}

/// `"Table '<table>': <err>"`, the error of a whole-table restore that failed.
pub fn table_restore_error(table: &str, err: &str) -> (m: String)
    ensures
        m@ == "Table '"@ + table@ + "': "@ + err@,
{
    let mut m = String::from_str("Table '");
    m.append(table);
    m.append("': ");
    m.append(err);
    m
}

/// A restore to run: from `file`, the `tables` (with a `partition`, only its
/// rows of the single table), cleaning each table first when `clean`.
pub struct RestorePlan {
    pub file: String,
    pub tables: Vec<String>,
    pub partition: Option<String>,
    pub clean: bool,
}

impl SnapshotsState {
    /// The restore that confirming the dialog runs: there is one when a file
    /// is open and the dialog is neither running nor finished.
    pub fn restore_plan(&self, url_file: &Option<String>) -> (r: Option<RestorePlan>)
        ensures
            match (*url_file, self.restore) {
                (Some(f), Some(d)) => if !d.in_progress && !d.done {
                    r matches Some(p) && p.file@ == f@ && views(p.tables@) == views(d.tables@) && text_of(
                        p.partition,
                    ) == text_of(d.partition) && p.clean == d.clean_table
                } else {
                    r is None
                },
                _ => r is None,
            },
    {
        match (url_file, &self.restore) {
            (Some(f), Some(d)) => {
                if !d.in_progress && !d.done {
                    let partition = match &d.partition {
                        Some(p) => Some(p.clone()),
                        None => None,
                    };
                    Some(
                        RestorePlan {
                            file: f.clone(),
                            tables: copy_strings(&d.tables),
                            partition,
                            clean: d.clean_table,
                        },
                    )
                } else {
                    None
                }
            },
            _ => None,
        }
    }
}

/// One server request of a restore.
pub enum RestoreRequest {
    /// Restore the rows of one partition of a table.
    Partition { file: String, table: String, partition: String },
    /// Restore the table at `index` of the plan, whole; `clean` empties it first.
    Table { file: String, table: String, clean: bool, index: usize },
}

/// The request for the table at `index` of `plan`.
fn table_request(plan: &RestorePlan, index: usize) -> (r: RestoreRequest)
    requires
        index < plan.tables.len(),
    ensures
        r matches RestoreRequest::Table { file, table, clean, index: i } && file@ == plan.file@ && table@
            == plan.tables@[index as int]@ && clean == plan.clean && i == index,
{
    RestoreRequest::Table {
        file: plan.file.clone(),
        table: plan.tables[index].clone(),
        clean: plan.clean,
        index,
    }
}

/// The first request of a restore: the partition of a single-partition
/// restore (of the plan's first table); otherwise the first table, or none
/// for a plan without tables.
pub fn first_restore_request(plan: &RestorePlan) -> (r: Option<RestoreRequest>)
    ensures
        match plan.partition {
            Some(p) => r matches Some(RestoreRequest::Partition { file, table, partition }) && file@
                == plan.file@ && table@ == (if plan.tables.len() > 0 {
                plan.tables@[0]@
            } else {
                Seq::empty()
            }) && partition@ == p@,
            None => if plan.tables.len() > 0 {
                r matches Some(RestoreRequest::Table { file, table, clean, index }) && file@ == plan.file@
                    && table@ == plan.tables@[0]@ && clean == plan.clean && index == 0
            } else {
                r is None
            },
        },
{
    match &plan.partition {
        Some(p) => {
            let table = if plan.tables.len() > 0 { plan.tables[0].clone() } else { String::new() };
            Some(RestoreRequest::Partition { file: plan.file.clone(), table, partition: p.clone() })
        },
        None => {
            if plan.tables.len() > 0 {
                Some(table_request(plan, 0))
            } else {
                None
            }
        },
    }
}

/// The dialog after the restore finished.
pub open spec fn dialog_done(d: Option<RestoreDialog>) -> Option<RestoreDialog> {
    match d {
        Some(x) => Some(RestoreDialog { in_progress: false, done: true, ..x }),
        None => None,
    }
}

impl SnapshotsState {
    /// Records how `request` of `plan` went and gives the next request: after
    /// a table, the next table, until the last one finishes the restore; a
    /// failure stops the restore, naming the table it failed on.
    pub fn restore_step(&mut self, plan: &RestorePlan, request: &RestoreRequest, outcome: Result<(), String>) -> (r:
        Option<RestoreRequest>)
        requires
            old(self).wf(),
            request matches RestoreRequest::Table { index, .. } ==> index < plan.tables.len(),
        ensures
            final(self).wf(),
            match (*request, outcome) {
                (RestoreRequest::Partition { .. }, Ok(())) => {
                    &&& r is None
                    &&& final(self).checked().is_empty()
                    &&& *final(self) == (SnapshotsState {
                        restore: dialog_done(old(self).restore),
                        checked_tables: final(self).checked_tables,
                        ..*old(self)
                    })
                },
                (RestoreRequest::Partition { .. }, Err(e)) => {
                    &&& r is None
                    &&& *final(self) == (SnapshotsState {
                        restore: match old(self).restore {
                            Some(d) => Some(RestoreDialog { in_progress: false, error: Some(e), ..d }),
                            None => None,
                        },
                        ..*old(self)
                    })
                },
                (RestoreRequest::Table { index, .. }, Err(e)) => {
                    &&& r is None
                    &&& final(self).restore == match old(self).restore {
                        Some(d) => Some(RestoreDialog { in_progress: false, error: final(self).restore->Some_0.error, ..d }),
                        None => None,
                    }
                    &&& (old(self).restore is Some ==> final(self).restore->Some_0.error is Some
                        && final(self).restore->Some_0.error->Some_0@ == "Table '"@ + plan.tables@[index as int]@
                        + "': "@ + e@)
                    &&& *final(self) == (SnapshotsState { restore: final(self).restore, ..*old(self) })
                },
                (RestoreRequest::Table { index, .. }, Ok(())) => {
                    let progressed = match old(self).restore {
                        Some(d) => Some(RestoreDialog { completed: (index + 1) as usize, ..d }),
                        None => None,
                    };
                    if index + 1 < plan.tables.len() {
                        &&& r matches Some(RestoreRequest::Table { file, table, clean, index: next })
                        &&& file@ == plan.file@
                        &&& table@ == plan.tables@[index + 1]@
                        &&& clean == plan.clean
                        &&& next == index + 1
                        &&& *final(self) == (SnapshotsState { restore: progressed, ..*old(self) })
                    } else {
                        &&& r is None
                        &&& final(self).checked().is_empty()
                        &&& *final(self) == (SnapshotsState {
                            restore: dialog_done(progressed),
                            checked_tables: final(self).checked_tables,
                            ..*old(self)
                        })
                    }
                },
            },
    {
        match request {
            RestoreRequest::Partition { .. } => {
                match outcome {
                    Ok(()) => self.restore_done(),
                    Err(e) => self.restore_error(e),
                }
                None
            },
            RestoreRequest::Table { index, .. } => {
                let i = *index;
                match outcome {
                    Ok(()) => {
                        self.restore_set_completed(i + 1);
                        if i + 1 < plan.tables.len() {
                            Some(table_request(plan, i + 1))
                        } else {
                            self.restore_done();
                            None
                        }
                    },
                    Err(e) => {
                        let msg = table_restore_error(plan.tables[i].as_str(), e.as_str());
                        self.restore_error(msg);
                        None
                    },
                }
            },
        }
    }
}

/// The wording of the restore dialog.
pub struct RestoreDialogView {
    /// Several whole tables are restored.
    pub multi: bool,
    /// The table named in single-table wording (empty when there is none).
    pub first_table: String,
    /// The "clean table" checkbox is offered (whole-table restores only).
    pub show_clean: bool,
    /// The verb of the "done" line.
    pub restored_verb: &'static str,
    /// The label of the restore button.
    pub restore_label: String,
}

/// `"Restoring… (<completed>/<total>)"`.
pub open spec fn progress_label(completed: nat, total: nat) -> Seq<char> {
    "Restoring\u{2026} ("@ + decimal(completed) + "/"@ + decimal(total) + ")"@
}

/// The wording of the restore dialog `d`.
pub fn restore_dialog_view(d: &RestoreDialog) -> (v: RestoreDialogView)
    ensures
        v.multi == (d.partition is None && d.tables.len() > 1),
        v.first_table@ == (if d.tables.len() > 0 { d.tables@[0]@ } else { Seq::empty() }),
        v.show_clean == d.partition is None,
        v.restored_verb@ == (if v.multi { " have been restored from "@ } else { " has been restored from "@ }),
        v.restore_label@ == (if d.in_progress {
            if v.multi {
                progress_label(d.completed as nat, d.tables.len() as nat)
            } else {
                "Restoring\u{2026}"@
            }
        } else {
            "Restore"@
        }),
{
    let total = d.tables.len();
    let multi = d.partition.is_none() && total > 1;
    let first_table = if total > 0 { d.tables[0].clone() } else { String::new() };
    let restored_verb = if multi { " have been restored from " } else { " has been restored from " };
    let restore_label = if d.in_progress {
        if multi {
            let mut s = String::from_str("Restoring\u{2026} (");
            push_decimal(&mut s, d.completed as u64);
            s.append("/");
            push_decimal(&mut s, total as u64);
            s.append(")");
            s
        } else {
            String::from_str("Restoring\u{2026}")
        }
    } else {
        String::from_str("Restore")
    };
    RestoreDialogView { multi, first_table, show_clean: d.partition.is_none(), restored_verb, restore_label }
}

/// What a list of the page shows.
pub enum ListState {
    /// "Loading …": the list is loading and nothing is held yet.
    Loading,
    /// The list arrived empty.
    Empty,
    /// The list itself.
    Items,
}

/// What a list shows while `loading` with `count` items held.
pub fn list_state(loading: bool, count: usize) -> (s: ListState)
    ensures
        s is Loading <==> loading && count == 0,
        s is Empty <==> !loading && count == 0,
        s is Items <==> count > 0,
{
    if loading && count == 0 {
        ListState::Loading
    } else if count == 0 {
        ListState::Empty
    } else {
        ListState::Items
    }
}

/// Everything the snapshots page derives from its state and the URL.
pub struct SnapshotsView {
    /// The tables held belong to the URL's file.
    pub tables_scope: bool,
    pub tables_ready: bool,
    /// The partitions held belong to the URL's table.
    pub partitions_scope: bool,
    pub partitions_ready: bool,
    /// The rows held belong to the URL's partition.
    pub rows_scope: bool,
    pub rows_ready: bool,
    /// The level the URL shows is still loading.
    pub loading: bool,
    /// Ticked tables among those shown.
    pub selected_count: usize,
    /// Every table shown is ticked (and there is one).
    pub all_checked: bool,
}

/// How many of `names` are in `set`.
pub open spec fn count_in(names: Seq<Seq<char>>, set: Set<Seq<char>>) -> nat
    decreases names.len(),
{
    if names.len() == 0 {
        0
    } else {
        count_in(names.drop_last(), set) + (if set.contains(names.last()) { 1nat } else { 0nat })
    }
}

proof fn lemma_count_in_le(names: Seq<Seq<char>>, set: Set<Seq<char>>)
    ensures
        count_in(names, set) <= names.len(),
    decreases names.len(),
{
    if names.len() > 0 {
        lemma_count_in_le(names.drop_last(), set);
    }
}

/// The view of the snapshots page for `state` and the URL's file, table and
/// partition.
pub fn snapshots_view(
    state: &SnapshotsState,
    url_file: &Option<String>,
    url_table: &Option<String>,
    url_partition: &Option<String>,
) -> (v: SnapshotsView)
    ensures
        v.tables_scope == (url_file is Some && text_of(state.loaded_for_file) == text_of(*url_file)),
        v.tables_ready == (v.tables_scope && state.tables_ready),
        v.partitions_scope == (match (*url_file, *url_table) {
            (Some(f), Some(t)) => pair_of(state.loaded_for_table) == Some((f@, t@)),
            _ => false,
        }),
        v.partitions_ready == (v.partitions_scope && state.partitions_ready),
        v.rows_scope == (match (*url_file, *url_table, *url_partition) {
            (Some(f), Some(t), Some(p)) => triple_of(state.loaded_rows_for) == Some((f@, t@, p@)),
            _ => false,
        }),
        v.rows_ready == (v.rows_scope && state.rows_ready),
        v.loading == (if url_file is None {
            !state.files_ready
        } else if url_table is None {
            !v.tables_ready
        } else if url_partition is None {
            !v.partitions_ready
        } else {
            !v.rows_ready
        }),
        v.selected_count == (if v.tables_scope {
            count_in(snapshot_table_names(state.tables@), key_set(state.checked_tables@))
        } else {
            0
        }),
        v.all_checked == (v.tables_scope && v.selected_count == state.tables.len() && state.tables.len()
            > 0),
{
    let tables_scope = match (url_file, &state.loaded_for_file) {
        (Some(f), Some(lf)) => *f == *lf,
        _ => false,
    };
    let tables_ready = tables_scope && state.tables_ready;
    let partitions_scope = match (url_file, url_table) {
        (Some(f), Some(t)) => !state.needs_partitions_load(f.as_str(), t.as_str()),
        _ => false,
    };
    let partitions_ready = partitions_scope && state.partitions_ready;
    let rows_scope = match (url_file, url_table, url_partition) {
        (Some(f), Some(t), Some(p)) => !state.needs_rows_load(f.as_str(), t.as_str(), p.as_str()),
        _ => false,
    };
    let rows_ready = rows_scope && state.rows_ready;
    let loading = if url_file.is_none() {
        !state.files_ready
    } else if url_table.is_none() {
        !tables_ready
    } else if url_partition.is_none() {
        !partitions_ready
    } else {
        !rows_ready
    };
    let mut selected_count: usize = 0;
    if tables_scope {
        let ghost names = snapshot_table_names(state.tables@);
        let ghost set = key_set(state.checked_tables@);
        let mut i: usize = 0;
        while i < state.tables.len()
            invariant
                i <= state.tables.len(),
                names == snapshot_table_names(state.tables@),
                set == key_set(state.checked_tables@),
                selected_count == count_in(names.take(i as int), set),
            decreases state.tables.len() - i,
        {
            proof {
                assert(names.take(i + 1).drop_last() =~= names.take(i as int));
                assert(names.take(i + 1).last() == state.tables@[i as int].name@);
                lemma_count_in_le(names.take(i + 1), set);
            }
            if key_set_contains(&state.checked_tables, state.tables[i].name.as_str()) {
                selected_count = selected_count + 1;
            }
            i = i + 1;
        }
        proof {
            assert(names.take(i as int) =~= names);
        }
    }
    let all_checked = tables_scope && selected_count == state.tables.len() && state.tables.len() > 0;
    SnapshotsView {
        tables_scope,
        tables_ready,
        partitions_scope,
        partitions_ready,
        rows_scope,
        rows_ready,
        loading,
        selected_count,
        all_checked,
    }
}

} // verus!
