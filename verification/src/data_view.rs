use vstd::prelude::*;
use crate::data_rows::{DataRow, passing_rows, keys_at, checked_keys_at, first_row_with_key, row_key_of, filter_rows, row_keys_at, checked_keys_in, find_row};
use crate::data_state::{DataState, scope_of, text_of};
use crate::keyset::key_set;
use crate::pagination::{PageWindow, page_window, clamped_page};
use crate::tally::views;

verus! {

/// What the row drawer shows.
pub enum DrawerView {
    /// No row is selected.
    Hidden,
    /// A row is selected but the rows have not arrived.
    Loading,
    /// The selected row, by its position in the loaded rows.
    Row(usize),
    /// No loaded row has the selected key; the message says so.
    NotFound(String),
}

/// Everything the data page derives from its state and the URL to render.
pub struct DataView {
    /// The partition list held belongs to the table in the URL.
    pub partitions_match: bool,
    /// The rows held belong to the table and partition in the URL.
    pub scope_matches: bool,
    /// Those rows have arrived.
    pub rows_ready: bool,
    /// Positions of the rows the filter keeps; none when the rows held
    /// belong to another scope.
    pub filtered: Vec<usize>,
    /// The page of `filtered` shown.
    pub window: PageWindow,
    /// Row keys of the rows on that page.
    pub visible_keys: Vec<String>,
    /// Row keys of the filtered rows that are ticked.
    pub checked_in_partition: Vec<String>,
    pub drawer: DrawerView,
}

/// `"No row with key \"<key>\" in this partition."`
pub open spec fn not_found_message(key: Seq<char>) -> Seq<char> {
    "No row with key \""@ + key + "\" in this partition."@
}

/// The rows the view reads: those held, when they belong to the URL's scope.
pub open spec fn rows_in_scope(state: DataState, matches: bool) -> Seq<DataRow> {
    if matches {
        state.rows@
    } else {
        Seq::empty()
    }
}

/// Whether the rows held belong to the URL's table and partition.
pub open spec fn spec_scope_matches(state: DataState, url_table: Option<String>, url_partition: Option<
    String,
>) -> bool {
    match (url_table, url_partition) {
        (Some(t), Some(p)) => scope_of(state.loaded_rows_for) == Some((t@, p@)),
        _ => false,
    }
}

/// The view of the data page for `state` and the URL's table, partition and
/// row, with the rows filtered by `filter`.
pub fn data_view(
    state: &DataState,
    url_table: &Option<String>,
    url_partition: &Option<String>,
    url_row: &Option<String>,
    filter: &str,
) -> (v: DataView)
    requires
        state.wf(),
    ensures
        v.partitions_match == (url_table is Some && text_of(state.loaded_for_table) == text_of(
            *url_table,
        )),
        v.scope_matches == spec_scope_matches(*state, *url_table, *url_partition),
        v.rows_ready == (v.scope_matches && state.rows_ready),
        v.filtered@ == passing_rows(rows_in_scope(*state, v.scope_matches), filter@),
        v.window.current_page == clamped_page(
            v.filtered.len() as int,
            state.page_size as int,
            state.current_page as int,
        ),
        v.window.start == v.window.current_page * state.page_size,
        v.window.end == (if v.window.start + state.page_size < v.filtered.len() {
            v.window.start + state.page_size
        } else {
            v.filtered.len() as int
        }),
        v.window.start <= v.window.end <= v.filtered.len(),
        views(v.visible_keys@) == keys_at(
            state.rows@,
            v.filtered@.subrange(v.window.start as int, v.window.end as int),
        ),
        views(v.checked_in_partition@) == checked_keys_at(state.rows@, v.filtered@, key_set(state.checked_keys@)),
        forall|j: int| 0 <= j < v.filtered.len() ==> #[trigger] v.filtered@[j] < state.rows.len(),
        match *url_row {
            None => v.drawer is Hidden,
            Some(key) => if !v.rows_ready {
                v.drawer is Loading
            } else {
                match v.drawer {
                    DrawerView::Row(i) => first_row_with_key(state.rows@, key@, i),
                    DrawerView::NotFound(msg) => msg@ == not_found_message(key@) && forall|j: int|
                        0 <= j < state.rows.len() ==> row_key_of(#[trigger] state.rows@[j]) != Some(key@),
                    _ => false,
                }
            },
        },
{
    let partitions_match = match (url_table, &state.loaded_for_table) {
        (Some(t), Some(lt)) => *t == *lt,
        _ => false,
    };
    let scope_matches = match (url_table, url_partition) {
        (Some(t), Some(p)) => state.rows_scope_is(t.as_str(), p.as_str()),
        _ => false,
    };
    let rows_ready = scope_matches && state.rows_ready;
    let filtered = if scope_matches {
        filter_rows(&state.rows, filter)
    } else {
        Vec::new()
    };
    let window = page_window(filtered.len(), state.page_size, state.current_page);
    let visible_keys = row_keys_at(&state.rows, &filtered.as_slice()[window.start..window.end]);
    let checked_in_partition = checked_keys_in(&state.rows, filtered.as_slice(), &state.checked_keys);
    let drawer = match url_row {
        None => DrawerView::Hidden,
        Some(key) => {
            if !rows_ready {
                DrawerView::Loading
            } else {
                match find_row(&state.rows, key.as_str()) {
                    Some(i) => DrawerView::Row(i),
                    None => {
                        let mut msg = String::from_str("No row with key \"");
                        msg.append(key.as_str());
                        msg.append("\" in this partition.");
                        DrawerView::NotFound(msg)
                    },
                }
            }
        },
    };
    DataView {
        partitions_match,
        scope_matches,
        rows_ready,
        filtered,
        window,
        visible_keys,
        checked_in_partition,
        drawer,
    }
}

} // verus!
