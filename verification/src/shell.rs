use vstd::prelude::*;

use crate::models::{default_namespace, default_namespace_name, NamespaceApiModel, StatusApiModel};
use crate::order::lex_lt;
use crate::ranking::{is_ranking, outranks, rank};
use crate::tally::{is_tally, lemma_tally_len, lemma_views_push, occurrences, position_of, tally, views};
use crate::text::{decimal, decimal_string};

verus! {

/// What every page shares: the last status answer, and a counter that the
/// refresh button bumps.
#[derive(Clone, Debug)]
pub struct AppContext {
    pub status: Option<StatusApiModel>,
    pub refresh_token: u64,
}

impl Default for AppContext {
    /// No status yet.
    fn default() -> (c: Self)
        ensures
            c.status is None,
            c.refresh_token == 0,
    {
        AppContext { status: None, refresh_token: 0 }
    }
}

/// The namespaces of the connections of a status: each reader's, then each writer's.
pub open spec fn connection_namespaces(status: StatusApiModel) -> Seq<Seq<char>> {
    match status.initialized {
        Some(init) => init.readers@.map_values(|r: crate::models::ReaderApiModel| r.namespace@)
            + init.writers@.map_values(|w: crate::models::WriterApiModel| w.namespace@),
        None => seq![],
    }
}

/// The namespaces of the connections of a status, none while it is unknown.
pub open spec fn status_namespaces(status: Option<StatusApiModel>) -> Seq<Seq<char>> {
    match status {
        Some(s) => connection_namespaces(s),
        None => seq![],
    }
}

/// Readers and writers grouped by namespace, biggest group first, groups of
/// equal size by name: each namespace once, with its number of connections.
pub open spec fn is_namespace_breakdown(items: Seq<Seq<char>>, groups: Seq<(String, usize)>) -> bool {
    &&& groups.len() == items.to_set().len()
    &&& forall|p: int| 0 <= p < groups.len() ==> items.contains(#[trigger] groups[p].0@)
    &&& forall|p: int| 0 <= p < groups.len() ==> #[trigger] groups[p].1 == occurrences(items, groups[p].0@)
    &&& forall|p: int, q: int| 0 <= p < q < groups.len() ==> {
        ||| #[trigger] groups[p].1 > #[trigger] groups[q].1
        ||| groups[p].1 == groups[q].1 && lex_lt(groups[p].0@, groups[q].0@)
    }
}

/// What the shell shows of the status: whether the server answers, the
/// counts, and the connections per namespace.
pub struct ShellSummary {
    pub online: bool,
    pub tables_count: usize,
    pub clients_count: usize,
    pub clients_by_namespace: Vec<(String, usize)>,
    /// Connections of the namespace the UI works in, as the Connections page lists them.
    pub clients_in_current_ns: usize,
}

/// The namespace whose connections the nav badge counts: the stored choice,
/// or the default namespace when none is stored.
pub open spec fn counted_namespace(stored: Option<Seq<char>>) -> Seq<char> {
    match stored {
        Some(s) => s,
        None => default_namespace(),
    }
}

/// Summarises `/api/Status` for the sidebar. `stored_namespace` is the
/// namespace the browser has stored, if any.
pub fn shell_summary(status: &Option<StatusApiModel>, stored_namespace: Option<String>) -> (r:
    ShellSummary)
    requires
        status matches Some(s) && s.initialized matches Some(i) ==> i.readers.len() + i.writers.len()
            <= usize::MAX,
    ensures
        r.online == status.is_some(),
        status is None ==> r.tables_count == 0 && r.clients_count == 0,
        status matches Some(s) ==> match s.initialized {
            Some(i) => r.tables_count == i.tables.len() && r.clients_count == i.readers.len()
                + i.writers.len(),
            None => r.tables_count == 0 && r.clients_count == 0,
        },
        is_namespace_breakdown(status_namespaces(*status), r.clients_by_namespace@),
        r.clients_in_current_ns == occurrences(
            status_namespaces(*status),
            counted_namespace(crate::routes::opt_view(stored_namespace)),
        ),
{
    let mut names: Vec<String> = Vec::new();
    let mut tables_count: usize = 0;
    let mut clients_count: usize = 0;
    let ghost items: Seq<Seq<char>> = status_namespaces(*status);
    match status {
        Some(s) => match &s.initialized {
            Some(init) => {
                tables_count = init.tables.len();
                clients_count = init.readers.len() + init.writers.len();
                let mut i: usize = 0;
                while i < init.readers.len()
                    invariant
                        i <= init.readers.len(),
                        views(names@) == init.readers@.take(i as int).map_values(
                            |r: crate::models::ReaderApiModel| r.namespace@,
                        ),
                    decreases init.readers.len() - i,
                {
                    let ghost before = names@;
                    names.push(init.readers[i].namespace.clone());
                    proof {
                        lemma_views_push(before, init.readers@[i as int].namespace);
                        assert(init.readers@.take(i + 1).map_values(
                            |r: crate::models::ReaderApiModel| r.namespace@,
                        ) =~= init.readers@.take(i as int).map_values(
                            |r: crate::models::ReaderApiModel| r.namespace@,
                        ).push(init.readers@[i as int].namespace@));
                    }
                    i = i + 1;
                }
                let ghost reader_part = views(names@);
                let mut j: usize = 0;
                while j < init.writers.len()
                    invariant
                        j <= init.writers.len(),
                        views(names@) == reader_part + init.writers@.take(j as int).map_values(
                            |w: crate::models::WriterApiModel| w.namespace@,
                        ),
                    decreases init.writers.len() - j,
                {
                    let ghost before = names@;
                    names.push(init.writers[j].namespace.clone());
                    proof {
                        lemma_views_push(before, init.writers@[j as int].namespace);
                        assert(reader_part + init.writers@.take(j + 1).map_values(
                            |w: crate::models::WriterApiModel| w.namespace@,
                        ) =~= (reader_part + init.writers@.take(j as int).map_values(
                            |w: crate::models::WriterApiModel| w.namespace@,
                        )).push(init.writers@[j as int].namespace@));
                    }
                    j = j + 1;
                }
                proof {
                    assert(init.readers@.take(init.readers@.len() as int) =~= init.readers@);
                    assert(init.writers@.take(init.writers@.len() as int) =~= init.writers@);
                    assert(views(names@) =~= items);
                }
            },
            None => {
                proof {
                    assert(views(names@) =~= items);
                }
            },
        },
        None => {
            proof {
                assert(views(names@) =~= items);
            }
        },
    }
    let (keys, counts) = tally(&names);
    let order = rank(&keys, &counts, true, keys.len());
    let ghost ks = views(keys@);
    proof {
        lemma_tally_len(items, ks, counts@);
    }
    let mut groups: Vec<(String, usize)> = Vec::new();
    let mut p: usize = 0;
    while p < order.len()
        invariant
            p <= order.len(),
            order.len() == keys.len(),
            groups.len() == p,
            ks == views(keys@),
            keys.len() == counts.len(),
            is_ranking(ks, counts@, true, keys.len() as int, order@),
            is_tally(items, ks, counts@),
            forall|q: int| 0 <= q < p ==> #[trigger] groups@[q].0@ == ks[order@[q] as int],
            forall|q: int| 0 <= q < p ==> #[trigger] groups@[q].1 == counts@[order@[q] as int],
        decreases order.len() - p,
    {
        let idx = order[p];
        groups.push((keys[idx].clone(), counts[idx]));
        p = p + 1;
    }
    proof {
        assert forall|q: int| 0 <= q < groups@.len() implies items.contains(#[trigger] groups@[q].0@) by {
            assert(ks.contains(ks[order@[q] as int]));
        }
        assert forall|a: int, b: int| 0 <= a < b < groups@.len() implies {
            ||| #[trigger] groups@[a].1 > #[trigger] groups@[b].1
            ||| groups@[a].1 == groups@[b].1 && lex_lt(groups@[a].0@, groups@[b].0@)
        } by {
            assert(outranks(ks, counts@, true, order@[a] as int, order@[b] as int));
        }
    }
    let selected = match stored_namespace {
        Some(ns) => ns,
        None => default_namespace_name(),
    };
    let mut current: usize = 0;
    match position_of(&keys, selected.as_str()) {
        Some(i) => {
            current = counts[i];
        },
        None => {
            proof {
                crate::tally::lemma_occurrences_contains(items, selected@);
                if items.contains(selected@) {
                    assert(ks.contains(selected@));
                    let m = choose|m: int| 0 <= m < ks.len() && ks[m] == selected@;
                    assert(keys@[m]@ == selected@);
                }
            }
        },
    }
    ShellSummary {
        online: status.is_some(),
        tables_count,
        clients_count,
        clients_by_namespace: groups,
        clients_in_current_ns: current,
    }
}

/// Switching to a namespace only does anything when it is not the stored one
/// (an empty name stands for the default namespace).
pub open spec fn spec_namespace_change_needed(new_ns: Seq<char>, stored: Option<Seq<char>>) -> bool {
    new_ns != match stored {
        Some(s) => s,
        None => Seq::empty(),
    }
}

pub fn namespace_change_needed(new_ns: &str, stored: Option<String>) -> (r: bool)
    ensures
        r == spec_namespace_change_needed(new_ns@, crate::routes::opt_view(stored)),
{
    let current = match stored {
        Some(s) => s,
        None => String::new(),
    };
    new_ns.to_owned() != current
}

/// The refresh token after one more refresh.
pub fn next_refresh_token(token: u64) -> (r: u64)
    ensures
        r == (if token == u64::MAX { 0 } else { token + 1 }),
{
    token.wrapping_add(1)
}

/// The live line at the foot of the sidebar.
pub struct SidebarLive {
    pub dot_class: &'static str,
    pub live_text: String,
    /// Whether the per-namespace breakdown is worth showing: only once the
    /// connections span more than one namespace.
    pub show_breakdown: bool,
}

pub fn sidebar_live(online: bool, clients_count: usize, namespaces: usize) -> (r: SidebarLive)
    ensures
        r.dot_class@ == (if online { "sidebar__live-dot"@ } else { "sidebar__live-dot offline"@ }),
        r.live_text@ == (if online {
            "Live \u{b7} "@ + decimal(clients_count as nat) + " clients"@
        } else {
            "Offline"@
        }),
        r.show_breakdown == (online && namespaces > 1),
{
    let dot_class = if online {
        "sidebar__live-dot"
    } else {
        "sidebar__live-dot offline"
    };
    let live_text = if online {
        let mut t = String::from_str("Live \u{b7} ");
        t.append(decimal_string(clients_count as u64).as_str());
        t.append(" clients");
        t
    } else {
        String::from_str("Offline")
    };
    SidebarLive { dot_class, live_text, show_breakdown: online && namespaces > 1 }
}

/// One entry of the namespace picker.
pub struct NamespaceOption {
    /// What gets stored: empty for the default namespace, so that the UI then
    /// sends no namespace at all, as it did before namespaces existed.
    pub value: String,
    pub label: String,
    pub selected: bool,
}

pub open spec fn option_value(name: Seq<char>) -> Seq<char> {
    if name == default_namespace() { Seq::empty() } else { name }
}

/// The entries of the namespace picker, in the server's order.
pub fn namespace_options(namespaces: &[NamespaceApiModel], current_ns: &str) -> (r: Vec<
    NamespaceOption,
>)
    ensures
        r.len() == namespaces.len(),
        forall|i: int| 0 <= i < r.len() ==> {
            &&& #[trigger] r@[i].value@ == option_value(namespaces@[i].name@)
            &&& r@[i].label@ == namespaces@[i].name@ + " \u{b7} "@ + decimal(
                namespaces@[i].tables_amount as nat,
            )
            &&& r@[i].selected == (option_value(namespaces@[i].name@) == current_ns@)
        },
{
    let default_name = default_namespace_name();
    let current = current_ns.to_owned();
    let mut out: Vec<NamespaceOption> = Vec::new();
    let mut i: usize = 0;
    while i < namespaces.len()
        invariant
            i <= namespaces.len(),
            out.len() == i,
            default_name@ == default_namespace(),
            current@ == current_ns@,
            forall|k: int| 0 <= k < i ==> {
                &&& #[trigger] out@[k].value@ == option_value(namespaces@[k].name@)
                &&& out@[k].label@ == namespaces@[k].name@ + " \u{b7} "@ + decimal(
                    namespaces@[k].tables_amount as nat,
                )
                &&& out@[k].selected == (option_value(namespaces@[k].name@) == current_ns@)
            },
        decreases namespaces.len() - i,
    {
        let ns = &namespaces[i];
        let value = if ns.name == default_name {
            String::new()
        } else {
            ns.name.clone()
        };
        let mut label = ns.name.clone();
        label.append(" \u{b7} ");
        label.append(decimal_string(ns.tables_amount).as_str());
        let selected = value == current;
        out.push(NamespaceOption { value, label, selected });
        i = i + 1;
    }
    out
}

/// The theme after `current`: light after dark, dark after anything else.
pub open spec fn theme_after(current: Seq<char>) -> Seq<char> {
    if current == "dark"@ {
        "light"@
    } else {
        "dark"@
    }
}

/// Two clicks on the theme button bring back the light or dark theme shown
/// before.
pub proof fn lemma_theme_round_trip(current: Seq<char>)
    requires
        current == "light"@ || current == "dark"@,
    ensures
        theme_after(theme_after(current)) == current,
{
    reveal_strlit("light");
    reveal_strlit("dark");
    assert("light"@.len() != "dark"@.len());
}

/// The theme a click on the theme button switches to.
pub fn next_theme(current: &str) -> (r: &'static str)
    ensures
        r@ == theme_after(current@),
{
    if current.to_owned() == String::from_str("dark") {
        "light"
    } else {
        "dark"
    }
}

/// Whether the namespace stored from an earlier session is gone from the
/// server's list; it is then dropped, since the server creates a namespace
/// the first time one is named.
pub fn stored_namespace_stale(namespaces: &[NamespaceApiModel], stored: &Option<String>) -> (r: bool)
    ensures
        r == match *stored {
            Some(s) => forall|i: int| 0 <= i < namespaces.len() ==> #[trigger] namespaces@[i].name@ != s@,
            None => false,
        },
{
    match stored {
        Some(s) => {
            let mut i: usize = 0;
            while i < namespaces.len()
                invariant
                    i <= namespaces.len(),
                    *stored == Some(*s),
                    forall|k: int| 0 <= k < i ==> #[trigger] namespaces@[k].name@ != s@,
                decreases namespaces.len() - i,
            {
                if namespaces[i].name == *s {
                    assert(namespaces@[i as int].name@ == s@);
                    return false;
                }
                i = i + 1;
            }
            true
        },
        None => false,
    }
}

} // verus!
