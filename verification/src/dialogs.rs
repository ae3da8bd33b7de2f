use vstd::prelude::*;
use crate::data_state::{DataState, DialogState};
use crate::tally::{views, lemma_views_push};

verus! {

/// How many rows a delete dialog lists before it says how many more there are.
pub const PREVIEW_LIMIT: usize = 50;

/// The server call that confirming the open dialog makes.
pub enum DeleteRequest {
    /// Delete one row.
    One { partition_key: String, row_key: String },
    /// Delete several rows of one partition.
    Bulk { partition_key: String, row_keys: Vec<String> },
    /// Delete rows of several partitions.
    Many { groups: Vec<(String, Vec<String>)> },
}

/// The texts of grouped row keys.
pub open spec fn groups_view(groups: Seq<(String, Vec<String>)>) -> Seq<(Seq<char>, Seq<Seq<char>>)> {
    groups.map_values(|g: (String, Vec<String>)| (g.0@, views(g.1@)))
}

/// A copy of a list of strings.
pub fn copy_strings(v: &Vec<String>) -> (r: Vec<String>)
    ensures
        views(r@) == views(v@),
{
    let mut out: Vec<String> = Vec::new();
    let mut i: usize = 0;
    while i < v.len()
        invariant
            i <= v.len(),
            views(out@) == views(v@.take(i as int)),
        decreases v.len() - i,
    {
        let ghost before = out@;
        out.push(v[i].clone());
        proof {
            lemma_views_push(before, out@.last());
            assert(v@.take(i + 1) =~= v@.take(i as int).push(v@[i as int]));
            lemma_views_push(v@.take(i as int), v@[i as int]);
        }
        i = i + 1;
    }
    proof {
        assert(v@.take(i as int) =~= v@);
    }
    out
}

/// A copy of grouped row keys.
fn copy_groups(groups: &Vec<(String, Vec<String>)>) -> (r: Vec<(String, Vec<String>)>)
    ensures
        groups_view(r@) == groups_view(groups@),
{
    let mut out: Vec<(String, Vec<String>)> = Vec::new();
    let mut i: usize = 0;
    while i < groups.len()
        invariant
            i <= groups.len(),
            groups_view(out@) == groups_view(groups@.take(i as int)),
        decreases groups.len() - i,
    {
        let ghost before = out@;
        out.push((groups[i].0.clone(), copy_strings(&groups[i].1)));
        proof {
            assert(groups_view(out@) =~= groups_view(before).push(
                (groups@[i as int].0@, views(groups@[i as int].1@)),
            ));
            assert(groups_view(groups@.take(i + 1)) =~= groups_view(groups@.take(i as int)).push(
                (groups@[i as int].0@, views(groups@[i as int].1@)),
            ));
        }
        i = i + 1;
    }
    proof {
        assert(groups@.take(i as int) =~= groups@);
    }
    out
}

impl DataState {
    /// What confirming the open dialog deletes: the row of a delete dialog,
    /// the rows of a bulk delete, the grouped rows of a paste once it has
    /// been read; nothing for a paste not yet read, a compression dialog, or
    /// no dialog.
    pub fn delete_request(&self) -> (r: Option<DeleteRequest>)
        ensures
            match self.dialog {
                Some(DialogState::DeleteOne { partition_key, row_key }) => r matches Some(
                    DeleteRequest::One { partition_key: pk, row_key: rk },
                ) && pk@ == partition_key@ && rk@ == row_key@,
                Some(DialogState::BulkDelete { partition_key, row_keys }) => r matches Some(
                    DeleteRequest::Bulk { partition_key: pk, row_keys: rks },
                ) && pk@ == partition_key@ && views(rks@) == views(row_keys@),
                Some(DialogState::PasteDelete { parsed: Some(groups), .. }) => r matches Some(
                    DeleteRequest::Many { groups: g },
                ) && groups_view(g@) == groups_view(groups@),
                _ => r is None,
            },
    {
        match &self.dialog {
            Some(DialogState::DeleteOne { partition_key, row_key }) => Some(
                DeleteRequest::One { partition_key: partition_key.clone(), row_key: row_key.clone() },
            ),
            Some(DialogState::BulkDelete { partition_key, row_keys }) => Some(
                DeleteRequest::Bulk {
                    partition_key: partition_key.clone(),
                    row_keys: copy_strings(row_keys),
                },
            ),
            Some(DialogState::PasteDelete { parsed: Some(groups), .. }) => Some(
                DeleteRequest::Many { groups: copy_groups(groups) },
            ),
            _ => None,
        }
    }
}

/// The first `PREVIEW_LIMIT` keys a bulk delete lists, and how many more it
/// deletes.
pub fn bulk_preview(row_keys: &Vec<String>) -> (r: (Vec<String>, usize))
    ensures
        views(r.0@) == views(row_keys@).take(
            if row_keys.len() < PREVIEW_LIMIT { row_keys.len() as int } else { PREVIEW_LIMIT as int },
        ),
        r.1 == row_keys.len() - r.0.len(),
{
    let mut out: Vec<String> = Vec::new();
    let mut i: usize = 0;
    while i < row_keys.len() && i < PREVIEW_LIMIT
        invariant
            i <= row_keys.len(),
            i <= PREVIEW_LIMIT,
            views(out@) == views(row_keys@).take(i as int),
        decreases row_keys.len() - i,
    {
        let ghost before = out@;
        out.push(row_keys[i].clone());
        proof {
            lemma_views_push(before, out@.last());
            assert(views(row_keys@).take(i + 1) =~= views(row_keys@).take(i as int).push(
                row_keys@[i as int]@,
            ));
        }
        i = i + 1;
    }
    let extra = row_keys.len() - out.len();
    (out, extra)
}

/// The (partition, row) pairs of grouped row keys, partition by partition.
pub open spec fn flatten_groups(groups: Seq<(Seq<char>, Seq<Seq<char>>)>) -> Seq<(Seq<char>, Seq<char>)>
    decreases groups.len(),
{
    if groups.len() == 0 {
        Seq::empty()
    } else {
        flatten_groups(groups.drop_last()) + groups.last().1.map_values(
            |rk: Seq<char>| (groups.last().0, rk),
        )
    }
}

/// The (partition, row) pairs of grouped row keys, partition by partition.
fn flatten_pairs(groups: &Vec<(String, Vec<String>)>) -> (r: Vec<(String, String)>)
    ensures
        r@.map_values(|p: (String, String)| (p.0@, p.1@)) == flatten_groups(groups_view(groups@)),
{
    let ghost gv = groups_view(groups@);
    let mut out: Vec<(String, String)> = Vec::new();
    let mut g: usize = 0;
    proof {
        assert(gv.take(0) =~= Seq::<(Seq<char>, Seq<Seq<char>>)>::empty());
        assert(out@.map_values(|p: (String, String)| (p.0@, p.1@)) =~= flatten_groups(gv.take(0)));
    }
    while g < groups.len()
        invariant
            g <= groups.len(),
            gv == groups_view(groups@),
            out@.map_values(|p: (String, String)| (p.0@, p.1@)) == flatten_groups(gv.take(g as int)),
        decreases groups.len() - g,
    {
        let ghost prefix = flatten_groups(gv.take(g as int));
        let ghost row = gv[g as int];
        let rows = &groups[g].1;
        let mut k: usize = 0;
        proof {
            assert(row.1.take(0).map_values(|rk: Seq<char>| (row.0, rk)) =~= Seq::<(Seq<char>, Seq<char>)>::empty());
            assert(prefix + row.1.take(0).map_values(|rk: Seq<char>| (row.0, rk)) =~= prefix);
        }
        while k < rows.len()
            invariant
                g < groups.len(),
                k <= rows.len(),
                rows@ == groups@[g as int].1@,
                row == gv[g as int],
                gv == groups_view(groups@),
                out@.map_values(|p: (String, String)| (p.0@, p.1@)) == prefix + row.1.take(k as int).map_values(
                    |rk: Seq<char>| (row.0, rk),
                ),
            decreases rows.len() - k,
        {
            let ghost before = out@;
            out.push((groups[g].0.clone(), rows[k].clone()));
            proof {
                assert(row.1.take(k + 1).map_values(|rk: Seq<char>| (row.0, rk)) =~= row.1.take(
                    k as int,
                ).map_values(|rk: Seq<char>| (row.0, rk)).push((row.0, rows@[k as int]@)));
                assert(out@.map_values(|p: (String, String)| (p.0@, p.1@)) =~= before.map_values(
                    |p: (String, String)| (p.0@, p.1@),
                ).push((row.0, rows@[k as int]@)));
            }
            k = k + 1;
        }
        proof {
            assert(row.1.take(k as int) =~= row.1);
            assert(gv.take(g + 1).drop_last() =~= gv.take(g as int));
            assert(gv.take(g + 1).last() == row);
        }
        g = g + 1;
    }
    proof {
        assert(gv.take(g as int) =~= gv);
    }
    out
}

/// The first `PREVIEW_LIMIT` (partition, row) pairs a paste delete lists,
/// and how many of its `total` rows it does not list.
pub fn paste_preview(groups: &Vec<(String, Vec<String>)>, total: usize) -> (r: (
    Vec<(String, String)>,
    usize,
))
    ensures
        r.0@.map_values(|p: (String, String)| (p.0@, p.1@)) == flatten_groups(groups_view(groups@)).take(
            r.0.len() as int,
        ),
        r.0.len() == (if flatten_groups(groups_view(groups@)).len() < PREVIEW_LIMIT {
            flatten_groups(groups_view(groups@)).len() as int
        } else {
            PREVIEW_LIMIT as int
        }),
        r.1 == (if total >= r.0.len() { total - r.0.len() } else { 0 }),
{
    let all = flatten_pairs(groups);
    let ghost av = all@.map_values(|p: (String, String)| (p.0@, p.1@));
    let mut out: Vec<(String, String)> = Vec::new();
    let mut i: usize = 0;
    while i < all.len() && i < PREVIEW_LIMIT
        invariant
            i <= all.len(),
            i <= PREVIEW_LIMIT,
            out.len() == i,
            av == all@.map_values(|p: (String, String)| (p.0@, p.1@)),
            out@.map_values(|p: (String, String)| (p.0@, p.1@)) == av.take(i as int),
        decreases all.len() - i,
    {
        let ghost before = out@;
        out.push((all[i].0.clone(), all[i].1.clone()));
        proof {
            assert(out@.map_values(|p: (String, String)| (p.0@, p.1@)) =~= before.map_values(
                |p: (String, String)| (p.0@, p.1@),
            ).push(av[i as int]));
            assert(av.take(i + 1) =~= av.take(i as int).push(av[i as int]));
        }
        i = i + 1;
    }
    let shown = out.len();
    let extra = if total >= shown { total - shown } else { 0 };
    (out, extra)
}

/// The labels of the compression dialog.
pub struct CompressionLabels {
    /// How the table is stored now.
    pub current: &'static str,
    /// What the dialog offers.
    pub action: &'static str,
    /// The "already in memory as well" checkbox.
    pub force: &'static str,
    /// The apply button.
    pub apply: &'static str,
}

/// The labels of the compression dialog for a table stored `compressed` or
/// not, while a change is `busy` or not. The dialog offers the opposite of
/// how the table is stored.
pub fn compression_labels(compressed: bool, busy: bool) -> (r: CompressionLabels)
    ensures
        r.current@ == (if compressed { "compressed"@ } else { "not compressed"@ }),
        r.action@ == (if !compressed { "Enable compression"@ } else { "Disable compression"@ }),
        r.force@ == (if !compressed {
            "Compress the rows already in memory as well"@
        } else {
            "Decompress the rows already in memory as well"@
        }),
        r.apply@ == (if busy { "Applying\u{2026}"@ } else { r.action@ }),
{
    let target = !compressed;
    let current = if compressed { "compressed" } else { "not compressed" };
    let action = if target { "Enable compression" } else { "Disable compression" };
    let force = if target {
        "Compress the rows already in memory as well"
    } else {
        "Decompress the rows already in memory as well"
    };
    let apply = if busy { "Applying\u{2026}" } else { action };
    CompressionLabels { current, action, force, apply }
}

} // verus!
