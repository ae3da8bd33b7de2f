use vstd::prelude::*;
use crate::json::{JsonValue, compact_json, json_text, PARTITION_KEY, ROW_KEY, TIME_STAMP, object_keys, string_field, keys_of, get_string_field};
use crate::keyset::{key_set, key_set_contains};

use crate::tally::{views, lemma_views_push, contains_str, distinct_texts};
use crate::text::{lowercase, to_lowercase, seq_contains, contains_text};

verus! {

/// A row of a table, as the server sent it.
pub struct DataRow {
    pub value: JsonValue,
}

/// The columns every table shows first, in this order.
pub open spec fn fixed_headers() -> Seq<Seq<char>> {
    seq![PARTITION_KEY@, ROW_KEY@, TIME_STAMP@]
}

/// `headers` followed by each of `keys` it lacks, in the order they come.
pub open spec fn add_headers(headers: Seq<Seq<char>>, keys: Seq<Seq<char>>) -> Seq<Seq<char>>
    decreases keys.len(),
{
    if keys.len() == 0 {
        headers
    } else {
        let h = add_headers(headers, keys.drop_last());
        if h.contains(keys.last()) {
            h
        } else {
            h.push(keys.last())
        }
    }
}

/// The columns of a table of rows: the fixed ones, then every other entry
/// name in the order the rows first use it.
pub open spec fn rows_headers(rows: Seq<DataRow>) -> Seq<Seq<char>>
    decreases rows.len(),
{
    if rows.len() == 0 {
        fixed_headers()
    } else {
        add_headers(rows_headers(rows.drop_last()), object_keys(rows.last().value))
    }
}

/// The row key of a row, when it has a string one.
pub open spec fn row_key_of(row: DataRow) -> Option<Seq<char>> {
    string_field(row.value, ROW_KEY@)
}

proof fn lemma_add_headers(headers: Seq<Seq<char>>, keys: Seq<Seq<char>>)
    requires
        distinct_texts(headers),
    ensures
        distinct_texts(add_headers(headers, keys)),
        add_headers(headers, keys).len() >= headers.len(),
        add_headers(headers, keys).take(headers.len() as int) == headers,
        forall|x: Seq<char>| #[trigger] add_headers(headers, keys).contains(x) <==> headers.contains(x)
            || keys.contains(x),
    decreases keys.len(),
{
    if keys.len() > 0 {
        let h = add_headers(headers, keys.drop_last());
        lemma_add_headers(headers, keys.drop_last());
        if !h.contains(keys.last()) {
            assert(h.push(keys.last()).take(headers.len() as int) =~= h.take(headers.len() as int));
        }
        assert forall|x: Seq<char>| #[trigger] add_headers(headers, keys).contains(x) <==> headers.contains(x)
            || keys.contains(x) by {
            if keys.contains(x) && x != keys.last() {
                let i = choose|i: int| 0 <= i < keys.len() && keys[i] == x;
                assert(keys.drop_last()[i] == x);
            }
            if keys.drop_last().contains(x) {
                let i = choose|i: int| 0 <= i < keys.drop_last().len() && keys.drop_last()[i] == x;
                assert(keys[i] == x);
            }
            if x == keys.last() {
                assert(keys[keys.len() - 1] == x);
            }
            if !h.contains(keys.last()) && h.push(keys.last()).contains(x) && x != keys.last() {
                let i = choose|i: int| 0 <= i < h.push(keys.last()).len() && h.push(keys.last())[i] == x;
                assert(h[i] == x);
            }
            if !h.contains(keys.last()) && h.contains(x) {
                let i = choose|i: int| 0 <= i < h.len() && h[i] == x;
                assert(h.push(keys.last())[i] == x);
            }
            if !h.contains(keys.last()) && x == keys.last() {
                assert(h.push(keys.last())[h.len() as int] == x);
            }
        }
    }
}

/// The columns of any rows hold each name once, start with the fixed ones,
/// and name every entry of every row that is an object.
pub proof fn lemma_rows_headers(rows: Seq<DataRow>)
    ensures
        distinct_texts(rows_headers(rows)),
        rows_headers(rows).len() >= 3,
        rows_headers(rows).take(3) == fixed_headers(),
        forall|i: int, x: Seq<char>|
            0 <= i < rows.len() && #[trigger] object_keys(rows[i].value).contains(x) ==> #[trigger] rows_headers(
                rows,
            ).contains(x),
    decreases rows.len(),
{
    if rows.len() == 0 {
        reveal_strlit("PartitionKey");
        reveal_strlit("RowKey");
        reveal_strlit("TimeStamp");
        assert(fixed_headers()[0].len() == 12);
        assert(fixed_headers()[1].len() == 6);
        assert(fixed_headers()[2].len() == 9);
        assert(fixed_headers().take(3) =~= fixed_headers());
    } else {
        lemma_rows_headers(rows.drop_last());
        let h = rows_headers(rows.drop_last());
        lemma_add_headers(h, object_keys(rows.last().value));
        assert(h.len() >= 3);
        assert(rows_headers(rows).take(3) =~= rows_headers(rows).take(h.len() as int).take(3));
        assert forall|i: int, x: Seq<char>|
            0 <= i < rows.len() && #[trigger] object_keys(rows[i].value).contains(x) implies #[trigger] rows_headers(
                rows,
            ).contains(x) by {
            if i < rows.len() - 1 {
                assert(rows.drop_last()[i] == rows[i]);
                assert(h.contains(x));
            }
        }
    }
}

/// Appends `name` to `headers` unless it is there already.
fn add_header(headers: &mut Vec<String>, name: String)
    ensures
        views(final(headers)@) == (if views(old(headers)@).contains(name@) {
            views(old(headers)@)
        } else {
            views(old(headers)@).push(name@)
        }),
{
    if !contains_str(headers, name.as_str()) {
        let ghost before = headers@;
        headers.push(name);
        proof {
            lemma_views_push(before, headers@.last());
        }
    }
}

/// The columns for `rows`, with the rows themselves.
pub fn build_rows_state(rows: Vec<DataRow>) -> (r: (Vec<String>, Vec<DataRow>))
    ensures
        views(r.0@) == rows_headers(rows@),
        r.1 == rows,
{
    let mut headers: Vec<String> = Vec::new();
    headers.push(String::from_str(PARTITION_KEY));
    headers.push(String::from_str(ROW_KEY));
    headers.push(String::from_str(TIME_STAMP));
    proof {
        assert(views(headers@) =~= fixed_headers());
        assert(rows@.take(0) =~= Seq::<DataRow>::empty());
    }
    let mut i: usize = 0;
    while i < rows.len()
        invariant
            i <= rows.len(),
            views(headers@) == rows_headers(rows@.take(i as int)),
        decreases rows.len() - i,
    {
        let keys = keys_of(&rows[i].value);
        let ghost start = views(headers@);
        let mut k: usize = 0;
        proof {
            assert(keys@.map_values(|s: String| s@).take(0) =~= Seq::<Seq<char>>::empty());
        }
        while k < keys.len()
            invariant
                k <= keys.len(),
                keys@.map_values(|s: String| s@) == object_keys(rows@[i as int].value),
                views(headers@) == add_headers(start, keys@.map_values(|s: String| s@).take(k as int)),
            decreases keys.len() - k,
        {
            let ghost ks = keys@.map_values(|s: String| s@);
            proof {
                assert(ks.take(k + 1).drop_last() =~= ks.take(k as int));
                assert(ks.take(k + 1).last() == keys@[k as int]@);
            }
            add_header(&mut headers, keys[k].clone());
            k = k + 1;
        }
        proof {
            let ks = keys@.map_values(|s: String| s@);
            assert(ks.take(k as int) =~= ks);
            assert(rows@.take(i + 1).drop_last() =~= rows@.take(i as int));
            assert(rows@.take(i + 1).last() == rows@[i as int]);
        }
        i = i + 1;
    }
    proof {
        assert(rows@.take(i as int) =~= rows@);
    }
    (headers, rows)
}

/// A row passes the filter when its compact JSON text, lowercased, holds the
/// lowercased filter; every row passes an empty filter.
pub open spec fn row_passes(row: DataRow, filter: Seq<char>) -> bool {
    seq_contains(lowercase(json_text(row.value)), lowercase(filter))
}

/// Positions of the rows that pass the filter, in order.
pub open spec fn passing_rows(rows: Seq<DataRow>, filter: Seq<char>) -> Seq<usize>
    decreases rows.len(),
{
    if rows.len() == 0 {
        Seq::empty()
    } else if row_passes(rows.last(), filter) {
        passing_rows(rows.drop_last(), filter).push((rows.len() - 1) as usize)
    } else {
        passing_rows(rows.drop_last(), filter)
    }
}

proof fn lemma_passing_rows_bound(rows: Seq<DataRow>, filter: Seq<char>)
    ensures
        passing_rows(rows, filter).len() <= rows.len(),
        forall|j: int| 0 <= j < passing_rows(rows, filter).len() ==> #[trigger] passing_rows(rows, filter)[j] < rows.len(),
    decreases rows.len(),
{
    if rows.len() > 0 {
        lemma_passing_rows_bound(rows.drop_last(), filter);
    }
}

/// A filter that is empty once lowercased keeps every row, in order.
pub proof fn lemma_empty_filter_keeps_all(rows: Seq<DataRow>, filter: Seq<char>)
    requires
        lowercase(filter).len() == 0,
    ensures
        passing_rows(rows, filter) == Seq::new(rows.len(), |i: int| i as usize),
    decreases rows.len(),
{
    if rows.len() > 0 {
        lemma_empty_filter_keeps_all(rows.drop_last(), filter);
        let hay = lowercase(json_text(rows.last().value));
        let needle = lowercase(filter);
        assert(hay.subrange(0, 0 + needle.len() as int) =~= needle);
        assert(row_passes(rows.last(), filter));
        assert(Seq::new((rows.len() - 1) as nat, |i: int| i as usize).push((rows.len() - 1) as usize)
            =~= Seq::new(rows.len(), |i: int| i as usize));
    } else {
        assert(passing_rows(rows, filter) =~= Seq::new(rows.len(), |i: int| i as usize));
    }
}

/// Positions of the rows the filter keeps (matching is case-insensitive).
pub fn filter_rows(rows: &Vec<DataRow>, filter: &str) -> (r: Vec<usize>)
    ensures
        r@ == passing_rows(rows@, filter@),
        forall|j: int| 0 <= j < r.len() ==> #[trigger] r@[j] < rows.len(),
        filter@.len() == 0 ==> r@ == Seq::new(rows@.len(), |i: int| i as usize),
{
    let needle = to_lowercase(filter);
    proof {
        if filter@.len() == 0 {
            lemma_empty_filter_keeps_all(rows@, filter@);
        }
    }
    let mut out: Vec<usize> = Vec::new();
    let mut i: usize = 0;
    proof {
        assert(rows@.take(0) =~= Seq::<DataRow>::empty());
    }
    while i < rows.len()
        invariant
            i <= rows.len(),
            needle@ == lowercase(filter@),
            out@ == passing_rows(rows@.take(i as int), filter@),
        decreases rows.len() - i,
    {
        let text = compact_json(&rows[i].value);
        let hay = to_lowercase(text.as_str());
        let keep = contains_text(hay.as_str(), needle.as_str());
        proof {
            assert(rows@.take(i + 1).drop_last() =~= rows@.take(i as int));
            assert(rows@.take(i + 1).last() == rows@[i as int]);
        }
        if keep {
            out.push(i);
        }
        i = i + 1;
    }
    proof {
        assert(rows@.take(i as int) =~= rows@);
        lemma_passing_rows_bound(rows@, filter@);
    }
    out
}

/// The row keys of the rows at `positions`, skipping rows without one.
pub open spec fn keys_at(rows: Seq<DataRow>, positions: Seq<usize>) -> Seq<Seq<char>>
    decreases positions.len(),
{
    if positions.len() == 0 {
        Seq::empty()
    } else {
        let rest = keys_at(rows, positions.drop_last());
        match row_key_of(rows[positions.last() as int]) {
            Some(k) => rest.push(k),
            None => rest,
        }
    }
}

/// The row keys of the rows at `positions`, skipping rows without one.
pub fn row_keys_at(rows: &Vec<DataRow>, positions: &[usize]) -> (r: Vec<String>)
    requires
        forall|j: int| 0 <= j < positions.len() ==> #[trigger] positions@[j] < rows.len(),
    ensures
        views(r@) == keys_at(rows@, positions@),
{
    let mut out: Vec<String> = Vec::new();
    let mut j: usize = 0;
    proof {
        assert(positions@.take(0) =~= Seq::<usize>::empty());
    }
    while j < positions.len()
        invariant
            j <= positions.len(),
            forall|q: int| 0 <= q < positions.len() ==> #[trigger] positions@[q] < rows.len(),
            views(out@) == keys_at(rows@, positions@.take(j as int)),
        decreases positions.len() - j,
    {
        proof {
            assert(positions@.take(j + 1).drop_last() =~= positions@.take(j as int));
            assert(positions@.take(j + 1).last() == positions@[j as int]);
        }
        let p = positions[j];
        match get_string_field(&rows[p].value, ROW_KEY) {
            Some(k) => {
                let ghost before = out@;
                out.push(k);
                proof {
                    lemma_views_push(before, out@.last());
                }
            },
            None => {},
        }
        j = j + 1;
    }
    proof {
        assert(positions@.take(j as int) =~= positions@);
    }
    out
}

/// The row keys of the rows at `positions` that are in the set `checked`
/// holds, in order.
pub open spec fn checked_keys_at(rows: Seq<DataRow>, positions: Seq<usize>, checked: Set<Seq<char>>) -> Seq<
    Seq<char>,
> {
    keys_at(rows, positions).filter(|k: Seq<char>| checked.contains(k))
}

/// The row keys of the rows at `positions` that are checked, in order.
pub fn checked_keys_in(rows: &Vec<DataRow>, positions: &[usize], checked: &Vec<String>) -> (r: Vec<String>)
    requires
        forall|j: int| 0 <= j < positions.len() ==> #[trigger] positions@[j] < rows.len(),
    ensures
        views(r@) == checked_keys_at(rows@, positions@, key_set(checked@)),
{
    let keys = row_keys_at(rows, positions);
    let ghost ks = views(keys@);
    let ghost set = key_set(checked@);
    let mut out: Vec<String> = Vec::new();
    let mut i: usize = 0;
    proof {
        assert(ks.take(0).filter(|k: Seq<char>| set.contains(k)) =~= Seq::<Seq<char>>::empty());
    }
    while i < keys.len()
        invariant
            i <= keys.len(),
            ks == views(keys@),
            set == key_set(checked@),
            views(out@) == ks.take(i as int).filter(|k: Seq<char>| set.contains(k)),
        decreases keys.len() - i,
    {
        proof {
            assert(ks.take(i + 1).drop_last() =~= ks.take(i as int));
            assert(ks.take(i + 1).last() == ks[i as int]);
            reveal(Seq::filter);
        }
        if key_set_contains(checked, keys[i].as_str()) {
            let ghost before = out@;
            out.push(keys[i].clone());
            proof {
                lemma_views_push(before, out@.last());
            }
        }
        i = i + 1;
    }
    proof {
        assert(ks.take(i as int) =~= ks);
    }
    out
}

/// The first row whose row key is `key`.
pub open spec fn first_row_with_key(rows: Seq<DataRow>, key: Seq<char>, at: usize) -> bool {
    &&& at < rows.len()
    &&& row_key_of(rows[at as int]) == Some(key)
    &&& forall|j: int| 0 <= j < at ==> row_key_of(#[trigger] rows[j]) != Some(key)
}

/// The position of the first row whose row key is `key`.
pub fn find_row(rows: &Vec<DataRow>, key: &str) -> (r: Option<usize>)
    ensures
        match r {
            Some(i) => first_row_with_key(rows@, key@, i),
            None => forall|j: int| 0 <= j < rows.len() ==> row_key_of(#[trigger] rows@[j]) != Some(key@),
        },
{
    let target = key.to_owned();
    let mut i: usize = 0;
    while i < rows.len()
        invariant
            i <= rows.len(),
            target@ == key@,
            forall|j: int| 0 <= j < i ==> row_key_of(#[trigger] rows@[j]) != Some(key@),
        decreases rows.len() - i,
    {
        let hit = match get_string_field(&rows[i].value, ROW_KEY) {
            Some(s) => s == target,
            None => false,
        };
        if hit {
            return Some(i);
        }
        i = i + 1;
    }
    None
}

} // verus!
