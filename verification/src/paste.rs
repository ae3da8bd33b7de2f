use vstd::prelude::*;
use crate::json::{JsonValue, PARTITION_KEY, ROW_KEY, string_field, get_string_field, json_document, parse_json};
use crate::order::{lex_lt, str_le, lemma_lex_total, lemma_lex_antisymmetric, lemma_lex_transitive};
use crate::tally::{views, distinct_texts, occurrences, lemma_occurrences_contains};
use crate::text::{decimal, push_decimal, trim, trimmed};

verus! {

/// Message for a paste that holds nothing but white space.
pub open spec fn empty_input_message() -> Seq<char> {
    "Input is empty."@
}

/// The pasted text with its surrounding white space removed, or the message
/// for an empty paste.
pub fn paste_input_text(raw: &str) -> (r: Result<&str, String>)
    ensures
        match r {
            Ok(t) => t@ == trimmed(raw@) && t@.len() > 0,
            Err(e) => trimmed(raw@).len() == 0 && e@ == empty_input_message(),
        },
{
    let t = trim(raw);
    if t.unicode_len() == 0 {
        Err(String::from_str("Input is empty."))
    } else {
        Ok(t)
    }
}

/// Why item `idx` of the pasted array cannot be deleted, if it cannot: it is
/// not an object, lacks a string key, or has an empty one.
pub open spec fn item_error(item: JsonValue, idx: nat) -> Option<Seq<char>> {
    let head = "Item #"@ + decimal(idx);
    if !(item is Object) {
        Some(head + " is not an object (expected { PartitionKey, RowKey })."@)
    } else {
        match string_field(item, PARTITION_KEY@) {
            None => Some(head + " is missing a string \"PartitionKey\" field."@),
            Some(pk) => match string_field(item, ROW_KEY@) {
                None => Some(head + " is missing a string \"RowKey\" field."@),
                Some(rk) => if pk.len() == 0 {
                    Some(head + ": PartitionKey is empty."@)
                } else if rk.len() == 0 {
                    Some(head + ": RowKey is empty."@)
                } else {
                    None
                },
            },
        }
    }
}

/// The first item error of the pasted array, in array order.
pub open spec fn first_item_error(items: Seq<JsonValue>) -> Option<Seq<char>>
    decreases items.len(),
{
    if items.len() == 0 {
        None
    } else {
        match first_item_error(items.drop_last()) {
            Some(e) => Some(e),
            None => item_error(items.last(), (items.len() - 1) as nat),
        }
    }
}

/// The (partition key, row key) pairs that the pasted items name, in order.
pub open spec fn item_pairs(items: Seq<JsonValue>) -> Seq<(Seq<char>, Seq<char>)> {
    items.map_values(
        |v: JsonValue|
            (string_field(v, PARTITION_KEY@).unwrap(), string_field(v, ROW_KEY@).unwrap()),
    )
}

/// The row keys paired with partition `key`, in order.
pub open spec fn rows_of(pairs: Seq<(Seq<char>, Seq<char>)>, key: Seq<char>) -> Seq<Seq<char>>
    decreases pairs.len(),
{
    if pairs.len() == 0 {
        Seq::empty()
    } else if pairs.last().0 == key {
        rows_of(pairs.drop_last(), key).push(pairs.last().1)
    } else {
        rows_of(pairs.drop_last(), key)
    }
}

/// `groups` lists each partition that `pairs` names once, in ascending order
/// of its key, with the row keys paired with it in the order they come.
pub open spec fn is_grouping(pairs: Seq<(Seq<char>, Seq<char>)>, groups: Seq<(String, Vec<String>)>) -> bool {
    &&& forall|i: int, j: int| 0 <= i < j < groups.len() ==> lex_lt(#[trigger] groups[i].0@, #[trigger] groups[j].0@)
    &&& forall|i: int| 0 <= i < groups.len() ==> #[trigger] views(groups[i].1@) == rows_of(pairs, groups[i].0@)
        && groups[i].1@.len() > 0
    &&& forall|p: int| 0 <= p < pairs.len() ==> has_group(groups, #[trigger] pairs[p].0)
}

/// One of `groups` is for partition `key`.
pub open spec fn has_group(groups: Seq<(String, Vec<String>)>, key: Seq<char>) -> bool {
    exists|i: int| 0 <= i < groups.len() && #[trigger] groups[i].0@ == key
}

proof fn lemma_rows_of_absent(pairs: Seq<(Seq<char>, Seq<char>)>, key: Seq<char>)
    requires
        forall|p: int| 0 <= p < pairs.len() ==> #[trigger] pairs[p].0 != key,
    ensures
        rows_of(pairs, key).len() == 0,
    decreases pairs.len(),
{
    if pairs.len() > 0 {
        assert(pairs.last().0 != key);
        assert forall|p: int| 0 <= p < pairs.drop_last().len() implies #[trigger] pairs.drop_last()[p].0 != key by {
            assert(pairs.drop_last()[p] == pairs[p]);
        }
        lemma_rows_of_absent(pairs.drop_last(), key);
    }
}

/// An error among the first `k` items stays the first error of the whole array.
proof fn lemma_error_sticks(items: Seq<JsonValue>, k: int)
    requires
        0 <= k <= items.len(),
        first_item_error(items.take(k)) is Some,
    ensures
        first_item_error(items.take(items.len() as int)) == first_item_error(items.take(k)),
    decreases items.len() - k,
{
    if k < items.len() {
        assert(items.take(k + 1).drop_last() =~= items.take(k));
        lemma_error_sticks(items, k + 1);
    }
}

/// The number of row keys in all groups.
pub open spec fn rows_total(groups: Seq<(String, Vec<String>)>) -> nat
    decreases groups.len(),
{
    if groups.len() == 0 {
        0
    } else {
        rows_total(groups.drop_last()) + groups.last().1@.len()
    }
}

/// The number of rows paired with each of `keys`, summed.
spec fn key_total(pairs: Seq<(Seq<char>, Seq<char>)>, keys: Seq<Seq<char>>) -> nat
    decreases keys.len(),
{
    if keys.len() == 0 {
        0
    } else {
        key_total(pairs, keys.drop_last()) + rows_of(pairs, keys.last()).len()
    }
}

proof fn lemma_key_total_empty(pairs: Seq<(Seq<char>, Seq<char>)>, keys: Seq<Seq<char>>)
    requires
        pairs.len() == 0,
    ensures
        key_total(pairs, keys) == 0,
    decreases keys.len(),
{
    if keys.len() > 0 {
        lemma_key_total_empty(pairs, keys.drop_last());
    }
}

proof fn lemma_key_total_step(pairs: Seq<(Seq<char>, Seq<char>)>, keys: Seq<Seq<char>>)
    requires
        pairs.len() > 0,
    ensures
        key_total(pairs, keys) == key_total(pairs.drop_last(), keys) + occurrences(keys, pairs.last().0),
    decreases keys.len(),
{
    if keys.len() > 0 {
        lemma_key_total_step(pairs, keys.drop_last());
    }
}

proof fn lemma_occurs_once(keys: Seq<Seq<char>>, x: Seq<char>)
    requires
        distinct_texts(keys),
        keys.contains(x),
    ensures
        occurrences(keys, x) == 1,
    decreases keys.len(),
{
    let rest = keys.drop_last();
    assert(distinct_texts(rest)) by {
        assert forall|i: int, j: int| 0 <= i < j < rest.len() implies rest[i] != rest[j] by {
            assert(rest[i] == keys[i] && rest[j] == keys[j]);
        }
    }
    if keys.last() == x {
        assert(!rest.contains(x)) by {
            if rest.contains(x) {
                let i = choose|i: int| 0 <= i < rest.len() && rest[i] == x;
                assert(keys[i] == keys[keys.len() - 1]);
            }
        }
        lemma_occurrences_contains(rest, x);
    } else {
        let i = choose|i: int| 0 <= i < keys.len() && keys[i] == x;
        assert(rest[i] == x);
        lemma_occurs_once(rest, x);
    }
}

proof fn lemma_key_total(pairs: Seq<(Seq<char>, Seq<char>)>, keys: Seq<Seq<char>>)
    requires
        distinct_texts(keys),
        forall|p: int| 0 <= p < pairs.len() ==> keys.contains(#[trigger] pairs[p].0),
    ensures
        key_total(pairs, keys) == pairs.len(),
    decreases pairs.len(),
{
    if pairs.len() == 0 {
        lemma_key_total_empty(pairs, keys);
    } else {
        lemma_key_total_step(pairs, keys);
        assert(keys.contains(pairs[pairs.len() - 1].0));
        lemma_occurs_once(keys, pairs.last().0);
        assert forall|p: int| 0 <= p < pairs.drop_last().len() implies keys.contains(
            #[trigger] pairs.drop_last()[p].0,
        ) by {
            assert(pairs.drop_last()[p] == pairs[p]);
        }
        lemma_key_total(pairs.drop_last(), keys);
    }
}

/// The keys of groups.
spec fn group_keys(groups: Seq<(String, Vec<String>)>) -> Seq<Seq<char>> {
    groups.map_values(|g: (String, Vec<String>)| g.0@)
}

proof fn lemma_rows_total(pairs: Seq<(Seq<char>, Seq<char>)>, groups: Seq<(String, Vec<String>)>)
    requires
        forall|i: int| 0 <= i < groups.len() ==> #[trigger] views(groups[i].1@) == rows_of(pairs, groups[i].0@),
    ensures
        rows_total(groups) == key_total(pairs, group_keys(groups)),
    decreases groups.len(),
{
    if groups.len() > 0 {
        let rest = groups.drop_last();
        assert forall|i: int| 0 <= i < rest.len() implies #[trigger] views(rest[i].1@) == rows_of(
            pairs,
            rest[i].0@,
        ) by {
            assert(rest[i] == groups[i]);
        }
        lemma_rows_total(pairs, rest);
        assert(group_keys(groups).drop_last() =~= group_keys(rest));
        assert(views(groups.last().1@) == rows_of(pairs, groups.last().0@));
        assert(views(groups.last().1@).len() == groups.last().1@.len());
    }
}

/// Every pasted row is deleted exactly once: the groups of a paste hold as
/// many row keys, together, as the paste has rows, and no partition twice.
pub proof fn lemma_grouping_counts(pairs: Seq<(Seq<char>, Seq<char>)>, groups: Seq<(String, Vec<String>)>)
    requires
        is_grouping(pairs, groups),
    ensures
        rows_total(groups) == pairs.len(),
        forall|i: int, j: int| 0 <= i < j < groups.len() ==> #[trigger] groups[i].0@ != #[trigger] groups[j].0@,
{
    let keys = group_keys(groups);
    assert(distinct_texts(keys)) by {
        assert forall|i: int, j: int| 0 <= i < j < keys.len() implies keys[i] != keys[j] by {
            assert(lex_lt(groups[i].0@, groups[j].0@));
        }
    }
    assert forall|p: int| 0 <= p < pairs.len() implies keys.contains(#[trigger] pairs[p].0) by {
        assert(has_group(groups, pairs[p].0));
        let i = choose|i: int| 0 <= i < groups.len() && #[trigger] groups[i].0@ == pairs[p].0;
        assert(keys[i] == pairs[p].0);
    }
    lemma_key_total(pairs, keys);
    lemma_rows_total(pairs, groups);
}

/// `"Item #" + idx + tail`.
fn item_message(idx: usize, tail: &str) -> (m: String)
    ensures
        m@ == "Item #"@ + decimal(idx as nat) + tail@,
{
    let mut m = String::from_str("Item #");
    push_decimal(&mut m, idx as u64);
    m.append(tail);
    m
}

/// Checks item `idx` and gives its partition and row key.
fn check_item(item: &JsonValue, idx: usize) -> (r: Result<(String, String), String>)
    ensures
        match r {
            Ok((pk, rk)) => item_error(*item, idx as nat) is None && string_field(*item, PARTITION_KEY@)
                == Some(pk@) && string_field(*item, ROW_KEY@) == Some(rk@),
            Err(e) => item_error(*item, idx as nat) == Some(e@),
        },
{
    match item {
        JsonValue::Object(_) => {},
        _ => {
            return Err(item_message(idx, " is not an object (expected { PartitionKey, RowKey })."));
        },
    }
    let pk = match get_string_field(item, PARTITION_KEY) {
        Some(pk) => pk,
        None => {
            return Err(item_message(idx, " is missing a string \"PartitionKey\" field."));
        },
    };
    let rk = match get_string_field(item, ROW_KEY) {
        Some(rk) => rk,
        None => {
            return Err(item_message(idx, " is missing a string \"RowKey\" field."));
        },
    };
    if pk.unicode_len() == 0 {
        return Err(item_message(idx, ": PartitionKey is empty."));
    }
    if rk.unicode_len() == 0 {
        return Err(item_message(idx, ": RowKey is empty."));
    }
    Ok((pk, rk))
}

/// Adds row `rk` of partition `pk` to `groups`, keeping them a grouping of
/// the pairs seen so far.
fn add_to_groups(groups: &mut Vec<(String, Vec<String>)>, pk: String, rk: String, Ghost(pairs): Ghost<
    Seq<(Seq<char>, Seq<char>)>,
>)
    requires
        is_grouping(pairs, old(groups)@),
    ensures
        is_grouping(pairs.push((pk@, rk@)), final(groups)@),
{
    let ghost new_pairs = pairs.push((pk@, rk@));
    proof {
        assert forall|key: Seq<char>| #[trigger] rows_of(new_pairs, key) == (if key == pk@ {
            rows_of(pairs, key).push(rk@)
        } else {
            rows_of(pairs, key)
        }) by {
            assert(new_pairs.drop_last() =~= pairs);
        }
    }
    let n = groups.len();
    let mut j: usize = 0;
    while j < n && !str_le(pk.as_str(), groups[j].0.as_str())
        invariant
            n == groups.len(),
            j <= n,
            forall|i: int| 0 <= i < j ==> lex_lt(#[trigger] groups@[i].0@, pk@),
        decreases n - j,
    {
        proof {
            lemma_lex_total(pk@, groups@[j as int].0@);
        }
        j = j + 1;
    }
    let ghost og = groups@;
    assert(is_grouping(pairs, og));
    if j < n && groups[j].0 == pk {
        let ghost old_entry = groups@[j as int];
        let (key, mut rows) = groups.remove(j);
        let ghost old_rows = rows@;
        rows.push(rk);
        proof {
            assert(views(rows@) =~= views(old_rows).push(rk@));
        }
        groups.insert(j, (key, rows));
        proof {
            assert forall|a: int| 0 <= a < groups@.len() implies #[trigger] groups@[a].0@ == og[a].0@ by {
                if a != j {
                    assert(groups@[a] == og[a]);
                }
            }
            assert forall|p: int| 0 <= p < new_pairs.len() implies has_group(groups@, #[trigger] new_pairs[p].0) by {
                if p == pairs.len() {
                    assert(groups@[j as int].0@ == new_pairs[p].0);
                } else {
                    assert(new_pairs[p] == pairs[p]);
                    assert(has_group(og, pairs[p].0));
                    let i = choose|i: int| 0 <= i < og.len() && #[trigger] og[i].0@ == pairs[p].0;
                    assert(groups@[i].0@ == og[i].0@);
                }
            }
            assert forall|i: int| 0 <= i < groups@.len() implies #[trigger] views(groups@[i].1@) == rows_of(
                new_pairs,
                groups@[i].0@,
            ) && groups@[i].1@.len() > 0 by {
                if i != j {
                    assert(groups@[i] == og[i]);
                    assert(og[i].0@ != og[j as int].0@);
                    assert(views(og[i].1@) == rows_of(pairs, og[i].0@));
                    assert(rows_of(new_pairs, og[i].0@) == rows_of(pairs, og[i].0@));
                } else {
                    assert(groups@[i].0@ == pk@);
                    assert(views(old_entry.1@) == rows_of(pairs, pk@));
                }
            }
            assert forall|a: int, b: int| 0 <= a < b < groups@.len() implies lex_lt(
                #[trigger] groups@[a].0@,
                #[trigger] groups@[b].0@,
            ) by {
                assert(groups@[a].0@ == og[a].0@);
                assert(groups@[b].0@ == og[b].0@);
                assert(lex_lt(og[a].0@, og[b].0@));
            }
        }
    } else {
        proof {
            if j < n {
                lemma_lex_total(pk@, groups@[j as int].0@);
            }
            assert forall|i: int| 0 <= i < n implies #[trigger] groups@[i].0@ != pk@ by {
                if i >= j {
                    if i > j {
                        lemma_lex_transitive(pk@, groups@[j as int].0@, groups@[i].0@);
                        if groups@[i].0@ == pk@ {
                            lemma_lex_antisymmetric(pk@, groups@[j as int].0@);
                        }
                    }
                }
            }
            assert forall|p: int| 0 <= p < pairs.len() implies #[trigger] pairs[p].0 != pk@ by {
                assert(has_group(groups@, pairs[p].0));
            }
            lemma_rows_of_absent(pairs, pk@);
        }
        let mut rows: Vec<String> = Vec::new();
        let ghost key = pk@;
        rows.push(rk);
        proof {
            assert(views(rows@) =~= rows_of(pairs, key).push(rk@));
        }
        groups.insert(j, (pk, rows));
        proof {
            assert forall|a: int, b: int| 0 <= a < b < groups@.len() implies lex_lt(
                #[trigger] groups@[a].0@,
                #[trigger] groups@[b].0@,
            ) by {
                if b < j {
                    assert(groups@[a] == og[a] && groups@[b] == og[b]);
                } else if b == j {
                    assert(groups@[a] == og[a]);
                } else if a == j {
                    assert(groups@[b] == og[b - 1]);
                    if b - 1 > j {
                        assert(lex_lt(og[j as int].0@, og[b - 1].0@));
                        lemma_lex_transitive(key, og[j as int].0@, og[b - 1].0@);
                    }
                    assert(og[b - 1].0@ != key);
                } else if a < j {
                    assert(groups@[a] == og[a] && groups@[b] == og[b - 1]);
                    assert(lex_lt(og[a].0@, key));
                    if b - 1 > j {
                        assert(lex_lt(og[j as int].0@, og[b - 1].0@));
                        lemma_lex_transitive(key, og[j as int].0@, og[b - 1].0@);
                    }
                    lemma_lex_transitive(og[a].0@, key, og[b - 1].0@);
                    if og[a].0@ == og[b - 1].0@ {
                        lemma_lex_antisymmetric(og[a].0@, key);
                    }
                } else {
                    assert(groups@[a] == og[a - 1] && groups@[b] == og[b - 1]);
                }
            }
            assert forall|p: int| 0 <= p < new_pairs.len() implies has_group(groups@, #[trigger] new_pairs[p].0) by {
                if p == pairs.len() {
                    assert(groups@[j as int].0@ == new_pairs[p].0);
                } else {
                    assert(new_pairs[p] == pairs[p]);
                    assert(has_group(og, pairs[p].0));
                    let i = choose|i: int| 0 <= i < og.len() && #[trigger] og[i].0@ == pairs[p].0;
                    if i < j {
                        assert(groups@[i] == og[i]);
                    } else {
                        assert(groups@[i + 1] == og[i]);
                    }
                }
            }
            assert forall|i: int| 0 <= i < groups@.len() implies #[trigger] views(groups@[i].1@) == rows_of(
                new_pairs,
                groups@[i].0@,
            ) && groups@[i].1@.len() > 0 by {
                if i < j {
                    assert(groups@[i] == og[i]);
                    assert(og[i].0@ != key);
                    assert(views(og[i].1@) == rows_of(pairs, og[i].0@));
                } else if i > j {
                    assert(groups@[i] == og[i - 1]);
                    assert(og[i - 1].0@ != key);
                    assert(views(og[i - 1].1@) == rows_of(pairs, og[i - 1].0@));
                } else {
                    assert(groups@[i].0@ == key);
                    assert(rows_of(new_pairs, key) == rows_of(pairs, key).push(rk@));
                }
            }
        }
    }
}

/// Groups the keys of a pasted array, or gives the first item error.
fn plan_items(items: &Vec<JsonValue>) -> (r: Result<(Vec<(String, Vec<String>)>, usize, usize), String>)
    requires
        items@.len() > 0,
    ensures
        match first_item_error(items@) {
            Some(e) => r is Err && r->Err_0@ == e,
            None => r is Ok && is_grouping(item_pairs(items@), r->Ok_0.0@) && r->Ok_0.1 == items@.len()
                && r->Ok_0.2 == r->Ok_0.0@.len(),
        },
{
    let mut groups: Vec<(String, Vec<String>)> = Vec::new();
    let mut total: usize = 0;
    let mut idx: usize = 0;
    while idx < items.len()
        invariant
            idx <= items.len(),
            total == idx,
            first_item_error(items@.take(idx as int)) is None,
            is_grouping(item_pairs(items@.take(idx as int)), groups@),
        decreases items.len() - idx,
    {
        proof {
            assert(items@.take(idx + 1).drop_last() =~= items@.take(idx as int));
            assert(items@.take(idx + 1).last() == items@[idx as int]);
        }
        let (pk, rk) = match check_item(&items[idx], idx) {
            Ok(keys) => keys,
            Err(e) => {
                proof {
                    lemma_error_sticks(items@, idx + 1);
                    assert(items@.take(items@.len() as int) =~= items@);
                }
                return Err(e);
            },
        };
        proof {
            assert(item_pairs(items@.take(idx + 1)) =~= item_pairs(items@.take(idx as int)).push(
                (pk@, rk@),
            ));
        }
        add_to_groups(&mut groups, pk, rk, Ghost(item_pairs(items@.take(idx as int))));
        idx = idx + 1;
        total = total + 1;
    }
    proof {
        assert(items@.take(idx as int) =~= items@);
    }
    let touched = groups.len();
    Ok((groups, total, touched))
}

/// What reading the JSON document `doc` as a delete request gives: for an
/// array of objects each with a non-empty string `PartitionKey` and `RowKey`,
/// the row keys grouped by partition (partitions in ascending key order, rows
/// in the order pasted), the number of rows, and the number of partitions;
/// otherwise the message for the first thing wrong with it.
pub open spec fn plan_matches(doc: JsonValue, r: Result<(Vec<(String, Vec<String>)>, usize, usize), String>) -> bool {
    match doc {
        JsonValue::Array(items) => if items@.len() == 0 {
            r is Err && r->Err_0@ == "Array is empty."@
        } else {
            match first_item_error(items@) {
                Some(e) => r is Err && r->Err_0@ == e,
                None => r is Ok && is_grouping(item_pairs(items@), r->Ok_0.0@) && r->Ok_0.1 == items@.len()
                    && r->Ok_0.2 == r->Ok_0.0@.len(),
            }
        },
        _ => r is Err && r->Err_0@ == "Top-level JSON must be an array."@,
    }
}

/// Reads a pasted JSON document as a delete request (see `plan_matches`).
pub fn paste_delete_plan(doc: &JsonValue) -> (r: Result<(Vec<(String, Vec<String>)>, usize, usize), String>)
    ensures
        plan_matches(*doc, r),
{
    match doc {
        JsonValue::Array(items) => {
            if items.len() == 0 {
                Err(String::from_str("Array is empty."))
            } else {
                plan_items(items)
            }
        },
        _ => Err(String::from_str("Top-level JSON must be an array.")),
    }
}

} // verus!

verus! {

/// Reads the text pasted into the paste-delete dialog: without its
/// surrounding white space it must not be empty, must parse as JSON, and the
/// document must be a delete request (see `plan_matches`).
pub fn parse_paste_delete_input(raw: &str) -> (r: Result<(Vec<(String, Vec<String>)>, usize, usize), String>)
    ensures
        trimmed(raw@).len() == 0 ==> r is Err && r->Err_0@ == empty_input_message(),
        trimmed(raw@).len() > 0 ==> match json_document(trimmed(raw@)) {
            Err(e) => r is Err && r->Err_0@ == "Invalid JSON: "@ + e,
            Ok(doc) => plan_matches(doc, r),
        },
{
    let text = match paste_input_text(raw) {
        Ok(t) => t,
        Err(e) => {
            return Err(e);
        },
    };
    match parse_json(text) {
        Ok(doc) => paste_delete_plan(&doc),
        Err(e) => {
            let mut m = String::from_str("Invalid JSON: ");
            m.append(e.as_str());
            Err(m)
        },
    }
}

} // verus!
