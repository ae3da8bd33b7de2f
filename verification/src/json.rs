use vstd::prelude::*;
use crate::routes::opt_view;
use crate::export::{json_string, to_json_string};

verus! {

/// A JSON document, as the server sends rows and as the paste-delete dialog
/// reads its input. A number keeps the text it was written with; an object
/// keeps its entries in the order it lists them.
#[derive(Debug)]
pub enum JsonValue {
    Null,
    Bool(bool),
    Number(String),
    Str(String),
    Array(Vec<JsonValue>),
    Object(Vec<(String, JsonValue)>),
}

/// Entry of a table row that holds its partition key.
pub const PARTITION_KEY: &'static str = "PartitionKey";

/// Entry of a table row that holds its row key.
pub const ROW_KEY: &'static str = "RowKey";

/// Entry of a table row that holds the time of its last write.
pub const TIME_STAMP: &'static str = "TimeStamp";

/// The value of the first entry named `key`.
pub open spec fn entry_value(entries: Seq<(String, JsonValue)>, key: Seq<char>) -> Option<JsonValue>
    decreases entries.len(),
{
    if entries.len() == 0 {
        None
    } else if entries[0].0@ == key {
        Some(entries[0].1)
    } else {
        entry_value(entries.drop_first(), key)
    }
}

/// The text stored under `key`, when `v` is an object whose entry `key` is a
/// string.
pub open spec fn string_field(v: JsonValue, key: Seq<char>) -> Option<Seq<char>> {
    match v {
        JsonValue::Object(entries) => match entry_value(entries@, key) {
            Some(JsonValue::Str(s)) => Some(s@),
            _ => None,
        },
        _ => None,
    }
}

/// The names of an object's entries, in order; nothing for any other value.
pub open spec fn object_keys(v: JsonValue) -> Seq<Seq<char>> {
    match v {
        JsonValue::Object(entries) => entries@.map_values(|e: (String, JsonValue)| e.0@),
        _ => Seq::empty(),
    }
}

/// Index of the first entry named `key`, if any.
fn find_entry(entries: &Vec<(String, JsonValue)>, key: &str) -> (r: Option<usize>)
    ensures
        match r {
            Some(i) => i < entries.len() && entry_value(entries@, key@) == Some(entries@[i as int].1),
            None => entry_value(entries@, key@) is None,
        },
{
    let target = key.to_owned();
    let n = entries.len();
    let mut i: usize = 0;
    proof {
        assert(entries@.subrange(0, n as int) =~= entries@);
    }
    while i < n
        invariant
            n == entries.len(),
            i <= n,
            target@ == key@,
            entry_value(entries@, key@) == entry_value(entries@.subrange(i as int, n as int), key@),
        decreases n - i,
    {
        let ghost rest = entries@.subrange(i as int, n as int);
        proof {
            assert(rest.drop_first() =~= entries@.subrange(i + 1, n as int));
            assert(rest[0] == entries@[i as int]);
        }
        if entries[i].0 == target {
            return Some(i);
        }
        i = i + 1;
    }
    None
}

/// The text stored under `key`, when `v` is an object whose entry `key` is a
/// string.
pub fn get_string_field(v: &JsonValue, key: &str) -> (r: Option<String>)
    ensures
        opt_view(r) == string_field(*v, key@),
{
    match v {
        JsonValue::Object(entries) => match find_entry(entries, key) {
            Some(i) => match &entries[i].1 {
                JsonValue::Str(s) => Some(s.clone()),
                _ => None,
            },
            None => None,
        },
        _ => None,
    }
}

/// The names of an object's entries, in order; nothing for any other value.
pub fn keys_of(v: &JsonValue) -> (r: Vec<String>)
    ensures
        r@.map_values(|s: String| s@) == object_keys(*v),
{
    let mut out: Vec<String> = Vec::new();
    match v {
        JsonValue::Object(entries) => {
            let mut i: usize = 0;
            while i < entries.len()
                invariant
                    i <= entries.len(),
                    out@.map_values(|s: String| s@) =~= entries@.subrange(0, i as int).map_values(
                        |e: (String, JsonValue)| e.0@,
                    ),
                decreases entries.len() - i,
            {
                let ghost before = out@;
                out.push(entries[i].0.clone());
                proof {
                    assert(out@ == before.push(entries@[i as int].0));
                    assert(entries@.subrange(0, i + 1) =~= entries@.subrange(0, i as int).push(
                        entries@[i as int],
                    ));
                    assert(out@.map_values(|s: String| s@) =~= before.map_values(|s: String| s@).push(
                        entries@[i as int].0@,
                    ));
                    assert(entries@.subrange(0, i + 1).map_values(|e: (String, JsonValue)| e.0@)
                        =~= entries@.subrange(0, i as int).map_values(|e: (String, JsonValue)| e.0@).push(
                        entries@[i as int].0@,
                    ));
                }
                i = i + 1;
            }
            proof {
                assert(entries@.subrange(0, i as int) =~= entries@);
            }
        },
        _ => {},
    }
    out
}

/// `serde_json::Value`, carried through opaque.
#[verifier::external_type_specification]
#[verifier::external_body]
pub struct ExJsonValue(serde_json::Value);

/// What `serde_json::from_str` makes of a text read as a JSON document: the
/// document (numbers by the text serde_json writes for them, object entries
/// in the order of serde_json's map), or the text of the error.
pub uninterp spec fn json_document(s: Seq<char>) -> Result<JsonValue, Seq<char>>;

/// Calls `serde_json::from_str` into a `serde_json::Value`. The contract
/// claims that the result, converted variant by variant into a `JsonValue`,
/// or the error's text, is the one named `json_document` for the text; what
/// serde_json accepts as JSON is left unsaid.
#[verifier::external_body]
pub(crate) fn parse_json(s: &str) -> (r: Result<JsonValue, String>)
    ensures
        match json_document(s@) {
            Ok(v) => r is Ok && r->Ok_0 == v,
            Err(e) => r is Err && r->Err_0@ == e,
        },
{
    match serde_json::from_str::<serde_json::Value>(s) {
        Ok(v) => Ok(json_of_value(&v)),
        Err(e) => Err(e.to_string()),
    }
}

/// Converts a `serde_json::Value` into a `JsonValue`, one variant into the
/// same variant; numbers keep the text serde_json writes for them.
#[verifier::external_body]
fn json_of_value(v: &serde_json::Value) -> JsonValue {
    match v {
        serde_json::Value::Null => JsonValue::Null,
        serde_json::Value::Bool(b) => JsonValue::Bool(*b),
        serde_json::Value::Number(n) => JsonValue::Number(n.to_string()),
        serde_json::Value::String(t) => JsonValue::Str(t.clone()),
        serde_json::Value::Array(a) => JsonValue::Array(a.iter().map(json_of_value).collect()),
        serde_json::Value::Object(m) => JsonValue::Object(m.iter().map(|(k, x)| (k.clone(), json_of_value(x))).collect()),
    }
}

/// The compact JSON text of a value, as serde_json writes it: no spaces,
/// strings quoted and escaped, numbers as their text, array items and object
/// entries in their order, separated by commas.
pub open spec fn json_text(v: JsonValue) -> Seq<char>
    decreases v,
{
    match v {
        JsonValue::Null => seq!['n', 'u', 'l', 'l'],
        JsonValue::Bool(b) => if b {
            seq!['t', 'r', 'u', 'e']
        } else {
            seq!['f', 'a', 'l', 's', 'e']
        },
        JsonValue::Number(t) => t@,
        JsonValue::Str(t) => json_string(t@),
        JsonValue::Array(items) => seq!['['] + items_text(items@) + seq![']'],
        JsonValue::Object(entries) => seq!['{'] + entries_text(entries@) + seq!['}'],
    }
}

/// The texts of array items, separated by commas.
pub open spec fn items_text(items: Seq<JsonValue>) -> Seq<char>
    decreases items,
{
    if items.len() == 0 {
        Seq::empty()
    } else if items.len() == 1 {
        json_text(items[0])
    } else {
        items_text(items.subrange(0, items.len() - 1)) + seq![','] + json_text(items[items.len() - 1])
    }
}

/// The texts of object entries, `"name":value`, separated by commas.
pub open spec fn entries_text(entries: Seq<(String, JsonValue)>) -> Seq<char>
    decreases entries,
{
    if entries.len() == 0 {
        Seq::empty()
    } else if entries.len() == 1 {
        json_string(entries[0].0@) + seq![':'] + json_text(entries[0].1)
    } else {
        entries_text(entries.subrange(0, entries.len() - 1)) + seq![','] + json_string(
            entries[entries.len() - 1].0@,
        ) + seq![':'] + json_text(entries[entries.len() - 1].1)
    }
}

/// Writes a value as compact JSON.
pub fn compact_json(v: &JsonValue) -> (r: String)
    ensures
        r@ == json_text(*v),
    decreases v,
{
    match v {
        JsonValue::Null => {
            proof {
                reveal_strlit("null");
            }
            String::from_str("null")
        },
        JsonValue::Bool(b) => {
            proof {
                reveal_strlit("true");
                reveal_strlit("false");
            }
            if *b {
                String::from_str("true")
            } else {
                String::from_str("false")
            }
        },
        JsonValue::Number(t) => t.clone(),
        JsonValue::Str(t) => quoted(t),
        JsonValue::Array(items) => {
            proof {
                reveal_strlit("[");
                reveal_strlit(",");
                reveal_strlit("]");
            }
            let mut out = String::from_str("[");
            let mut i: usize = 0;
            while i < items.len()
                invariant
                    i <= items.len(),
                    out@ == seq!['['] + items_text(items@.subrange(0, i as int)),
                    *v == JsonValue::Array(*items),
                decreases items.len() - i,
            {
                assert(decreases_to!(*v => items@[i as int])) by {
                    assert(decreases_to!(*v => v->Array_0));
                    assert(decreases_to!(*items => items@));
                    assert(decreases_to!(items@ => items@[i as int]));
                }
                let part = compact_json(&items[i]);
                let ghost before = out@;
                if i > 0 {
                    out.append(",");
                }
                out.append(part.as_str());
                proof {
                    reveal_strlit(",");
                    let next = items@.subrange(0, i + 1);
                    assert(next.subrange(0, i as int) =~= items@.subrange(0, i as int));
                    assert(next[i as int] == items@[i as int]);
                    if i == 0 {
                        assert(items@.subrange(0, 0) =~= Seq::<JsonValue>::empty());
                        assert(before =~= seq!['[']);
                        assert(out@ =~= seq!['['] + part@);
                        assert(items_text(next) == json_text(items@[0]));
                    } else {
                        assert(out@ =~= before + seq![','] + part@);
                        assert(items_text(next) == items_text(items@.subrange(0, i as int)) + seq![',']
                            + json_text(items@[i as int]));
                    }
                    assert(out@ =~= seq!['['] + items_text(next));
                }
                i = i + 1;
            }
            proof {
                assert(items@.subrange(0, i as int) =~= items@);
            }
            out.append("]");
            out
        },
        JsonValue::Object(entries) => {
            proof {
                reveal_strlit("{");
                reveal_strlit(",");
                reveal_strlit(":");
                reveal_strlit("}");
            }
            let mut out = String::from_str("{");
            let mut i: usize = 0;
            while i < entries.len()
                invariant
                    i <= entries.len(),
                    out@ == seq!['{'] + entries_text(entries@.subrange(0, i as int)),
                    *v == JsonValue::Object(*entries),
                decreases entries.len() - i,
            {
                assert(decreases_to!(*v => entries@[i as int].1)) by {
                    assert(decreases_to!(*v => v->Object_0));
                    assert(decreases_to!(*entries => entries@));
                    assert(decreases_to!(entries@ => entries@[i as int]));
                    assert(decreases_to!(entries@[i as int] => entries@[i as int].1));
                }
                let name = quoted(&entries[i].0);
                let part = compact_json(&entries[i].1);
                let ghost before = out@;
                if i > 0 {
                    out.append(",");
                }
                out.append(name.as_str());
                out.append(":");
                out.append(part.as_str());
                proof {
                    reveal_strlit(",");
                    reveal_strlit(":");
                    let next = entries@.subrange(0, i + 1);
                    assert(next.subrange(0, i as int) =~= entries@.subrange(0, i as int));
                    assert(next[i as int] == entries@[i as int]);
                    let e = entries@[i as int];
                    if i == 0 {
                        assert(entries@.subrange(0, 0) =~= Seq::<(String, JsonValue)>::empty());
                        assert(before =~= seq!['{']);
                        assert(out@ =~= seq!['{'] + name@ + seq![':'] + part@);
                        assert(entries_text(next) == json_string(e.0@) + seq![':'] + json_text(e.1));
                    } else {
                        assert(out@ =~= before + seq![','] + name@ + seq![':'] + part@);
                        assert(entries_text(next) == entries_text(entries@.subrange(0, i as int)) + seq![
                            ',',
                        ] + json_string(e.0@) + seq![':'] + json_text(e.1));
                    }
                    assert(out@ =~= seq!['{'] + entries_text(next));
                }
                i = i + 1;
            }
            proof {
                assert(entries@.subrange(0, i as int) =~= entries@);
            }
            out.append("}");
            out
        },
    }
}

/// A text as a JSON string literal.
fn quoted(t: &String) -> (r: String)
    ensures
        r@ == json_string(t@),
{
    match to_json_string(t.as_str()) {
        Ok(q) => q,
        Err(_) => String::new(),
    }
}

} // verus!
