use vstd::prelude::*;
use crate::tally::{views, lemma_views_push, distinct_texts, position_of};

verus! {

/// The texts a list of distinct strings holds, as a set.
pub open spec fn key_set(v: Seq<String>) -> Set<Seq<char>> {
    views(v).to_set()
}

/// The strings of `v` are distinct texts.
pub open spec fn distinct_keys(v: Seq<String>) -> bool {
    distinct_texts(views(v))
}

/// `s` with `k` added when it lacks it and taken out when it has it.
pub open spec fn toggled(s: Set<Seq<char>>, k: Seq<char>) -> Set<Seq<char>> {
    if s.contains(k) {
        s.remove(k)
    } else {
        s.insert(k)
    }
}

/// Adds `k` to the set that `v` holds.
pub fn key_set_insert(v: &mut Vec<String>, k: String)
    requires
        distinct_keys(old(v)@),
    ensures
        distinct_keys(final(v)@),
        key_set(final(v)@) == key_set(old(v)@).insert(k@),
{
    match position_of(v, k.as_str()) {
        Some(i) => {
            proof {
                assert(views(v@)[i as int] == k@);
                assert(key_set(v@) =~= key_set(v@).insert(k@));
            }
        },
        None => {
            let ghost before = v@;
            let ghost kv = k@;
            v.push(k);
            proof {
                lemma_views_push(before, v@.last());
                assert forall|a: int, b: int| 0 <= a < b < views(v@).len() implies views(v@)[a]
                    != views(v@)[b] by {
                    if b == before.len() {
                        assert(views(v@)[a] == before[a]@);
                    } else {
                        assert(views(v@)[a] == views(before)[a]);
                        assert(views(v@)[b] == views(before)[b]);
                    }
                }
                assert forall|x: Seq<char>| key_set(v@).contains(x) <==> key_set(before).insert(kv).contains(
                    x,
                ) by {
                    if views(before).contains(x) {
                        let j = choose|j: int| 0 <= j < views(before).len() && views(before)[j] == x;
                        assert(views(v@)[j] == x);
                    }
                    if views(v@).contains(x) && x != kv {
                        let j = choose|j: int| 0 <= j < views(v@).len() && views(v@)[j] == x;
                        assert(j < before.len());
                        assert(views(before)[j] == x);
                    }
                    if x == kv {
                        assert(views(v@)[before.len() as int] == x);
                    }
                }
                assert(key_set(v@) =~= key_set(before).insert(kv));
            }
        },
    }
}

/// Takes `k` out of the set that `v` holds.
pub fn key_set_remove(v: &mut Vec<String>, k: &str)
    requires
        distinct_keys(old(v)@),
    ensures
        distinct_keys(final(v)@),
        key_set(final(v)@) == key_set(old(v)@).remove(k@),
{
    match position_of(v, k) {
        Some(i) => {
            let ghost before = v@;
            v.remove(i);
            proof {
                assert(views(v@) =~= views(before).remove(i as int));
                assert forall|x: Seq<char>| key_set(v@).contains(x) <==> key_set(before).remove(
                    k@,
                ).contains(x) by {
                    if views(v@).contains(x) {
                        let j = choose|j: int| 0 <= j < views(v@).len() && views(v@)[j] == x;
                        if j < i {
                            assert(views(before)[j] == x);
                            assert(views(before)[j] != views(before)[i as int]);
                        } else {
                            assert(views(before)[j + 1] == x);
                            assert(views(before)[j + 1] != views(before)[i as int]);
                        }
                    }
                    if views(before).contains(x) && x != k@ {
                        let j = choose|j: int| 0 <= j < views(before).len() && views(before)[j] == x;
                        assert(j != i);
                        if j < i {
                            assert(views(v@)[j] == x);
                        } else {
                            assert(views(v@)[j - 1] == x);
                        }
                    }
                }
                assert(key_set(v@) =~= key_set(before).remove(k@));
            }
        },
        None => {
            proof {
                assert(!views(v@).contains(k@));
                assert(key_set(v@) =~= key_set(v@).remove(k@));
            }
        },
    }
}

/// Whether the set that `v` holds has `k`.
pub fn key_set_contains(v: &Vec<String>, k: &str) -> (r: bool)
    ensures
        r == key_set(v@).contains(k@),
{
    crate::tally::contains_str(v, k)
}

/// Adds `k` to the set that `v` holds when it lacks it, and takes it out
/// when it has it.
pub fn key_set_toggle(v: &mut Vec<String>, k: String)
    requires
        distinct_keys(old(v)@),
    ensures
        distinct_keys(final(v)@),
        key_set(final(v)@) == toggled(key_set(old(v)@), k@),
{
    if key_set_contains(v, k.as_str()) {
        key_set_remove(v, k.as_str());
    } else {
        key_set_insert(v, k);
    }
}

/// Toggling the same key twice gives back the set it started from.
pub proof fn lemma_toggle_twice(s: Set<Seq<char>>, k: Seq<char>)
    ensures
        toggled(toggled(s, k), k) == s,
{
    assert(toggled(toggled(s, k), k) =~= s);
}

} // verus!
