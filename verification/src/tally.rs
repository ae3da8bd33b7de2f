use vstd::prelude::*;

verus! {

/// The texts of a list of strings.
pub open spec fn views(s: Seq<String>) -> Seq<Seq<char>> {
    s.map_values(|x: String| x@)
}

pub proof fn lemma_views_push(s: Seq<String>, x: String)
    ensures
        views(s.push(x)) == views(s).push(x@),
{
    assert(views(s.push(x)) =~= views(s).push(x@));
}

/// A prefix one item longer is the shorter prefix with that item pushed.
pub proof fn lemma_prefix_push<T>(s: Seq<T>, i: int)
    requires
        0 <= i < s.len(),
    ensures
        s.subrange(0, i + 1) == s.subrange(0, i).push(s[i]),
{
    assert(s.subrange(0, i + 1) =~= s.subrange(0, i).push(s[i]));
}

/// How many times `x` occurs in `s`.
pub open spec fn occurrences(s: Seq<Seq<char>>, x: Seq<char>) -> nat
    decreases s.len(),
{
    if s.len() == 0 {
        0
    } else {
        occurrences(s.drop_last(), x) + (if s.last() == x { 1nat } else { 0nat })
    }
}

pub proof fn lemma_occurrences_le(s: Seq<Seq<char>>, x: Seq<char>)
    ensures
        occurrences(s, x) <= s.len(),
    decreases s.len(),
{
    if s.len() > 0 {
        lemma_occurrences_le(s.drop_last(), x);
    }
}

pub proof fn lemma_occurrences_contains(s: Seq<Seq<char>>, x: Seq<char>)
    ensures
        occurrences(s, x) > 0 <==> s.contains(x),
    decreases s.len(),
{
    if s.len() > 0 {
        lemma_occurrences_contains(s.drop_last(), x);
        if s.drop_last().contains(x) {
            let i = choose|i: int| 0 <= i < s.drop_last().len() && s.drop_last()[i] == x;
            assert(s[i] == x);
        }
        if s.contains(x) && s.last() != x {
            let i = choose|i: int| 0 <= i < s.len() && s[i] == x;
            assert(s.drop_last()[i] == x);
        }
    }
}

/// The first position of a string with the text `x` in `v`.
pub fn position_of(v: &Vec<String>, x: &str) -> (r: Option<usize>)
    ensures
        match r {
            Some(i) => i < v.len() && v@[i as int]@ == x@ && forall|j: int|
                0 <= j < i ==> #[trigger] v@[j]@ != x@,
            None => forall|j: int| 0 <= j < v.len() ==> #[trigger] v@[j]@ != x@,
        },
{
    let target = x.to_owned();
    let mut i: usize = 0;
    while i < v.len()
        invariant
            target@ == x@,
            i <= v.len(),
            forall|j: int| 0 <= j < i ==> #[trigger] v@[j]@ != x@,
        decreases v.len() - i,
    {
        if v[i] == target {
            return Some(i);
        }
        i = i + 1;
    }
    None
}

/// Whether `v` holds a string with the text `x`.
pub fn contains_str(v: &Vec<String>, x: &str) -> (r: bool)
    ensures
        r == views(v@).contains(x@),
{
    match position_of(v, x) {
        Some(i) => {
            proof {
                assert(views(v@)[i as int] == x@);
            }
            true
        },
        None => {
            proof {
                if views(v@).contains(x@) {
                    let j = choose|j: int| 0 <= j < views(v@).len() && views(v@)[j] == x@;
                    assert(v@[j]@ == x@);
                }
            }
            false
        },
    }
}

/// `keys` are distinct texts.
pub open spec fn distinct_texts(keys: Seq<Seq<char>>) -> bool {
    forall|i: int, j: int| 0 <= i < j < keys.len() ==> keys[i] != keys[j]
}

/// `keys` and `counts` tally `items`: each distinct item once, beside the
/// number of times it occurs.
pub open spec fn is_tally(items: Seq<Seq<char>>, keys: Seq<Seq<char>>, counts: Seq<usize>) -> bool {
    &&& keys.len() == counts.len()
    &&& distinct_texts(keys)
    &&& forall|i: int| 0 <= i < keys.len() ==> #[trigger] counts[i] == occurrences(items, keys[i])
    &&& forall|x: Seq<char>| items.contains(x) <==> keys.contains(x)
}

/// Counts how often each distinct text occurs in `items`, listing the texts
/// in the order they first occur.
pub fn tally(items: &Vec<String>) -> (r: (Vec<String>, Vec<usize>))
    ensures
        is_tally(views(items@), views(r.0@), r.1@),
{
    let mut keys: Vec<String> = Vec::new();
    let mut counts: Vec<usize> = Vec::new();
    let mut i: usize = 0;
    while i < items.len()
        invariant
            i <= items.len(),
            is_tally(views(items@.subrange(0, i as int)), views(keys@), counts@),
        decreases items.len() - i,
    {
        let ghost prev = views(items@.subrange(0, i as int));
        let ghost next = views(items@.subrange(0, i + 1));
        proof {
            assert(next.drop_last() =~= prev);
            assert(next.last() == items@[i as int]@);
            assert forall|x: Seq<char>| #![auto] next.contains(x) <==> (prev.contains(x) || x
                == items@[i as int]@) by {
                if next.contains(x) {
                    let j = choose|j: int| 0 <= j < next.len() && next[j] == x;
                    if j < prev.len() {
                        assert(prev[j] == x);
                    }
                }
                if prev.contains(x) {
                    let j = choose|j: int| 0 <= j < prev.len() && prev[j] == x;
                    assert(next[j] == x);
                }
                if x == items@[i as int]@ {
                    assert(next[i as int] == x);
                }
            }
        }
        let ghost old_keys = views(keys@);
        let ghost old_counts = counts@;
        match position_of(&keys, items[i].as_str()) {
            Some(p) => {
                proof {
                    lemma_occurrences_le(prev, old_keys[p as int]);
                    lemma_occurrences_le(prev, items@[i as int]@);
                }
                let c = counts[p];
                counts.set(p, c + 1);
                proof {
                    assert forall|k: int| 0 <= k < keys.len() implies #[trigger] counts@[k]
                        == occurrences(next, views(keys@)[k]) by {
                        assert(views(keys@)[k] == keys@[k]@);
                        if k != p {
                            assert(keys@[k]@ != keys@[p as int]@);
                        }
                    }
                    assert forall|x: Seq<char>| next.contains(x) <==> views(keys@).contains(x) by {
                        if x == items@[i as int]@ {
                            assert(views(keys@)[p as int] == x);
                        }
                    }
                }
            },
            None => {
                proof {
                    assert(!old_keys.contains(items@[i as int]@)) by {
                        if old_keys.contains(items@[i as int]@) {
                            let j = choose|j: int|
                                0 <= j < old_keys.len() && old_keys[j] == items@[i as int]@;
                            assert(keys@[j]@ == items@[i as int]@);
                        }
                    }
                    assert(!prev.contains(items@[i as int]@));
                    lemma_occurrences_contains(prev, items@[i as int]@);
                }
                keys.push(items[i].clone());
                counts.push(1);
                proof {
                    assert(views(keys@) =~= old_keys.push(items@[i as int]@));
                    assert forall|k: int| 0 <= k < keys.len() implies #[trigger] counts@[k]
                        == occurrences(next, views(keys@)[k]) by {
                        if k < old_keys.len() {
                            assert(old_keys[k] != items@[i as int]@);
                        }
                    }
                    assert forall|x: Seq<char>| next.contains(x) <==> views(keys@).contains(x) by {
                        if views(keys@).contains(x) {
                            let j = choose|j: int| 0 <= j < views(keys@).len() && views(keys@)[j] == x;
                            if j < old_keys.len() {
                                assert(old_keys[j] == x);
                            }
                        }
                        if old_keys.contains(x) {
                            let j = choose|j: int| 0 <= j < old_keys.len() && old_keys[j] == x;
                            assert(views(keys@)[j] == x);
                        }
                        if x == items@[i as int]@ {
                            assert(views(keys@)[old_keys.len() as int] == x);
                        }
                    }
                }
            },
        }
        i = i + 1;
    }
    proof {
        assert(items@.subrange(0, items@.len() as int) =~= items@);
    }
    (keys, counts)
}

/// Appends clones of the strings of `src` to `out`.
pub fn append_strings(out: &mut Vec<String>, src: &Vec<String>)
    ensures
        views(final(out)@) == views(old(out)@) + views(src@),
{
    let ghost start = views(out@);
    let mut i: usize = 0;
    while i < src.len()
        invariant
            i <= src.len(),
            views(out@) == start + views(src@).take(i as int),
        decreases src.len() - i,
    {
        let ghost before = out@;
        out.push(src[i].clone());
        proof {
            lemma_views_push(before, src@[i as int]);
            assert(views(src@).take(i + 1) =~= views(src@).take(i as int).push(src@[i as int]@));
            assert(start + views(src@).take(i + 1) =~= (start + views(src@).take(i as int)).push(
                src@[i as int]@,
            ));
        }
        i = i + 1;
    }
    proof {
        assert(views(src@).take(src@.len() as int) =~= views(src@));
    }
}

/// A tally's keys list each distinct item once, so there are as many keys
/// as distinct items.
pub proof fn lemma_tally_len(items: Seq<Seq<char>>, keys: Seq<Seq<char>>, counts: Seq<usize>)
    requires
        is_tally(items, keys, counts),
    ensures
        keys.len() == items.to_set().len(),
{
    assert(keys.no_duplicates());
    keys.unique_seq_to_set();
    assert(keys.to_set() =~= items.to_set());
}

} // verus!
