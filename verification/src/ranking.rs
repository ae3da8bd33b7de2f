use vstd::prelude::*;

use crate::order::{lemma_lex_antisymmetric, lemma_lex_total, lemma_lex_transitive, lex_lt, str_le};
use crate::tally::{distinct_texts, views};

verus! {

/// Entry `i` ranks above entry `j`: a larger count, and for equal counts the
/// name that sorts first (`by_name`) or the entry listed first.
pub open spec fn outranks(
    keys: Seq<Seq<char>>,
    counts: Seq<usize>,
    by_name: bool,
    i: int,
    j: int,
) -> bool {
    counts[i] > counts[j] || (counts[i] == counts[j] && (if by_name {
        lex_lt(keys[i], keys[j])
    } else {
        i < j
    }))
}

proof fn lemma_outranks_transitive(
    keys: Seq<Seq<char>>,
    counts: Seq<usize>,
    by_name: bool,
    i: int,
    j: int,
    k: int,
)
    requires
        outranks(keys, counts, by_name, i, j),
        outranks(keys, counts, by_name, j, k),
    ensures
        outranks(keys, counts, by_name, i, k),
{
    if by_name && counts[i] == counts[j] && counts[j] == counts[k] {
        lemma_lex_transitive(keys[i], keys[j], keys[k]);
        if keys[i] == keys[k] {
            lemma_lex_antisymmetric(keys[i], keys[j]);
        }
    }
}

proof fn lemma_outranks_total(
    keys: Seq<Seq<char>>,
    counts: Seq<usize>,
    by_name: bool,
    i: int,
    j: int,
)
    requires
        i != j,
        0 <= i < keys.len(),
        0 <= j < keys.len(),
        by_name ==> distinct_texts(keys),
    ensures
        outranks(keys, counts, by_name, i, j) || outranks(keys, counts, by_name, j, i),
{
    if by_name {
        lemma_lex_total(keys[i], keys[j]);
        if i < j {
            assert(keys[i] != keys[j]);
        } else {
            assert(keys[j] != keys[i]);
        }
    }
}

/// How many flags are set.
pub open spec fn count_taken(s: Seq<bool>) -> nat
    decreases s.len(),
{
    if s.len() == 0 {
        0
    } else {
        count_taken(s.drop_last()) + (if s.last() { 1nat } else { 0nat })
    }
}

proof fn lemma_count_taken_all(s: Seq<bool>)
    requires
        forall|k: int| 0 <= k < s.len() ==> #[trigger] s[k],
    ensures
        count_taken(s) == s.len(),
    decreases s.len(),
{
    if s.len() > 0 {
        lemma_count_taken_all(s.drop_last());
    }
}

proof fn lemma_count_taken_update(s: Seq<bool>, i: int)
    requires
        0 <= i < s.len(),
        !s[i],
    ensures
        count_taken(s.update(i, true)) == count_taken(s) + 1,
    decreases s.len(),
{
    if i < s.len() - 1 {
        lemma_count_taken_update(s.drop_last(), i);
        assert(s.update(i, true).drop_last() =~= s.drop_last().update(i, true));
    } else {
        assert(s.update(i, true).drop_last() =~= s.drop_last());
    }
}

proof fn lemma_count_taken_false(n: nat)
    ensures
        count_taken(Seq::new(n, |k: int| false)) == 0,
    decreases n,
{
    if n > 0 {
        assert(Seq::new(n, |k: int| false).drop_last() =~= Seq::new((n - 1) as nat, |k: int| false));
        lemma_count_taken_false((n - 1) as nat);
    }
}

/// `order` lists distinct positions of `0 .. n`, each ranking above every
/// later one and above every position it leaves out.
pub open spec fn is_ranking(
    keys: Seq<Seq<char>>,
    counts: Seq<usize>,
    by_name: bool,
    n: int,
    order: Seq<usize>,
) -> bool {
    &&& forall|p: int| 0 <= p < order.len() ==> #[trigger] order[p] < n
    &&& forall|p: int, q: int| 0 <= p < q < order.len() ==> order[p] != order[q]
    &&& forall|p: int, q: int|
        0 <= p < q < order.len() ==> outranks(keys, counts, by_name, #[trigger] order[p] as int, #[trigger] order[q] as int)
    &&& forall|p: int, j: int|
        0 <= p < order.len() && 0 <= j < n && !order.contains(j as usize) ==> #[trigger] outranks(
            keys,
            counts,
            by_name,
            order[p] as int,
            j,
        )
}

fn outranks_exec(keys: &Vec<String>, counts: &Vec<usize>, by_name: bool, i: usize, j: usize) -> (r:
    bool)
    requires
        i < keys.len(),
        j < keys.len(),
        keys.len() == counts.len(),
    ensures
        r == outranks(views(keys@), counts@, by_name, i as int, j as int),
{
    if counts[i] != counts[j] {
        return counts[i] > counts[j];
    }
    if by_name {
        if keys[i] == keys[j] {
            return false;
        }
        str_le(keys[i].as_str(), keys[j].as_str())
    } else {
        i < j
    }
}

/// The positions of the `limit` best-ranked entries (all of them when there
/// are fewer), best first: a selection sort cut short.
pub fn rank(keys: &Vec<String>, counts: &Vec<usize>, by_name: bool, limit: usize) -> (order: Vec<
    usize,
>)
    requires
        keys.len() == counts.len(),
        by_name ==> distinct_texts(views(keys@)),
    ensures
        order.len() == (if limit < keys.len() { limit as int } else { keys.len() as int }),
        is_ranking(views(keys@), counts@, by_name, keys.len() as int, order@),
{
    let n = keys.len();
    let ghost ks = views(keys@);
    let mut taken: Vec<bool> = Vec::new();
    let mut t: usize = 0;
    while t < n
        invariant
            t <= n,
            taken.len() == t,
            forall|j: int| 0 <= j < t ==> !#[trigger] taken@[j],
        decreases n - t,
    {
        taken.push(false);
        t = t + 1;
    }
    proof {
        assert(taken@ =~= Seq::new(n as nat, |k: int| false));
        lemma_count_taken_false(n as nat);
    }
    let mut order: Vec<usize> = Vec::new();
    while order.len() < limit && order.len() < n
        invariant
            n == keys.len(),
            n == counts.len(),
            ks == views(keys@),
            by_name ==> distinct_texts(ks),
            taken.len() == n,
            order.len() <= n,
            order.len() <= limit,
            forall|j: int| 0 <= j < n ==> (#[trigger] taken@[j] <==> order@.contains(j as usize)),
            count_taken(taken@) == order.len(),
            is_ranking(ks, counts@, by_name, n as int, order@),
        decreases n - order.len(),
    {
        // some position is still free: the taken ones are exactly `order`
        let mut best: usize = n;
        let mut j: usize = 0;
        while j < n
            invariant
                n == keys.len(),
                n == counts.len(),
                ks == views(keys@),
                by_name ==> distinct_texts(ks),
                taken.len() == n,
                order.len() < n,
                order.len() < limit,
                forall|j: int| 0 <= j < n ==> (#[trigger] taken@[j] <==> order@.contains(j as usize)),
                count_taken(taken@) == order.len(),
                is_ranking(ks, counts@, by_name, n as int, order@),
                j <= n,
                best == n || (best < j && !taken@[best as int]),
                best == n ==> forall|k: int| 0 <= k < j ==> #[trigger] taken@[k],
                best < n ==> forall|k: int|
                    0 <= k < j && !#[trigger] taken@[k] && k != best ==> outranks(
                        ks,
                        counts@,
                        by_name,
                        best as int,
                        k,
                    ),
            decreases n - j,
        {
            if !taken[j] {
                if best == n || outranks_exec(keys, counts, by_name, j, best) {
                    proof {
                        if best < n {
                            assert forall|k: int|
                                0 <= k < j + 1 && !#[trigger] taken@[k] && k != j implies outranks(
                                ks,
                                counts@,
                                by_name,
                                j as int,
                                k,
                            ) by {
                                if k != best {
                                    lemma_outranks_transitive(
                                        ks,
                                        counts@,
                                        by_name,
                                        j as int,
                                        best as int,
                                        k,
                                    );
                                }
                            }
                        }
                    }
                    best = j;
                } else {
                    proof {
                        lemma_outranks_total(ks, counts@, by_name, j as int, best as int);
                    }
                }
            }
            j = j + 1;
        }
        proof {
            if best == n {
                lemma_count_taken_all(taken@);
            }
            lemma_count_taken_update(taken@, best as int);
        }
        let ghost old_order = order@;
        order.push(best);
        taken.set(best, true);
        proof {
            assert forall|p: int| 0 <= p < old_order.len() implies #[trigger] old_order[p]
                != best by {
                assert(old_order.contains(old_order[p]));
            }
            assert forall|j2: int| 0 <= j2 < n implies (#[trigger] taken@[j2] <==> order@.contains(
                j2 as usize,
            )) by {
                if j2 == best {
                    assert(order@[old_order.len() as int] == best);
                }
                if order@.contains(j2 as usize) && j2 != best {
                    let p = choose|p: int| 0 <= p < order@.len() && order@[p] == j2 as usize;
                    assert(old_order[p] == j2 as usize);
                }
                if old_order.contains(j2 as usize) {
                    let p = choose|p: int| 0 <= p < old_order.len() && old_order[p] == j2 as usize;
                    assert(order@[p] == j2 as usize);
                }
            }
            assert forall|p: int, j2: int|
                0 <= p < order@.len() && 0 <= j2 < n && !order@.contains(
                    j2 as usize,
                ) implies #[trigger] outranks(ks, counts@, by_name, order@[p] as int, j2) by {
                if p < old_order.len() {
                    assert(old_order[p] == order@[p]);
                    if old_order.contains(j2 as usize) {
                        let q = choose|q: int| 0 <= q < old_order.len() && old_order[q] == j2 as usize;
                        assert(order@[q] == j2 as usize);
                    }
                } else {
                    assert(!taken@[j2]);
                }
            }
            assert forall|p: int, q: int| 0 <= p < q < order@.len() implies outranks(
                ks,
                counts@,
                by_name,
                #[trigger] order@[p] as int,
                #[trigger] order@[q] as int,
            ) by {
                if q == old_order.len() {
                    assert(!old_order.contains(best));
                    assert(old_order[p] == order@[p]);
                } else {
                    assert(old_order[p] == order@[p]);
                    assert(old_order[q] == order@[q]);
                }
            }
        }
    }
    order
}

} // verus!
