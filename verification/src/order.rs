use vstd::prelude::*;

use crate::text::chars_of;

verus! {

/// `a` comes no later than `b` in lexicographic order of characters (the
/// order `str`'s `Ord` uses, since UTF-8 preserves code point order).
pub open spec fn lex_le(a: Seq<char>, b: Seq<char>) -> bool
    decreases a.len(),
{
    if a.len() == 0 {
        true
    } else if b.len() == 0 {
        false
    } else if a[0] < b[0] {
        true
    } else if a[0] > b[0] {
        false
    } else {
        lex_le(a.drop_first(), b.drop_first())
    }
}

/// `a` comes strictly before `b`.
pub open spec fn lex_lt(a: Seq<char>, b: Seq<char>) -> bool {
    lex_le(a, b) && a != b
}

pub proof fn lemma_lex_total(a: Seq<char>, b: Seq<char>)
    ensures
        lex_le(a, b) || lex_le(b, a),
    decreases a.len(),
{
    if a.len() > 0 && b.len() > 0 && a[0] == b[0] {
        lemma_lex_total(a.drop_first(), b.drop_first());
    }
}

pub proof fn lemma_lex_antisymmetric(a: Seq<char>, b: Seq<char>)
    requires
        lex_le(a, b),
        lex_le(b, a),
    ensures
        a == b,
    decreases a.len(),
{
    if a.len() == 0 {
        assert(b.len() == 0);
        assert(a =~= b);
    } else {
        assert(a[0] == b[0]);
        lemma_lex_antisymmetric(a.drop_first(), b.drop_first());
        assert(a =~= seq![a[0]] + a.drop_first());
        assert(b =~= seq![b[0]] + b.drop_first());
    }
}

pub proof fn lemma_lex_transitive(a: Seq<char>, b: Seq<char>, c: Seq<char>)
    requires
        lex_le(a, b),
        lex_le(b, c),
    ensures
        lex_le(a, c),
    decreases a.len(),
{
    if a.len() > 0 && b.len() > 0 && c.len() > 0 && a[0] == b[0] && b[0] == c[0] {
        lemma_lex_transitive(a.drop_first(), b.drop_first(), c.drop_first());
    }
}

pub proof fn lemma_lex_reflexive(a: Seq<char>)
    ensures
        lex_le(a, a),
{
    lemma_lex_total(a, a);
}

/// Compares two character sequences, lexicographically.
fn chars_le(a: &Vec<char>, b: &Vec<char>) -> (r: bool)
    ensures
        r == lex_le(a@, b@),
{
    let mut i: usize = 0;
    proof {
        assert(a@.subrange(0, a.len() as int) =~= a@);
        assert(b@.subrange(0, b.len() as int) =~= b@);
    }
    while i < a.len() && i < b.len()
        invariant
            i <= a.len(),
            i <= b.len(),
            forall|k: int| 0 <= k < i ==> a@[k] == b@[k],
            lex_le(a@, b@) == lex_le(a@.subrange(i as int, a.len() as int), b@.subrange(
                i as int,
                b.len() as int,
            )),
        decreases a.len() - i,
    {
        let x = a[i];
        let y = b[i];
        if x < y {
            return true;
        }
        if x > y {
            return false;
        }
        proof {
            let sa = a@.subrange(i as int, a.len() as int);
            let sb = b@.subrange(i as int, b.len() as int);
            assert(sa.drop_first() =~= a@.subrange(i + 1, a.len() as int));
            assert(sb.drop_first() =~= b@.subrange(i + 1, b.len() as int));
            assert(x == y);
        }
        i = i + 1;
    }
    i == a.len()
}

/// `a <= b` for texts, in `str`'s order.
pub fn str_le(a: &str, b: &str) -> (r: bool)
    ensures
        r == lex_le(a@, b@),
{
    let x = chars_of(a);
    let y = chars_of(b);
    proof {
        assert(x@.subrange(0, x@.len() as int) =~= x@);
        assert(y@.subrange(0, y@.len() as int) =~= y@);
    }
    chars_le(&x, &y)
}

/// A total order of the items of a list, which `sort_stable` sorts by.
pub trait SortOrder: Sized {
    /// `a` may come before `b`.
    spec fn before(a: Self, b: Self) -> bool;

    proof fn lemma_before_total(a: Self, b: Self)
        ensures
            Self::before(a, b) || Self::before(b, a),
    ;

    proof fn lemma_before_transitive(a: Self, b: Self, c: Self)
        requires
            Self::before(a, b),
            Self::before(b, c),
        ensures
            Self::before(a, c),
    ;

    fn comes_before(&self, other: &Self) -> (r: bool)
        ensures
            r == Self::before(*self, *other),
    ;
}

/// Every item comes before or together with every later item.
pub open spec fn is_sorted<T: SortOrder>(s: Seq<T>) -> bool {
    forall|i: int, j: int| 0 <= i < j < s.len() ==> T::before(#[trigger] s[i], #[trigger] s[j])
}

/// `a` and `b` sort together: each may come before the other.
pub open spec fn sort_together<T: SortOrder>(a: T, b: T) -> bool {
    T::before(a, b) && T::before(b, a)
}

/// `r` holds the items of `v`, the item at `i` being the one at `p[i]` in
/// `v`, each once; items that sort together keep the order they had in `v`.
pub open spec fn is_stable_arrangement<T: SortOrder>(v: Seq<T>, r: Seq<T>, p: Seq<int>) -> bool {
    &&& p.len() == v.len()
    &&& r.len() == v.len()
    &&& forall|i: int| 0 <= i < p.len() ==> 0 <= #[trigger] p[i] < v.len()
    &&& forall|i: int, j: int| 0 <= i < j < p.len() ==> #[trigger] p[i] != #[trigger] p[j]
    &&& forall|i: int| 0 <= i < r.len() ==> #[trigger] r[i] == v[p[i]]
    &&& forall|i: int, j: int|
        0 <= i < j < r.len() && sort_together(#[trigger] r[i], #[trigger] r[j]) ==> p[i] < p[j]
}

/// The items of `v` in order, an item that sorts together with an earlier
/// one staying behind it (insertion sort).
pub fn sort_stable<T: SortOrder>(v: Vec<T>) -> (r: Vec<T>)
    ensures
        is_sorted(r@),
        r@.to_multiset() == v@.to_multiset(),
        exists|p: Seq<int>| is_stable_arrangement(v@, r@, p),
{
    broadcast use vstd::seq_lib::group_to_multiset_ensures;
    broadcast use vstd::multiset::group_multiset_axioms;

    let mut out: Vec<T> = Vec::new();
    let mut rest = v;
    let ghost input = rest@;
    let ghost mut taken: int = 0;
    let ghost mut p: Seq<int> = Seq::empty();
    proof {
        assert(out@.to_multiset() =~= vstd::multiset::Multiset::empty());
        assert(rest@ =~= input.skip(0));
    }
    while rest.len() > 0
        invariant
            0 <= taken <= input.len(),
            rest@ == input.skip(taken),
            out.len() == taken,
            p.len() == taken,
            is_sorted(out@),
            out@.to_multiset().add(rest@.to_multiset()) == input.to_multiset(),
            forall|i: int| 0 <= i < p.len() ==> 0 <= #[trigger] p[i] < taken,
            forall|i: int, j: int| 0 <= i < j < p.len() ==> #[trigger] p[i] != #[trigger] p[j],
            forall|i: int| 0 <= i < out@.len() ==> #[trigger] out@[i] == input[p[i]],
            forall|i: int, j: int|
                0 <= i < j < out@.len() && sort_together(#[trigger] out@[i], #[trigger] out@[j]) ==> p[i] < p[j],
        decreases rest.len(),
    {
        let ghost before_rest = rest@;
        let x = rest.remove(0);
        proof {
            vstd::seq_lib::to_multiset_remove(before_rest, 0);
            assert(before_rest.remove(0) == rest@);
            assert(x == input[taken]);
            assert(rest@ =~= input.skip(taken + 1));
        }
        let mut k: usize = 0;
        while k < out.len() && out[k].comes_before(&x)
            invariant
                k <= out.len(),
                forall|j: int| 0 <= j < k ==> T::before(#[trigger] out@[j], x),
            decreases out.len() - k,
        {
            k = k + 1;
        }
        let ghost old_out = out@;
        let ghost old_p = p;
        proof {
            if k < out.len() {
                assert(!T::before(old_out[k as int], x));
                T::lemma_before_total(old_out[k as int], x);
                assert forall|j: int| k <= j < old_out.len() implies T::before(
                    x,
                    #[trigger] old_out[j],
                ) by {
                    if j > k {
                        T::lemma_before_transitive(x, old_out[k as int], old_out[j]);
                    }
                }
                assert forall|j: int| k <= j < old_out.len() implies !T::before(#[trigger] old_out[j], x) by {
                    if j > k && T::before(old_out[j], x) {
                        assert(T::before(old_out[k as int], old_out[j]));
                        T::lemma_before_transitive(old_out[k as int], old_out[j], x);
                    }
                }
            }
        }
        out.insert(k, x);
        proof {
            p = old_p.insert(k as int, taken);
            vstd::seq_lib::to_multiset_insert(old_out, k as int, x);
            vstd::seq_lib::to_multiset_contains(before_rest, x);
            assert(before_rest.to_multiset().count(x) > 0);
            assert(out@.to_multiset().add(rest@.to_multiset()) =~= input.to_multiset());
            assert forall|i: int, j: int| 0 <= i < j < out@.len() implies T::before(
                #[trigger] out@[i],
                #[trigger] out@[j],
            ) by {
                if j < k {
                    assert(T::before(old_out[i], old_out[j]));
                } else if j == k {
                } else if i < k {
                    T::lemma_before_transitive(old_out[i], x, old_out[j - 1]);
                } else if i == k {
                } else {
                    assert(T::before(old_out[i - 1], old_out[j - 1]));
                }
            }
            assert forall|i: int| 0 <= i < p.len() implies 0 <= #[trigger] p[i] < taken + 1 by {
                if i < k {
                    assert(p[i] == old_p[i]);
                } else if i > k {
                    assert(p[i] == old_p[i - 1]);
                }
            }
            assert forall|i: int, j: int| 0 <= i < j < p.len() implies #[trigger] p[i] != #[trigger] p[j] by {
                if i < k && j < k {
                    assert(p[i] == old_p[i] && p[j] == old_p[j]);
                } else if i < k && j == k {
                    assert(p[i] == old_p[i]);
                } else if i < k {
                    assert(p[i] == old_p[i] && p[j] == old_p[j - 1]);
                } else if i == k {
                    assert(p[j] == old_p[j - 1]);
                } else {
                    assert(p[i] == old_p[i - 1] && p[j] == old_p[j - 1]);
                }
            }
            assert forall|i: int| 0 <= i < out@.len() implies #[trigger] out@[i] == input[p[i]] by {
                if i < k {
                    assert(out@[i] == old_out[i] && p[i] == old_p[i]);
                } else if i > k {
                    assert(out@[i] == old_out[i - 1] && p[i] == old_p[i - 1]);
                }
            }
            assert forall|i: int, j: int|
                0 <= i < j < out@.len() && sort_together(#[trigger] out@[i], #[trigger] out@[j]) implies p[i]
                < p[j] by {
                if i < k && j < k {
                    assert(out@[i] == old_out[i] && out@[j] == old_out[j]);
                    assert(p[i] == old_p[i] && p[j] == old_p[j]);
                } else if i < k && j == k {
                    assert(p[i] == old_p[i]);
                } else if i < k {
                    assert(out@[i] == old_out[i] && out@[j] == old_out[j - 1]);
                    assert(p[i] == old_p[i] && p[j] == old_p[j - 1]);
                } else if i == k {
                    assert(out@[j] == old_out[j - 1]);
                    assert(!T::before(old_out[j - 1], x));
                } else {
                    assert(out@[i] == old_out[i - 1] && out@[j] == old_out[j - 1]);
                    assert(p[i] == old_p[i - 1] && p[j] == old_p[j - 1]);
                }
            }
            taken = taken + 1;
        }
    }
    proof {
        assert(rest@.to_multiset() =~= vstd::multiset::Multiset::empty());
        assert(out@.to_multiset().add(rest@.to_multiset()) =~= out@.to_multiset());
        assert(taken == input.len()) by {
            if taken < input.len() {
                assert(input.skip(taken).len() > 0);
            }
        }
        assert(is_stable_arrangement(input, out@, p));
    }
    out
}

} // verus!
