//! Stable ordering of listing keys: directories (or any entry flagged
//! `first`) ahead of the rest, then by text in code point order, ties
//! kept in their original order.

use vstd::prelude::*;
use crate::text::{chars_lt, lemma_seq_lt_asymmetric, lemma_seq_lt_irreflexive,
    lemma_seq_lt_total, lemma_seq_lt_transitive, seq_lt};

verus! {

/// A sort key: a flag that sorts first when set, then a text.
pub struct SortKey {
    pub first: bool,
    pub text: Vec<char>,
}

/// Mathematical value of a key.
pub open spec fn key_of(k: SortKey) -> (bool, Seq<char>) {
    (k.first, k.text@)
}

/// Mathematical values of a list of keys.
pub open spec fn keys_of(keys: Seq<SortKey>) -> Seq<(bool, Seq<char>)> {
    keys.map_values(|k: SortKey| key_of(k))
}

/// `a` sorts strictly before `b`: flagged before unflagged, then text.
pub open spec fn key_lt(a: (bool, Seq<char>), b: (bool, Seq<char>)) -> bool {
    (a.0 && !b.0) || (a.0 == b.0 && seq_lt(a.1, b.1))
}

/// `perm` lists every index of `keys` once, in sorted key order, and
/// indices of equal keys in increasing order (a stable sort).
pub open spec fn is_stable_order(keys: Seq<(bool, Seq<char>)>, perm: Seq<usize>) -> bool {
    &&& perm.len() == keys.len()
    &&& forall|i: int| 0 <= i < perm.len() ==> #[trigger] perm[i] < keys.len()
    &&& forall|i: int, j: int| 0 <= i < j < perm.len() ==> perm[i] != perm[j]
    &&& forall|i: int, j: int|
        0 <= i < j < perm.len() ==> !key_lt(#[trigger] keys[perm[j] as int], #[trigger] keys[perm[i] as int])
    &&& forall|i: int, j: int|
        0 <= i < j < perm.len() && keys[perm[i] as int] == keys[perm[j] as int] ==> perm[i] < perm[j]
}

/// No key sorts before itself.
pub proof fn lemma_key_lt_irreflexive(a: (bool, Seq<char>))
    ensures
        !key_lt(a, a),
{
    lemma_seq_lt_irreflexive(a.1);
}

/// The key order is asymmetric.
pub proof fn lemma_key_lt_asymmetric(a: (bool, Seq<char>), b: (bool, Seq<char>))
    requires
        key_lt(a, b),
    ensures
        !key_lt(b, a),
{
    if a.0 == b.0 {
        lemma_seq_lt_asymmetric(a.1, b.1);
    }
}

/// The key order is transitive.
pub proof fn lemma_key_lt_transitive(
    a: (bool, Seq<char>),
    b: (bool, Seq<char>),
    c: (bool, Seq<char>),
)
    requires
        key_lt(a, b),
        key_lt(b, c),
    ensures
        key_lt(a, c),
{
    if a.0 == b.0 && b.0 == c.0 {
        lemma_seq_lt_transitive(a.1, b.1, c.1);
    }
}

/// Of two different keys, one sorts before the other.
pub proof fn lemma_key_lt_total(a: (bool, Seq<char>), b: (bool, Seq<char>))
    ensures
        a == b || key_lt(a, b) || key_lt(b, a),
{
    lemma_seq_lt_total(a.1, b.1);
}

/// Whether key `a` sorts strictly before key `b`.
pub fn sort_key_lt(a: &SortKey, b: &SortKey) -> (r: bool)
    ensures
        r == key_lt(key_of(*a), key_of(*b)),
{
    if a.first && !b.first {
        true
    } else if a.first == b.first {
        chars_lt(&a.text, &b.text)
    } else {
        false
    }
}

/// The stable sorting permutation of `keys`: position `i` of the result
/// holds the index of the key that sorts `i`-th.
pub fn stable_order(keys: &Vec<SortKey>) -> (perm: Vec<usize>)
    ensures
        is_stable_order(keys_of(keys@), perm@),
{
    let ghost ks = keys_of(keys@);
    let mut perm: Vec<usize> = Vec::new();
    let mut i: usize = 0;
    while i < keys.len()
        invariant
            ks == keys_of(keys@),
            ks.len() == keys@.len(),
            i <= keys@.len(),
            perm@.len() == i,
            forall|a: int| 0 <= a < perm@.len() ==> #[trigger] perm@[a] < i,
            forall|a: int, b: int| 0 <= a < b < perm@.len() ==> perm@[a] != perm@[b],
            forall|a: int, b: int|
                0 <= a < b < perm@.len() ==> !key_lt(#[trigger] ks[perm@[b] as int], #[trigger] ks[perm@[a] as int]),
            forall|a: int, b: int|
                0 <= a < b < perm@.len() && ks[perm@[a] as int] == ks[perm@[b] as int] ==> perm@[a] < perm@[b],
        decreases keys@.len() - i,
    {
        let ghost ki = ks[i as int];
        assert(key_of(keys@[i as int]) == ki);
        // First position whose key sorts strictly after key `i`.
        let mut p: usize = 0;
        while p < perm.len() && !sort_key_lt(&keys[i], &keys[perm[p]])
            invariant
                ks == keys_of(keys@),
                ks.len() == keys@.len(),
                i < keys@.len(),
                ki == ks[i as int],
                p <= perm@.len(),
                forall|a: int| 0 <= a < perm@.len() ==> #[trigger] perm@[a] < i,
                forall|t: int| 0 <= t < p ==> !key_lt(ki, #[trigger] ks[perm@[t] as int]),
            decreases perm@.len() - p,
        {
            assert(perm@[p as int] < i);
            assert(key_of(keys@[perm@[p as int] as int]) == ks[perm@[p as int] as int]);
            p += 1;
        }
        // Every key from `p` on sorts strictly after key `i`.
        assert forall|t: int| p <= t < perm@.len() implies key_lt(ki, #[trigger] ks[perm@[t] as int]) by {
            assert(perm@[p as int] < i);
            assert(key_of(keys@[perm@[p as int] as int]) == ks[perm@[p as int] as int]);
            assert(key_lt(ki, ks[perm@[p as int] as int]));
            if t > p {
                let kp = ks[perm@[p as int] as int];
                let kt = ks[perm@[t] as int];
                assert(!key_lt(kt, kp));
                lemma_key_lt_total(kp, kt);
                if kp != kt {
                    lemma_key_lt_transitive(ki, kp, kt);
                }
            }
        }
        let ghost old_perm = perm@;
        perm.insert(p, i);
        assert(perm@ == old_perm.insert(p as int, i));
        assert forall|a: int, b: int| 0 <= a < b < perm@.len() implies !key_lt(
            #[trigger] ks[perm@[b] as int],
            #[trigger] ks[perm@[a] as int],
        ) by {
            if a == p {
                assert(perm@[b] == old_perm[b - 1]);
                assert(key_lt(ki, ks[old_perm[b - 1] as int]));
                lemma_key_lt_asymmetric(ki, ks[old_perm[b - 1] as int]);
            } else if b == p {
                assert(perm@[a] == old_perm[a]);
            } else {
                let oa = if a < p { a } else { a - 1 };
                let ob = if b < p { b } else { b - 1 };
                assert(perm@[a] == old_perm[oa]);
                assert(perm@[b] == old_perm[ob]);
            }
        }
        assert forall|a: int, b: int|
            0 <= a < b < perm@.len() && ks[perm@[a] as int] == ks[perm@[b] as int] implies perm@[a]
            < perm@[b] by {
            if a == p {
                assert(perm@[b] == old_perm[b - 1]);
                assert(key_lt(ki, ks[old_perm[b - 1] as int]));
                lemma_key_lt_irreflexive(ki);
            } else if b == p {
                assert(perm@[a] == old_perm[a]);
            } else {
                let oa = if a < p { a } else { a - 1 };
                let ob = if b < p { b } else { b - 1 };
                assert(perm@[a] == old_perm[oa]);
                assert(perm@[b] == old_perm[ob]);
            }
        }
        assert forall|a: int, b: int| 0 <= a < b < perm@.len() implies perm@[a] != perm@[b] by {
            let oa = if a < p { a } else { a - 1 };
            let ob = if b < p { b } else { b - 1 };
            if a != p && b != p {
                assert(perm@[a] == old_perm[oa]);
                assert(perm@[b] == old_perm[ob]);
            } else if a == p {
                assert(perm@[b] == old_perm[ob]);
            } else {
                assert(perm@[a] == old_perm[oa]);
            }
        }
        assert forall|a: int| 0 <= a < perm@.len() implies #[trigger] perm@[a] < i + 1 by {
            if a < p {
                assert(perm@[a] == old_perm[a]);
            } else if a > p {
                assert(perm@[a] == old_perm[a - 1]);
            }
        }
        i += 1;
    }
    perm
}

/// A stable order lists every index of its keys: it is a permutation.
pub proof fn lemma_stable_order_covers(keys: Seq<(bool, Seq<char>)>, perm: Seq<usize>, k: int)
    requires
        is_stable_order(keys, perm),
        0 <= k < keys.len(),
    ensures
        exists|i: int| 0 <= i < perm.len() && perm[i] as int == k,
{
    let ints = perm.map_values(|x: usize| x as int);
    assert(ints.no_duplicates()) by {
        assert forall|i: int, j: int| 0 <= i < ints.len() && 0 <= j < ints.len() && i != j implies ints[i] != ints[j] by {
            if i < j {
                assert(perm[i] != perm[j]);
            } else {
                assert(perm[j] != perm[i]);
            }
        }
    }
    ints.unique_seq_to_set();
    let range = vstd::set_lib::set_int_range(0, keys.len() as int);
    vstd::set_lib::lemma_int_range(0, keys.len() as int);
    assert(ints.to_set().subset_of(range)) by {
        assert forall|x: int| ints.to_set().contains(x) implies range.contains(x) by {
            let i = choose|i: int| 0 <= i < ints.len() && ints[i] == x;
            assert(perm[i] < keys.len());
        }
    }
    vstd::seq_lib::seq_to_set_is_finite(ints);
    vstd::set_lib::lemma_subset_equality(ints.to_set(), range);
    assert(range.contains(k));
    assert(ints.to_set().contains(k));
    let i = choose|i: int| 0 <= i < ints.len() && ints[i] == k;
    assert(perm[i] as int == k);
}

} // verus!
