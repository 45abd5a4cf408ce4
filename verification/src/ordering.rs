//! Stable ordering of a list by byte-string keys, as `sort_by_key` orders:
//! by key, and items with equal keys in their original order.

use vstd::prelude::*;
use vstd::relations::{sorted_by, total_ordering};

verus! {

/// Lexicographic three-way comparison of byte strings (how `String`s and
/// byte vectors compare); a proper prefix orders first.
pub open spec fn lex(a: Seq<u8>, b: Seq<u8>) -> int
    decreases a.len(),
{
    if a.len() == 0 {
        if b.len() == 0 {
            0
        } else {
            -1
        }
    } else if b.len() == 0 {
        1
    } else if a[0] < b[0] {
        -1
    } else if a[0] > b[0] {
        1
    } else {
        lex(a.drop_first(), b.drop_first())
    }
}

pub proof fn lemma_lex_antisym(a: Seq<u8>, b: Seq<u8>)
    ensures
        lex(a, b) == -lex(b, a),
        -1 <= lex(a, b) <= 1,
    decreases a.len(),
{
    if a.len() > 0 && b.len() > 0 {
        lemma_lex_antisym(a.drop_first(), b.drop_first());
    }
}

pub proof fn lemma_lex_zero(a: Seq<u8>, b: Seq<u8>)
    ensures
        lex(a, b) == 0 <==> a == b,
    decreases a.len(),
{
    if a.len() == 0 && b.len() == 0 {
        assert(a =~= b);
    }
    if a.len() > 0 && b.len() > 0 {
        lemma_lex_zero(a.drop_first(), b.drop_first());
        if a[0] == b[0] && a.drop_first() == b.drop_first() {
            assert(a =~= seq![a[0]] + a.drop_first());
            assert(b =~= seq![b[0]] + b.drop_first());
        }
        if a == b {
            assert(a.drop_first() == b.drop_first());
        }
    }
}

pub proof fn lemma_lex_trans(a: Seq<u8>, b: Seq<u8>, c: Seq<u8>)
    requires
        lex(a, b) <= 0,
        lex(b, c) <= 0,
    ensures
        lex(a, c) <= 0,
        lex(a, b) < 0 || lex(b, c) < 0 ==> lex(a, c) < 0,
    decreases a.len(),
{
    if a.len() > 0 && b.len() > 0 && c.len() > 0 {
        if a[0] == b[0] && b[0] == c[0] {
            lemma_lex_trans(a.drop_first(), b.drop_first(), c.drop_first());
        }
    }
}

/// Position `i` may stand before position `j`: its key is smaller, or the
/// keys are equal and it came first.
pub open spec fn pos_le(keys: Seq<Seq<u8>>, i: int, j: int) -> bool {
    lex(keys[i], keys[j]) < 0 || (lex(keys[i], keys[j]) == 0 && i <= j)
}

pub open spec fn position_le(keys: Seq<Seq<u8>>) -> spec_fn(int, int) -> bool {
    |i: int, j: int| pos_le(keys, i, j)
}

pub open spec fn positions(n: nat) -> Seq<int> {
    Seq::new(n, |i: int| i)
}

/// The stable order of positions `0..keys.len()` by key.
pub open spec fn stable_order(keys: Seq<Seq<u8>>) -> Seq<int> {
    positions(keys.len()).sort_by(position_le(keys))
}

/// The views of a list of byte vectors.
pub open spec fn key_views(v: Seq<Vec<u8>>) -> Seq<Seq<u8>> {
    v.map_values(|x: Vec<u8>| x@)
}

pub proof fn lemma_position_le_total(keys: Seq<Seq<u8>>)
    ensures
        total_ordering(position_le(keys)),
{
    let le = position_le(keys);
    assert forall|i: int| #[trigger] le(i, i) by {
        lemma_lex_zero(keys[i], keys[i]);
    }
    assert forall|i: int, j: int| #[trigger] le(i, j) && #[trigger] le(j, i) implies i == j by {
        lemma_lex_antisym(keys[i], keys[j]);
    }
    assert forall|i: int, j: int, k: int| #[trigger] le(i, j) && #[trigger] le(j, k) implies le(
        i,
        k,
    ) by {
        lemma_lex_antisym(keys[i], keys[j]);
        lemma_lex_antisym(keys[j], keys[k]);
        lemma_lex_trans(keys[i], keys[j], keys[k]);
    }
    assert forall|i: int, j: int| #[trigger] le(i, j) || #[trigger] le(j, i) by {
        lemma_lex_antisym(keys[i], keys[j]);
    }
}

/// Three-way comparison of two byte vectors.
pub fn compare_bytes(a: &[u8], b: &[u8]) -> (r: i8)
    ensures
        r as int == lex(a@, b@),
{
    let n = a.len();
    let m = b.len();
    let mut i: usize = 0;
    assert(a@.skip(0) =~= a@);
    assert(b@.skip(0) =~= b@);
    while i < n && i < m
        invariant
            n == a@.len(),
            m == b@.len(),
            i <= n,
            i <= m,
            lex(a@, b@) == lex(a@.skip(i as int), b@.skip(i as int)),
        decreases n - i,
    {
        assert(a@.skip(i as int).drop_first() =~= a@.skip(i + 1));
        assert(b@.skip(i as int).drop_first() =~= b@.skip(i + 1));
        if a[i] < b[i] {
            return -1;
        }
        if a[i] > b[i] {
            return 1;
        }
        i = i + 1;
    }
    if i < n {
        1
    } else if i < m {
        -1
    } else {
        0
    }
}

/// Calls `<[T]>::swap`, which exchanges the elements at `i` and `j` and
/// panics when either is out of bounds (hence the `requires`). Trusted:
/// the contract restates std's documentation, it is not proved.
#[verifier::external_body]
pub(crate) fn swap_items<T>(s: &mut [T], i: usize, j: usize)
    requires
        i < old(s)@.len(),
        j < old(s)@.len(),
    ensures
        final(s)@ == old(s)@.update(i as int, old(s)@[j as int]).update(j as int, old(s)@[i as int]),
{
    s.swap(i, j);
}

pub proof fn lemma_swap_keeps_multiset<T>(s: Seq<T>, i: int, j: int)
    requires
        0 <= i < s.len(),
        0 <= j < s.len(),
    ensures
        s.update(i, s[j]).update(j, s[i]).to_multiset() == s.to_multiset(),
{
    broadcast use vstd::seq_lib::to_multiset_update, vstd::multiset::group_multiset_axioms;
    broadcast use vstd::seq_lib::group_to_multiset_ensures;

    let t = s.update(i, s[j]);
    assert(t.to_multiset() == s.to_multiset().insert(s[j]).remove(s[i]));
    assert(t.update(j, s[i]).to_multiset() == t.to_multiset().insert(s[i]).remove(t[j]));
    assert(s.to_multiset().contains(s[i]));
    assert(t.update(j, s[i]).to_multiset() =~= s.to_multiset());
}

/// Orders `items` by `keys` (one key per item, moved along with it):
/// smaller keys first, items with equal keys in their original order.
pub fn stable_sort_by_keys<T>(items: &mut Vec<T>, keys: &mut Vec<Vec<u8>>)
    requires
        old(items)@.len() == old(keys)@.len(),
    ensures
        final(items)@.len() == old(items)@.len(),
        final(items)@ == stable_order(key_views(old(keys)@)).map_values(|p: int| old(items)@[p]),
        key_views(final(keys)@) == stable_order(key_views(old(keys)@)).map_values(
            |p: int| key_views(old(keys)@)[p],
        ),
{
    let ghost orig_items = items@;
    let ghost kv = key_views(keys@);
    let n = items.len();
    let ghost mut perm: Seq<int> = positions(n as nat);
    let mut i: usize = 0;
    while i < n
        invariant
            n == items@.len(),
            n == keys@.len(),
            n == kv.len(),
            kv == key_views(old(keys)@),
            orig_items == old(items)@,
            i <= n,
            perm.len() == n,
            perm.to_multiset() == positions(n as nat).to_multiset(),
            forall|q: int| 0 <= q < n ==> 0 <= #[trigger] perm[q] < n,
            forall|q: int| 0 <= q < n ==> items@[q] == orig_items[#[trigger] perm[q]],
            forall|q: int| 0 <= q < n ==> keys@[q]@ == kv[#[trigger] perm[q]],
            forall|q: int| 0 <= q < i ==> #[trigger] perm[q] < i,
            forall|q: int| i <= q < n ==> #[trigger] perm[q] == q,
            forall|a: int, b: int| 0 <= a < b < i ==> #[trigger] pos_le(kv, perm[a], perm[b]),
        decreases n - i,
    {
        let mut j: usize = i;
        loop
            invariant_except_break
                n == items@.len(),
                n == keys@.len(),
                n == kv.len(),
                i < n,
                j <= i,
                perm.len() == n,
                perm.to_multiset() == positions(n as nat).to_multiset(),
                forall|q: int| 0 <= q < n ==> 0 <= #[trigger] perm[q] < n,
                forall|q: int| 0 <= q < n ==> items@[q] == orig_items[#[trigger] perm[q]],
                forall|q: int| 0 <= q < n ==> keys@[q]@ == kv[#[trigger] perm[q]],
                forall|q: int| 0 <= q <= i && q != j ==> #[trigger] perm[q] < i,
                perm[j as int] == i,
                forall|q: int| i < q < n ==> #[trigger] perm[q] == q,
                forall|a: int, b: int|
                    0 <= a < b <= i && a != j && b != j ==> #[trigger] pos_le(kv, perm[a], perm[b]),
                forall|b: int| j < b <= i ==> #[trigger] pos_le(kv, perm[j as int], perm[b]),
            ensures
                n == items@.len(),
                n == keys@.len(),
                i < n,
                perm.len() == n,
                perm.to_multiset() == positions(n as nat).to_multiset(),
                forall|q: int| 0 <= q < n ==> 0 <= #[trigger] perm[q] < n,
                forall|q: int| 0 <= q < n ==> items@[q] == orig_items[#[trigger] perm[q]],
                forall|q: int| 0 <= q < n ==> keys@[q]@ == kv[#[trigger] perm[q]],
                forall|q: int| 0 <= q <= i ==> #[trigger] perm[q] < i + 1,
                forall|q: int| i < q < n ==> #[trigger] perm[q] == q,
                forall|a: int, b: int| 0 <= a < b <= i ==> #[trigger] pos_le(kv, perm[a], perm[b]),
            decreases j,
        {
            if j == 0 {
                break;
            }
            let c = compare_bytes(keys[j - 1].as_slice(), keys[j].as_slice());
            if c <= 0 {
                proof {
                    lemma_position_le_total(kv);
                    let x = perm[j as int];
                    let y = perm[j - 1];
                    assert(y < i);
                    assert(pos_le(kv, y, x));
                    assert forall|a: int, b: int| 0 <= a < b <= i implies #[trigger] pos_le(
                        kv,
                        perm[a],
                        perm[b],
                    ) by {
                        if b == j && a < j - 1 {
                            assert(pos_le(kv, perm[a], perm[j - 1]));
                            assert(position_le(kv)(perm[a], perm[j - 1]));
                            assert(position_le(kv)(perm[j - 1], perm[b]));
                        }
                    }
                }
                break;
            }
            proof {
                lemma_swap_keeps_multiset(perm, j - 1, j as int);
                lemma_lex_antisym(kv[perm[j - 1]], kv[perm[j as int]]);
            }
            let ghost s = perm;
            swap_items(items.as_mut_slice(), j - 1, j);
            swap_items(keys.as_mut_slice(), j - 1, j);
            proof {
                perm = perm.update(j - 1, s[j as int]).update(j as int, s[j - 1]);
                assert forall|a: int, b: int|
                    0 <= a < b <= i && a != j - 1 && b != j - 1 implies #[trigger] pos_le(
                    kv,
                    perm[a],
                    perm[b],
                ) by {
                    if a == j {
                        assert(pos_le(kv, s[j - 1], s[b]));
                    } else if b == j {
                        assert(pos_le(kv, s[a], s[j - 1]));
                    } else {
                        assert(pos_le(kv, s[a], s[b]));
                    }
                }
                assert forall|b: int| j - 1 < b <= i implies #[trigger] pos_le(
                    kv,
                    perm[j - 1],
                    perm[b],
                ) by {
                    if b != j {
                        assert(pos_le(kv, s[j as int], s[b]));
                    }
                }
            }
            j = j - 1;
        }
        i = i + 1;
    }
    proof {
        lemma_position_le_total(kv);
        let le = position_le(kv);
        assert(sorted_by(perm, le)) by {
            assert forall|a: int, b: int| 0 <= a < b < perm.len() implies #[trigger] le(
                perm[a],
                perm[b],
            ) by {
                assert(pos_le(kv, perm[a], perm[b]));
            }
        }
        let sorted = positions(n as nat).sort_by(le);
        positions(n as nat).lemma_sort_by_ensures(le);
        vstd::seq_lib::lemma_sorted_unique(perm, sorted, le);
        assert(perm =~= stable_order(kv));
        assert(items@ =~= stable_order(kv).map_values(|p: int| orig_items[p]));
        assert(key_views(keys@) =~= stable_order(kv).map_values(|p: int| kv[p]));
    }
}

} // verus!
