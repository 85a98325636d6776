//! The stable sort underlying the engine.
//!
//! Sorting is specified by a stable insertion sort over index
//! permutations: `stable_sort` processes the indices `0..n` left to right
//! and inserts each one after every already-placed index that orders at or
//! before it. The executable sort produces exactly that permutation, so a
//! caller knows not only that the rows end up ordered but precisely where
//! each row goes — in particular, that rows with tied keys keep their
//! relative order.

use vstd::prelude::*;

use crate::keys::{key_le, key_tied, lemma_key_le_total, lemma_key_le_trans, KeyValue, KeyView};

verus! {

/// Insert `x` into `s` directly after the last element `y` of `s` with
/// `leq(y, x)`; every element strictly greater than `x` moves one place
/// right.
pub open spec fn insert_stable<A>(s: Seq<A>, x: A, leq: spec_fn(A, A) -> bool) -> Seq<A>
    decreases s.len(),
{
    if s.len() == 0 {
        seq![x]
    } else if leq(s.last(), x) {
        s.push(x)
    } else {
        insert_stable(s.drop_last(), x, leq).push(s.last())
    }
}

/// Stable insertion sort: the elements of `s`, processed left to right,
/// each inserted after every earlier element that orders at or before it.
pub open spec fn stable_sort<A>(s: Seq<A>, leq: spec_fn(A, A) -> bool) -> Seq<A>
    decreases s.len(),
{
    if s.len() == 0 {
        Seq::empty()
    } else {
        insert_stable(stable_sort(s.drop_last(), leq), s.last(), leq)
    }
}

/// The identity permutation of length `n`.
pub open spec fn identity_seq(n: nat) -> Seq<usize> {
    Seq::new(n, |i: int| i as usize)
}

/// The reversing permutation of length `n`.
pub open spec fn rev_identity(n: nat) -> Seq<usize> {
    Seq::new(n, |k: int| (n - 1 - k) as usize)
}

/// `s` rearranged by the permutation `p`: element `k` of the result is
/// element `p[k]` of `s`.
pub open spec fn permute<A>(s: Seq<A>, p: Seq<usize>) -> Seq<A> {
    Seq::new(p.len(), |k: int| s[p[k] as int])
}

/// `s` is sorted under `leq`.
pub open spec fn sorted_by<A>(s: Seq<A>, leq: spec_fn(A, A) -> bool) -> bool {
    forall|i: int, j: int| 0 <= i < j < s.len() ==> leq(s[i], s[j])
}

/// The shape of a stable insertion: the result is `s` with `x` placed at
/// some position `m`, everything from `m` on is strictly greater than `x`,
/// and the element just before `x` (if any) orders at or before it.
pub proof fn lemma_insert_stable_shape<A>(s: Seq<A>, x: A, leq: spec_fn(A, A) -> bool) -> (m: int)
    ensures
        0 <= m <= s.len(),
        insert_stable(s, x, leq) == s.take(m) + seq![x] + s.skip(m),
        forall|k: int| m <= k < s.len() ==> !leq(#[trigger] s[k], x),
        m > 0 ==> leq(s[m - 1], x),
    decreases s.len(),
{
    if s.len() == 0 {
        assert(insert_stable(s, x, leq) =~= s.take(0) + seq![x] + s.skip(0));
        0
    } else if leq(s.last(), x) {
        assert(insert_stable(s, x, leq) =~= s.take(s.len() as int) + seq![x] + s.skip(
            s.len() as int,
        ));
        s.len() as int
    } else {
        let m = lemma_insert_stable_shape(s.drop_last(), x, leq);
        assert(insert_stable(s, x, leq) == insert_stable(s.drop_last(), x, leq).push(s.last()));
        assert((s.drop_last().take(m) + seq![x] + s.drop_last().skip(m)).push(s.last()) =~= s.take(
            m,
        ) + seq![x] + s.skip(m));
        assert forall|k: int| m <= k < s.len() implies !leq(#[trigger] s[k], x) by {
            if k < s.len() - 1 {
                assert(s[k] == s.drop_last()[k]);
            }
        }
        m
    }
}

/// A stable insertion is an insertion at the position `j` found by
/// scanning from the right past every element strictly greater than `x`.
pub proof fn lemma_insert_stable_split<A>(s: Seq<A>, x: A, leq: spec_fn(A, A) -> bool, j: int)
    requires
        0 <= j <= s.len(),
        forall|k: int| j <= k < s.len() ==> !leq(#[trigger] s[k], x),
        j > 0 ==> leq(s[j - 1], x),
    ensures
        insert_stable(s, x, leq) == s.insert(j, x),
    decreases s.len(),
{
    if j == s.len() {
        if s.len() == 0 {
            assert(insert_stable(s, x, leq) =~= s.insert(j, x));
        } else {
            assert(leq(s.last(), x));
            assert(s.push(x) =~= s.insert(j, x));
        }
    } else {
        assert(!leq(s.last(), x));
        lemma_insert_stable_split(s.drop_last(), x, leq, j);
        assert(s.drop_last().insert(j, x).push(s.last()) =~= s.insert(j, x));
    }
}

/// The index `e` occurs somewhere in `p`.
pub open spec fn occurs(p: Seq<usize>, e: usize) -> bool {
    exists|k: int| 0 <= k < p.len() && #[trigger] p[k] == e
}

/// Sorting the identity yields a permutation: the result has length `n`,
/// holds only indices below `n`, holds no index twice, and holds every
/// index below `n` somewhere.
pub proof fn lemma_stable_sort_identity_perm(n: nat, leq: spec_fn(usize, usize) -> bool)
    requires
        n <= usize::MAX,
    ensures
        ({
            let p = stable_sort(identity_seq(n), leq);
            &&& p.len() == n
            &&& forall|k: int| 0 <= k < n ==> (#[trigger] p[k]) < n
            &&& forall|k1: int, k2: int| 0 <= k1 < k2 < n ==> p[k1] != p[k2]
            &&& forall|e: usize| e < n ==> #[trigger] occurs(p, e)
        }),
    decreases n,
{
    if n > 0 {
        let prev = (n - 1) as nat;
        assert(identity_seq(n).drop_last() =~= identity_seq(prev));
        assert(identity_seq(n).last() == (n - 1) as usize);
        lemma_stable_sort_identity_perm(prev, leq);
        let q = stable_sort(identity_seq(prev), leq);
        let x = (n - 1) as usize;
        let p = stable_sort(identity_seq(n), leq);
        let m = lemma_insert_stable_shape(q, x, leq);
        assert(p == q.take(m) + seq![x] + q.skip(m));
        assert(p.len() == n);
        assert forall|k: int| 0 <= k < n implies (#[trigger] p[k]) < n by {
            if k < m {
                assert(p[k] == q[k]);
            } else if k == m {
                assert(p[k] == x);
            } else {
                assert(p[k] == q[k - 1]);
            }
        }
        assert forall|k1: int, k2: int| 0 <= k1 < k2 < n implies p[k1] != p[k2] by {
            if k1 < m && k2 < m {
                assert(p[k1] == q[k1] && p[k2] == q[k2]);
            } else if k1 < m && k2 == m {
                assert(p[k1] == q[k1] && p[k2] == x && q[k1] < (n - 1) as usize);
            } else if k1 < m && k2 > m {
                assert(p[k1] == q[k1] && p[k2] == q[k2 - 1]);
            } else if k1 == m {
                assert(p[k1] == x && p[k2] == q[k2 - 1] && q[k2 - 1] < (n - 1) as usize);
            } else {
                assert(p[k1] == q[k1 - 1] && p[k2] == q[k2 - 1]);
            }
        }
        assert forall|e: usize| e < n implies #[trigger] occurs(p, e) by {
            if e == x {
                assert(p[m] == e);
            } else {
                assert(occurs(q, e));
                let k = choose|k: int| 0 <= k < q.len() && #[trigger] q[k] == e;
                if k < m {
                    assert(p[k] == e);
                } else {
                    assert(p[k + 1] == e);
                }
            }
        }
    }
}

/// Stability of the sort: if the indices `i < j` are tied under the
/// order, `i` keeps its place before `j` in the sorted permutation.
pub proof fn lemma_stable_sort_stable(n: nat, leq: spec_fn(usize, usize) -> bool, i: usize, j: usize)
    requires
        n <= usize::MAX,
        i < j < n,
        leq(i, j),
        leq(j, i),
    ensures
        ({
            let p = stable_sort(identity_seq(n), leq);
            exists|ki: int, kj: int|
                #![trigger p[ki], p[kj]]
                0 <= ki < kj < p.len() && p[ki] == i && p[kj] == j
        }),
    decreases n,
{
    let prev = (n - 1) as nat;
    assert(identity_seq(n).drop_last() =~= identity_seq(prev));
    assert(identity_seq(n).last() == (n - 1) as usize);
    let q = stable_sort(identity_seq(prev), leq);
    let x = (n - 1) as usize;
    let p = stable_sort(identity_seq(n), leq);
    let m = lemma_insert_stable_shape(q, x, leq);
    assert(p == q.take(m) + seq![x] + q.skip(m));
    lemma_stable_sort_identity_perm(prev, leq);
    if j < n - 1 {
        lemma_stable_sort_stable(prev, leq, i, j);
        let (ki, kj): (int, int) = choose|ki: int, kj: int|
            #![trigger q[ki], q[kj]]
            0 <= ki < kj < q.len() && q[ki] == i && q[kj] == j;
        let ki2 = if ki < m { ki } else { ki + 1 };
        let kj2 = if kj < m { kj } else { kj + 1 };
        assert(p[ki2] == i && p[kj2] == j && ki2 < kj2);
    } else {
        assert(occurs(q, i));
        let ki = choose|k: int| 0 <= k < q.len() && #[trigger] q[k] == i;
        if ki >= m {
            assert(!leq(q[ki], x));
            assert(false);
        }
        assert(p[ki] == i && p[m] == j && ki < m);
    }
}

/// The sorted permutation is ordered, provided the order is total and
/// transitive.
pub proof fn lemma_stable_sort_sorted<A>(s: Seq<A>, leq: spec_fn(A, A) -> bool)
    requires
        forall|a: A, b: A| #[trigger] leq(a, b) || #[trigger] leq(b, a),
        forall|a: A, b: A, c: A| #[trigger] leq(a, b) && #[trigger] leq(b, c) ==> leq(a, c),
    ensures
        sorted_by(stable_sort(s, leq), leq),
    decreases s.len(),
{
    if s.len() > 0 {
        lemma_stable_sort_sorted(s.drop_last(), leq);
        let q = stable_sort(s.drop_last(), leq);
        let x = s.last();
        let p = stable_sort(s, leq);
        let m = lemma_insert_stable_shape(q, x, leq);
        assert(p == q.take(m) + seq![x] + q.skip(m));
        assert forall|i: int, j: int| 0 <= i < j < p.len() implies leq(p[i], p[j]) by {
            let qi = if i < m { i } else { i - 1 };
            let qj = if j < m { j } else { j - 1 };
            if i == m && j > m {
                assert(p[j] == q[qj]);
                assert(!leq(q[qj], x));
            } else if j == m && i < m {
                assert(p[i] == q[qi]);
                if i == m - 1 {
                } else {
                    assert(leq(q[qi], q[m - 1]));
                }
            } else if i != m && j != m {
                assert(p[i] == q[qi] && p[j] == q[qj]);
                if qi == qj {
                    assert(i == m);
                }
            }
        }
    }
}

/// When every index orders strictly before every smaller index, the
/// stable sort of the identity is the reversing permutation.
pub proof fn lemma_stable_sort_reversing(n: nat, leq: spec_fn(usize, usize) -> bool)
    requires
        n <= usize::MAX,
        forall|a: usize, b: usize| a < b < n ==> #[trigger] leq(b, a),
        forall|a: usize, b: usize| a < b < n ==> !(#[trigger] leq(a, b)),
    ensures
        stable_sort(identity_seq(n), leq) == rev_identity(n),
    decreases n,
{
    if n == 0 {
        assert(stable_sort(identity_seq(n), leq) =~= rev_identity(n));
    } else {
        let prev = (n - 1) as nat;
        assert(identity_seq(n).drop_last() =~= identity_seq(prev));
        assert forall|a: usize, b: usize| a < b < prev implies #[trigger] leq(b, a) by {
            assert(a < b < n);
        }
        assert forall|a: usize, b: usize| a < b < prev implies !(#[trigger] leq(a, b)) by {
            assert(a < b < n);
        }
        lemma_stable_sort_reversing(prev, leq);
        let q = stable_sort(identity_seq(prev), leq);
        let x = (n - 1) as usize;
        let m = lemma_insert_stable_shape(q, x, leq);
        if m > 0 {
            assert(q[m - 1] == rev_identity(prev)[m - 1]);
            assert(q[m - 1] < x);
            assert(!leq(q[m - 1], x));
            assert(false);
        }
        assert(q.take(0) + seq![x] + q.skip(0) =~= seq![x] + q);
        assert(seq![x] + rev_identity(prev) =~= rev_identity(n));
    }
}

/// The sequence of key views of a key list.
pub open spec fn key_views(s: Seq<KeyValue>) -> Seq<KeyView> {
    Seq::new(s.len(), |i: int| s[i]@)
}

/// The order that sorting by keys puts on row indices: ascending compares
/// the keys as they are, descending compares them swapped, so that in
/// both directions tied keys leave the indices in their original order.
pub open spec fn key_idx_leq(keys: Seq<KeyView>, ascending: bool) -> spec_fn(usize, usize) -> bool {
    if ascending {
        |a: usize, b: usize| key_le(keys[a as int], keys[b as int])
    } else {
        |a: usize, b: usize| key_le(keys[b as int], keys[a as int])
    }
}

/// The permutation that stably sorts rows whose keys are `keys`.
pub open spec fn key_sort_perm(keys: Seq<KeyView>, ascending: bool) -> Seq<usize> {
    stable_sort(identity_seq(keys.len()), key_idx_leq(keys, ascending))
}

/// The index order derived from keys is total and transitive.
proof fn lemma_key_idx_leq_preorder(keys: Seq<KeyView>, ascending: bool)
    ensures
        ({
            let leq = key_idx_leq(keys, ascending);
            &&& forall|a: usize, b: usize| #[trigger] leq(a, b) || #[trigger] leq(b, a)
            &&& forall|a: usize, b: usize, c: usize|
                #[trigger] leq(a, b) && #[trigger] leq(b, c) ==> leq(a, c)
        }),
{
    let leq = key_idx_leq(keys, ascending);
    assert forall|a: usize, b: usize| #[trigger] leq(a, b) || #[trigger] leq(b, a) by {
        lemma_key_le_total(keys[a as int], keys[b as int]);
    }
    assert forall|a: usize, b: usize, c: usize|
        #[trigger] leq(a, b) && #[trigger] leq(b, c) implies leq(a, c) by {
        if ascending {
            lemma_key_le_trans(keys[a as int], keys[b as int], keys[c as int]);
        } else {
            lemma_key_le_trans(keys[c as int], keys[b as int], keys[a as int]);
        }
    }
}

/// Sorting is stable: two rows whose keys are tied keep their relative
/// order in the sorted table, whichever direction is sorted.
pub proof fn lemma_sort_stable(keys: Seq<KeyView>, ascending: bool, i: usize, j: usize)
    requires
        keys.len() <= usize::MAX,
        i < j < keys.len(),
        key_tied(keys[i as int], keys[j as int]),
    ensures
        ({
            let p = key_sort_perm(keys, ascending);
            exists|ki: int, kj: int|
                #![trigger p[ki], p[kj]]
                0 <= ki < kj < p.len() && p[ki] == i && p[kj] == j
        }),
{
    let leq = key_idx_leq(keys, ascending);
    assert(leq(i, j) && leq(j, i));
    lemma_stable_sort_stable(keys.len(), leq, i, j);
    let p = stable_sort(identity_seq(keys.len()), leq);
    let (ki, kj): (int, int) = choose|ki: int, kj: int|
        #![trigger p[ki], p[kj]]
        0 <= ki < kj < p.len() && p[ki] == i && p[kj] == j;
    let p2 = key_sort_perm(keys, ascending);
    assert(p2[ki] == i && p2[kj] == j);
}

/// The sorted permutation puts the keys in order: ascending runs put
/// smaller keys first, descending runs larger keys first.
pub proof fn lemma_sort_perm_sorted(keys: Seq<KeyView>, ascending: bool)
    requires
        keys.len() <= usize::MAX,
    ensures
        ({
            let p = key_sort_perm(keys, ascending);
            &&& p.len() == keys.len()
            &&& forall|k: int| 0 <= k < p.len() ==> (#[trigger] p[k]) < keys.len()
            &&& forall|k1: int, k2: int|
                #![trigger p[k1], p[k2]]
                0 <= k1 < k2 < p.len() ==> if ascending {
                    key_le(keys[p[k1] as int], keys[p[k2] as int])
                } else {
                    key_le(keys[p[k2] as int], keys[p[k1] as int])
                }
        }),
{
    let leq = key_idx_leq(keys, ascending);
    lemma_key_idx_leq_preorder(keys, ascending);
    lemma_stable_sort_identity_perm(keys.len(), leq);
    lemma_stable_sort_sorted(identity_seq(keys.len()), leq);
}

/// Toggling the same column from Ascending straight to Descending
/// reverses the rows exactly, provided no two rows' keys are tied: the
/// descending pass undoes nothing of the ascending pass but the direction.
pub proof fn lemma_descending_reverses_ascending<A>(rows: Seq<A>, keys: Seq<KeyView>)
    requires
        rows.len() == keys.len(),
        keys.len() <= usize::MAX,
        forall|i: int, j: int|
            0 <= i < j < keys.len() ==> !key_tied(#[trigger] keys[i], #[trigger] keys[j]),
    ensures
        ({
            let p = key_sort_perm(keys, true);
            let rows1 = permute(rows, p);
            let keys1 = permute(keys, p);
            permute(rows1, key_sort_perm(keys1, false)) == rows1.reverse()
        }),
{
    let n = keys.len();
    let p = key_sort_perm(keys, true);
    let rows1 = permute(rows, p);
    let keys1 = permute(keys, p);
    lemma_sort_perm_sorted(keys, true);
    lemma_stable_sort_identity_perm(n, key_idx_leq(keys, true));
    assert(keys1.len() == n);
    let leq1 = key_idx_leq(keys1, false);
    assert forall|a: usize, b: usize| a < b < n implies #[trigger] leq1(b, a) by {
        assert(keys1[a as int] == keys[p[a as int] as int]);
        assert(keys1[b as int] == keys[p[b as int] as int]);
        assert(key_le(keys1[a as int], keys1[b as int]));
    }
    assert forall|a: usize, b: usize| a < b < n implies !(#[trigger] leq1(a, b)) by {
        assert(keys1[a as int] == keys[p[a as int] as int]);
        assert(keys1[b as int] == keys[p[b as int] as int]);
        assert(key_le(keys1[a as int], keys1[b as int]));
        assert(p[a as int] != p[b as int]);
        if p[a as int] < p[b as int] {
            assert(!key_tied(keys[p[a as int] as int], keys[p[b as int] as int]));
        } else {
            assert(!key_tied(keys[p[b as int] as int], keys[p[a as int] as int]));
        }
        assert(!key_le(keys1[b as int], keys1[a as int]));
    }
    lemma_stable_sort_reversing(n, leq1);
    assert(key_sort_perm(keys1, false) == rev_identity(n));
    assert(permute(rows1, rev_identity(n)) =~= rows1.reverse());
}

} // verus!

verus! {

/// The position at which a stable insertion of row index `i` into the
/// already placed indices `p` lands: scanning from the right, every index
/// whose key orders strictly after `i`'s key moves one place right.
pub(crate) fn key_insert_pos(
    p: &Vec<usize>,
    keys: &Vec<KeyValue>,
    i: usize,
    ascending: bool,
) -> (j: usize)
    requires
        forall|k: int| 0 <= k < p@.len() ==> (#[trigger] p@[k]) < keys@.len(),
        i < keys@.len(),
    ensures
        j <= p@.len(),
        forall|k: int|
            j <= k < p@.len() ==> !(key_idx_leq(key_views(keys@), ascending)(
                #[trigger] p@[k],
                i,
            )),
        j > 0 ==> key_idx_leq(key_views(keys@), ascending)(p@[j - 1], i),
{
    let ghost leq = key_idx_leq(key_views(keys@), ascending);
    let mut j: usize = p.len();
    loop
        invariant
            leq == key_idx_leq(key_views(keys@), ascending),
            j <= p@.len(),
            forall|k: int| 0 <= k < p@.len() ==> (#[trigger] p@[k]) < keys@.len(),
            i < keys@.len(),
            forall|k: int| j <= k < p@.len() ==> !(leq(#[trigger] p@[k], i)),
        decreases j,
    {
        if j == 0 {
            return j;
        }
        let a = p[j - 1];
        let le = if ascending {
            keys[a].le(&keys[i])
        } else {
            keys[i].le(&keys[a])
        };
        proof {
            assert(key_views(keys@)[a as int] == keys@[a as int]@);
            assert(key_views(keys@)[i as int] == keys@[i as int]@);
            if ascending {
                assert(leq(a, i) == key_le(key_views(keys@)[a as int], key_views(keys@)[i as int]));
            } else {
                assert(leq(a, i) == key_le(key_views(keys@)[i as int], key_views(keys@)[a as int]));
            }
            assert(le == leq(a, i));
        }
        if le {
            return j;
        }
        j = j - 1;
    }
}


} // verus!

