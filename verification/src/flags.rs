use vstd::prelude::*;

verus! {

/// The elements of `s` whose flag in `keep` is set, in their order.
pub open spec fn kept<T>(s: Seq<T>, keep: Seq<bool>) -> Seq<T>
    decreases s.len(),
{
    if s.len() == 0 {
        Seq::empty()
    } else {
        let rest = kept(s.drop_last(), keep.drop_last());
        if keep[s.len() - 1] {
            rest.push(s.last())
        } else {
            rest
        }
    }
}

/// The positions of the set flags, in increasing order.
pub open spec fn true_indices(s: Seq<bool>) -> Seq<int>
    decreases s.len(),
{
    if s.len() == 0 {
        Seq::empty()
    } else {
        let rest = true_indices(s.drop_last());
        if s.last() {
            rest.push(s.len() - 1)
        } else {
            rest
        }
    }
}

/// The position of the first set flag, or `row.len()` when none is set.
pub open spec fn first_true(row: Seq<bool>) -> int
    decreases row.len(),
{
    if row.len() == 0 {
        0
    } else if row[0] {
        0
    } else {
        1 + first_true(row.drop_first())
    }
}

/// `first_true` is the position of the first set flag.
pub proof fn lemma_first_true(row: Seq<bool>)
    ensures
        0 <= first_true(row) <= row.len(),
        first_true(row) < row.len() ==> row[first_true(row)],
        forall|k: int| 0 <= k < first_true(row) ==> !row[k],
    decreases row.len(),
{
    if row.len() > 0 && !row[0] {
        lemma_first_true(row.drop_first());
        assert forall|k: int| 0 <= k < first_true(row) implies !row[k] by {
            if k > 0 {
                assert(row[k] == row.drop_first()[k - 1]);
            }
        }
    }
}

/// A position before which no flag is set, and which is either the end or a
/// set flag, is `first_true`.
pub proof fn lemma_first_true_at(row: Seq<bool>, j: int)
    requires
        0 <= j <= row.len(),
        forall|k: int| 0 <= k < j ==> !row[k],
        j < row.len() ==> row[j],
    ensures
        first_true(row) == j,
    decreases row.len(),
{
    if row.len() > 0 && j > 0 {
        assert(!row[0]);
        assert forall|k: int| 0 <= k < j - 1 implies !row.drop_first()[k] by {
            assert(row.drop_first()[k] == row[k + 1]);
        }
        if j - 1 < row.len() - 1 {
            assert(row.drop_first()[j - 1] == row[j]);
        }
        lemma_first_true_at(row.drop_first(), j - 1);
    }
}

/// The set-flag positions of a sequence extended by one flag.
pub proof fn lemma_true_indices_push(s: Seq<bool>, b: bool)
    ensures
        true_indices(s.push(b)) == (if b { true_indices(s).push(s.len() as int) } else { true_indices(s) }),
{
    assert(s.push(b).drop_last() =~= s);
}

/// Every set-flag position is a position of the sequence, holds a set flag,
/// and the positions increase.
pub proof fn lemma_true_indices_bounds(s: Seq<bool>)
    ensures
        true_indices(s).len() <= s.len(),
        forall|k: int| 0 <= k < true_indices(s).len() ==> 0 <= #[trigger] true_indices(s)[k] < s.len()
            && s[true_indices(s)[k]],
    decreases s.len(),
{
    if s.len() > 0 {
        lemma_true_indices_bounds(s.drop_last());
    }
}

/// The kept elements are the elements at the set positions, in order: the
/// positions `i` with `keep[i]` taken in increasing order, each mapped to
/// `s[i]`.
pub proof fn lemma_kept_is_filter<T>(s: Seq<T>, keep: Seq<bool>)
    requires
        keep.len() == s.len(),
    ensures
        kept(s, keep) == Seq::new(s.len(), |i: int| i).filter(|i: int| keep[i]).map_values(|i: int| s[i]),
{
    lemma_kept_is_filter_upto(s, keep, s.len() as int);
    assert(s.take(s.len() as int) =~= s);
    assert(keep.take(s.len() as int) =~= keep);
}

/// `lemma_kept_is_filter` on the first `m` elements.
pub proof fn lemma_kept_is_filter_upto<T>(s: Seq<T>, keep: Seq<bool>, m: int)
    requires
        keep.len() == s.len(),
        0 <= m <= s.len(),
    ensures
        kept(s.take(m), keep.take(m)) == Seq::new(m as nat, |i: int| i).filter(|i: int| keep[i]).map_values(
            |i: int| s[i],
        ),
    decreases m,
{
    let pred = |i: int| keep[i];
    let ids = Seq::new(m as nat, |i: int| i);
    reveal(Seq::filter);
    if m > 0 {
        lemma_kept_is_filter_upto(s, keep, m - 1);
        assert(s.take(m).drop_last() =~= s.take(m - 1));
        assert(keep.take(m).drop_last() =~= keep.take(m - 1));
        assert(ids.drop_last() =~= Seq::new((m - 1) as nat, |i: int| i));
        assert(ids.last() == m - 1);
        let prev = ids.drop_last().filter(pred);
        assert(ids.filter(pred) == (if pred(ids.last()) { prev.push(ids.last()) } else { prev }));
        if keep[m - 1] {
            assert(prev.push(m - 1).map_values(|i: int| s[i]) =~= prev.map_values(|i: int| s[i]).push(s[m - 1]));
        }
    } else {
        assert(ids.filter(pred) =~= Seq::<int>::empty());
        assert(kept(s.take(m), keep.take(m)) =~= Seq::<T>::empty());
        assert(ids.filter(pred).map_values(|i: int| s[i]) =~= Seq::<T>::empty());
    }
}

/// The set-flag positions are exactly the positions of set flags, in
/// increasing order: the filter of all positions by their flag.
pub proof fn lemma_true_indices_is_filter(s: Seq<bool>)
    ensures
        true_indices(s) == Seq::new(s.len(), |i: int| i).filter(|i: int| s[i]),
{
    lemma_true_indices_upto(s, s.len() as int);
    assert(s.take(s.len() as int) =~= s);
}

/// `lemma_true_indices_is_filter` on the first `m` flags.
pub proof fn lemma_true_indices_upto(s: Seq<bool>, m: int)
    requires
        0 <= m <= s.len(),
    ensures
        true_indices(s.take(m)) == Seq::new(m as nat, |i: int| i).filter(|i: int| s[i]),
    decreases m,
{
    let pred = |i: int| s[i];
    let ids = Seq::new(m as nat, |i: int| i);
    reveal(Seq::filter);
    if m > 0 {
        lemma_true_indices_upto(s, m - 1);
        assert(s.take(m).drop_last() =~= s.take(m - 1));
        assert(ids.drop_last() =~= Seq::new((m - 1) as nat, |i: int| i));
        assert(ids.last() == m - 1);
        assert(ids.filter(pred) == (if pred(ids.last()) {
            ids.drop_last().filter(pred).push(ids.last())
        } else {
            ids.drop_last().filter(pred)
        }));
    } else {
        assert(ids.filter(pred) =~= Seq::<int>::empty());
        assert(s.take(m) =~= Seq::<bool>::empty());
    }
}

/// The kept elements of a sequence extended by one element.
pub proof fn lemma_kept_push<T>(s: Seq<T>, keep: Seq<bool>, x: T, b: bool)
    requires
        keep.len() == s.len(),
    ensures
        kept(s.push(x), keep.push(b)) == (if b { kept(s, keep).push(x) } else { kept(s, keep) }),
{
    assert(s.push(x).drop_last() =~= s);
    assert(keep.push(b).drop_last() =~= keep);
    assert(keep.push(b)[s.len() as int] == b);
    assert(s.push(x).last() == x);
}

/// Keeps the elements of `v` whose flag in `keep` is set, in their order.
pub fn retain_flagged<T>(v: Vec<T>, keep: &Vec<bool>) -> (out: Vec<T>)
    requires
        keep.len() == v.len(),
    ensures
        out@ == kept(v@, keep@),
{
    let mut v = v;
    let ghost orig = v@;
    let n = v.len();
    let mut out: Vec<T> = Vec::new();
    let mut i: usize = 0;
    while i < n
        invariant
            n == orig.len(),
            keep.len() == n,
            i <= n,
            v@ == orig.skip(i as int),
            out@ == kept(orig.take(i as int), keep@.take(i as int)),
        decreases n - i,
    {
        let x = v.remove(0);
        proof {
            assert(orig.take(i + 1) =~= orig.take(i as int).push(x));
            assert(keep@.take(i + 1) =~= keep@.take(i as int).push(keep@[i as int]));
            lemma_kept_push(orig.take(i as int), keep@.take(i as int), x, keep@[i as int]);
            assert(v@ =~= orig.skip(i + 1));
        }
        if keep[i] {
            out.push(x);
        }
        i = i + 1;
    }
    proof {
        assert(orig.take(n as int) =~= orig);
        assert(keep@.take(n as int) =~= keep@);
    }
    out
}

} // verus!
