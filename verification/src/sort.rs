//! Deterministic insertion sort, for prices and for (price, weight) pairs.
//!
//! The sorted order is defined by a recursive specification function, so
//! contracts downstream (median, weighted median, trimmed mean) can name
//! the exact sequence the executable sort produces.

use vstd::prelude::*;

verus! {

/// `x` inserted in front of the first element not smaller than it.
pub open spec fn sorted_insert(x: u64, s: Seq<u64>) -> Seq<u64>
    decreases s.len(),
{
    if s.len() == 0 {
        seq![x]
    } else if x <= s[0] {
        seq![x] + s
    } else {
        seq![s[0]] + sorted_insert(x, s.drop_first())
    }
}

/// The sequence sorted ascending, by repeated insertion.
pub open spec fn sort_spec(s: Seq<u64>) -> Seq<u64>
    decreases s.len(),
{
    if s.len() == 0 {
        Seq::empty()
    } else {
        sorted_insert(s.last(), sort_spec(s.drop_last()))
    }
}

/// Ascending order, allowing duplicates.
pub open spec fn is_sorted(s: Seq<u64>) -> bool {
    forall|i: int, j: int| 0 <= i <= j < s.len() ==> s[i] <= s[j]
}

/// Insertion grows a sequence by one.
pub proof fn lemma_sorted_insert_len(x: u64, s: Seq<u64>)
    ensures
        sorted_insert(x, s).len() == s.len() + 1,
    decreases s.len(),
{
    if s.len() > 0 && !(x <= s[0]) {
        lemma_sorted_insert_len(x, s.drop_first());
    }
}

/// Sorting preserves length.
pub proof fn lemma_sort_spec_len(s: Seq<u64>)
    ensures
        sort_spec(s).len() == s.len(),
    decreases s.len(),
{
    if s.len() > 0 {
        lemma_sort_spec_len(s.drop_last());
        lemma_sorted_insert_len(s.last(), sort_spec(s.drop_last()));
    }
}

/// Insertion of an element at least `b` into a sequence whose elements are
/// all at least `b` keeps every element at least `b`.
proof fn lemma_sorted_insert_lower_bound(x: u64, s: Seq<u64>, b: u64)
    requires
        b <= x,
        forall|i: int| 0 <= i < s.len() ==> b <= s[i],
    ensures
        forall|i: int| 0 <= i < sorted_insert(x, s).len() ==> b <= sorted_insert(x, s)[i],
    decreases s.len(),
{
    if s.len() > 0 && !(x <= s[0]) {
        assert(forall|i: int| 0 <= i < s.drop_first().len() ==> b <= s.drop_first()[i]);
        lemma_sorted_insert_lower_bound(x, s.drop_first(), b);
        let t = sorted_insert(x, s.drop_first());
        assert forall|i: int|
            0 <= i < sorted_insert(x, s).len() implies b <= sorted_insert(x, s)[i] by {
            if i > 0 {
                assert(sorted_insert(x, s)[i] == t[i - 1]);
            }
        }
    }
}

/// Inserting into a sorted sequence keeps it sorted.
pub proof fn lemma_sorted_insert_sorted(x: u64, s: Seq<u64>)
    requires
        is_sorted(s),
    ensures
        is_sorted(sorted_insert(x, s)),
    decreases s.len(),
{
    if s.len() > 0 && !(x <= s[0]) {
        assert(is_sorted(s.drop_first()));
        lemma_sorted_insert_sorted(x, s.drop_first());
        lemma_sorted_insert_len(x, s.drop_first());
        assert(forall|i: int| 0 <= i < s.drop_first().len() ==> s[0] <= s.drop_first()[i]);
        lemma_sorted_insert_lower_bound(x, s.drop_first(), s[0]);
        let t = sorted_insert(x, s.drop_first());
        let r = seq![s[0]] + t;
        assert forall|i: int, j: int| 0 <= i <= j < r.len() implies r[i] <= r[j] by {
            if i == 0 && j > 0 {
                assert(r[j] == t[j - 1]);
            }
        }
    }
}

/// What the specification sort produces is sorted.
pub proof fn lemma_sort_spec_sorted(s: Seq<u64>)
    ensures
        is_sorted(sort_spec(s)),
    decreases s.len(),
{
    if s.len() > 0 {
        lemma_sort_spec_sorted(s.drop_last());
        lemma_sorted_insert_sorted(s.last(), sort_spec(s.drop_last()));
    }
}

/// Insertion adds exactly one occurrence of `x`.
proof fn lemma_sorted_insert_multiset(x: u64, s: Seq<u64>)
    ensures
        sorted_insert(x, s).to_multiset() == s.to_multiset().insert(x),
    decreases s.len(),
{
    broadcast use vstd::multiset::group_multiset_axioms;

    if s.len() == 0 || x <= s[0] {
        assert(sorted_insert(x, s) =~= s.insert(0, x));
        vstd::seq_lib::to_multiset_insert(s, 0, x);
    } else {
        lemma_sorted_insert_multiset(x, s.drop_first());
        let t = sorted_insert(x, s.drop_first());
        assert(sorted_insert(x, s) =~= t.insert(0, s[0]));
        vstd::seq_lib::to_multiset_insert(t, 0, s[0]);
        assert(s =~= s.drop_first().insert(0, s[0]));
        vstd::seq_lib::to_multiset_insert(s.drop_first(), 0, s[0]);
        assert(s.drop_first().to_multiset().insert(x).insert(s[0])
            =~= s.drop_first().to_multiset().insert(s[0]).insert(x));
    }
}

/// What the specification sort produces is a permutation of its input.
pub proof fn lemma_sort_spec_multiset(s: Seq<u64>)
    ensures
        sort_spec(s).to_multiset() == s.to_multiset(),
    decreases s.len(),
{
    if s.len() == 0 {
        assert(s =~= Seq::<u64>::empty());
    } else {
        lemma_sort_spec_multiset(s.drop_last());
        lemma_sorted_insert_multiset(s.last(), sort_spec(s.drop_last()));
        assert(s =~= s.drop_last().insert(s.len() - 1, s.last()));
        vstd::seq_lib::to_multiset_insert(s.drop_last(), s.len() - 1, s.last());
    }
}

/// Inserting at the first position whose element is not smaller than `x`
/// is what [`sorted_insert`] does.
proof fn lemma_sorted_insert_at(x: u64, s: Seq<u64>, pos: int)
    requires
        0 <= pos <= s.len(),
        forall|j: int| 0 <= j < pos ==> s[j] < x,
        pos < s.len() ==> x <= s[pos],
    ensures
        sorted_insert(x, s) =~= s.insert(pos, x),
    decreases s.len(),
{
    if s.len() == 0 {
    } else if x <= s[0] {
        assert(pos == 0);
    } else {
        lemma_sorted_insert_at(x, s.drop_first(), pos - 1);
    }
}

/// Inserts `x` into an already sorted vector, keeping the order.
fn insert_sorted_u64(v: &mut Vec<u64>, x: u64)
    ensures
        final(v)@ == sorted_insert(x, old(v)@),
{
    let mut pos: usize = 0;
    while pos < v.len() && v[pos] < x
        invariant
            pos <= v@.len(),
            v@ == old(v)@,
            forall|j: int| 0 <= j < pos ==> v@[j] < x,
        decreases v@.len() - pos,
    {
        pos = pos + 1;
    }
    proof {
        lemma_sorted_insert_at(x, v@, pos as int);
    }
    v.insert(pos, x);
}

/// Sorts prices ascending; the result is exactly [`sort_spec`] of the
/// input.
pub fn sort_u64(v: &Vec<u64>) -> (r: Vec<u64>)
    ensures
        r@ == sort_spec(v@),
{
    let mut out: Vec<u64> = Vec::new();
    let mut i: usize = 0;
    while i < v.len()
        invariant
            i <= v@.len(),
            out@ == sort_spec(v@.subrange(0, i as int)),
        decreases v@.len() - i,
    {
        proof {
            assert(v@.subrange(0, i + 1 as int).drop_last() =~= v@.subrange(0, i as int));
            assert(v@.subrange(0, i + 1 as int).last() == v@[i as int]);
        }
        insert_sorted_u64(&mut out, v[i]);
        i = i + 1;
    }
    proof {
        assert(v@.subrange(0, v@.len() as int) =~= v@);
    }
    out
}

/// `x` inserted in front of the first pair whose price is not smaller.
pub open spec fn sorted_insert_pair(x: (u64, u64), s: Seq<(u64, u64)>) -> Seq<(u64, u64)>
    decreases s.len(),
{
    if s.len() == 0 {
        seq![x]
    } else if x.0 <= s[0].0 {
        seq![x] + s
    } else {
        seq![s[0]] + sorted_insert_pair(x, s.drop_first())
    }
}

/// (price, weight) pairs sorted ascending by price, by repeated insertion.
pub open spec fn sort_pairs_spec(s: Seq<(u64, u64)>) -> Seq<(u64, u64)>
    decreases s.len(),
{
    if s.len() == 0 {
        Seq::empty()
    } else {
        sorted_insert_pair(s.last(), sort_pairs_spec(s.drop_last()))
    }
}

/// Pair insertion grows a sequence by one.
pub proof fn lemma_sorted_insert_pair_len(x: (u64, u64), s: Seq<(u64, u64)>)
    ensures
        sorted_insert_pair(x, s).len() == s.len() + 1,
    decreases s.len(),
{
    if s.len() > 0 && !(x.0 <= s[0].0) {
        lemma_sorted_insert_pair_len(x, s.drop_first());
    }
}

/// Pair sorting preserves length.
pub proof fn lemma_sort_pairs_spec_len(s: Seq<(u64, u64)>)
    ensures
        sort_pairs_spec(s).len() == s.len(),
    decreases s.len(),
{
    if s.len() > 0 {
        lemma_sort_pairs_spec_len(s.drop_last());
        lemma_sorted_insert_pair_len(s.last(), sort_pairs_spec(s.drop_last()));
    }
}

/// Ascending price order over pairs, allowing duplicates.
pub open spec fn is_sorted_by_price(s: Seq<(u64, u64)>) -> bool {
    forall|i: int, j: int| 0 <= i <= j < s.len() ==> s[i].0 <= s[j].0
}

/// Pair insertion with a price at least `b` into pairs all priced at
/// least `b` keeps every price at least `b`.
proof fn lemma_sorted_insert_pair_lower_bound(x: (u64, u64), s: Seq<(u64, u64)>, b: u64)
    requires
        b <= x.0,
        forall|i: int| 0 <= i < s.len() ==> b <= s[i].0,
    ensures
        forall|i: int|
            0 <= i < sorted_insert_pair(x, s).len() ==> b <= sorted_insert_pair(x, s)[i].0,
    decreases s.len(),
{
    if s.len() > 0 && !(x.0 <= s[0].0) {
        assert(forall|i: int| 0 <= i < s.drop_first().len() ==> b <= s.drop_first()[i].0);
        lemma_sorted_insert_pair_lower_bound(x, s.drop_first(), b);
        let t = sorted_insert_pair(x, s.drop_first());
        assert forall|i: int|
            0 <= i < sorted_insert_pair(x, s).len() implies b <= sorted_insert_pair(x, s)[i].0 by {
            if i > 0 {
                assert(sorted_insert_pair(x, s)[i] == t[i - 1]);
            }
        }
    }
}

/// Inserting into pairs sorted by price keeps them sorted by price.
proof fn lemma_sorted_insert_pair_sorted(x: (u64, u64), s: Seq<(u64, u64)>)
    requires
        is_sorted_by_price(s),
    ensures
        is_sorted_by_price(sorted_insert_pair(x, s)),
    decreases s.len(),
{
    if s.len() > 0 && !(x.0 <= s[0].0) {
        assert(is_sorted_by_price(s.drop_first()));
        lemma_sorted_insert_pair_sorted(x, s.drop_first());
        lemma_sorted_insert_pair_len(x, s.drop_first());
        assert(forall|i: int| 0 <= i < s.drop_first().len() ==> s[0].0 <= s.drop_first()[i].0);
        lemma_sorted_insert_pair_lower_bound(x, s.drop_first(), s[0].0);
        let t = sorted_insert_pair(x, s.drop_first());
        let r = seq![s[0]] + t;
        assert forall|i: int, j: int| 0 <= i <= j < r.len() implies r[i].0 <= r[j].0 by {
            if i == 0 && j > 0 {
                assert(r[j] == t[j - 1]);
            }
        }
    }
}

/// What the pair sort produces is sorted by price.
pub proof fn lemma_sort_pairs_spec_sorted(s: Seq<(u64, u64)>)
    ensures
        is_sorted_by_price(sort_pairs_spec(s)),
    decreases s.len(),
{
    if s.len() > 0 {
        lemma_sort_pairs_spec_sorted(s.drop_last());
        lemma_sorted_insert_pair_sorted(s.last(), sort_pairs_spec(s.drop_last()));
    }
}

/// Pair insertion adds exactly one occurrence of `x`.
proof fn lemma_sorted_insert_pair_multiset(x: (u64, u64), s: Seq<(u64, u64)>)
    ensures
        sorted_insert_pair(x, s).to_multiset() == s.to_multiset().insert(x),
    decreases s.len(),
{
    broadcast use vstd::multiset::group_multiset_axioms;

    if s.len() == 0 || x.0 <= s[0].0 {
        assert(sorted_insert_pair(x, s) =~= s.insert(0, x));
        vstd::seq_lib::to_multiset_insert(s, 0, x);
    } else {
        lemma_sorted_insert_pair_multiset(x, s.drop_first());
        let t = sorted_insert_pair(x, s.drop_first());
        assert(sorted_insert_pair(x, s) =~= t.insert(0, s[0]));
        vstd::seq_lib::to_multiset_insert(t, 0, s[0]);
        assert(s =~= s.drop_first().insert(0, s[0]));
        vstd::seq_lib::to_multiset_insert(s.drop_first(), 0, s[0]);
        assert(s.drop_first().to_multiset().insert(x).insert(s[0])
            =~= s.drop_first().to_multiset().insert(s[0]).insert(x));
    }
}

/// What the pair sort produces is a permutation of its input.
pub proof fn lemma_sort_pairs_spec_multiset(s: Seq<(u64, u64)>)
    ensures
        sort_pairs_spec(s).to_multiset() == s.to_multiset(),
    decreases s.len(),
{
    if s.len() == 0 {
        assert(s =~= Seq::<(u64, u64)>::empty());
    } else {
        lemma_sort_pairs_spec_multiset(s.drop_last());
        lemma_sorted_insert_pair_multiset(s.last(), sort_pairs_spec(s.drop_last()));
        assert(s =~= s.drop_last().insert(s.len() - 1, s.last()));
        vstd::seq_lib::to_multiset_insert(s.drop_last(), s.len() - 1, s.last());
    }
}

/// Inserting a pair at the first position whose price is not smaller is
/// what [`sorted_insert_pair`] does.
proof fn lemma_sorted_insert_pair_at(x: (u64, u64), s: Seq<(u64, u64)>, pos: int)
    requires
        0 <= pos <= s.len(),
        forall|j: int| 0 <= j < pos ==> s[j].0 < x.0,
        pos < s.len() ==> x.0 <= s[pos].0,
    ensures
        sorted_insert_pair(x, s) =~= s.insert(pos, x),
    decreases s.len(),
{
    if s.len() == 0 {
    } else if x.0 <= s[0].0 {
        assert(pos == 0);
    } else {
        lemma_sorted_insert_pair_at(x, s.drop_first(), pos - 1);
    }
}

/// Inserts a pair into a vector already sorted by price.
fn insert_sorted_pair(v: &mut Vec<(u64, u64)>, x: (u64, u64))
    ensures
        final(v)@ == sorted_insert_pair(x, old(v)@),
{
    let mut pos: usize = 0;
    while pos < v.len() && v[pos].0 < x.0
        invariant
            pos <= v@.len(),
            v@ == old(v)@,
            forall|j: int| 0 <= j < pos ==> v@[j].0 < x.0,
        decreases v@.len() - pos,
    {
        pos = pos + 1;
    }
    proof {
        lemma_sorted_insert_pair_at(x, v@, pos as int);
    }
    v.insert(pos, x);
}

/// Sorts (price, weight) pairs ascending by price; the result is exactly
/// [`sort_pairs_spec`] of the input.
pub fn sort_pairs(v: &Vec<(u64, u64)>) -> (r: Vec<(u64, u64)>)
    ensures
        r@ == sort_pairs_spec(v@),
{
    let mut out: Vec<(u64, u64)> = Vec::new();
    let mut i: usize = 0;
    while i < v.len()
        invariant
            i <= v@.len(),
            out@ == sort_pairs_spec(v@.subrange(0, i as int)),
        decreases v@.len() - i,
    {
        proof {
            assert(v@.subrange(0, i + 1 as int).drop_last() =~= v@.subrange(0, i as int));
            assert(v@.subrange(0, i + 1 as int).last() == v@[i as int]);
        }
        insert_sorted_pair(&mut out, v[i]);
        i = i + 1;
    }
    proof {
        assert(v@.subrange(0, v@.len() as int) =~= v@);
    }
    out
}

} // verus!
