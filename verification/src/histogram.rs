//! Bounded latency histograms: a dense array of `N` per-microsecond bucket
//! counters plus an overflow list for observations of `N` or more.
//!
//! The mathematical view of a histogram is the multiset of observations it
//! records ([`Histogram::recorded`]); adding, merging and enumeration are
//! all specified against that view.

use vstd::multiset::Multiset;
use vstd::pervasive::VecAdditionalExecFns;
use vstd::prelude::*;

verus! {

broadcast use vstd::seq_lib::group_to_multiset_ensures;

/// A multiset holding `n` copies of `v`.
pub open spec fn repeat_ms(v: usize, n: nat) -> Multiset<usize>
    decreases n,
{
    if n == 0 {
        Multiset::empty()
    } else {
        repeat_ms(v, (n - 1) as nat).insert(v)
    }
}

/// The observations recorded by the first `upto` dense buckets of `s`:
/// bucket `i` holds `s[i]` observations of the value `i`.
pub open spec fn dense_ms(s: Seq<usize>, upto: nat) -> Multiset<usize>
    decreases upto,
{
    if upto == 0 {
        Multiset::empty()
    } else {
        dense_ms(s, (upto - 1) as nat).add(repeat_ms((upto - 1) as usize, s[upto - 1] as nat))
    }
}

/// A sequence sorted in non-decreasing order.
pub open spec fn sorted(s: Seq<usize>) -> bool {
    forall|i: int, j: int| 0 <= i <= j < s.len() ==> s[i] <= s[j]
}

proof fn lemma_repeat_ms_count(v: usize, n: nat, w: usize)
    ensures
        repeat_ms(v, n).count(w) == if w == v {
            n
        } else {
            0nat
        },
    decreases n,
{
    if n > 0 {
        lemma_repeat_ms_count(v, (n - 1) as nat, w);
    }
}

/// Bucket `v` of the dense prefix holds exactly `s[v]` observations of `v`.
proof fn lemma_dense_ms_count(s: Seq<usize>, upto: nat, w: usize)
    requires
        upto <= s.len(),
        upto <= usize::MAX,
    ensures
        dense_ms(s, upto).count(w) == if (w as nat) < upto {
            s[w as int] as nat
        } else {
            0nat
        },
    decreases upto,
{
    if upto > 0 {
        lemma_dense_ms_count(s, (upto - 1) as nat, w);
        lemma_repeat_ms_count((upto - 1) as usize, s[upto - 1] as nat, w);
    }
}

/// Two dense prefixes of pointwise equal sequences record the same
/// observations.
proof fn lemma_dense_ms_congruence(s1: Seq<usize>, s2: Seq<usize>, upto: nat)
    requires
        upto <= s1.len(),
        upto <= s2.len(),
        forall|i: int| 0 <= i < upto ==> s1[i] == s2[i],
    ensures
        dense_ms(s1, upto) == dense_ms(s2, upto),
    decreases upto,
{
    if upto > 0 {
        lemma_dense_ms_congruence(s1, s2, (upto - 1) as nat);
    }
}

/// A histogram of `N` dense buckets: bucket `v` counts observations of the
/// value `v`, and values of `N` or more go to the overflow list, which is
/// kept sorted.
pub struct Histogram<const N: usize> {
    content: Vec<usize>,
    content_overflow: Vec<usize>,
}

impl<const N: usize> Histogram<N> {
    /// The dense bucket counters.
    pub closed spec fn counts(self) -> Seq<usize> {
        self.content@
    }

    /// The dense bucket counters as mathematical integers.
    pub open spec fn counts_int(self) -> Seq<int> {
        self.counts().map_values(|c: usize| c as int)
    }

    /// The overflow observations, in sorted order.
    pub closed spec fn overflow(self) -> Seq<usize> {
        self.content_overflow@
    }

    /// The overflow observations as a multiset.
    pub open spec fn overflow_ms(self) -> Multiset<usize> {
        self.overflow().to_multiset()
    }

    /// Internal invariant: `N` buckets, sorted overflow, and overflow values
    /// all at least `N`.
    pub open spec fn wf(self) -> bool {
        &&& self.counts().len() == N
        &&& sorted(self.overflow())
        &&& forall|i: int| 0 <= i < self.overflow().len() ==> self.overflow()[i] >= N
    }

    /// Every observation this histogram records, dense buckets and overflow
    /// together.
    pub open spec fn recorded(self) -> Multiset<usize> {
        dense_ms(self.counts(), N as nat).add(self.overflow_ms())
    }

    /// A fresh histogram recording nothing.
    pub fn new() -> (r: Self)
        ensures
            r.wf(),
            r.counts() =~= Seq::new(N as nat, |i: int| 0usize),
            r.counts_int() =~= zero_counts(N as nat),
            r.overflow() =~= Seq::<usize>::empty(),
            r.recorded() == Multiset::<usize>::empty(),
    {
        let mut content: Vec<usize> = Vec::new();
        let mut i: usize = 0;
        while i < N
            invariant
                i <= N,
                content@.len() == i,
                forall|j: int| 0 <= j < i ==> content@[j] == 0usize,
            decreases N - i,
        {
            content.push(0);
            i = i + 1;
        }
        let r = Histogram { content, content_overflow: Vec::new() };
        proof {
            assert forall|w: usize| r.recorded().count(w) == 0nat by {
                lemma_dense_ms_count(r.counts(), N as nat, w);
            }
            assert(r.recorded() =~= Multiset::<usize>::empty());
        }
        r
    }

    /// How many overflow observations the histogram holds.
    pub fn overflow_len(&self) -> (r: usize)
        ensures
            r == self.overflow().len(),
    {
        self.content_overflow.len()
    }

    /// The dense bucket counters: entry `v` is the number of observations
    /// of the value `v`.
    pub fn dense(&self) -> (r: &Vec<usize>)
        ensures
            r@ == self.counts(),
    {
        &self.content
    }

    /// Adds one observation to the histogram: values below `N` go to their
    /// dense bucket, the rest to the overflow list.
    pub fn add_value(&mut self, value: usize)
        requires
            old(self).wf(),
            value < N ==> old(self).counts()[value as int] < usize::MAX,
        ensures
            final(self).wf(),
            value < N ==> {
                &&& final(self).counts() == old(self).counts().update(
                    value as int,
                    (old(self).counts()[value as int] + 1) as usize,
                )
                &&& final(self).overflow() == old(self).overflow()
            },
            value >= N ==> {
                &&& final(self).counts() == old(self).counts()
                &&& final(self).overflow_ms() == old(self).overflow_ms().insert(value)
            },
            final(self).recorded() == old(self).recorded().insert(value),
    {
        if value >= N {
            sorted_insert(&mut self.content_overflow, value);
            proof {
                lemma_dense_ms_congruence(old(self).counts(), self.counts(), N as nat);
                assert forall|w: usize|
                    self.recorded().count(w) == old(self).recorded().insert(value).count(w) by {}
                assert(self.recorded() =~= old(self).recorded().insert(value));
            }
            return ;
        }
        let cur = self.content[value];
        self.content.set(value, cur + 1);
        proof {
            let s1 = old(self).counts();
            let s2 = self.counts();
            assert forall|w: usize|
                self.recorded().count(w) == old(self).recorded().insert(value).count(w) by {
                lemma_dense_ms_count(s1, N as nat, w);
                lemma_dense_ms_count(s2, N as nat, w);
            }
            assert(self.recorded() =~= old(self).recorded().insert(value));
        }
    }

    /// Run-length encodes the sorted overflow observations into
    /// `(value, count)` pairs with strictly increasing values; expanding the
    /// pairs gives back exactly the overflow observations.
    pub fn get_frequency_table_from_overflow(&self) -> (r: Vec<(usize, usize)>)
        requires
            self.wf(),
        ensures
            expand_pairs(r@) == self.overflow_ms(),
            forall|a: int, b: int| 0 <= a < b < r@.len() ==> r@[a].0 < r@[b].0,
            forall|j: int| 0 <= j < r@.len() ==> r@[j].1 >= 1,
            forall|j: int| 0 <= j < r@.len() ==> self.overflow().contains(r@[j].0),
    {
        let mut res: Vec<(usize, usize)> = Vec::new();
        let m = self.content_overflow.len();
        let mut i: usize = 0;
        while i < m
            invariant
                self.wf(),
                i <= m,
                m == self.overflow().len(),
                expand_pairs(res@) == self.overflow().subrange(0, i as int).to_multiset(),
                forall|a: int, b: int| 0 <= a < b < res@.len() ==> res@[a].0 < res@[b].0,
                forall|j: int| 0 <= j < res@.len() ==> 1 <= #[trigger] res@[j].1 <= i,
                i == 0 ==> res@.len() == 0,
                i > 0 ==> res@.len() > 0 && res@.last().0 == self.overflow()[i - 1],
                forall|j: int| 0 <= j < res@.len() ==> self.overflow().contains(res@[j].0),
            decreases m - i,
        {
            let v = self.content_overflow[i];
            let ghost pre = self.overflow().subrange(0, i as int);
            proof {
                assert(self.overflow().subrange(0, i + 1) =~= pre.push(v));
            }
            if res.len() > 0 && res[res.len() - 1].0 == v {
                let last = res.len() - 1;
                let c = res[last].1;
                let ghost old_res = res@;
                res.set(last, (v, c + 1));
                proof {
                    assert(res@.drop_last() =~= old_res.drop_last());
                    assert(res@.last() == (v, (c + 1) as usize));
                    assert(expand_pairs(res@) == expand_pairs(res@.drop_last()).add(
                        repeat_ms(v, (c + 1) as nat),
                    ));
                    assert(repeat_ms(v, (c + 1) as nat) == repeat_ms(v, c as nat).insert(v));
                    assert(expand_pairs(res@) =~= expand_pairs(old_res).insert(v));
                }
            } else {
                let ghost old_res = res@;
                res.push((v, 1));
                proof {
                    assert(res@.drop_last() =~= old_res);
                    assert(res@.last() == (v, 1usize));
                    assert(expand_pairs(res@) == expand_pairs(old_res).add(repeat_ms(v, 1)));
                    assert(repeat_ms(v, 0) == Multiset::<usize>::empty());
                    assert(repeat_ms(v, 1) == Multiset::<usize>::empty().insert(v));
                    assert(expand_pairs(res@) =~= expand_pairs(old_res).insert(v));
                }
            }
            i = i + 1;
        }
        proof {
            assert(self.overflow().subrange(0, m as int) =~= self.overflow());
        }
        res
    }

    /// Enumerates every non-empty bucket as `(value, count)` pairs: the
    /// dense buckets that hold at least one observation, in value order,
    /// then the run-length-encoded overflow. Expanding the pairs gives back
    /// exactly the recorded observations.
    pub fn enumerate_nonempty(&self) -> (r: Vec<(usize, usize)>)
        requires
            self.wf(),
        ensures
            expand_pairs(r@) == self.recorded(),
            forall|a: int, b: int| 0 <= a < b < r@.len() ==> r@[a].0 < r@[b].0,
            forall|j: int| 0 <= j < r@.len() ==> r@[j].1 >= 1,
    {
        let mut res: Vec<(usize, usize)> = Vec::new();
        let mut i: usize = 0;
        while i < N
            invariant
                self.wf(),
                i <= N,
                expand_pairs(res@) == dense_ms(self.counts(), i as nat),
                forall|a: int, b: int| 0 <= a < b < res@.len() ==> res@[a].0 < res@[b].0,
                forall|j: int| 0 <= j < res@.len() ==> res@[j].1 >= 1,
                forall|j: int| 0 <= j < res@.len() ==> res@[j].0 < i,
            decreases N - i,
        {
            let c = self.content[i];
            proof {
                assert(dense_ms(self.counts(), (i + 1) as nat) == dense_ms(
                    self.counts(),
                    i as nat,
                ).add(repeat_ms(i, c as nat)));
            }
            if c != 0 {
                let ghost old_res = res@;
                res.push((i, c));
                proof {
                    assert(res@.drop_last() =~= old_res);
                    assert(res@.last() == (i, c));
                    assert(expand_pairs(res@) == expand_pairs(old_res).add(repeat_ms(i, c as nat)));
                }
            } else {
                proof {
                    assert(repeat_ms(i, 0) == Multiset::<usize>::empty());
                    assert(expand_pairs(res@).add(Multiset::<usize>::empty()) =~= expand_pairs(
                        res@,
                    ));
                }
            }
            i = i + 1;
        }
        let table = self.get_frequency_table_from_overflow();
        let ghost dense_part = res@;
        let t = table.len();
        let mut j: usize = 0;
        while j < t
            invariant
                self.wf(),
                j <= t,
                t == table@.len(),
                expand_pairs(table@) == self.overflow_ms(),
                forall|a: int, b: int| 0 <= a < b < table@.len() ==> table@[a].0 < table@[b].0,
                forall|a: int| 0 <= a < table@.len() ==> table@[a].1 >= 1,
                forall|a: int| 0 <= a < table@.len() ==> self.overflow().contains(table@[a].0),
                res@ == dense_part + table@.subrange(0, j as int),
                forall|a: int, b: int| 0 <= a < b < dense_part.len() ==> dense_part[a].0
                    < dense_part[b].0,
                forall|a: int| 0 <= a < dense_part.len() ==> dense_part[a].0 < N,
                expand_pairs(res@) == dense_ms(self.counts(), N as nat).add(
                    expand_pairs(table@.subrange(0, j as int)),
                ),
                forall|a: int, b: int| 0 <= a < b < res@.len() ==> res@[a].0 < res@[b].0,
                forall|a: int| 0 <= a < res@.len() ==> res@[a].1 >= 1,
            decreases t - j,
        {
            let p = table[j];
            let ghost old_res = res@;
            res.push(p);
            proof {
                assert(res@.drop_last() =~= old_res);
                assert(res@.last() == p);
                assert(expand_pairs(res@) == expand_pairs(old_res).add(
                    repeat_ms(p.0, p.1 as nat),
                ));
                let sub1 = table@.subrange(0, j + 1);
                assert(sub1.drop_last() =~= table@.subrange(0, j as int));
                assert(sub1.last() == p);
                assert(expand_pairs(sub1) == expand_pairs(table@.subrange(0, j as int)).add(
                    repeat_ms(p.0, p.1 as nat),
                ));
                assert(dense_ms(self.counts(), N as nat).add(expand_pairs(sub1)) =~= expand_pairs(
                    old_res,
                ).add(repeat_ms(p.0, p.1 as nat)));
                assert(res@ =~= dense_part + sub1);
                // values stay strictly increasing across the boundary: dense
                // values are below N and overflow values at least N
                assert forall|a: int| 0 <= a < old_res.len() implies old_res[a].0 < p.0 by {
                    if a < dense_part.len() {
                        assert(old_res[a].0 < N);
                        let v0 = p.0;
                        assert(self.overflow().contains(v0));
                        assert(v0 >= N);
                    } else {
                        assert(old_res[a] == table@[a - dense_part.len()]);
                    }
                }
            }
            j = j + 1;
        }
        proof {
            assert(table@.subrange(0, t as int) =~= table@);
        }
        res
    }

    /// The largest observation the histogram records, or 0 when it records
    /// nothing.
    pub fn max_value(&self) -> (r: usize)
        requires
            self.wf(),
        ensures
            self.recorded() == Multiset::<usize>::empty() ==> r == 0,
            self.recorded() != Multiset::<usize>::empty() ==> self.recorded().count(r) > 0,
            forall|v: usize| self.recorded().count(v) > 0 ==> v <= r,
    {
        let m = self.content_overflow.len();
        if m > 0 {
            let r = self.content_overflow[m - 1];
            proof {
                assert(self.overflow().contains(r));
                assert(self.overflow_ms().count(r) > 0);
                assert(self.recorded().count(r) > 0);
                assert forall|v: usize| self.recorded().count(v) > 0 implies v <= r by {
                    lemma_dense_ms_count(self.counts(), N as nat, v);
                    if self.overflow_ms().count(v) > 0 {
                        assert(self.overflow().contains(v));
                        let k = choose|k: int|
                            0 <= k < self.overflow().len() && self.overflow()[k] == v;
                        assert(self.overflow()[k] <= self.overflow()[m - 1]);
                    } else {
                        assert(dense_ms(self.counts(), N as nat).count(v) > 0);
                        assert((v as nat) < N as nat);
                        assert(r >= N);
                    }
                }
            }
            return r;
        }
        let mut i: usize = N;
        while i > 0
            invariant
                self.wf(),
                i <= N,
                m == 0,
                self.overflow().len() == 0,
                forall|j: int| i <= j < N ==> self.counts()[j] == 0,
            decreases i,
        {
            if self.content[i - 1] != 0 {
                let r = i - 1;
                proof {
                    lemma_dense_ms_count(self.counts(), N as nat, r);
                    assert(self.overflow() =~= Seq::<usize>::empty());
                    assert(self.overflow_ms() =~= Multiset::<usize>::empty());
                    assert(self.recorded().count(r) > 0);
                    assert forall|v: usize| self.recorded().count(v) > 0 implies v <= r by {
                        lemma_dense_ms_count(self.counts(), N as nat, v);
                    }
                }
                return r;
            }
            i = i - 1;
        }
        proof {
            assert(self.overflow() =~= Seq::<usize>::empty());
            assert(self.overflow_ms() =~= Multiset::<usize>::empty());
            assert forall|v: usize| self.recorded().count(v) == 0nat by {
                lemma_dense_ms_count(self.counts(), N as nat, v);
            }
            assert(self.recorded() =~= Multiset::<usize>::empty());
        }
        0
    }

    /// Merges all observations of `other` into this histogram: dense
    /// buckets are summed pointwise and the overflow observations combined.
    pub fn add_data_from(&mut self, other: &Self)
        requires
            old(self).wf(),
            other.wf(),
            forall|i: int|
                0 <= i < N ==> old(self).counts()[i] + other.counts()[i] <= usize::MAX,
        ensures
            final(self).wf(),
            final(self).counts_int() == pointwise_sum(old(self).counts_int(), other.counts_int()),
            final(self).overflow_ms() == old(self).overflow_ms().add(other.overflow_ms()),
            final(self).recorded() == old(self).recorded().add(other.recorded()),
    {
        let mut i: usize = 0;
        while i < N
            invariant
                i <= N,
                self.counts().len() == N,
                other.wf(),
                self.content_overflow == old(self).content_overflow,
                forall|j: int|
                    0 <= j < N ==> old(self).counts()[j] + other.counts()[j] <= usize::MAX,
                forall|j: int|
                    0 <= j < i ==> self.counts()[j] == old(self).counts()[j] + other.counts()[j],
                forall|j: int| i <= j < N ==> self.counts()[j] == old(self).counts()[j],
            decreases N - i,
        {
            let sum = self.content[i] + other.content[i];
            self.content.set(i, sum);
            i = i + 1;
        }
        let ghost mid_counts = self.counts();
        let t = other.content_overflow.len();
        let mut j: usize = 0;
        while j < t
            invariant
                j <= t,
                t == other.overflow().len(),
                other.wf(),
                self.counts() == mid_counts,
                sorted(self.overflow()),
                forall|a: int| 0 <= a < self.overflow().len() ==> self.overflow()[a] >= N,
                self.overflow().to_multiset() == old(self).overflow_ms().add(
                    other.overflow().subrange(0, j as int).to_multiset(),
                ),
            decreases t - j,
        {
            let v = other.content_overflow[j];
            let ghost pre_ms = self.overflow().to_multiset();
            let ghost pre_seq = self.overflow();
            sorted_insert(&mut self.content_overflow, v);
            proof {
                assert forall|a: int| 0 <= a < self.overflow().len() implies self.overflow()[a]
                    >= N by {
                    assert(self.overflow()[a] == v || pre_seq.contains(self.overflow()[a]));
                }
                let subj = other.overflow().subrange(0, j as int);
                let subj1 = other.overflow().subrange(0, j + 1);
                assert(subj1 =~= subj.push(v));
                assert(self.overflow().to_multiset() =~= old(self).overflow_ms().add(
                    subj1.to_multiset(),
                ));
            }
            j = j + 1;
        }
        proof {
            assert(other.overflow().subrange(0, t as int) =~= other.overflow());
            // dense buckets: pointwise sums record the union of observations
            lemma_dense_ms_add(old(self).counts(), other.counts(), self.counts(), N as nat);
            assert(self.counts_int() =~= pointwise_sum(
                old(self).counts_int(),
                other.counts_int(),
            ));
            assert(self.recorded() =~= old(self).recorded().add(other.recorded()));
        }
    }
}


/// The observations named by a run-length-encoded `(value, count)` table.
pub open spec fn expand_pairs(pairs: Seq<(usize, usize)>) -> Multiset<usize>
    decreases pairs.len(),
{
    if pairs.len() == 0 {
        Multiset::empty()
    } else {
        expand_pairs(pairs.drop_last()).add(repeat_ms(pairs.last().0, pairs.last().1 as nat))
    }
}

/// Dense bucket rows summed pointwise.
pub open spec fn pointwise_sum(a: Seq<int>, b: Seq<int>) -> Seq<int> {
    Seq::new(a.len(), |i: int| a[i] + b[i])
}

/// The dense bucket row of a histogram that records nothing.
pub open spec fn zero_counts(len: nat) -> Seq<int> {
    Seq::new(len, |i: int| 0)
}

/// Summing pointwise dense rows records the union of their observations.
proof fn lemma_dense_ms_add(a: Seq<usize>, b: Seq<usize>, c: Seq<usize>, upto: nat)
    requires
        upto <= a.len(),
        upto <= b.len(),
        upto <= c.len(),
        upto <= usize::MAX,
        forall|i: int| 0 <= i < upto ==> c[i] == a[i] + b[i],
    ensures
        dense_ms(c, upto) == dense_ms(a, upto).add(dense_ms(b, upto)),
{
    assert forall|w: usize|
        dense_ms(c, upto).count(w) == dense_ms(a, upto).add(dense_ms(b, upto)).count(w) by {
        lemma_dense_ms_count(a, upto, w);
        lemma_dense_ms_count(b, upto, w);
        lemma_dense_ms_count(c, upto, w);
    }
    assert(dense_ms(c, upto) =~= dense_ms(a, upto).add(dense_ms(b, upto)));
}

/// Histogram merging is commutative: merging in either order leaves the
/// same dense bucket row and the same overflow observations.
pub proof fn lemma_merge_commutative(
    a: Seq<int>,
    b: Seq<int>,
    x: Multiset<usize>,
    y: Multiset<usize>,
)
    requires
        a.len() == b.len(),
    ensures
        pointwise_sum(a, b) == pointwise_sum(b, a),
        x.add(y) == y.add(x),
{
    assert(pointwise_sum(a, b) =~= pointwise_sum(b, a));
    assert(x.add(y) =~= y.add(x));
}

/// Histogram merging is associative: grouping does not change the dense
/// bucket row nor the overflow observations.
pub proof fn lemma_merge_associative(
    a: Seq<int>,
    b: Seq<int>,
    c: Seq<int>,
    x: Multiset<usize>,
    y: Multiset<usize>,
    z: Multiset<usize>,
)
    requires
        a.len() == b.len(),
        b.len() == c.len(),
    ensures
        pointwise_sum(pointwise_sum(a, b), c) == pointwise_sum(a, pointwise_sum(b, c)),
        x.add(y).add(z) == x.add(y.add(z)),
{
    assert(pointwise_sum(pointwise_sum(a, b), c) =~= pointwise_sum(a, pointwise_sum(b, c)));
    assert(x.add(y).add(z) =~= x.add(y.add(z)));
}

/// Merging a fresh histogram into another changes nothing.
pub proof fn lemma_merge_empty(a: Seq<int>, x: Multiset<usize>)
    ensures
        pointwise_sum(a, zero_counts(a.len())) == a,
        x.add(Multiset::<usize>::empty()) == x,
{
    assert(pointwise_sum(a, zero_counts(a.len())) =~= a);
    assert(x.add(Multiset::<usize>::empty()) =~= x);
}

/// The multiset a fresh histogram records after each value of `values` is
/// added in turn.
pub open spec fn inserted_all(values: Seq<usize>) -> Multiset<usize>
    decreases values.len(),
{
    if values.len() == 0 {
        Multiset::empty()
    } else {
        inserted_all(values.drop_last()).insert(values.last())
    }
}

/// Histogram round trip: adding every value of a collection to a fresh
/// histogram records exactly that collection, so enumerating the non-empty
/// buckets reproduces it.
pub proof fn lemma_histogram_round_trip(values: Seq<usize>)
    ensures
        inserted_all(values) == values.to_multiset(),
    decreases values.len(),
{
    broadcast use vstd::seq_lib::group_to_multiset_ensures;

    if values.len() > 0 {
        lemma_histogram_round_trip(values.drop_last());
        assert(values =~= values.drop_last().push(values.last()));
        assert(values.drop_last().push(values.last()).to_multiset() =~= values.drop_last()
            .to_multiset().insert(values.last()));
        assert(inserted_all(values) =~= values.to_multiset());
    }
}

/// Inserts `value` into the sorted vector `v`, keeping it sorted; the
/// contents grow by exactly that one value.
fn sorted_insert(v: &mut Vec<usize>, value: usize)
    requires
        sorted(old(v)@),
    ensures
        sorted(final(v)@),
        final(v)@.len() == old(v)@.len() + 1,
        final(v)@.to_multiset() == old(v)@.to_multiset().insert(value),
        forall|j: int|
            0 <= j < final(v)@.len() ==> (final(v)@[j] == value || old(v)@.contains(final(v)@[j])),
{
    let mut i: usize = 0;
    while i < v.len() && v[i] <= value
        invariant
            i <= v@.len(),
            forall|j: int| 0 <= j < i ==> v@[j] <= value,
        decreases v@.len() - i,
    {
        i = i + 1;
    }
    let ghost old_seq = v@;
    v.insert(i, value);
    proof {
        let t = v@;
        assert(t == old_seq.insert(i as int, value));
        assert forall|a: int, b: int| 0 <= a <= b < t.len() implies t[a] <= t[b] by {
            if a < i && b < i {
            } else if a >= i + 1 && b >= i + 1 {
                assert(t[a] == old_seq[a - 1] && t[b] == old_seq[b - 1]);
            } else if a == i {
                if b > i {
                    assert(t[b] == old_seq[b - 1] && old_seq[b - 1] > value);
                }
            } else {
                // a < i <= b
                assert(t[a] == old_seq[a] && old_seq[a] <= value);
                if b > i {
                    assert(t[b] == old_seq[b - 1]);
                    if b - 1 < i {
                    } else {
                        assert(old_seq[b - 1] > value);
                    }
                }
            }
        }
        lemma_seq_insert_to_multiset(old_seq, i as int, value);
    }
}

/// Inserting a value anywhere in a sequence inserts it into the sequence's
/// multiset.
proof fn lemma_seq_insert_to_multiset(s: Seq<usize>, i: int, value: usize)
    requires
        0 <= i <= s.len(),
    ensures
        s.insert(i, value).to_multiset() == s.to_multiset().insert(value),
{
    let t = s.insert(i, value);
    assert(t.remove(i) =~= s);
    assert(t[i] == value);
    assert(t.remove(i).to_multiset() =~= t.to_multiset().remove(value));
    assert(t.to_multiset().count(value) > 0) by {
        assert(t.contains(value));
    }
    assert forall|w: usize| t.to_multiset().count(w) == s.to_multiset().insert(value).count(w) by {
        if w == value {
            assert(s.to_multiset().count(w) == t.to_multiset().remove(value).count(w));
        } else {
            assert(s.to_multiset().count(w) == t.to_multiset().remove(value).count(w));
        }
    }
    assert(t.to_multiset() =~= s.to_multiset().insert(value));
}

} // verus!
