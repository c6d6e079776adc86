//! Power-of-two bucket histogram for dispatch latency in microseconds.

use vstd::prelude::*;

use crate::types::LatencyStats;

verus! {

// ── Mathematical model ───────────────────────────────────────────────────────

/// 2 to the power `e`.
pub open spec fn two_pow(e: nat) -> nat
    decreases e,
{
    if e == 0 {
        1
    } else {
        2 * two_pow((e - 1) as nat)
    }
}

/// The integer base-2 logarithm, rounded down; 0 for 0 and 1.
pub open spec fn ilog2(v: nat) -> nat
    decreases v,
{
    if v < 2 {
        0
    } else {
        1 + ilog2(v / 2)
    }
}

/// The bucket of a sample: bucket k holds the samples `us` with
/// `2^k <= us < 2^(k+1)`; bucket 0 also holds 0.
pub open spec fn bucket_of(us: u32) -> int {
    ilog2(us as nat) as int
}

/// The number of samples in bucket `k`.
pub open spec fn count_in_bucket(s: Seq<u32>, k: int) -> nat
    decreases s.len(),
{
    if s.len() == 0 {
        0
    } else {
        count_in_bucket(s.drop_last(), k) + if bucket_of(s.last()) == k {
            1nat
        } else {
            0nat
        }
    }
}

/// The number of samples in buckets `0..=k`.
pub open spec fn count_upto(s: Seq<u32>, k: int) -> nat
    decreases s.len(),
{
    if s.len() == 0 {
        0
    } else {
        count_upto(s.drop_last(), k) + if bucket_of(s.last()) <= k {
            1nat
        } else {
            0nat
        }
    }
}

/// The number of samples that are at most `bound`.
pub open spec fn count_at_most(s: Seq<u32>, bound: u32) -> nat
    decreases s.len(),
{
    if s.len() == 0 {
        0
    } else {
        count_at_most(s.drop_last(), bound) + if s.last() <= bound {
            1nat
        } else {
            0nat
        }
    }
}

/// The number of samples strictly below `bound`.
pub open spec fn count_below(s: Seq<u32>, bound: nat) -> nat
    decreases s.len(),
{
    if s.len() == 0 {
        0
    } else {
        count_below(s.drop_last(), bound) + if s.last() < bound {
            1nat
        } else {
            0nat
        }
    }
}

/// The smallest sample (`u32::MAX` for no samples).
pub open spec fn seq_min(s: Seq<u32>) -> u32
    decreases s.len(),
{
    if s.len() == 0 {
        u32::MAX
    } else {
        let m = seq_min(s.drop_last());
        if s.last() < m {
            s.last()
        } else {
            m
        }
    }
}

/// The largest sample (0 for no samples).
pub open spec fn seq_max(s: Seq<u32>) -> u32
    decreases s.len(),
{
    if s.len() == 0 {
        0
    } else {
        let m = seq_max(s.drop_last());
        if s.last() > m {
            s.last()
        } else {
            m
        }
    }
}

/// The number of samples that must fall at or below the 99th percentile:
/// 99% of `total`, rounded up.
pub open spec fn p99_threshold(total: nat) -> nat {
    (total * 99 + 99) / 100
}

/// The upper bound reported for bucket `i`: `2^(i+1)`, or `u32::MAX`
/// where that does not fit in 32 bits.
pub open spec fn bucket_upper(i: int) -> u32 {
    if i + 1 < 32 {
        two_pow((i + 1) as nat) as u32
    } else {
        u32::MAX
    }
}

/// The first bucket from `i` on whose cumulative count reaches `thr`
/// (64 where none does).
pub open spec fn first_bucket_reaching(s: Seq<u32>, thr: nat, i: int) -> int
    decreases 64 - i,
{
    if i >= 64 {
        64
    } else if count_upto(s, i) >= thr {
        i
    } else {
        first_bucket_reaching(s, thr, i + 1)
    }
}

/// The reported 99th percentile: the upper bound of the first bucket whose
/// cumulative count reaches 99% of the samples (0 for no samples).
pub open spec fn spec_p99(s: Seq<u32>) -> u32 {
    if s.len() == 0 {
        0
    } else {
        let i = first_bucket_reaching(s, p99_threshold(s.len()), 0);
        if i < 64 {
            bucket_upper(i)
        } else {
            seq_max(s)
        }
    }
}

/// The summary of a set of samples.
pub open spec fn spec_stats(s: Seq<u32>) -> LatencyStats {
    LatencyStats {
        min_us: if s.len() == 0 {
            0
        } else {
            seq_min(s)
        },
        max_us: if s.len() == 0 {
            0
        } else {
            seq_max(s)
        },
        p99_us: spec_p99(s),
    }
}

// ── Lemmas ───────────────────────────────────────────────────────────────────

proof fn lemma_push_drop_last(s: Seq<u32>, x: u32)
    ensures
        s.push(x).drop_last() == s,
        s.push(x).last() == x,
{
    assert(s.push(x).drop_last() =~= s);
}

/// Each bucket count is below the number of samples, and the counts of
/// buckets `0..=k` add up to the cumulative count.
proof fn lemma_count_upto_step(s: Seq<u32>, k: int)
    ensures
        count_upto(s, k) == count_upto(s, k - 1) + count_in_bucket(s, k),
        count_upto(s, k) <= s.len(),
        count_in_bucket(s, k) <= s.len(),
    decreases s.len(),
{
    if s.len() > 0 {
        lemma_count_upto_step(s.drop_last(), k);
    }
}

proof fn lemma_count_upto_all(s: Seq<u32>)
    requires
        forall|i: int| 0 <= i < s.len() ==> bucket_of(#[trigger] s[i]) <= 63,
    ensures
        count_upto(s, 63) == s.len(),
    decreases s.len(),
{
    if s.len() > 0 {
        let t = s.drop_last();
        assert forall|i: int| 0 <= i < t.len() implies bucket_of(#[trigger] t[i]) <= 63 by {
            assert(t[i] == s[i]);
        }
        lemma_count_upto_all(t);
        assert(s.last() == s[s.len() - 1]);
    }
}

proof fn lemma_ilog2_bound(v: nat)
    ensures
        v < two_pow(ilog2(v) + 1),
        v >= 1 ==> two_pow(ilog2(v)) <= v,
        v < two_pow(32) ==> ilog2(v) <= 31,
    decreases v,
{
    if v >= 2 {
        lemma_ilog2_bound(v / 2);
        if v < two_pow(32) {
            assert(two_pow(32) == 2 * two_pow(31));
            assert(v / 2 < two_pow(31));
            if ilog2(v / 2) > 30 {
                lemma_two_pow_mono((31) as nat, ilog2(v / 2));
                assert(false);
            }
        }
    } else {
        assert(two_pow(0) == 1);
        assert(two_pow(1) == 2);
        if v < two_pow(32) {
        }
    }
}

proof fn lemma_two_pow_mono(a: nat, b: nat)
    requires
        a <= b,
    ensures
        two_pow(a) <= two_pow(b),
        two_pow(a) >= 1,
    decreases b,
{
    if a < b {
        lemma_two_pow_mono(a, (b - 1) as nat);
    } else if a > 0 {
        lemma_two_pow_mono((a - 1) as nat, (a - 1) as nat);
    }
}

proof fn lemma_two_pow_32()
    ensures
        two_pow(31) == 0x8000_0000,
        two_pow(32) == 0x1_0000_0000,
{
    assert(two_pow(0) == 1);
    assert(two_pow(8) == 256) by {
        reveal_with_fuel(two_pow, 9);
    }
    assert(two_pow(16) == 65536) by {
        reveal_with_fuel(two_pow, 9);
    }
    assert(two_pow(24) == 0x100_0000) by {
        reveal_with_fuel(two_pow, 9);
    }
    assert(two_pow(31) == 0x8000_0000) by {
        reveal_with_fuel(two_pow, 9);
    }
    assert(two_pow(32) == 0x1_0000_0000) by {
        reveal_with_fuel(two_pow, 9);
    }
}

/// Every `u32` sample lies in one of the buckets `0..=31`.
proof fn lemma_bucket_of_range(us: u32)
    ensures
        0 <= bucket_of(us) <= 31,
{
    lemma_two_pow_32();
    lemma_ilog2_bound(us as nat);
}

proof fn lemma_count_upto_negative(s: Seq<u32>, k: int)
    requires
        k < 0,
    ensures
        count_upto(s, k) == 0,
    decreases s.len(),
{
    if s.len() > 0 {
        lemma_count_upto_negative(s.drop_last(), k);
    }
}

/// The samples in buckets `0..=i` are all at most the upper bound reported
/// for bucket `i`.
proof fn lemma_count_upto_at_most(s: Seq<u32>, i: int)
    requires
        0 <= i < 64,
    ensures
        count_upto(s, i) <= count_at_most(s, bucket_upper(i)),
    decreases s.len(),
{
    if s.len() > 0 {
        lemma_count_upto_at_most(s.drop_last(), i);
        let x = s.last();
        if bucket_of(x) <= i {
            lemma_ilog2_bound(x as nat);
            lemma_two_pow_32();
            if i + 1 < 32 {
                lemma_two_pow_mono(ilog2(x as nat) + 1, (i + 1) as nat);
                lemma_two_pow_mono((i + 1) as nat, 31);
            }
        }
    }
}

proof fn lemma_first_bucket_reaching(s: Seq<u32>, thr: nat, i: int)
    requires
        0 <= i <= 63,
        count_upto(s, 63) >= thr,
    ensures
        i <= first_bucket_reaching(s, thr, i) < 64,
        count_upto(s, first_bucket_reaching(s, thr, i)) >= thr,
    decreases 64 - i,
{
    if count_upto(s, i) < thr {
        lemma_first_bucket_reaching(s, thr, i + 1);
    }
}

proof fn lemma_all_in_buckets(s: Seq<u32>)
    ensures
        count_upto(s, 63) == s.len(),
{
    assert forall|i: int| 0 <= i < s.len() implies bucket_of(#[trigger] s[i]) <= 63 by {
        lemma_bucket_of_range(s[i]);
    }
    lemma_count_upto_all(s);
}

// ── Laws ─────────────────────────────────────────────────────────────────────

/// The reported minimum and maximum are samples, and every sample lies
/// between them.
pub proof fn lemma_min_max_bound_samples(s: Seq<u32>)
    requires
        s.len() > 0,
    ensures
        s.contains(seq_min(s)),
        s.contains(seq_max(s)),
        seq_min(s) <= seq_max(s),
        forall|i: int| 0 <= i < s.len() ==> seq_min(s) <= #[trigger] s[i] <= seq_max(s),
    decreases s.len(),
{
    let t = s.drop_last();
    assert(s.last() == s[s.len() - 1]);
    if t.len() > 0 {
        lemma_min_max_bound_samples(t);
        assert forall|i: int| 0 <= i < s.len() implies seq_min(s) <= #[trigger] s[i] <= seq_max(
            s,
        ) by {
            if i < t.len() {
                assert(t[i] == s[i]);
            }
        }
        let jmin = choose|j: int| 0 <= j < t.len() && t[j] == seq_min(t);
        let jmax = choose|j: int| 0 <= j < t.len() && t[j] == seq_max(t);
        assert(s[jmin] == t[jmin]);
        assert(s[jmax] == t[jmax]);
    } else {
        assert(s[0] == s.last());
    }
}

/// The reported 99th percentile is a ceiling: at least 99% of the samples
/// (rounded up) are at most that value.
pub proof fn lemma_p99_covers_99_percent(s: Seq<u32>)
    requires
        s.len() > 0,
    ensures
        count_at_most(s, spec_p99(s)) >= p99_threshold(s.len()),
{
    let thr = p99_threshold(s.len());
    assert(thr <= s.len());
    lemma_all_in_buckets(s);
    lemma_first_bucket_reaching(s, thr, 0);
    let i = first_bucket_reaching(s, thr, 0);
    lemma_count_upto_at_most(s, i);
}

/// Unless it is `u32::MAX`, the reported 99th percentile lies strictly
/// above at least 99% of the samples (rounded up).
pub proof fn lemma_p99_strictly_above_99_percent(s: Seq<u32>)
    requires
        s.len() > 0,
    ensures
        spec_p99(s) != u32::MAX ==> count_below(s, spec_p99(s) as nat) >= p99_threshold(s.len()),
{
    let thr = p99_threshold(s.len());
    assert(thr <= s.len());
    lemma_all_in_buckets(s);
    lemma_first_bucket_reaching(s, thr, 0);
    let i = first_bucket_reaching(s, thr, 0);
    lemma_two_pow_32();
    if i + 1 < 32 {
        lemma_two_pow_mono((i + 1) as nat, 31);
        assert(spec_p99(s) == two_pow((i + 1) as nat));
        lemma_count_below_two_pow(s, (i + 1) as nat);
    }
}

/// 99% of `n` samples, rounded up, is the least count `c` with
/// `100 * c >= 99 * n`.
proof fn lemma_p99_threshold_is_99_percent(n: nat, c: nat)
    ensures
        c >= p99_threshold(n) <==> c * 100 >= 99 * n,
{
    let t = p99_threshold(n);
    assert(t * 100 <= n * 99 + 99 && n * 99 + 99 < t * 100 + 100) by (nonlinear_arith)
        requires
            t == (n * 99 + 99) / 100,
    ;
    if c >= t {
        assert(c * 100 >= t * 100) by (nonlinear_arith)
            requires
                c >= t,
        ;
    } else {
        assert(c * 100 <= t * 100 - 100) by (nonlinear_arith)
            requires
                c < t,
        ;
    }
}

/// The 99th percentile of a non-empty sample sequence, in whole numbers:
/// at least 99% of the samples are at most it, and (unless it is
/// `u32::MAX`) strictly below it; and no smaller power of two from 2 on has
/// 99% of the samples below it.
pub proof fn lemma_p99_is_the_99th_percentile(s: Seq<u32>)
    requires
        s.len() > 0,
    ensures
        count_at_most(s, spec_p99(s)) * 100 >= 99 * s.len(),
        spec_p99(s) != u32::MAX ==> count_below(s, spec_p99(s) as nat) * 100 >= 99 * s.len(),
        forall|m: nat|
            1 <= m && #[trigger] two_pow(m) < spec_p99(s) ==> count_below(s, two_pow(m)) * 100 < 99
                * s.len(),
        (exists|j: nat| 1 <= j <= 31 && spec_p99(s) == two_pow(j)) || spec_p99(s) == u32::MAX,
{
    lemma_p99_covers_99_percent(s);
    lemma_p99_strictly_above_99_percent(s);
    lemma_p99_least_power_of_two(s);
    lemma_p99_threshold_is_99_percent(s.len(), count_at_most(s, spec_p99(s)));
    lemma_p99_threshold_is_99_percent(s.len(), count_below(s, spec_p99(s) as nat));
    assert forall|m: nat| 1 <= m && #[trigger] two_pow(m) < spec_p99(s) implies count_below(
        s,
        two_pow(m),
    ) * 100 < 99 * s.len() by {
        lemma_p99_threshold_is_99_percent(s.len(), count_below(s, two_pow(m)));
    }
}

/// The samples below `2^m` are exactly those in buckets `0..m`.
proof fn lemma_count_below_two_pow(s: Seq<u32>, m: nat)
    requires
        m >= 1,
    ensures
        count_below(s, two_pow(m)) == count_upto(s, m - 1),
    decreases s.len(),
{
    if s.len() > 0 {
        lemma_count_below_two_pow(s.drop_last(), m);
        let x = s.last();
        let b = ilog2(x as nat);
        lemma_ilog2_bound(x as nat);
        if b <= m - 1 {
            lemma_two_pow_mono(b + 1, m);
        } else {
            lemma_two_pow_mono(m, b);
        }
    }
}

/// No bucket before the first one that reaches `thr` reaches it.
proof fn lemma_before_first_bucket(s: Seq<u32>, thr: nat, i: int, j: int)
    requires
        0 <= i <= j < first_bucket_reaching(s, thr, i),
    ensures
        count_upto(s, j) < thr,
    decreases j - i,
{
    if j > i {
        lemma_before_first_bucket(s, thr, i + 1, j);
    }
}

/// The reported 99th percentile is a power of two between 2 and 2^31, or
/// `u32::MAX` for samples above 2^31, and no smaller power of two (from 2
/// on) has 99% of the samples (rounded up) below it: it is the least such
/// bound of the bucket scale.
pub proof fn lemma_p99_least_power_of_two(s: Seq<u32>)
    requires
        s.len() > 0,
    ensures
        (exists|j: nat| 1 <= j <= 31 && spec_p99(s) == two_pow(j)) || spec_p99(s) == u32::MAX,
        forall|m: nat|
            1 <= m && #[trigger] two_pow(m) < spec_p99(s) ==> count_below(s, two_pow(m))
                < p99_threshold(s.len()),
{
    let thr = p99_threshold(s.len());
    assert(thr <= s.len());
    lemma_all_in_buckets(s);
    lemma_first_bucket_reaching(s, thr, 0);
    let i = first_bucket_reaching(s, thr, 0);
    lemma_two_pow_32();
    if i + 1 < 32 {
        lemma_two_pow_mono((i + 1) as nat, 31);
        assert(spec_p99(s) == two_pow((i + 1) as nat));
    }
    assert forall|m: nat| 1 <= m && #[trigger] two_pow(m) < spec_p99(s) implies count_below(
        s,
        two_pow(m),
    ) < thr by {
        lemma_count_below_two_pow(s, m);
        if i + 1 < 32 {
            if m >= i + 1 {
                lemma_two_pow_mono((i + 1) as nat, m);
            }
        } else {
            if m >= 32 {
                lemma_two_pow_mono(32, m);
            }
        }
        lemma_before_first_bucket(s, thr, 0, m - 1);
    }
}

// ── The histogram ────────────────────────────────────────────────────────────

/// The bucket of a sample: the integer base-2 logarithm, 0 for 0.
fn bucket_index(us: u32) -> (k: usize)
    ensures
        k == bucket_of(us),
        k <= 31,
{
    proof {
        lemma_bucket_of_range(us);
    }
    let mut v = us;
    let mut k: usize = 0;
    while v >= 2
        invariant
            k + ilog2(v as nat) == ilog2(us as nat),
            ilog2(us as nat) <= 31,
        decreases v,
    {
        v = v / 2;
        k = k + 1;
    }
    k
}

/// `2^(i+1)`, or `u32::MAX` where that does not fit in 32 bits.
fn bucket_upper_bound(i: usize) -> (r: u32)
    requires
        i < 64,
    ensures
        r == bucket_upper(i as int),
{
    if i + 1 < 32 {
        proof {
            lemma_two_pow_32();
        }
        let mut p: u32 = 1;
        let mut j: usize = 0;
        while j < i + 1
            invariant
                j <= i + 1 < 32,
                p == two_pow(j as nat),
                two_pow(31) == 0x8000_0000,
            decreases i + 1 - j,
        {
            proof {
                lemma_two_pow_mono((j + 1) as nat, 31);
            }
            p = p * 2;
            j = j + 1;
        }
        p
    } else {
        u32::MAX
    }
}

/// Power-of-two bucket histogram for dispatch latency in microseconds.
///
/// Bucket k holds samples where `ilog2(us) == k` (i.e. `2^k <= us < 2^(k+1)`).
/// Bucket 0 collects values 0 and 1 us. The upper bound reported for bucket k
/// is `2^(k+1)`, giving log2-scale resolution.
pub struct LatencyHistogram {
    buckets: [u64; 64],
    total: u64,
    min_us: u32,
    max_us: u32,
    samples: Ghost<Seq<u32>>,
}

impl LatencyHistogram {
    #[verifier::type_invariant]
    spec fn inv(self) -> bool {
        &&& self.total == self.samples@.len()
        &&& forall|k: int| 0 <= k < 64 ==> self.buckets@[k] == count_in_bucket(self.samples@, k)
        &&& self.min_us == seq_min(self.samples@)
        &&& self.max_us == seq_max(self.samples@)
    }

    /// The samples recorded since the histogram was created or reset.
    pub closed spec fn samples(&self) -> Seq<u32> {
        self.samples@
    }
}

impl View for LatencyHistogram {
    type V = Seq<u32>;

    open spec fn view(&self) -> Seq<u32> {
        self.samples()
    }
}

impl LatencyHistogram {
    /// An empty histogram.
    pub fn new() -> (h: Self)
        ensures
            h@ == Seq::<u32>::empty(),
    {
        let h = LatencyHistogram {
            buckets: [0u64; 64],
            total: 0,
            min_us: u32::MAX,
            max_us: 0,
            samples: Ghost(Seq::empty()),
        };
        h
    }

    /// Records one latency sample.
    pub fn record(&mut self, us: u32)
        requires
            old(self)@.len() < u64::MAX,
        ensures
            final(self)@ == old(self)@.push(us),
    {
        proof {
            use_type_invariant(&*self);
        }
        let ghost s = self.samples@;
        let k = bucket_index(us);
        let k = if k < 63 {
            k
        } else {
            63
        };
        proof {
            lemma_count_upto_step(s, k as int);
        }
        let mut buckets = self.buckets;
        buckets[k] = buckets[k] + 1;
        let min_us = if us < self.min_us {
            us
        } else {
            self.min_us
        };
        let max_us = if us > self.max_us {
            us
        } else {
            self.max_us
        };
        let ghost t = s.push(us);
        proof {
            lemma_push_drop_last(s, us);
            assert forall|j: int| 0 <= j < 64 implies buckets@[j] == count_in_bucket(t, j) by {
                assert(t.drop_last() == s);
                assert(t.last() == us);
                if j != k {
                    assert(buckets@[j] == self.buckets@[j]);
                } else {
                    assert(buckets@[j] == self.buckets@[j] + 1);
                }
                assert(count_in_bucket(t, j) == count_in_bucket(s, j) + if bucket_of(us) == j {
                    1nat
                } else {
                    0nat
                });
            }
        }
        *self = LatencyHistogram {
            buckets,
            total: self.total + 1,
            min_us,
            max_us,
            samples: Ghost(t),
        };
    }

    /// Snapshot the current histogram into a [`LatencyStats`] value.
    pub fn to_stats(&self) -> (st: LatencyStats)
        requires
            self@.len() * 99 + 99 <= u64::MAX,
        ensures
            st == spec_stats(self@),
            self@.len() > 0 ==> count_at_most(self@, st.p99_us) * 100 >= 99 * self@.len(),
            self@.len() > 0 && st.p99_us != u32::MAX ==> count_below(self@, st.p99_us as nat)
                * 100 >= 99 * self@.len(),
            self@.len() > 0 ==> forall|m: nat|
                1 <= m && #[trigger] two_pow(m) < st.p99_us ==> count_below(self@, two_pow(m))
                    * 100 < 99 * self@.len(),
    {
        proof {
            use_type_invariant(self);
            if self@.len() > 0 {
                lemma_p99_is_the_99th_percentile(self@);
            }
        }
        LatencyStats {
            min_us: if self.total == 0 {
                0
            } else {
                self.min_us
            },
            max_us: if self.total == 0 {
                0
            } else {
                self.max_us
            },
            p99_us: self.p99_us(),
        }
    }

    /// Empties the histogram.
    pub fn reset(&mut self)
        ensures
            final(self)@ == Seq::<u32>::empty(),
    {
        *self = Self::new();
    }

    fn p99_us(&self) -> (r: u32)
        requires
            self@.len() * 99 + 99 <= u64::MAX,
        ensures
            r == spec_p99(self@),
    {
        proof {
            use_type_invariant(self);
        }
        if self.total == 0 {
            return 0;
        }
        let ghost s = self.samples@;
        // Ceiling 99th percentile: smallest bucket whose cumulative count
        // reaches 99% of the samples.
        let threshold = (self.total * 99 + 99) / 100;
        let mut cumulative: u64 = 0;
        let mut i: usize = 0;
        proof {
            lemma_count_upto_negative(s, -1);
        }
        while i < 64
            invariant
                0 <= i <= 64,
                s == self.samples@,
                s.len() == self.total,
                s.len() > 0,
                threshold == p99_threshold(s.len()),
                forall|k: int| 0 <= k < 64 ==> self.buckets@[k] == count_in_bucket(s, k),
                cumulative == count_upto(s, i - 1),
                first_bucket_reaching(s, threshold as nat, 0) == first_bucket_reaching(
                    s,
                    threshold as nat,
                    i as int,
                ),
                self.max_us == seq_max(s),
            decreases 64 - i,
        {
            proof {
                lemma_count_upto_step(s, i as int);
            }
            cumulative = cumulative + self.buckets[i];
            if cumulative >= threshold {
                return bucket_upper_bound(i);
            }
            i = i + 1;
        }
        self.max_us
    }
}

} // verus!
