use vstd::prelude::*;
use crate::models::{AggregatedSpot, RawSpot, merged, raw_key, rec_key, round_khz, seeded};

verus! {

/// Hard retention ceiling of the store, in milliseconds: records older than
/// this are removed by `purge_old_spots`.
pub const RETENTION_MS: u64 = 30 * 60 * 1000;

/// No two records of the sequence share a key.
pub open spec fn distinct_keys(s: Seq<AggregatedSpot>) -> bool {
    forall|i: int, j: int| 0 <= i < j < s.len() ==> rec_key(s[i]) != rec_key(s[j])
}

/// Index of the first record holding key `k`, or -1 when none does.
pub open spec fn index_of_key(s: Seq<AggregatedSpot>, k: (Seq<char>, int)) -> int
    decreases s.len(),
{
    if s.len() == 0 {
        -1
    } else if rec_key(s[0]) == k {
        0
    } else {
        let r = index_of_key(s.drop_first(), k);
        if r < 0 {
            -1
        } else {
            r + 1
        }
    }
}

pub proof fn lemma_index_of_key(s: Seq<AggregatedSpot>, k: (Seq<char>, int))
    ensures
        -1 <= index_of_key(s, k) < s.len(),
        index_of_key(s, k) == -1 <==> (forall|i: int|
            0 <= i < s.len() ==> rec_key(#[trigger] s[i]) != k),
        index_of_key(s, k) >= 0 ==> rec_key(s[index_of_key(s, k)]) == k,
        index_of_key(s, k) >= 0 ==> (forall|i: int|
            0 <= i < index_of_key(s, k) ==> rec_key(#[trigger] s[i]) != k),
    decreases s.len(),
{
    if s.len() == 0 {
    } else if rec_key(s[0]) == k {
    } else {
        let rest = s.drop_first();
        lemma_index_of_key(rest, k);
        let r = index_of_key(rest, k);
        if r < 0 {
            assert forall|i: int| 0 <= i < s.len() implies rec_key(#[trigger] s[i]) != k by {
                if i > 0 {
                    assert(rest[i - 1] == s[i]);
                }
            }
        } else {
            assert(rest[r] == s[r + 1]);
            assert forall|i: int| 0 <= i < r + 1 implies rec_key(#[trigger] s[i]) != k by {
                if i > 0 {
                    assert(rest[i - 1] == s[i]);
                }
            }
        }
    }
}

/// The store's contents after one observation is folded in: the record with
/// the observation's key is merged, or a new record is appended when the key
/// is new.
pub open spec fn store_after_add(s: Seq<AggregatedSpot>, raw: RawSpot, now_ms: u64) -> Seq<
    AggregatedSpot,
> {
    let i = index_of_key(s, raw_key(raw));
    if i >= 0 {
        s.update(i, merged(s[i], raw, now_ms))
    } else {
        s.push(seeded(raw, now_ms))
    }
}

/// The moment before which a record counts as stale, given the clock reading
/// and an age window.
pub open spec fn cutoff(now_ms: u64, age_ms: u64) -> int {
    if now_ms >= age_ms {
        now_ms - age_ms
    } else {
        0
    }
}

/// Records recent enough to survive a purge with the given cutoff.
pub open spec fn fresh_pred(cut: int) -> spec_fn(AggregatedSpot) -> bool {
    |r: AggregatedSpot| r.last_spotted_ms >= cut
}

/// Records that a filtered query keeps: strong enough and recent enough.
pub open spec fn pass_pred(min_snr: i32, cut: int) -> spec_fn(AggregatedSpot) -> bool {
    |r: AggregatedSpot| r.highest_snr >= min_snr && r.last_spotted_ms >= cut
}

/// Non-decreasing displayed frequency.
pub open spec fn sorted_by_freq(s: Seq<AggregatedSpot>) -> bool {
    forall|i: int, j: int|
        0 <= i <= j < s.len() ==> s[i].frequency_mkhz <= s[j].frequency_mkhz
}

/// Non-increasing timestamp: most recent first.
pub open spec fn sorted_by_recency(s: Seq<AggregatedSpot>) -> bool {
    forall|i: int, j: int|
        0 <= i <= j < s.len() ==> s[i].last_spotted_ms >= s[j].last_spotted_ms
}

/// Store of aggregated spots, keyed by target callsign and rounded
/// frequency.  Time never comes from a clock of its own: every operation
/// that needs one takes the caller's clock reading in milliseconds.
pub struct SpotStore {
    spots: Vec<AggregatedSpot>,
}

impl View for SpotStore {
    type V = Seq<AggregatedSpot>;

    closed spec fn view(&self) -> Seq<AggregatedSpot> {
        self.spots@
    }
}

impl SpotStore {
    pub open spec fn wf(self) -> bool {
        distinct_keys(self@)
    }

    pub fn new() -> (r: Self)
        ensures
            r@ == Seq::<AggregatedSpot>::empty(),
            r.wf(),
    {
        let r = SpotStore { spots: Vec::new() };
        proof {
            assert(r.spots@ =~= Seq::<AggregatedSpot>::empty());
        }
        r
    }

    /// Exact rounded-kilohertz key half of a frequency.
    fn round_khz_x(freq_mkhz: u64) -> (r: u64)
        ensures
            r as int == round_khz(freq_mkhz),
    {
        freq_mkhz / 1000 + if freq_mkhz % 1000 >= 500 {
            1
        } else {
            0
        }
    }

    /// Fold one observation in: merge it into the record with its key, or
    /// create that record when the key is new.
    pub fn add_spot(&mut self, raw: RawSpot, now_ms: u64)
        requires
            old(self).wf(),
        ensures
            final(self).wf(),
            final(self)@ == store_after_add(old(self)@, raw, now_ms),
    {
        let raw_round = Self::round_khz_x(raw.frequency_mkhz);
        let ghost k = raw_key(raw);
        let n = self.spots.len();
        let mut i: usize = 0;
        while i < n
            invariant
                n == self.spots.len(),
                i <= n,
                *self == *old(self),
                old(self).wf(),
                raw_round as int == round_khz(raw.frequency_mkhz),
                k == raw_key(raw),
                forall|j: int| 0 <= j < i ==> rec_key(#[trigger] self.spots@[j]) != k,
            decreases n - i,
        {
            let same_call = self.spots[i].spotted_callsign == raw.spotted_callsign;
            let same_round = Self::round_khz_x(self.spots[i].frequency_mkhz) == raw_round;
            if same_call && same_round {
                proof {
                    assert(self.spots@[i as int].spotted_callsign@ == raw.spotted_callsign@);
                    assert(round_khz(self.spots@[i as int].frequency_mkhz) == round_khz(
                        raw.frequency_mkhz,
                    ));
                    assert(rec_key(self.spots@[i as int]) == k);
                    lemma_index_of_key(self.spots@, k);
                    assert(index_of_key(self.spots@, k) == i as int);
                }
                let mut rec = self.spots.remove(i);
                rec.update(raw, now_ms);
                self.spots.insert(i, rec);
                proof {
                    assert(self.spots@ =~= old(self)@.update(
                        i as int,
                        merged(old(self)@[i as int], raw, now_ms),
                    ));
                    assert forall|a: int| 0 <= a < self.spots@.len() implies rec_key(
                        #[trigger] self.spots@[a],
                    ) == rec_key(old(self)@[a]) by {
                        if a != i as int {
                            assert(self.spots@[a] == old(self)@[a]);
                        }
                    }
                    assert(distinct_keys(self.spots@));
                }
                return ;
            }
            proof {
                if !same_call {
                    assert(self.spots@[i as int].spotted_callsign@ != raw.spotted_callsign@);
                } else {
                    assert(round_khz(self.spots@[i as int].frequency_mkhz) != round_khz(
                        raw.frequency_mkhz,
                    ));
                }
                assert(rec_key(self.spots@[i as int]) != k);
            }
            i += 1;
        }
        proof {
            lemma_index_of_key(self.spots@, k);
            assert(index_of_key(self.spots@, k) == -1);
        }
        let rec = AggregatedSpot::from_raw(raw, now_ms);
        proof {
            assert(rec_key(rec) == k);
        }
        self.spots.push(rec);
        proof {
            assert(forall|j: int|
                0 <= j < old(self)@.len() ==> #[trigger] self.spots@[j] == old(self)@[j]);
            assert(final(self).wf());
        }
    }

    /// Remove every record staler than the retention ceiling, measured from
    /// the given clock reading.
    pub fn purge_old_spots(&mut self, now_ms: u64)
        requires
            old(self).wf(),
        ensures
            final(self).wf(),
            final(self)@ == old(self)@.filter(fresh_pred(cutoff(now_ms, RETENTION_MS))),
    {
        let cut: u64 = if now_ms >= RETENTION_MS {
            now_ms - RETENTION_MS
        } else {
            0
        };
        let ghost p = fresh_pred(cutoff(now_ms, RETENTION_MS));
        let n = self.spots.len();
        let mut kept: Vec<AggregatedSpot> = Vec::new();
        proof {
            reveal(Seq::filter);
            assert(self.spots@.take(0) =~= Seq::<AggregatedSpot>::empty());
            assert(kept@ =~= self.spots@.take(0).filter(p));
        }
        let mut i: usize = 0;
        while i < n
            invariant
                n == self.spots.len(),
                i <= n,
                *self == *old(self),
                self.wf(),
                cut as int == cutoff(now_ms, RETENTION_MS),
                p == fresh_pred(cutoff(now_ms, RETENTION_MS)),
                kept@ == self.spots@.take(i as int).filter(p),
            decreases n - i,
        {
            let r = self.spots[i].clone();
            proof {
                let ghost pre = self.spots@.take(i as int);
                let ghost x = self.spots@[i as int];
                assert(self.spots@.take(i + 1) =~= pre.push(x));
                pre.lemma_filter_push(x, p);
                assert(p(x) == (x.last_spotted_ms >= cut));
            }
            if r.last_spotted_ms >= cut {
                kept.push(r);
            }
            i += 1;
        }
        proof {
            assert(self.spots@.take(n as int) =~= self.spots@);
        }
        self.spots = kept;
        proof {
            lemma_filter_distinct(old(self)@, p);
        }
    }

    /// Number of resident records, visible to queries or not.
    pub fn count(&self) -> (r: usize)
        ensures
            r == self@.len(),
    {
        self.spots.len()
    }

    /// Drop every record.
    pub fn clear(&mut self)
        ensures
            final(self)@ == Seq::<AggregatedSpot>::empty(),
            final(self).wf(),
    {
        self.spots.clear();
        proof {
            assert(self.spots@ =~= Seq::<AggregatedSpot>::empty());
        }
    }

    /// Every record at least `min_snr` strong and no older than `max_age_ms`
    /// at the given clock reading, in non-decreasing frequency order.
    pub fn get_filtered_spots(&self, min_snr: i32, max_age_ms: u64, now_ms: u64) -> (r: Vec<
        AggregatedSpot,
    >)
        ensures
            sorted_by_freq(r@),
            r@.to_multiset() == self@.filter(
                pass_pred(min_snr, cutoff(now_ms, max_age_ms)),
            ).to_multiset(),
            forall|k: int|
                0 <= k < r@.len() ==> pass_pred(min_snr, cutoff(now_ms, max_age_ms))(
                    #[trigger] r@[k],
                ) && self@.contains(r@[k]),
            forall|x: AggregatedSpot|
                self@.contains(x) && pass_pred(min_snr, cutoff(now_ms, max_age_ms))(x)
                    ==> r@.contains(x),
    {
        let cut: u64 = if now_ms >= max_age_ms {
            now_ms - max_age_ms
        } else {
            0
        };
        let ghost p = pass_pred(min_snr, cutoff(now_ms, max_age_ms));
        let n = self.spots.len();
        let mut out: Vec<AggregatedSpot> = Vec::new();
        proof {
            reveal(Seq::filter);
            assert(self.spots@.take(0) =~= Seq::<AggregatedSpot>::empty());
            assert(out@ =~= self.spots@.take(0).filter(p));
        }
        let mut i: usize = 0;
        while i < n
            invariant
                n == self.spots.len(),
                i <= n,
                cut as int == cutoff(now_ms, max_age_ms),
                p == pass_pred(min_snr, cutoff(now_ms, max_age_ms)),
                sorted_by_freq(out@),
                out@.to_multiset() == self.spots@.take(i as int).filter(p).to_multiset(),
            decreases n - i,
        {
            let r = self.spots[i].clone();
            proof {
                let ghost pre = self.spots@.take(i as int);
                let ghost x = self.spots@[i as int];
                assert(self.spots@.take(i + 1) =~= pre.push(x));
                pre.lemma_filter_push(x, p);
                vstd::seq_lib::to_multiset_build(pre.filter(p), x);
                assert(p(x) == (x.highest_snr >= min_snr && x.last_spotted_ms >= cut));
            }
            if r.highest_snr >= min_snr && r.last_spotted_ms >= cut {
                insert_by_freq(&mut out, r);
            }
            i += 1;
        }
        proof {
            assert(self.spots@.take(n as int) =~= self.spots@);
            lemma_query_membership(out@, self.spots@, p);
        }
        out
    }

    /// All resident records in non-decreasing frequency order.
    pub fn get_spots_by_frequency(&self) -> (r: Vec<AggregatedSpot>)
        ensures
            sorted_by_freq(r@),
            r@.to_multiset() == self@.to_multiset(),
    {
        let n = self.spots.len();
        let mut out: Vec<AggregatedSpot> = Vec::new();
        proof {
            assert(out@ =~= self.spots@.take(0));
        }
        let mut i: usize = 0;
        while i < n
            invariant
                n == self.spots.len(),
                i <= n,
                sorted_by_freq(out@),
                out@.to_multiset() == self.spots@.take(i as int).to_multiset(),
            decreases n - i,
        {
            let r = self.spots[i].clone();
            proof {
                let ghost pre = self.spots@.take(i as int);
                let ghost x = self.spots@[i as int];
                assert(self.spots@.take(i + 1) =~= pre.push(x));
                vstd::seq_lib::to_multiset_build(pre, x);
            }
            insert_by_freq(&mut out, r);
            i += 1;
        }
        proof {
            assert(self.spots@.take(n as int) =~= self.spots@);
        }
        out
    }

    /// All resident records, most recently updated first.
    pub fn get_spots_by_recency(&self) -> (r: Vec<AggregatedSpot>)
        ensures
            sorted_by_recency(r@),
            r@.to_multiset() == self@.to_multiset(),
    {
        let n = self.spots.len();
        let mut out: Vec<AggregatedSpot> = Vec::new();
        proof {
            assert(out@ =~= self.spots@.take(0));
        }
        let mut i: usize = 0;
        while i < n
            invariant
                n == self.spots.len(),
                i <= n,
                sorted_by_recency(out@),
                out@.to_multiset() == self.spots@.take(i as int).to_multiset(),
            decreases n - i,
        {
            let r = self.spots[i].clone();
            proof {
                let ghost pre = self.spots@.take(i as int);
                let ghost x = self.spots@[i as int];
                assert(self.spots@.take(i + 1) =~= pre.push(x));
                vstd::seq_lib::to_multiset_build(pre, x);
            }
            insert_by_recency(&mut out, r);
            i += 1;
        }
        proof {
            assert(self.spots@.take(n as int) =~= self.spots@);
        }
        out
    }
}

/// Every element of a filtered sequence stands somewhere in the original.
proof fn lemma_filter_elem_index(s: Seq<AggregatedSpot>, p: spec_fn(AggregatedSpot) -> bool, i: int)
    requires
        0 <= i < s.filter(p).len(),
    ensures
        exists|w: int| 0 <= w < s.len() && s[w] == s.filter(p)[i],
    decreases s.len(),
{
    reveal(Seq::filter);
    if s.len() > 0 {
        let rest = s.drop_last();
        let g = rest.filter(p);
        if p(s.last()) && i == g.len() {
            assert(s[s.len() - 1] == s.filter(p)[i]);
        } else {
            lemma_filter_elem_index(rest, p, i);
            let w = choose|w: int| 0 <= w < rest.len() && rest[w] == g[i];
            assert(s[w] == s.filter(p)[i]);
        }
    }
}

/// Filtering a sequence with pairwise-distinct keys keeps the keys
/// pairwise distinct.
proof fn lemma_filter_distinct(s: Seq<AggregatedSpot>, p: spec_fn(AggregatedSpot) -> bool)
    requires
        distinct_keys(s),
    ensures
        distinct_keys(s.filter(p)),
    decreases s.len(),
{
    reveal(Seq::filter);
    if s.len() > 0 {
        let rest = s.drop_last();
        assert(forall|i: int| 0 <= i < rest.len() ==> #[trigger] rest[i] == s[i]);
        assert(forall|i: int, j: int|
            0 <= i < j < rest.len() ==> rec_key(#[trigger] rest[i]) != rec_key(#[trigger] rest[j]));
        lemma_filter_distinct(rest, p);
        let g = rest.filter(p);
        if p(s.last()) {
            let f = g.push(s.last());
            assert(s.filter(p) == f);
            assert forall|i: int, j: int| 0 <= i < j < f.len() implies rec_key(f[i]) != rec_key(
                f[j],
            ) by {
                if j < f.len() - 1 {
                    assert(f[i] == g[i]);
                    assert(f[j] == g[j]);
                } else {
                    assert(f[i] == g[i]);
                    lemma_filter_elem_index(rest, p, i);
                    let w = choose|w: int| 0 <= w < rest.len() && rest[w] == g[i];
                    assert(s[w] == rest[w]);
                    assert(rec_key(s[w]) != rec_key(s[s.len() - 1]));
                    assert(f[j] == s[s.len() - 1]);
                }
            }
        } else {
            assert(s.filter(p) == g);
        }
    } else {
        assert(s.filter(p) =~= s);
    }
}

/// Place `x` into a frequency-sorted vector, keeping it sorted; one record
/// is added and none is lost or changed.
fn insert_by_freq(out: &mut Vec<AggregatedSpot>, x: AggregatedSpot)
    requires
        sorted_by_freq(old(out)@),
    ensures
        sorted_by_freq(final(out)@),
        final(out)@.to_multiset() == old(out)@.to_multiset().insert(x),
{
    let mut j: usize = 0;
    while j < out.len() && out[j].frequency_mkhz <= x.frequency_mkhz
        invariant
            *out == *old(out),
            j <= out.len(),
            forall|k: int| 0 <= k < j ==> #[trigger] out@[k].frequency_mkhz <= x.frequency_mkhz,
        decreases out.len() - j,
    {
        j += 1;
    }
    proof {
        old(out)@.insert_ensures(j as int, x);
        vstd::seq_lib::to_multiset_insert(old(out)@, j as int, x);
    }
    out.insert(j, x);
    proof {
        let s_old = old(out)@;
        let s_new = out@;
        assert forall|a: int, b: int|
            0 <= a <= b < s_new.len() implies s_new[a].frequency_mkhz
            <= s_new[b].frequency_mkhz by {
            if a < (j as int) {
                assert(s_new[a] == s_old[a]);
            }
            if b < (j as int) {
                assert(s_new[b] == s_old[b]);
            }
            if (j as int) < a {
                assert(s_new[a] == s_old[a - 1]);
            }
            if (j as int) < b {
                assert(s_new[b] == s_old[b - 1]);
            }
        }
    }
}

/// Place `x` into a recency-sorted vector, keeping it sorted; one record is
/// added and none is lost or changed.
fn insert_by_recency(out: &mut Vec<AggregatedSpot>, x: AggregatedSpot)
    requires
        sorted_by_recency(old(out)@),
    ensures
        sorted_by_recency(final(out)@),
        final(out)@.to_multiset() == old(out)@.to_multiset().insert(x),
{
    let mut j: usize = 0;
    while j < out.len() && out[j].last_spotted_ms >= x.last_spotted_ms
        invariant
            *out == *old(out),
            j <= out.len(),
            forall|k: int| 0 <= k < j ==> #[trigger] out@[k].last_spotted_ms >= x.last_spotted_ms,
        decreases out.len() - j,
    {
        j += 1;
    }
    proof {
        old(out)@.insert_ensures(j as int, x);
        vstd::seq_lib::to_multiset_insert(old(out)@, j as int, x);
    }
    out.insert(j, x);
    proof {
        let s_old = old(out)@;
        let s_new = out@;
        assert forall|a: int, b: int|
            0 <= a <= b < s_new.len() implies s_new[a].last_spotted_ms
            >= s_new[b].last_spotted_ms by {
            if a < (j as int) {
                assert(s_new[a] == s_old[a]);
            }
            if b < (j as int) {
                assert(s_new[b] == s_old[b]);
            }
            if (j as int) < a {
                assert(s_new[a] == s_old[a - 1]);
            }
            if (j as int) < b {
                assert(s_new[b] == s_old[b - 1]);
            }
        }
    }
}

/// What a query's multiset contract means for single records: everything
/// returned passes the filter and lives in the store, and every resident
/// record that passes the filter is returned.
pub proof fn lemma_query_membership(
    res: Seq<AggregatedSpot>,
    s: Seq<AggregatedSpot>,
    p: spec_fn(AggregatedSpot) -> bool,
)
    requires
        res.to_multiset() == s.filter(p).to_multiset(),
    ensures
        forall|k: int| 0 <= k < res.len() ==> p(#[trigger] res[k]) && s.contains(res[k]),
        forall|x: AggregatedSpot| s.contains(x) && p(x) ==> res.contains(x),
{
    let f = s.filter(p);
    assert forall|k: int| 0 <= k < res.len() implies p(#[trigger] res[k]) && s.contains(
        res[k],
    ) by {
        assert(res.contains(res[k]));
        vstd::seq_lib::to_multiset_contains(res, res[k]);
        vstd::seq_lib::to_multiset_contains(f, res[k]);
        assert(f.contains(res[k]));
        let w = choose|w: int| 0 <= w < f.len() && f[w] == res[k];
        s.lemma_filter_pred(p, w);
        lemma_filter_elem_index(s, p, w);
        let u = choose|u: int| 0 <= u < s.len() && s[u] == f[w];
        assert(s.contains(res[k]));
    }
    assert forall|x: AggregatedSpot| s.contains(x) && p(x) implies res.contains(x) by {
        let u = choose|u: int| 0 <= u < s.len() && s[u] == x;
        s.lemma_filter_contains(p, u);
        vstd::seq_lib::to_multiset_contains(f, x);
        vstd::seq_lib::to_multiset_contains(res, x);
    }
}

/// Adding two observations for one previously absent key, in either order,
/// leaves a single record whose SNR is the larger of the two.
pub proof fn lemma_add_twice_same_key(s: Seq<AggregatedSpot>, a: RawSpot, b: RawSpot, t1: u64, t2: u64)
    requires
        raw_key(a) == raw_key(b),
        forall|i: int| 0 <= i < s.len() ==> rec_key(#[trigger] s[i]) != raw_key(a),
    ensures
        store_after_add(store_after_add(s, a, t1), b, t2) == s.push(
            merged(seeded(a, t1), b, t2),
        ),
        merged(seeded(a, t1), b, t2).highest_snr == if a.snr >= b.snr {
            a.snr
        } else {
            b.snr
        },
{
    lemma_index_of_key(s, raw_key(a));
    let s1 = s.push(seeded(a, t1));
    assert(store_after_add(s, a, t1) == s1);
    assert(rec_key(seeded(a, t1)) == raw_key(b));
    lemma_index_of_key(s1, raw_key(b));
    assert(forall|i: int| 0 <= i < s.len() ==> #[trigger] s1[i] == s[i]);
    assert(rec_key(s1[s.len() as int]) == raw_key(b));
    assert(index_of_key(s1, raw_key(b)) == s.len());
    assert(s1.update(s.len() as int, merged(seeded(a, t1), b, t2)) =~= s.push(
        merged(seeded(a, t1), b, t2),
    ));
}

} // verus!
