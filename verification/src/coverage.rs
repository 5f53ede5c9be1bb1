//! Edge-coverage accounting.
//!
//! Executed control-flow edges are tallied in a dense array of 65536 cells.
//! Raw hit counts are log-bucketed into `1..=8`; on every capture the
//! bucketed array is diffed against the previous capture, the difference is
//! reported as a delta, and the arrays shift (previous takes the bucketed
//! current, current restarts at zero). A 64-bit SimHash over the cumulative
//! bucketed map serves as a similarity key between captured states.

use vstd::prelude::*;

use crate::source_id::mul_wrap;

verus! {

pub const EDGE_MAP_SIZE: usize = 65536;

pub type EdgeIndex = u32;

pub type EdgeBucket = u8;

/// Log-bucketing of a raw hit count: identity on `0..=3`, then
/// `min(floor(log2(n)) + 1, 8)`.
pub open spec fn spec_bucket(n: u8) -> u8 {
    if n <= 3 {
        n
    } else if n < 8 {
        3
    } else if n < 16 {
        4
    } else if n < 32 {
        5
    } else if n < 64 {
        6
    } else if n < 128 {
        7
    } else {
        8
    }
}

pub fn bucket(n: u8) -> (r: u8)
    ensures
        r == spec_bucket(n),
{
    if n <= 3 {
        n
    } else if n < 8 {
        3
    } else if n < 16 {
        4
    } else if n < 32 {
        5
    } else if n < 64 {
        6
    } else if n < 128 {
        7
    } else {
        8
    }
}

/// The set of cells whose bucket changed, in index order, with the new bucket.
pub open spec fn spec_delta_prefix(previous: Seq<u8>, current: Seq<u8>, n: int) -> Seq<(u32, u8)>
    decreases n,
{
    if n <= 0 {
        Seq::empty()
    } else if previous[n - 1] != current[n - 1] {
        spec_delta_prefix(previous, current, n - 1).push(((n - 1) as u32, current[n - 1]))
    } else {
        spec_delta_prefix(previous, current, n - 1)
    }
}

pub open spec fn spec_delta(previous: Seq<u8>, current: Seq<u8>) -> Seq<(u32, u8)> {
    spec_delta_prefix(previous, current, current.len() as int)
}

/// Overwrite the listed cells of `base` with their new buckets.
pub open spec fn spec_apply_delta(base: Seq<u8>, delta: Seq<(u32, u8)>) -> Seq<u8>
    decreases delta.len(),
{
    if delta.len() == 0 {
        base
    } else {
        let rest = spec_apply_delta(base, delta.drop_last());
        let (i, b) = delta.last();
        if i < rest.len() {
            rest.update(i as int, b)
        } else {
            rest
        }
    }
}

/// Both edge arrays, as held between captures. `previous` is the cumulative
/// bucketed map of the last capture; `current` collects raw hits since then.
pub struct EdgeMaps {
    pub previous: Vec<u8>,
    pub current: Vec<u8>,
}

impl EdgeMaps {
    pub open spec fn wf(&self) -> bool {
        &&& self.previous@.len() == EDGE_MAP_SIZE
        &&& self.current@.len() == EDGE_MAP_SIZE
    }

    pub fn new() -> (r: EdgeMaps)
        ensures
            r.wf(),
            forall|i: int| 0 <= i < EDGE_MAP_SIZE ==> r.previous@[i] == 0 && r.current@[i] == 0,
    {
        let mut previous: Vec<u8> = Vec::new();
        let mut current: Vec<u8> = Vec::new();
        previous.resize(EDGE_MAP_SIZE, 0);
        current.resize(EDGE_MAP_SIZE, 0);
        EdgeMaps { previous, current }
    }

    /// One capture: bucket the raw hits, diff against the previous capture,
    /// shift the arrays, and hand back the delta.
    pub fn capture(&mut self) -> (delta: Vec<(EdgeIndex, EdgeBucket)>)
        requires
            old(self).wf(),
        ensures
            final(self).wf(),
            final(self).previous@ == old(self).current@.map_values(|n: u8| spec_bucket(n)),
            forall|i: int| 0 <= i < EDGE_MAP_SIZE ==> final(self).current@[i] == 0,
            delta@ == spec_delta(old(self).previous@, final(self).previous@),
    {
        let ghost raw = self.current@;
        let mut bucketed: Vec<u8> = Vec::new();
        let mut i: usize = 0;
        while i < EDGE_MAP_SIZE
            invariant
                self.current@ == raw,
                raw.len() == EDGE_MAP_SIZE,
                i <= EDGE_MAP_SIZE,
                bucketed@.len() == i as int,
                forall|j: int| 0 <= j < i as int ==> bucketed@[j] == spec_bucket(raw[j]),
            decreases EDGE_MAP_SIZE - i,
        {
            bucketed.push(bucket(self.current[i]));
            i = i + 1;
        }
        proof {
            assert(bucketed@ =~= raw.map_values(|n: u8| spec_bucket(n)));
        }

        let mut delta: Vec<(EdgeIndex, EdgeBucket)> = Vec::new();
        let mut i: usize = 0;
        while i < EDGE_MAP_SIZE
            invariant
                self.previous@.len() == EDGE_MAP_SIZE,
                bucketed@.len() == EDGE_MAP_SIZE,
                i <= EDGE_MAP_SIZE,
                delta@ == spec_delta_prefix(self.previous@, bucketed@, i as int),
            decreases EDGE_MAP_SIZE - i,
        {
            if self.previous[i] != bucketed[i] {
                delta.push((i as u32, bucketed[i]));
            }
            i = i + 1;
        }

        self.previous = bucketed;
        let mut zeros: Vec<u8> = Vec::new();
        zeros.resize(EDGE_MAP_SIZE, 0);
        self.current = zeros;
        delta
    }
}

/// Replay a delta on top of an older map.
pub fn apply_delta(base: &Vec<u8>, delta: &Vec<(EdgeIndex, EdgeBucket)>) -> (r: Vec<u8>)
    ensures
        r@ == spec_apply_delta(base@, delta@),
{
    let mut r: Vec<u8> = Vec::new();
    let mut i: usize = 0;
    while i < base.len()
        invariant
            i <= base@.len(),
            r@.len() == i as int,
            forall|j: int| 0 <= j < i as int ==> r@[j] == base@[j],
        decreases base@.len() - i,
    {
        r.push(base[i]);
        i = i + 1;
    }
    assert(r@ =~= base@);
    assert(r@ == spec_apply_delta(base@, delta@.take(0)));

    let mut k: usize = 0;
    while k < delta.len()
        invariant
            k <= delta@.len(),
            r@ == spec_apply_delta(base@, delta@.take(k as int)),
        decreases delta@.len() - k,
    {
        let (i, b) = delta[k];
        proof {
            assert(delta@.take(k as int + 1).drop_last() =~= delta@.take(k as int));
            assert(delta@.take(k as int + 1).last() == delta@[k as int]);
        }
        if (i as usize) < r.len() {
            r.set(i as usize, b);
        }
        k = k + 1;
    }
    proof {
        assert(delta@.take(delta@.len() as int) =~= delta@);
    }
    r
}

/// Coverage delta round-trip: the delta of a capture, applied to the
/// previous bucketed map, reconstructs the bucketed current map exactly.
pub proof fn lemma_delta_round_trip(previous: Seq<u8>, current: Seq<u8>)
    requires
        previous.len() == current.len(),
        current.len() <= 0x1_0000_0000,
    ensures
        spec_apply_delta(previous, spec_delta(previous, current)) =~= current,
{
    lemma_delta_round_trip_prefix(previous, current, current.len() as int);
    assert(spec_apply_delta(previous, spec_delta(previous, current)) =~= current);
}

/// After replaying the delta of the first `n` cells, those cells match
/// `current` and the rest still match `previous`.
proof fn lemma_delta_round_trip_prefix(previous: Seq<u8>, current: Seq<u8>, n: int)
    requires
        previous.len() == current.len(),
        current.len() <= 0x1_0000_0000,
        0 <= n <= current.len(),
    ensures
        spec_apply_delta(previous, spec_delta_prefix(previous, current, n)).len()
            == previous.len(),
        forall|i: int|
            0 <= i < n ==> spec_apply_delta(previous, spec_delta_prefix(previous, current, n))[i]
                == current[i],
        forall|i: int|
            n <= i < previous.len() ==> spec_apply_delta(
                previous,
                spec_delta_prefix(previous, current, n),
            )[i] == previous[i],
    decreases n,
{
    if n > 0 {
        lemma_delta_round_trip_prefix(previous, current, n - 1);
        let d = spec_delta_prefix(previous, current, n);
        let dprev = spec_delta_prefix(previous, current, n - 1);
        let applied_prev = spec_apply_delta(previous, dprev);
        if previous[n - 1] != current[n - 1] {
            assert(d.drop_last() =~= dprev);
            assert(d.last() == (((n - 1) as u32), current[n - 1]));
            assert(((n - 1) as u32) as int == n - 1);
            assert(spec_apply_delta(previous, d) == applied_prev.update(n - 1, current[n - 1]));
        } else {
            assert(spec_apply_delta(previous, d) == applied_prev);
            assert(applied_prev[n - 1] == previous[n - 1]);
        }
    }
}

/// Per-cell maximum merge of a delta into the run-global map.
pub fn merge_max(global: &mut Vec<u8>, delta: &Vec<(EdgeIndex, EdgeBucket)>)
    ensures
        final(global)@.len() == old(global)@.len(),
        forall|i: int|
            0 <= i < final(global)@.len() ==> final(global)@[i] == spec_merged(old(global)@, delta@, i),
{
    let ghost orig = global@;
    let mut k: usize = 0;
    while k < delta.len()
        invariant
            global@.len() == orig.len(),
            k <= delta@.len(),
            forall|i: int|
                0 <= i < global@.len() ==> global@[i] == spec_merged(orig, delta@.take(k as int), i),
        decreases delta@.len() - k,
    {
        let (i, b) = delta[k];
        proof {
            assert(delta@.take(k as int + 1).drop_last() =~= delta@.take(k as int));
            assert(delta@.take(k as int + 1).last() == delta@[k as int]);
        }
        if (i as usize) < global.len() {
            if global[i as usize] < b {
                global.set(i as usize, b);
            }
        }
        k = k + 1;
    }
    proof {
        assert(delta@.take(delta@.len() as int) =~= delta@);
    }
}

/// The value of cell `i` after folding a delta into `base` by per-cell max.
pub open spec fn spec_merged(base: Seq<u8>, delta: Seq<(u32, u8)>, i: int) -> u8
    decreases delta.len(),
{
    if delta.len() == 0 {
        if 0 <= i < base.len() {
            base[i]
        } else {
            0
        }
    } else {
        let prior = spec_merged(base, delta.drop_last(), i);
        let (j, b) = delta.last();
        if j as int == i && i < base.len() && prior < b {
            b
        } else {
            prior
        }
    }
}

/// SimHash weight of a non-zero bucket: `max(1, min(3, floor(log2(bucket))))`.
pub open spec fn spec_weight(bucket: u8) -> int {
    if bucket < 4 {
        1
    } else if bucket < 8 {
        2
    } else {
        3
    }
}

pub fn weight(bucket: u8) -> (r: i64)
    ensures
        r == spec_weight(bucket),
{
    if bucket < 4 {
        1
    } else if bucket < 8 {
        2
    } else {
        3
    }
}

/// 64-bit finalizer used to spread cell indexes over the hash bits.
pub open spec fn spec_hash64(x: u64) -> u64 {
    let h0 = ((x as nat + 0x9e3779b97f4a7c15) % 0x1_0000_0000_0000_0000) as u64;
    let h1 = mul_wrap(h0 ^ (h0 >> 30), 0xbf58476d1ce4e5b9);
    let h2 = mul_wrap(h1 ^ (h1 >> 27), 0x94d049bb133111eb);
    h2 ^ (h2 >> 31)
}

pub fn hash64(x: u64) -> (r: u64)
    ensures
        r == spec_hash64(x),
{
    let h0 = x.wrapping_add(0x9e3779b97f4a7c15);
    assert(h0 == ((x as nat + 0x9e3779b97f4a7c15) % 0x1_0000_0000_0000_0000) as u64) by (bit_vector)
        requires
            h0 == x.wrapping_add(0x9e3779b97f4a7c15),
        ;
    let h1 = (h0 ^ (h0 >> 30)).wrapping_mul(0xbf58476d1ce4e5b9);
    assert(h1 == mul_wrap(h0 ^ (h0 >> 30), 0xbf58476d1ce4e5b9)) by (bit_vector)
        requires
            h1 == (h0 ^ (h0 >> 30)).wrapping_mul(0xbf58476d1ce4e5b9),
        ;
    let h2 = (h1 ^ (h1 >> 27)).wrapping_mul(0x94d049bb133111eb);
    assert(h2 == mul_wrap(h1 ^ (h1 >> 27), 0x94d049bb133111eb)) by (bit_vector)
        requires
            h2 == (h1 ^ (h1 >> 27)).wrapping_mul(0x94d049bb133111eb),
        ;
    h2 ^ (h2 >> 31)
}

/// Contribution of cell `i` to SimHash accumulator bit `b`.
pub open spec fn spec_contrib(i: int, bucket: u8, b: int) -> int {
    if bucket == 0 {
        0
    } else if (spec_hash64(i as u64) >> (b as u64)) & 1 == 1 {
        spec_weight(bucket)
    } else {
        -spec_weight(bucket)
    }
}

/// Accumulator bit `b` over the first `n` cells.
pub open spec fn spec_acc(s: Seq<u8>, n: int, b: int) -> int
    decreases n,
{
    if n <= 0 {
        0
    } else {
        spec_acc(s, n - 1, b) + spec_contrib(n - 1, s[n - 1], b)
    }
}

/// The word whose bit `b` is set exactly when `f(b)`, for `b < n <= 64`.
pub open spec fn spec_bits(f: spec_fn(int) -> bool, n: int) -> u64
    decreases n,
{
    if n <= 0 {
        0u64
    } else if f(n - 1) {
        spec_bits(f, n - 1) | (1u64 << ((n - 1) as u64))
    } else {
        spec_bits(f, n - 1)
    }
}

/// The SimHash of a bucketed map: `None` when every accumulator is zero
/// (an empty map), else the 64 accumulator signs as bits.
pub open spec fn spec_simhash(s: Seq<u8>) -> Option<u64> {
    let n = s.len() as int;
    if forall|b: int| 0 <= b < 64 ==> spec_acc(s, n, b) == 0 {
        None
    } else {
        Some(spec_bits(|b: int| spec_acc(s, n, b) > 0, 64))
    }
}

proof fn lemma_acc_bound(s: Seq<u8>, n: int, b: int)
    requires
        0 <= n <= s.len(),
    ensures
        -3 * n <= spec_acc(s, n, b) <= 3 * n,
    decreases n,
{
    if n > 0 {
        lemma_acc_bound(s, n - 1, b);
    }
}

/// SimHash-64 over the cumulative bucketed edge map.
pub fn simhash(s: &Vec<u8>) -> (r: Option<u64>)
    requires
        s@.len() == EDGE_MAP_SIZE,
    ensures
        r == spec_simhash(s@),
{
    let mut acc: Vec<i64> = Vec::new();
    acc.resize(64, 0);
    assert(forall|b: int| 0 <= b < 64 ==> acc@[b] == spec_acc(s@, 0, b));

    let mut i: usize = 0;
    while i < EDGE_MAP_SIZE
        invariant
            s@.len() == EDGE_MAP_SIZE,
            acc@.len() == 64,
            i <= EDGE_MAP_SIZE,
            forall|b: int| 0 <= b < 64 ==> acc@[b] == spec_acc(s@, i as int, b),
        decreases EDGE_MAP_SIZE - i,
    {
        let bucket = s[i];
        if bucket != 0 {
            let w = weight(bucket);
            let h = hash64(i as u64);
            let mut b: usize = 0;
            while b < 64
                invariant
                    s@.len() == EDGE_MAP_SIZE,
                    i < EDGE_MAP_SIZE,
                    s@[i as int] == bucket,
                    bucket != 0,
                    w == spec_weight(bucket),
                    h == spec_hash64(i as u64),
                    acc@.len() == 64,
                    b <= 64,
                    forall|c: int|
                        b as int <= c < 64 ==> acc@[c] == spec_acc(s@, i as int, c),
                    forall|c: int|
                        0 <= c < b as int ==> acc@[c] == spec_acc(s@, i as int + 1, c),
                decreases 64 - b,
            {
                proof {
                    lemma_acc_bound(s@, i as int, b as int);
                }
                let old_v = acc[b];
                if (h >> (b as u64)) & 1 == 1 {
                    acc.set(b, old_v + w);
                } else {
                    acc.set(b, old_v - w);
                }
                b = b + 1;
            }
        } else {
            assert(forall|c: int|
                0 <= c < 64 ==> spec_acc(s@, i as int + 1, c) == spec_acc(s@, i as int, c)
                    + spec_contrib(i as int, s@[i as int], c));
        }
        i = i + 1;
    }

    let mut all_zero = true;
    let mut b: usize = 0;
    while b < 64
        invariant
            s@.len() == EDGE_MAP_SIZE,
            acc@.len() == 64,
            forall|c: int| 0 <= c < 64 ==> acc@[c] == spec_acc(s@, s@.len() as int, c),
            b <= 64,
            all_zero <==> (forall|c: int| 0 <= c < b as int ==> acc@[c] == 0),
        decreases 64 - b,
    {
        if acc[b] != 0 {
            all_zero = false;
            assert(!(forall|c: int| 0 <= c < b as int + 1 ==> acc@[c] == 0));
        }
        b = b + 1;
    }

    if all_zero {
        assert forall|c: int| 0 <= c < 64 implies spec_acc(s@, s@.len() as int, c) == 0 by {
            assert(acc@[c] == 0);
        }
        return None;
    }

    let ghost f = |c: int| spec_acc(s@, s@.len() as int, c) > 0;
    let mut out: u64 = 0;
    let mut b: usize = 0;
    while b < 64
        invariant
            acc@.len() == 64,
            forall|c: int| 0 <= c < 64 ==> acc@[c] == spec_acc(s@, s@.len() as int, c),
            f == (|c: int| spec_acc(s@, s@.len() as int, c) > 0),
            b <= 64,
            out == spec_bits(f, b as int),
        decreases 64 - b,
    {
        if acc[b] > 0 {
            out = out | (1u64 << (b as u64));
        }
        b = b + 1;
    }

    proof {
        assert(!(forall|c: int| 0 <= c < 64 ==> spec_acc(s@, s@.len() as int, c) == 0));
    }
    Some(out)
}

} // verus!
