//! Stable identifiers for intercepted sources.
//!
//! A `SourceId` is a 64-bit hash of a response's ETag when present,
//! otherwise of its body bytes. Distinct inline scripts inside one document
//! chain their ids by hashing `(SourceId, index)`. The hash is FNV-1a over
//! bytes, so an id is a pure function of what it was derived from.

use vstd::prelude::*;

verus! {

pub const FNV_OFFSET: u64 = 0xcbf29ce484222325;
pub const FNV_PRIME: u64 = 0x100000001b3;

/// One FNV-1a round: fold a byte into the running hash.
pub open spec fn fnv_push(h: u64, byte: u8) -> u64 {
    mul_wrap(h ^ (byte as u64), FNV_PRIME)
}

pub open spec fn mul_wrap(a: u64, b: u64) -> u64 {
    ((a as nat) * (b as nat) % 0x1_0000_0000_0000_0000) as u64
}

/// FNV-1a of the first `n` bytes of `s`.
pub open spec fn fnv64_prefix(s: Seq<u8>, n: int) -> u64
    decreases n,
{
    if n <= 0 {
        FNV_OFFSET
    } else {
        fnv_push(fnv64_prefix(s, n - 1), s[n - 1])
    }
}

pub open spec fn fnv64(s: Seq<u8>) -> u64 {
    fnv64_prefix(s, s.len() as int)
}

/// The `i`-th little-endian byte of `n` (`0 <= i < 8`).
pub open spec fn le_byte(n: u64, i: int) -> u8 {
    (n >> (8 * i)) as u8
}

pub open spec fn le_bytes(n: u64) -> Seq<u8> {
    Seq::new(8, |i: int| le_byte(n, i))
}

/// Identifies one intercepted script or document source.
#[derive(Copy, Clone, Debug, PartialEq, Eq, Structural)]
pub struct SourceId(pub u64);

fn fnv_push_exec(h: u64, byte: u8) -> (r: u64)
    ensures
        r == fnv_push(h, byte),
{
    let x = h ^ (byte as u64);
    let r = x.wrapping_mul(FNV_PRIME);
    assert(r == mul_wrap(x, FNV_PRIME)) by (bit_vector)
        requires
            r == x.wrapping_mul(0x100000001b3),
        ;
    r
}

impl SourceId {
    /// Hash raw bytes (an ETag's bytes, or a body) into a source id.
    pub fn hash(input: &[u8]) -> (r: SourceId)
        ensures
            r.0 == fnv64(input@),
    {
        let mut h: u64 = FNV_OFFSET;
        let mut i: usize = 0;
        while i < input.len()
            invariant
                i <= input.len(),
                h == fnv64_prefix(input@, i as int),
            decreases input.len() - i,
        {
            h = fnv_push_exec(h, input[i]);
            i = i + 1;
        }
        SourceId(h)
    }

    /// Chain a counter into this id, for the `index`-th inline script of a
    /// document: the result hashes the id's bytes followed by the counter's.
    pub fn add(&self, input: u64) -> (r: SourceId)
        ensures
            r.0 == fnv64(le_bytes(self.0) + le_bytes(input)),
    {
        let mut h: u64 = FNV_OFFSET;
        h = Self::push_le_bytes(h, self.0, Ghost(Seq::<u8>::empty()));
        proof {
            Self::lemma_fnv_prefix_eq(
                Seq::<u8>::empty() + le_bytes(self.0),
                le_bytes(self.0) + le_bytes(input),
                8,
            );
        }
        h = Self::push_le_bytes(h, input, Ghost(le_bytes(self.0)));
        proof {
            assert(le_bytes(self.0) + le_bytes(input) =~= Seq::new(
                16,
                |i: int| if i < 8 { le_byte(self.0, i) } else { le_byte(input, i - 8) },
            ));
            Self::lemma_fnv_prefix_eq(
                le_bytes(self.0) + le_bytes(input),
                Seq::new(
                    16,
                    |i: int| if i < 8 { le_byte(self.0, i) } else { le_byte(input, i - 8) },
                ),
                16,
            );
        }
        SourceId(h)
    }

    /// Fold the eight little-endian bytes of `n` into `h`, where `h` is the
    /// hash of `prefix` so far.
    fn push_le_bytes(h: u64, n: u64, prefix: Ghost<Seq<u8>>) -> (r: u64)
        requires
            h == fnv64_prefix(prefix@ + le_bytes(n), prefix@.len() as int),
        ensures
            r == fnv64_prefix(prefix@ + le_bytes(n), prefix@.len() as int + 8),
    {
        let ghost s = prefix@ + le_bytes(n);
        let mut h = h;
        let mut i: usize = 0;
        while i < 8
            invariant
                i <= 8,
                h == fnv64_prefix(s, prefix@.len() as int + i as int),
                s == prefix@ + le_bytes(n),
            decreases 8 - i,
        {
            let b: u8 = (n >> ((8 * i) as u64)) as u8;
            assert(b == le_byte(n, i as int));
            assert(s[prefix@.len() as int + i as int] == le_byte(n, i as int));
            h = fnv_push_exec(h, b);
            i = i + 1;
        }
        h
    }

    proof fn lemma_fnv_prefix_eq(a: Seq<u8>, b: Seq<u8>, n: int)
        requires
            forall|i: int| 0 <= i < n ==> a[i] == b[i],
        ensures
            fnv64_prefix(a, n) == fnv64_prefix(b, n),
        decreases n,
    {
        if n > 0 {
            Self::lemma_fnv_prefix_eq(a, b, n - 1);
        }
    }
}

} // verus!
