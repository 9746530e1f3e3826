//! Per-client wariness: a stable position of each client in every rollout.
//!
//! The client's UUID string is hashed with 64-bit FNV-1a over its UTF-8 bytes.
//! The hash scaled by 2^64 is the wariness, as a fraction in parts per
//! billion, clamped to at least one part per million.
use vstd::prelude::*;
use crate::parse::PPB;
use vstd::string::StringSliceAdditionalSpecFns;

verus! {

pub const FNV_OFFSET_BASIS: u64 = 0xcbf2_9ce4_8422_2325;

pub const FNV_PRIME: u64 = 0x0000_0100_0000_01b3;

/// Least wariness: one part per million.
pub const MIN_WARINESS: u64 = 1_000;

/// 64-bit FNV-1a hash of `bytes`.
pub open spec fn fnv1a(bytes: Seq<u8>) -> u64
    decreases bytes.len(),
{
    if bytes.len() == 0 {
        FNV_OFFSET_BASIS
    } else {
        ((((fnv1a(bytes.drop_last()) ^ (bytes.last() as u64)) as nat) * (FNV_PRIME as nat))
            % 0x1_0000_0000_0000_0000) as u64
    }
}

/// Wariness in parts per billion for a hash: `hash / 2^64`, rounded down,
/// clamped into `[MIN_WARINESS, PPB]`.
pub open spec fn wariness_of(hash: u64) -> int {
    let scaled = (hash as int * PPB as int) / 0x1_0000_0000_0000_0000;
    if scaled < MIN_WARINESS {
        MIN_WARINESS as int
    } else if scaled > PPB {
        PPB as int
    } else {
        scaled
    }
}

/// 64-bit FNV-1a hash of `bytes`.
pub fn fnv1a_hash(bytes: &[u8]) -> (r: u64)
    ensures
        r == fnv1a(bytes@),
{
    let mut h: u64 = FNV_OFFSET_BASIS;
    let mut i: usize = 0;
    while i < bytes.len()
        invariant
            i <= bytes@.len(),
            h == fnv1a(bytes@.subrange(0, i as int)),
        decreases bytes@.len() - i,
    {
        proof {
            assert(bytes@.subrange(0, i + 1).drop_last() =~= bytes@.subrange(0, i as int));
        }
        let x: u64 = h ^ (bytes[i] as u64);
        assert((x as u128) * (FNV_PRIME as u128) < 0x1_0000_0000_0000_0000_0000_0000_0000_0000) by (nonlinear_arith)
            requires
                x < 0x1_0000_0000_0000_0000,
                FNV_PRIME < 0x1_0000_0000_0000;
        h = (((x as u128) * (FNV_PRIME as u128)) % 0x1_0000_0000_0000_0000) as u64;
        i = i + 1;
    }
    proof {
        assert(bytes@.subrange(0, i as int) =~= bytes@);
    }
    h
}

/// Wariness in parts per billion for a hash.
pub fn wariness_from_hash(hash: u64) -> (r: u64)
    ensures
        r == wariness_of(hash),
        MIN_WARINESS <= r <= PPB,
{
    assert((hash as u128) * (PPB as u128) < 0x1_0000_0000_0000_0000_0000_0000_0000_0000) by (nonlinear_arith)
        requires
            hash < 0x1_0000_0000_0000_0000,
            PPB == 1_000_000_000;
    let scaled: u128 = (hash as u128) * (PPB as u128) / 0x1_0000_0000_0000_0000;
    assert(scaled <= PPB) by (nonlinear_arith)
        requires
            scaled == (hash as int * PPB as int) / 0x1_0000_0000_0000_0000,
            hash < 0x1_0000_0000_0000_0000,
            PPB == 1_000_000_000;
    if scaled < MIN_WARINESS as u128 {
        MIN_WARINESS
    } else if scaled > PPB as u128 {
        PPB
    } else {
        scaled as u64
    }
}

/// Wariness in parts per billion of the client with UUID `uuid`: the same
/// for the same UUID, in every process.
pub fn wariness(uuid: &str) -> (r: u64)
    ensures
        r == wariness_of(fnv1a(uuid.spec_bytes())),
        MIN_WARINESS <= r <= PPB,
{
    wariness_from_hash(fnv1a_hash(uuid.as_bytes()))
}

} // verus!
