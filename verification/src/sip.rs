//! The SipHash-2-4 variant used by the Cuckoo Cycle edge oracle.
//!
//! Unlike the standard two-key SipHash, this variant seeds all four state
//! lanes directly from four independent 64-bit keys. Each call hashes a
//! single 64-bit word.

use vstd::prelude::*;

verus! {

/// One SipHash round over the four state lanes.
pub open spec fn spec_sipround(v: (u64, u64, u64, u64)) -> (u64, u64, u64, u64) {
    let (v0, v1, v2, v3) = v;
    let v0 = v0.wrapping_add(v1);
    let v1 = (v1 << 13u64) | (v1 >> 51u64);
    let v1 = v1 ^ v0;
    let v0 = (v0 << 32u64) | (v0 >> 32u64);
    let v2 = v2.wrapping_add(v3);
    let v3 = (v3 << 16u64) | (v3 >> 48u64);
    let v3 = v3 ^ v2;
    let v0 = v0.wrapping_add(v3);
    let v3 = (v3 << 21u64) | (v3 >> 43u64);
    let v3 = v3 ^ v0;
    let v2 = v2.wrapping_add(v1);
    let v1 = (v1 << 17u64) | (v1 >> 47u64);
    let v1 = v1 ^ v2;
    let v2 = (v2 << 32u64) | (v2 >> 32u64);
    (v0, v1, v2, v3)
}

/// SipHash-2-4 of one 64-bit word under four independent keys: the state
/// starts as the keys themselves, the word is folded in, and the four lanes
/// are combined by xor at the end.
pub open spec fn spec_siphash24(k0: u64, k1: u64, k2: u64, k3: u64, val: u64) -> u64 {
    let v = (k0, k1, k2, k3 ^ val);
    let v = spec_sipround(spec_sipround(v));
    let v = (v.0 ^ val, v.1, v.2 ^ 0xffu64, v.3);
    let v = spec_sipround(spec_sipround(spec_sipround(spec_sipround(v))));
    v.0 ^ v.1 ^ v.2 ^ v.3
}

fn sipround(v: (u64, u64, u64, u64)) -> (r: (u64, u64, u64, u64))
    ensures
        r == spec_sipround(v),
{
    let (v0, v1, v2, v3) = v;
    let v0 = v0.wrapping_add(v1);
    let v1 = (v1 << 13u64) | (v1 >> 51u64);
    let v1 = v1 ^ v0;
    let v0 = (v0 << 32u64) | (v0 >> 32u64);
    let v2 = v2.wrapping_add(v3);
    let v3 = (v3 << 16u64) | (v3 >> 48u64);
    let v3 = v3 ^ v2;
    let v0 = v0.wrapping_add(v3);
    let v3 = (v3 << 21u64) | (v3 >> 43u64);
    let v3 = v3 ^ v0;
    let v2 = v2.wrapping_add(v1);
    let v1 = (v1 << 17u64) | (v1 >> 47u64);
    let v1 = v1 ^ v2;
    let v2 = (v2 << 32u64) | (v2 >> 32u64);
    (v0, v1, v2, v3)
}

/// Hash one 64-bit word with SipHash-2-4 under the four keys.
pub fn siphash24(k0: u64, k1: u64, k2: u64, k3: u64, val: u64) -> (r: u64)
    ensures
        r == spec_siphash24(k0, k1, k2, k3, val),
{
    let v = (k0, k1, k2, k3 ^ val);
    let v = sipround(sipround(v));
    let v = (v.0 ^ val, v.1, v.2 ^ 0xffu64, v.3);
    let v = sipround(sipround(sipround(sipround(v))));
    v.0 ^ v.1 ^ v.2 ^ v.3
}

} // verus!
