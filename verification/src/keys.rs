//! Key derivation: Blake2b-256 of the message, read as four little-endian
//! 64-bit SipHash keys.

use vstd::prelude::*;

verus! {

/// The 32-byte Blake2b digest of a byte sequence. The digest is a pure
/// function of the input bytes; it is computed by an outside crate and is
/// not given a definition here.
pub uninterp spec fn blake2b_256_of(message: Seq<u8>) -> Seq<u8>;

/// Relies on crypto::blake2b::Blake2b with a 32-byte output size: the digest
/// depends on the input bytes alone and always fills all 32 bytes.
#[verifier::external_body]
fn blake2b_256(message: &[u8]) -> (r: Vec<u8>)
    ensures
        r@ == blake2b_256_of(message@),
        r@.len() == 32,
{
    let mut hasher = crypto::blake2b::Blake2b::new(32);
    crypto::digest::Digest::input(&mut hasher, message);
    let mut out = vec![0u8; 32];
    crypto::digest::Digest::result(&mut hasher, &mut out);
    out
}

/// The unsigned little-endian value of the eight bytes starting at `off`.
pub open spec fn le64_at(b: Seq<u8>, off: int) -> u64
    recommends
        0 <= off,
        off + 8 <= b.len(),
{
    (b[off] + b[off + 1] * 0x100 + b[off + 2] * 0x1_0000 + b[off + 3] * 0x100_0000
        + b[off + 4] * 0x1_0000_0000 + b[off + 5] * 0x100_0000_0000
        + b[off + 6] * 0x1_0000_0000_0000 + b[off + 7] * 0x100_0000_0000_0000) as u64
}

/// The four SipHash keys a message determines: the Blake2b-256 digest split
/// into four little-endian 64-bit words.
pub open spec fn keys_of(message: Seq<u8>) -> [u64; 4] {
    let d = blake2b_256_of(message);
    [le64_at(d, 0), le64_at(d, 8), le64_at(d, 16), le64_at(d, 24)]
}

fn read_le64(b: &Vec<u8>, off: usize) -> (r: u64)
    requires
        off + 8 <= b@.len(),
    ensures
        r == le64_at(b@, off as int),
{
    let n = b.len();
    assert(off + 8 <= n);
    let r = (b[off] as u64) + (b[off + 1] as u64) * 0x100 + (b[off + 2] as u64) * 0x1_0000
        + (b[off + 3] as u64) * 0x100_0000 + (b[off + 4] as u64) * 0x1_0000_0000
        + (b[off + 5] as u64) * 0x100_0000_0000 + (b[off + 6] as u64) * 0x1_0000_0000_0000
        + (b[off + 7] as u64) * 0x100_0000_0000_0000;
    r
}

/// Derive the four 64-bit SipHash keys from a message: exactly the
/// little-endian decoding of the message's Blake2b-256 digest.
pub fn derive_keys(message: &[u8]) -> (r: [u64; 4])
    ensures
        r == keys_of(message@),
{
    let digest = blake2b_256(message);
    let k0 = read_le64(&digest, 0);
    let k1 = read_le64(&digest, 8);
    let k2 = read_le64(&digest, 16);
    let k3 = read_le64(&digest, 24);
    let r = [k0, k1, k2, k3];
    assert(r =~= keys_of(message@));
    r
}

} // verus!
