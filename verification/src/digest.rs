//! Digest derivation: how a key becomes a leaf and how two children become
//! their parent.

use sha2::{Digest, Sha256};
use vstd::prelude::*;

verus! {

/// A 32-byte SHA-256 output.
pub type Hash = [u8; 32];

/// The SHA-256 digest of a byte string. The hash function is not modelled:
/// all that is known of it here is that equal inputs give equal outputs.
pub uninterp spec fn sha256(data: Seq<u8>) -> Seq<u8>;

/// The largest input length, in bytes, whose length in bits still fits the
/// 64-bit length field of SHA-256's padding.
pub const MAX_INPUT_LEN: u64 = 0x1fff_ffff_ffff_ffff;

/// Trusted: `sha2::Sha256::digest`, the one-shot form of the hasher (a fresh
/// state, one `update` with `data`, `finalize`). The contract claims that the
/// 32 bytes returned are the SHA-256 digest of exactly the bytes of `data`,
/// and so depend on nothing else. Inputs too long for the 64-bit bit counter
/// of the padding are excluded.
#[verifier::external_body]
fn sha256_digest(data: &[u8]) -> (out: Hash)
    requires
        data@.len() <= MAX_INPUT_LEN,
    ensures
        out@ == sha256(data@),
{
    Sha256::digest(data).into()
}

/// The eight bytes of `key`, most significant first.
pub open spec fn be_bytes(key: u64) -> Seq<u8> {
    Seq::new(8, |i: int| be_byte(key, i))
}

/// Byte `i` of the big-endian form of `key`: the base-256 digit of weight
/// `256^(7 - i)`.
pub open spec fn be_byte(key: u64, i: int) -> u8 {
    ((key as int / pow256((7 - i) as nat)) % 256) as u8
}

/// `256^e`.
pub open spec fn pow256(e: nat) -> int
    decreases e,
{
    if e == 0 {
        1
    } else {
        256 * pow256((e - 1) as nat)
    }
}

/// The leaf digest of a key: SHA-256 of its eight big-endian bytes.
pub open spec fn key_digest(key: u64) -> Seq<u8> {
    sha256(be_bytes(key))
}

/// The parent digest of two children: SHA-256 of `left` followed by `right`.
pub open spec fn pair_digest(left: Seq<u8>, right: Seq<u8>) -> Seq<u8> {
    sha256(left + right)
}

proof fn lemma_pow256_values()
    ensures
        pow256(0) == 1,
        pow256(1) == 0x100,
        pow256(2) == 0x1_0000,
        pow256(3) == 0x100_0000,
        pow256(4) == 0x1_0000_0000,
        pow256(5) == 0x100_0000_0000,
        pow256(6) == 0x1_0000_0000_0000,
        pow256(7) == 0x100_0000_0000_0000,
{
    reveal_with_fuel(pow256, 9);
}

/// Serialises `key` as eight bytes, most significant first.
fn key_bytes(key: u64) -> (out: [u8; 8])
    ensures
        out@ == be_bytes(key),
{
    let out: [u8; 8] = [
        (key >> 56) as u8,
        ((key >> 48) & 0xff) as u8,
        ((key >> 40) & 0xff) as u8,
        ((key >> 32) & 0xff) as u8,
        ((key >> 24) & 0xff) as u8,
        ((key >> 16) & 0xff) as u8,
        ((key >> 8) & 0xff) as u8,
        (key & 0xff) as u8,
    ];
    proof {
        lemma_pow256_values();
        assert(key >> 56 == (key / 0x100_0000_0000_0000) % 256) by (bit_vector);
        assert((key >> 48) & 0xff == (key / 0x1_0000_0000_0000) % 256) by (bit_vector);
        assert((key >> 40) & 0xff == (key / 0x100_0000_0000) % 256) by (bit_vector);
        assert((key >> 32) & 0xff == (key / 0x1_0000_0000) % 256) by (bit_vector);
        assert((key >> 24) & 0xff == (key / 0x100_0000) % 256) by (bit_vector);
        assert((key >> 16) & 0xff == (key / 0x1_0000) % 256) by (bit_vector);
        assert((key >> 8) & 0xff == (key / 0x100) % 256) by (bit_vector);
        assert(key & 0xff == (key / 1) % 256) by (bit_vector);
        assert(out@ =~= be_bytes(key));
    }
    out
}

/// Hashes a key into its leaf digest.
pub fn hash_key(key: u64) -> (out: Hash)
    ensures
        out@ == key_digest(key),
{
    let bytes = key_bytes(key);
    sha256_digest(bytes.as_slice())
}

/// Hashes two child digests, in this order, into their parent digest.
pub fn hash_internal(left: Hash, right: Hash) -> (out: Hash)
    ensures
        out@ == pair_digest(left@, right@),
{
    let mut buf = [0u8; 64];
    let mut i: usize = 0;
    while i < 32
        invariant
            i <= 32,
            forall|j: int| 0 <= j < i ==> buf@[j] == left@[j],
            forall|j: int| 0 <= j < i ==> buf@[32 + j] == right@[j],
        decreases 32 - i,
    {
        buf[i] = left[i];
        buf[32 + i] = right[i];
        i += 1;
    }
    assert(buf@ =~= left@ + right@);
    sha256_digest(buf.as_slice())
}

} // verus!
