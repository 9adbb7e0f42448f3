//! Fixed-width digests: a hash capability and the default toy hash.

use std::collections::hash_map::DefaultHasher;
use std::hash::Hasher;
use vstd::prelude::*;
use vstd::std_specs::hash::DefaultHasherAdditionalSpecFns;

verus! {

/// A digest: 32 bytes.
pub type HashValue = [u8; 32];

/// Byte `k` (0 to 7) of a 64-bit number, least significant first.
pub open spec fn byte_of_u64(value: u64, k: int) -> u8 {
    ((value >> (8 * k) as u64) & 0xff) as u8
}

/// The eight bytes of a 64-bit number, least significant first.
pub open spec fn le_bytes_of_u64(value: u64) -> Seq<u8> {
    Seq::new(8, |k: int| byte_of_u64(value, k))
}

/// A 64-bit number as a digest: its eight bytes, least significant first,
/// followed by 24 zero bytes.
pub open spec fn digest_of_u64(value: u64) -> Seq<u8> {
    Seq::new(
        32,
        |k: int|
            if k < 8 {
                byte_of_u64(value, k)
            } else {
                0u8
            },
    )
}

/// The 64-bit hash of a byte string: what the standard library's default
/// hasher returns once it has been fed the length of the string, as eight
/// little-endian bytes, and then the string.
pub open spec fn default_hash(data: Seq<u8>) -> u64 {
    DefaultHasher::spec_finish(seq![le_bytes_of_u64(data.len() as u64), data])
}

/// The digest of a byte string under [`SimpleHash`].
pub open spec fn simple_digest(data: Seq<u8>) -> Seq<u8> {
    digest_of_u64(default_hash(data))
}

/// The digest of a pair of digests: the digest of the left one followed
/// by the right one.
pub open spec fn pair_digest(left: Seq<u8>, right: Seq<u8>) -> Seq<u8> {
    simple_digest(left + right)
}

/// The digest of a 32-bit number: that of its four bytes, least
/// significant first.
pub open spec fn u32_digest(value: u32) -> Seq<u8> {
    simple_digest(crate::vm::memory::bytes_of_word(value))
}

/// A hash function: a deterministic map from byte strings to digests.
pub trait HashFunction {
    /// The digest this function assigns to `data`.
    spec fn digest(&self, data: Seq<u8>) -> Seq<u8>;

    /// Computes the digest of `data`.
    fn hash(&self, data: &[u8]) -> (out: HashValue)
        ensures
            out@ == self.digest(data@),
    ;
}

/// The default hash: the standard library's 64-bit default hasher, its
/// result padded with zeros to 32 bytes. A toy, not a cryptographic hash.
#[derive(Debug, Clone, Copy)]
pub struct SimpleHash;

/// The eight bytes of `value`, least significant first.
fn u64_le_bytes(value: u64) -> (bytes: [u8; 8])
    ensures
        bytes@ == le_bytes_of_u64(value),
{
    let mut bytes = [0u8;8];
    let mut k: usize = 0;
    while k < 8
        invariant
            k <= 8,
            forall|j: int| 0 <= j < k ==> bytes@[j] == byte_of_u64(value, j),
        decreases 8 - k,
    {
        bytes[k] = ((value >> (8 * k as u64)) & 0xff) as u8;
        k += 1;
    }
    assert(bytes@ =~= le_bytes_of_u64(value));
    bytes
}

impl HashFunction for SimpleHash {
    open spec fn digest(&self, data: Seq<u8>) -> Seq<u8> {
        simple_digest(data)
    }

    fn hash(&self, data: &[u8]) -> (out: HashValue) {
        let mut hasher = DefaultHasher::new();
        let prefix = u64_le_bytes(data.len() as u64);
        hasher.write(prefix.as_slice());
        hasher.write(data);
        let hash_u64 = hasher.finish();
        assert(hasher@ =~= seq![le_bytes_of_u64(data@.len() as u64), data@]);

        let le = u64_le_bytes(hash_u64);
        let mut result = [0u8;32];
        let mut k: usize = 0;
        while k < 8
            invariant
                k <= 8,
                le@ == le_bytes_of_u64(hash_u64),
                forall|j: int| 0 <= j < k ==> result@[j] == byte_of_u64(hash_u64, j),
                forall|j: int| k <= j < 32 ==> result@[j] == 0,
            decreases 8 - k,
        {
            result[k] = le[k];
            k += 1;
        }
        assert(result@ =~= digest_of_u64(hash_u64));
        result
    }
}

/// The digest of `data` under the default hash.
pub fn hash_bytes(data: &[u8]) -> (out: HashValue)
    ensures
        out@ == simple_digest(data@),
{
    let hasher = SimpleHash;
    hasher.hash(data)
}

/// The digest of the four little-endian bytes of `value`.
pub fn hash_u32(value: u32) -> (out: HashValue)
    ensures
        out@ == u32_digest(value),
{
    let bytes: [u8; 4] = [
        (value & 0xff) as u8,
        ((value >> 8) & 0xff) as u8,
        ((value >> 16) & 0xff) as u8,
        ((value >> 24) & 0xff) as u8,
    ];
    assert(bytes@ =~= crate::vm::memory::bytes_of_word(value)) by {
        assert(value >> 0u32 == value) by (bit_vector);
    }
    hash_bytes(bytes.as_slice())
}

/// The digest of two digests in order; swapping them gives the digest of
/// another string.
pub fn hash_pair(left: &HashValue, right: &HashValue) -> (out: HashValue)
    ensures
        out@ == pair_digest(left@, right@),
{
    let mut combined: Vec<u8> = Vec::with_capacity(64);
    let mut i: usize = 0;
    while i < 32
        invariant
            i <= 32,
            combined@ == left@.take(i as int),
        decreases 32 - i,
    {
        combined.push(left[i]);
        assert(combined@ =~= left@.take(i as int + 1));
        i += 1;
    }
    assert(left@.take(32) =~= left@);
    let mut j: usize = 0;
    while j < 32
        invariant
            j <= 32,
            combined@ == left@ + right@.take(j as int),
        decreases 32 - j,
    {
        combined.push(right[j]);
        assert(combined@ =~= left@ + right@.take(j as int + 1));
        j += 1;
    }
    assert(right@.take(32) =~= right@);
    hash_bytes(combined.as_slice())
}

} // verus!
