//! The binary frame of a proof: fixed-width little-endian numbers, each
//! list behind its length as a 64-bit number.
//!
//! ```text
//! trace_commitment        : 32 bytes
//! constraint_evaluations  : u64 length, then length x u32
//! merkle_proof            : u64 length, then length x 32 bytes
//! fri.commitments         : u64 length, then length x 32 bytes
//! fri.final_polynomial    : u64 length, then length x u32
//! fri.query_proofs        : u64 length, then length x {
//!     index       : u64
//!     value       : u32
//!     merkle_path : u64 length, then length x 32 bytes
//! }
//! ```

use super::frame_laws::{lemma_proof_read_back, lemma_proof_written_back};
use super::stark::{
    frame_query_views, lemma_frame_form_well_formed, FriProofView, QueryProofView,
    SerializableFriProof, SerializableQueryProof, SerializableStarkProof, StarkProofView,
};
use crate::crypto::hash::{le_bytes_of_u64, HashValue};
use crate::crypto::merkle::digest_views;
use crate::vm::memory::{byte_of_word, bytes_of_word, word_of_bytes};
use vstd::prelude::*;

verus! {

/// Why a proof could not be written or read.
#[derive(Debug, Clone, Copy, PartialEq, Eq, Structural)]
pub enum ProofError {
    /// The proof could not be written to its frame.
    Serialization,
    /// The bytes are not the frame of a proof.
    Deserialization,
}

impl ProofError {
    /// A short human-readable description of the error.
    pub fn message(&self) -> (text: &'static str)
        ensures
            text@ == match *self {
                ProofError::Serialization => "Serialization failed"@,
                ProofError::Deserialization => "Failed to deserialize STARK proof"@,
            },
    {
        match self {
            ProofError::Serialization => "Serialization failed",
            ProofError::Deserialization => "Failed to deserialize STARK proof",
        }
    }
}

/// The number whose little-endian bytes are the first eight of `bytes`.
pub open spec fn u64_of_le_bytes(bytes: Seq<u8>) -> u64
    recommends
        bytes.len() >= 8,
{
    (bytes[0] as u64) | ((bytes[1] as u64) << 8) | ((bytes[2] as u64) << 16) | ((bytes[3] as u64)
        << 24) | ((bytes[4] as u64) << 32) | ((bytes[5] as u64) << 40) | ((bytes[6] as u64) << 48)
        | ((bytes[7] as u64) << 56)
}

/// The word whose little-endian bytes are the first four of `bytes`.
pub open spec fn u32_of_le_bytes(bytes: Seq<u8>) -> u32
    recommends
        bytes.len() >= 4,
{
    word_of_bytes(bytes[0], bytes[1], bytes[2], bytes[3])
}

/// The frame of a list of words, without its length: four bytes for each.
pub open spec fn words_body(words: Seq<u32>) -> Seq<u8> {
    Seq::new(4 * words.len(), |j: int| byte_of_word(words[j / 4], (j % 4) as nat))
}

/// The frame of a list of digests, without its length: the digests one
/// after another.
pub open spec fn digests_body(digests: Seq<Seq<u8>>) -> Seq<u8> {
    Seq::new(32 * digests.len(), |j: int| digests[j / 32][j % 32])
}

/// The frame of a list of words.
#[verifier::opaque]
pub open spec fn words_frame(words: Seq<u32>) -> Seq<u8> {
    le_bytes_of_u64(words.len() as u64) + words_body(words)
}

/// The frame of a list of digests.
#[verifier::opaque]
pub open spec fn digests_frame(digests: Seq<Seq<u8>>) -> Seq<u8> {
    le_bytes_of_u64(digests.len() as u64) + digests_body(digests)
}

/// The frame of a query proof.
#[verifier::opaque]
pub open spec fn query_frame(query: QueryProofView) -> Seq<u8> {
    le_bytes_of_u64(query.index as u64) + bytes_of_word(query.value) + digests_frame(
        query.merkle_path,
    )
}

/// The frames of a list of query proofs, one after another.
pub open spec fn queries_body(queries: Seq<QueryProofView>) -> Seq<u8>
    decreases queries.len(),
{
    if queries.len() == 0 {
        Seq::empty()
    } else {
        queries_body(queries.drop_last()) + query_frame(queries.last())
    }
}

/// The frame of a list of query proofs.
pub open spec fn queries_frame(queries: Seq<QueryProofView>) -> Seq<u8> {
    le_bytes_of_u64(queries.len() as u64) + queries_body(queries)
}

/// The frame of the low-degree part of a proof.
pub open spec fn fri_frame(fri: FriProofView) -> Seq<u8> {
    digests_frame(fri.commitments) + words_frame(fri.final_polynomial) + queries_frame(
        fri.query_proofs,
    )
}

/// The frame of a proof.
pub open spec fn proof_frame(proof: StarkProofView) -> Seq<u8> {
    proof.trace_commitment + words_frame(proof.constraint_evaluations) + digests_frame(
        proof.merkle_proof,
    ) + fri_frame(proof.fri_proof)
}

/// Appends the eight little-endian bytes of `value`.
fn write_u64(out: &mut Vec<u8>, value: u64)
    ensures
        final(out)@ == old(out)@ + le_bytes_of_u64(value),
{
    let mut k: usize = 0;
    while k < 8
        invariant
            k <= 8,
            out@ == old(out)@ + le_bytes_of_u64(value).take(k as int),
        decreases 8 - k,
    {
        out.push(((value >> (8 * k as u64)) & 0xff) as u8);
        assert(out@ =~= old(out)@ + le_bytes_of_u64(value).take(k as int + 1));
        k += 1;
    }
    assert(le_bytes_of_u64(value).take(8) =~= le_bytes_of_u64(value));
}

/// Appends the four little-endian bytes of `value`.
fn write_u32(out: &mut Vec<u8>, value: u32)
    ensures
        final(out)@ == old(out)@ + bytes_of_word(value),
{
    out.push((value & 0xff) as u8);
    out.push(((value >> 8) & 0xff) as u8);
    out.push(((value >> 16) & 0xff) as u8);
    out.push(((value >> 24) & 0xff) as u8);
    assert(out@ =~= old(out)@ + bytes_of_word(value)) by {
        assert(value >> 0u32 == value) by (bit_vector);
    }
}

/// Appends the 32 bytes of `digest`.
fn write_digest(out: &mut Vec<u8>, digest: &HashValue)
    ensures
        final(out)@ == old(out)@ + digest@,
{
    let mut k: usize = 0;
    while k < 32
        invariant
            k <= 32,
            out@ == old(out)@ + digest@.take(k as int),
        decreases 32 - k,
    {
        out.push(digest[k]);
        assert(out@ =~= old(out)@ + digest@.take(k as int + 1));
        k += 1;
    }
    assert(digest@.take(32) =~= digest@);
}

/// Appends the frame of a list of words.
fn write_words(out: &mut Vec<u8>, words: &Vec<u32>)
    ensures
        final(out)@ == old(out)@ + words_frame(words@),
{
    proof {
        reveal(words_frame);
    }
    write_u64(out, words.len() as u64);
    let ghost start = out@;
    let mut i: usize = 0;
    while i < words.len()
        invariant
            i <= words@.len(),
            out@ == start + words_body(words@.take(i as int)),
        decreases words@.len() - i,
    {
        write_u32(out, words[i]);
        assert(out@ =~= start + words_body(words@.take(i as int + 1))) by {
            let shorter = words@.take(i as int);
            let longer = words@.take(i as int + 1);
            assert(words_body(longer) =~= words_body(shorter) + bytes_of_word(words@[i as int]));
        }
        i += 1;
    }
    assert(words@.take(i as int) =~= words@);
    assert(out@ =~= old(out)@ + words_frame(words@));
}

/// Appends the frame of a list of digests.
fn write_digests(out: &mut Vec<u8>, digests: &Vec<HashValue>)
    ensures
        final(out)@ == old(out)@ + digests_frame(digest_views(digests@)),
{
    proof {
        reveal(digests_frame);
    }
    write_u64(out, digests.len() as u64);
    let ghost start = out@;
    let ghost all = digest_views(digests@);
    let mut i: usize = 0;
    while i < digests.len()
        invariant
            i <= digests@.len(),
            all == digest_views(digests@),
            out@ == start + digests_body(all.take(i as int)),
        decreases digests@.len() - i,
    {
        write_digest(out, &digests[i]);
        assert(out@ =~= start + digests_body(all.take(i as int + 1))) by {
            let shorter = all.take(i as int);
            let longer = all.take(i as int + 1);
            assert(all[i as int] == digests@[i as int]@);
            assert(digests_body(longer) =~= digests_body(shorter) + digests@[i as int]@);
        }
        i += 1;
    }
    assert(all.take(i as int) =~= all);
    assert(out@ =~= old(out)@ + digests_frame(all));
}

/// Appends the frame of a query proof.
fn write_query(out: &mut Vec<u8>, query: &SerializableQueryProof)
    ensures
        final(out)@ == old(out)@ + query_frame(query@),
{
    proof {
        reveal(query_frame);
    }
    write_u64(out, query.index as u64);
    write_u32(out, query.value);
    write_digests(out, &query.merkle_path);
    assert(out@ =~= old(out)@ + query_frame(query@));
}

/// Appends the frame of the low-degree part of a proof.
fn write_fri(out: &mut Vec<u8>, fri: &SerializableFriProof)
    ensures
        final(out)@ == old(out)@ + fri_frame(fri@),
{
    write_digests(out, &fri.commitments);
    write_words(out, &fri.final_polynomial);
    let queries = &fri.query_proofs;
    write_u64(out, queries.len() as u64);
    let ghost start = out@;
    let ghost all = frame_query_views(queries@);
    let mut i: usize = 0;
    assert(all.take(0) =~= Seq::<QueryProofView>::empty());
    while i < queries.len()
        invariant
            i <= queries@.len(),
            all == frame_query_views(queries@),
            out@ == start + queries_body(all.take(i as int)),
        decreases queries@.len() - i,
    {
        write_query(out, &queries[i]);
        assert(out@ =~= start + queries_body(all.take(i as int + 1))) by {
            let longer = all.take(i as int + 1);
            assert(longer.drop_last() =~= all.take(i as int));
            assert(longer.last() == queries@[i as int]@);
        }
        i += 1;
    }
    assert(all.take(i as int) =~= all);
    assert(out@ =~= old(out)@ + fri_frame(fri@));
}

/// Writes `proof` to its frame. This cannot fail, and reading the frame
/// gives the proof back.
pub fn serialize_proof(proof: &SerializableStarkProof) -> (bytes: Vec<u8>)
    ensures
        bytes@ == proof_frame(proof@),
        parse_proof(bytes@) == Some(proof@),
{
    let mut out: Vec<u8> = Vec::new();
    write_digest(&mut out, &proof.trace_commitment);
    write_words(&mut out, &proof.constraint_evaluations);
    write_digests(&mut out, &proof.merkle_proof);
    write_fri(&mut out, &proof.fri_proof);
    assert(out@ =~= proof_frame(proof@));
    proof {
        lemma_frame_form_well_formed(proof);
        lemma_proof_read_back(proof@, Seq::empty());
        assert(proof_frame(proof@) + Seq::<u8>::empty() =~= proof_frame(proof@));
    }
    out
}

/// The `count` words whose little-endian bytes `bytes` starts with.
pub open spec fn words_at(bytes: Seq<u8>, count: nat) -> Seq<u32> {
    Seq::new(
        count,
        |i: int| word_of_bytes(bytes[4 * i], bytes[4 * i + 1], bytes[4 * i + 2], bytes[4 * i + 3]),
    )
}

/// The `count` digests that `bytes` starts with.
pub open spec fn digests_at(bytes: Seq<u8>, count: nat) -> Seq<Seq<u8>> {
    Seq::new(count, |i: int| bytes.subrange(32 * i, 32 * i + 32))
}

/// Reads the frame of a list of words from the start of `bytes`: the
/// words and the bytes after them, or nothing where the bytes run out.
#[verifier::opaque]
pub open spec fn parse_words(bytes: Seq<u8>) -> Option<(Seq<u32>, Seq<u8>)> {
    if bytes.len() < 8 {
        None
    } else {
        let count = u64_of_le_bytes(bytes) as nat;
        let body = bytes.skip(8);
        if 4 * count > body.len() {
            None
        } else {
            Some((words_at(body, count), body.skip(4 * count as int)))
        }
    }
}

/// Reads the frame of a list of digests from the start of `bytes`.
#[verifier::opaque]
pub open spec fn parse_digests(bytes: Seq<u8>) -> Option<(Seq<Seq<u8>>, Seq<u8>)> {
    if bytes.len() < 8 {
        None
    } else {
        let count = u64_of_le_bytes(bytes) as nat;
        let body = bytes.skip(8);
        if 32 * count > body.len() {
            None
        } else {
            Some((digests_at(body, count), body.skip(32 * count as int)))
        }
    }
}

/// Reads the frame of a query proof from the start of `bytes`. An index
/// that the machine cannot hold is refused.
#[verifier::opaque]
pub open spec fn parse_query(bytes: Seq<u8>) -> Option<(QueryProofView, Seq<u8>)> {
    if bytes.len() < 12 {
        None
    } else if u64_of_le_bytes(bytes) > usize::MAX {
        None
    } else {
        match parse_digests(bytes.skip(12)) {
            None => None,
            Some((path, rest)) => Some(
                (
                    QueryProofView {
                        index: u64_of_le_bytes(bytes) as nat,
                        value: u32_of_le_bytes(bytes.skip(8)),
                        merkle_path: path,
                    },
                    rest,
                ),
            ),
        }
    }
}

/// Reads the frames of `count` query proofs from the start of `bytes`.
pub open spec fn parse_queries(bytes: Seq<u8>, count: nat) -> Option<
    (Seq<QueryProofView>, Seq<u8>),
>
    decreases count,
{
    if count == 0 {
        Some((Seq::empty(), bytes))
    } else {
        match parse_query(bytes) {
            None => None,
            Some((first, rest)) => match parse_queries(rest, (count - 1) as nat) {
                None => None,
                Some((others, end)) => Some((seq![first] + others, end)),
            },
        }
    }
}

/// Reads the frame of a list of query proofs from the start of `bytes`.
pub open spec fn parse_query_list(bytes: Seq<u8>) -> Option<(Seq<QueryProofView>, Seq<u8>)> {
    if bytes.len() < 8 {
        None
    } else {
        parse_queries(bytes.skip(8), u64_of_le_bytes(bytes) as nat)
    }
}

/// Reads the frame of the low-degree part of a proof from the start of
/// `bytes`.
pub open spec fn parse_fri(bytes: Seq<u8>) -> Option<(FriProofView, Seq<u8>)> {
    match parse_digests(bytes) {
        None => None,
        Some((commitments, after_commitments)) => match parse_words(after_commitments) {
            None => None,
            Some((final_polynomial, after_final)) => match parse_query_list(after_final) {
                None => None,
                Some((query_proofs, rest)) => Some(
                    (FriProofView { commitments, final_polynomial, query_proofs }, rest),
                ),
            },
        },
    }
}

/// Reads the frame of a proof from the start of `bytes`; what follows the
/// frame is ignored. Nothing where `bytes` does not start with a frame.
pub open spec fn parse_proof(bytes: Seq<u8>) -> Option<StarkProofView> {
    if bytes.len() < 32 {
        None
    } else {
        match parse_words(bytes.skip(32)) {
            None => None,
            Some((constraint_evaluations, after_evaluations)) => match parse_digests(
                after_evaluations,
            ) {
                None => None,
                Some((merkle_proof, after_merkle)) => match parse_fri(after_merkle) {
                    None => None,
                    Some((fri_proof, _)) => Some(
                        StarkProofView {
                            trace_commitment: bytes.take(32),
                            constraint_evaluations,
                            merkle_proof,
                            fri_proof,
                        },
                    ),
                },
            },
        }
    }
}

/// Reads eight little-endian bytes at `pos`.
fn read_u64(bytes: &[u8], pos: usize) -> (read: Option<u64>)
    requires
        pos <= bytes.len(),
    ensures
        read == if bytes@.len() - pos >= 8 {
            Some(u64_of_le_bytes(bytes@.skip(pos as int)))
        } else {
            None
        },
{
    if bytes.len() - pos < 8 {
        return None;
    }
    let b0 = bytes[pos] as u64;
    let b1 = bytes[pos + 1] as u64;
    let b2 = bytes[pos + 2] as u64;
    let b3 = bytes[pos + 3] as u64;
    let b4 = bytes[pos + 4] as u64;
    let b5 = bytes[pos + 5] as u64;
    let b6 = bytes[pos + 6] as u64;
    let b7 = bytes[pos + 7] as u64;
    Some(b0 | (b1 << 8) | (b2 << 16) | (b3 << 24) | (b4 << 32) | (b5 << 40) | (b6 << 48) | (b7 << 56))
}

/// Reads four little-endian bytes at `pos`.
fn read_u32(bytes: &[u8], pos: usize) -> (word: u32)
    requires
        pos + 4 <= bytes.len(),
    ensures
        word == u32_of_le_bytes(bytes@.skip(pos as int)),
{
    let b0 = bytes[pos] as u32;
    let b1 = bytes[pos + 1] as u32;
    let b2 = bytes[pos + 2] as u32;
    let b3 = bytes[pos + 3] as u32;
    b0 | (b1 << 8) | (b2 << 16) | (b3 << 24)
}

/// Reads the frame of a list of words at `pos`, and says where it ends.
fn read_words(bytes: &[u8], pos: usize) -> (read: Option<(Vec<u32>, usize)>)
    requires
        pos <= bytes.len(),
    ensures
        match read {
            Some((words, next)) => pos + 8 <= next <= bytes.len() && parse_words(
                bytes@.skip(pos as int),
            ) == Some((words@, bytes@.skip(next as int))),
            None => parse_words(bytes@.skip(pos as int)) is None,
        },
{
    proof {
        reveal(parse_words);
    }
    let count = match read_u64(bytes, pos) {
        Some(count) => count,
        None => {
            return None;
        },
    };
    let start = pos + 8;
    let available = bytes.len() - start;
    let ghost body = bytes@.skip(pos as int).skip(8);
    assert(body =~= bytes@.skip(start as int));
    if count > (available / 4) as u64 {
        return None;
    }
    let count = count as usize;
    let mut words: Vec<u32> = Vec::new();
    let mut i: usize = 0;
    while i < count
        invariant
            i <= count,
            start + 4 * count <= bytes.len(),
            body == bytes@.skip(start as int),
            words@ =~= words_at(body, i as nat),
        decreases count - i,
    {
        words.push(read_u32(bytes, start + 4 * i));
        i += 1;
    }
    assert(body.skip(4 * count) =~= bytes@.skip(start + 4 * count));
    Some((words, start + 4 * count))
}

/// Reads the frame of a list of digests at `pos`, and says where it ends.
fn read_digests(bytes: &[u8], pos: usize) -> (read: Option<(Vec<HashValue>, usize)>)
    requires
        pos <= bytes.len(),
    ensures
        match read {
            Some((digests, next)) => pos + 8 <= next <= bytes.len() && parse_digests(
                bytes@.skip(pos as int),
            ) == Some((digest_views(digests@), bytes@.skip(next as int))),
            None => parse_digests(bytes@.skip(pos as int)) is None,
        },
{
    proof {
        reveal(parse_digests);
    }
    let count = match read_u64(bytes, pos) {
        Some(count) => count,
        None => {
            return None;
        },
    };
    let start = pos + 8;
    let available = bytes.len() - start;
    let ghost body = bytes@.skip(pos as int).skip(8);
    assert(body =~= bytes@.skip(start as int));
    if count > (available / 32) as u64 {
        return None;
    }
    let count = count as usize;
    let mut digests: Vec<HashValue> = Vec::new();
    let mut i: usize = 0;
    while i < count
        invariant
            i <= count,
            start + 32 * count <= bytes.len(),
            body == bytes@.skip(start as int),
            digest_views(digests@) =~= digests_at(body, i as nat),
        decreases count - i,
    {
        let digest = read_digest(bytes, start + 32 * i);
        let ghost before = digests@;
        digests.push(digest);
        assert(digest_views(digests@) =~= digest_views(before).push(digest@));
        assert(digest@ =~= body.subrange(32 * i, 32 * i + 32));
        i += 1;
    }
    assert(body.skip(32 * count) =~= bytes@.skip(start + 32 * count));
    Some((digests, start + 32 * count))
}

/// Reads 32 bytes at `pos`.
fn read_digest(bytes: &[u8], pos: usize) -> (digest: HashValue)
    requires
        pos + 32 <= bytes.len(),
    ensures
        digest@ == bytes@.subrange(pos as int, pos + 32),
{
    let mut digest = [0u8;32];
    let mut k: usize = 0;
    while k < 32
        invariant
            k <= 32,
            pos + 32 <= bytes.len(),
            forall|j: int| 0 <= j < k ==> digest@[j] == bytes@[pos + j],
        decreases 32 - k,
    {
        digest[k] = bytes[pos + k];
        k += 1;
    }
    assert(digest@ =~= bytes@.subrange(pos as int, pos + 32));
    digest
}

/// Reads the frame of a query proof at `pos`, and says where it ends.
fn read_query(bytes: &[u8], pos: usize) -> (read: Option<(SerializableQueryProof, usize)>)
    requires
        pos <= bytes.len(),
    ensures
        match read {
            Some((query, next)) => pos + 20 <= next <= bytes.len() && parse_query(
                bytes@.skip(pos as int),
            ) == Some((query@, bytes@.skip(next as int))),
            None => parse_query(bytes@.skip(pos as int)) is None,
        },
{
    proof {
        reveal(parse_query);
    }
    if bytes.len() - pos < 12 {
        return None;
    }
    let index = match read_u64(bytes, pos) {
        Some(index) => index,
        None => {
            return None;
        },
    };
    if index > usize::MAX as u64 {
        return None;
    }
    let value = read_u32(bytes, pos + 8);
    let ghost here = bytes@.skip(pos as int);
    assert(here.skip(8) =~= bytes@.skip(pos + 8));
    assert(here.skip(12) =~= bytes@.skip(pos + 12));
    match read_digests(bytes, pos + 12) {
        None => None,
        Some((merkle_path, next)) => {
            Some((SerializableQueryProof { index: index as usize, value, merkle_path }, next))
        },
    }
}

/// Reads the frame of a list of query proofs at `pos`, and says where it
/// ends.
#[verifier::loop_isolation(false)]
fn read_queries(bytes: &[u8], pos: usize) -> (read: Option<(Vec<SerializableQueryProof>, usize)>)
    requires
        pos <= bytes.len(),
    ensures
        match read {
            Some((queries, next)) => next <= bytes.len() && parse_query_list(
                bytes@.skip(pos as int),
            ) == Some((frame_query_views(queries@), bytes@.skip(next as int))),
            None => parse_query_list(bytes@.skip(pos as int)) is None,
        },
{
    let count = match read_u64(bytes, pos) {
        Some(count) => count,
        None => {
            return None;
        },
    };
    let ghost whole = parse_queries(bytes@.skip(pos as int).skip(8), count as nat);
    assert(bytes@.skip(pos as int).skip(8) =~= bytes@.skip(pos + 8));
    let mut queries: Vec<SerializableQueryProof> = Vec::new();
    let mut cursor = pos + 8;
    let mut k: u64 = 0;
    while k < count
        invariant
            k <= count,
            cursor <= bytes.len(),
            whole == match parse_queries(bytes@.skip(cursor as int), (count - k) as nat) {
                None => None::<(Seq<QueryProofView>, Seq<u8>)>,
                Some((others, end)) => Some((frame_query_views(queries@) + others, end)),
            },
        decreases count - k,
    {
        match read_query(bytes, cursor) {
            None => {
                return None;
            },
            Some((query, next)) => {
                proof {
                    let rest = parse_queries(bytes@.skip(next as int), (count - k - 1) as nat);
                    let before = frame_query_views(queries@);
                    assert(frame_query_views(queries@.push(query)) =~= before.push(query@));
                    if let Some((others, end)) = rest {
                        assert(before.push(query@) + others =~= before + (seq![query@] + others));
                    }
                }
                queries.push(query);
                cursor = next;
            },
        }
        k += 1;
    }
    assert(frame_query_views(queries@) + Seq::<QueryProofView>::empty() =~= frame_query_views(
        queries@,
    ));
    Some((queries, cursor))
}

/// Reads the frame of the low-degree part of a proof at `pos`.
fn read_fri(bytes: &[u8], pos: usize) -> (read: Option<SerializableFriProof>)
    requires
        pos <= bytes.len(),
    ensures
        match read {
            Some(fri) => parse_fri(bytes@.skip(pos as int)) matches Some((parsed, _)) && parsed
                == fri@,
            None => parse_fri(bytes@.skip(pos as int)) is None,
        },
{
    let (commitments, after_commitments) = match read_digests(bytes, pos) {
        Some(read) => read,
        None => {
            return None;
        },
    };
    let (final_polynomial, after_final) = match read_words(bytes, after_commitments) {
        Some(read) => read,
        None => {
            return None;
        },
    };
    let (query_proofs, _) = match read_queries(bytes, after_final) {
        Some(read) => read,
        None => {
            return None;
        },
    };
    Some(SerializableFriProof { commitments, final_polynomial, query_proofs })
}

/// Reads a proof from the frame that `bytes` starts with; bytes after the
/// frame are ignored. Bytes that do not start with a frame are refused.
pub fn deserialize_proof(bytes: &[u8]) -> (read: Result<SerializableStarkProof, ProofError>)
    ensures
        match read {
            Ok(proof) => parse_proof(bytes@) == Some(proof@) && proof_frame(proof@).is_prefix_of(
                bytes@,
            ),
            Err(e) => e == ProofError::Deserialization && parse_proof(bytes@) is None,
        },
{
    proof {
        if parse_proof(bytes@) is Some {
            assert(bytes.len() <= usize::MAX);
            lemma_proof_written_back(bytes@);
        }
    }
    if bytes.len() < 32 {
        return Err(ProofError::Deserialization);
    }
    let trace_commitment = read_digest(bytes, 0);
    assert(bytes@.subrange(0, 32) =~= bytes@.take(32));
    let (constraint_evaluations, after_evaluations) = match read_words(bytes, 32) {
        Some(read) => read,
        None => {
            return Err(ProofError::Deserialization);
        },
    };
    let (merkle_proof, after_merkle) = match read_digests(bytes, after_evaluations) {
        Some(read) => read,
        None => {
            return Err(ProofError::Deserialization);
        },
    };
    let fri_proof = match read_fri(bytes, after_merkle) {
        Some(read) => read,
        None => {
            return Err(ProofError::Deserialization);
        },
    };
    Ok(SerializableStarkProof { trace_commitment, constraint_evaluations, merkle_proof, fri_proof })
}

} // verus!
