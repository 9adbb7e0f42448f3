//! What holds of the binary frame: reading a written proof gives the
//! proof back, and what is read from bytes is what those bytes are the
//! frame of.

use super::frame::{
    digests_at, digests_body, digests_frame, fri_frame, parse_digests, parse_fri, parse_proof,
    parse_queries, parse_query, parse_query_list, parse_words, proof_frame, queries_body,
    queries_frame, query_frame, u64_of_le_bytes, words_at, words_body, words_frame,
};
use super::stark::{FriProofView, QueryProofView, StarkProofView};
use crate::crypto::merkle::all_digests;
use crate::crypto::hash::{byte_of_u64, le_bytes_of_u64};
use crate::vm::memory::{byte_of_word, bytes_of_word, lemma_word_of_its_bytes, word_of_bytes};
use vstd::prelude::*;

verus! {

/// The eight little-endian bytes of a number, read back, give the number,
/// whatever follows them.
pub proof fn lemma_u64_read_back(value: u64, tail: Seq<u8>)
    ensures
        u64_of_le_bytes(le_bytes_of_u64(value) + tail) == value,
        (le_bytes_of_u64(value) + tail).skip(8) == tail,
        le_bytes_of_u64(value).len() == 8,
{
    let bytes = le_bytes_of_u64(value) + tail;
    assert(bytes.skip(8) =~= tail);
    assert(bytes[0] == byte_of_u64(value, 0));
    assert(bytes[1] == byte_of_u64(value, 1));
    assert(bytes[2] == byte_of_u64(value, 2));
    assert(bytes[3] == byte_of_u64(value, 3));
    assert(bytes[4] == byte_of_u64(value, 4));
    assert(bytes[5] == byte_of_u64(value, 5));
    assert(bytes[6] == byte_of_u64(value, 6));
    assert(bytes[7] == byte_of_u64(value, 7));
    assert(((((value >> 0u64) & 0xff) as u8) as u64) | (((((value >> 8u64) & 0xff) as u8) as u64)
        << 8) | (((((value >> 16u64) & 0xff) as u8) as u64) << 16) | (((((value >> 24u64)
        & 0xff) as u8) as u64) << 24) | (((((value >> 32u64) & 0xff) as u8) as u64) << 32) | (((((
    value >> 40u64) & 0xff) as u8) as u64) << 40) | (((((value >> 48u64) & 0xff) as u8) as u64)
        << 48) | (((((value >> 56u64) & 0xff) as u8) as u64) << 56) == value) by (bit_vector);
}

/// The frame of a list of words, read back, gives the words and what
/// follows the frame.
pub proof fn lemma_words_read_back(words: Seq<u32>, tail: Seq<u8>)
    requires
        words.len() <= u64::MAX,
    ensures
        parse_words(words_frame(words) + tail) == Some((words, tail)),
{
    reveal(words_frame);
    reveal(parse_words);
    let bytes = words_frame(words) + tail;
    let rest = words_body(words) + tail;
    assert(bytes =~= le_bytes_of_u64(words.len() as u64) + rest);
    lemma_u64_read_back(words.len() as u64, rest);
    let body = bytes.skip(8);
    assert(body == rest);
    assert(body.skip(4 * words.len() as int) =~= tail);
    assert forall|i: int| 0 <= i < words.len() implies words_at(body, words.len())[i]
        == words[i] by {
        assert(body[4 * i] == byte_of_word(words[i], 0));
        assert(body[4 * i + 1] == byte_of_word(words[i], 1));
        assert(body[4 * i + 2] == byte_of_word(words[i], 2));
        assert(body[4 * i + 3] == byte_of_word(words[i], 3));
        lemma_word_of_its_bytes(words[i]);
    }
    assert(words_at(body, words.len()) =~= words);
}

/// The frame of a list of digests, read back, gives the digests and what
/// follows the frame.
pub proof fn lemma_digests_read_back(digests: Seq<Seq<u8>>, tail: Seq<u8>)
    requires
        digests.len() <= u64::MAX,
        all_digests(digests),
    ensures
        parse_digests(digests_frame(digests) + tail) == Some((digests, tail)),
{
    reveal(digests_frame);
    reveal(parse_digests);
    let bytes = digests_frame(digests) + tail;
    let rest = digests_body(digests) + tail;
    assert(bytes =~= le_bytes_of_u64(digests.len() as u64) + rest);
    lemma_u64_read_back(digests.len() as u64, rest);
    let body = bytes.skip(8);
    assert(body == rest);
    assert(body.skip(32 * digests.len() as int) =~= tail);
    assert forall|i: int| 0 <= i < digests.len() implies digests_at(body, digests.len())[i]
        == digests[i] by {
        let chunk = body.subrange(32 * i, 32 * i + 32);
        assert(digests[i].len() == 32);
        assert forall|j: int| 0 <= j < 32 implies chunk[j] == digests[i][j] by {
            assert(body[32 * i + j] == digests_body(digests)[32 * i + j]);
            assert((32 * i + j) / 32 == i);
            assert((32 * i + j) % 32 == j);
        }
        assert(chunk =~= digests[i]);
    }
    assert(digests_at(body, digests.len()) =~= digests);
}

/// The frame of a query proof, read back, gives the query proof and what
/// follows the frame.
pub proof fn lemma_query_read_back(query: QueryProofView, tail: Seq<u8>)
    requires
        query.well_formed(),
    ensures
        parse_query(query_frame(query) + tail) == Some((query, tail)),
{
    reveal(query_frame);
    reveal(parse_query);
    let bytes = query_frame(query) + tail;
    let after_index = bytes_of_word(query.value) + digests_frame(query.merkle_path) + tail;
    let after_value = digests_frame(query.merkle_path) + tail;
    assert(bytes =~= le_bytes_of_u64(query.index as u64) + after_index);
    lemma_u64_read_back(query.index as u64, after_index);
    assert(bytes.skip(8) == after_index);
    assert(bytes.skip(12) =~= after_value);
    lemma_word_of_its_bytes(query.value);
    assert(after_index[0] == byte_of_word(query.value, 0));
    assert(after_index[1] == byte_of_word(query.value, 1));
    assert(after_index[2] == byte_of_word(query.value, 2));
    assert(after_index[3] == byte_of_word(query.value, 3));
    lemma_digests_read_back(query.merkle_path, tail);
}

/// The frames of a list of query proofs start with the frame of the
/// first.
pub proof fn lemma_queries_body_front(queries: Seq<QueryProofView>)
    requires
        queries.len() > 0,
    ensures
        queries_body(queries) == query_frame(queries[0]) + queries_body(queries.skip(1)),
    decreases queries.len(),
{
    if queries.len() == 1 {
        assert(queries.drop_last() =~= Seq::<QueryProofView>::empty());
        assert(queries.skip(1) =~= Seq::<QueryProofView>::empty());
        assert(queries_body(queries) =~= query_frame(queries[0]) + queries_body(queries.skip(1)));
    } else {
        let shorter = queries.drop_last();
        lemma_queries_body_front(shorter);
        assert(shorter.skip(1) =~= queries.skip(1).drop_last());
        assert(queries.skip(1).last() == queries.last());
        assert(queries_body(queries) =~= query_frame(queries[0]) + queries_body(queries.skip(1)));
    }
}

/// The frames of a list of query proofs, read back one by one, give the
/// query proofs and what follows the frames.
pub proof fn lemma_queries_read_back(queries: Seq<QueryProofView>, tail: Seq<u8>)
    requires
        forall|i: int| 0 <= i < queries.len() ==> (#[trigger] queries[i]).well_formed(),
    ensures
        parse_queries(queries_body(queries) + tail, queries.len()) == Some((queries, tail)),
    decreases queries.len(),
{
    if queries.len() == 0 {
        assert(queries_body(queries) + tail =~= tail);
        assert(queries =~= Seq::<QueryProofView>::empty());
    } else {
        let others = queries.skip(1);
        lemma_queries_body_front(queries);
        let after_first = queries_body(others) + tail;
        assert(queries_body(queries) + tail =~= query_frame(queries[0]) + after_first);
        assert(queries[0].well_formed());
        lemma_query_read_back(queries[0], after_first);
        assert forall|i: int| 0 <= i < others.len() implies (#[trigger] others[i]).well_formed() by {
            assert(others[i] == queries[i + 1]);
        }
        lemma_queries_read_back(others, tail);
        assert(seq![queries[0]] + others =~= queries);
    }
}

/// Three byte strings and a tail, joined from the left, are the same
/// bytes as joined from the right.
proof fn lemma_join_three(a: Seq<u8>, b: Seq<u8>, c: Seq<u8>, tail: Seq<u8>)
    ensures
        (a + b + c) + tail == a + (b + (c + tail)),
{
    assert((a + b + c) + tail =~= a + (b + (c + tail)));
}

/// Four byte strings and a tail, joined from the left, are the same bytes
/// as joined from the right.
proof fn lemma_join_four(a: Seq<u8>, b: Seq<u8>, c: Seq<u8>, d: Seq<u8>, tail: Seq<u8>)
    ensures
        (a + b + c + d) + tail == a + (b + (c + (d + tail))),
        (a + (b + (c + (d + tail)))).skip(a.len() as int) == b + (c + (d + tail)),
        (a + (b + (c + (d + tail)))).take(a.len() as int) == a,
{
    let right = a + (b + (c + (d + tail)));
    assert((a + b + c + d) + tail =~= right);
    assert(right.skip(a.len() as int) =~= b + (c + (d + tail)));
    assert(right.take(a.len() as int) =~= a);
}

/// The frame of a list of query proofs, read back, gives the query proofs
/// and what follows the frame.
pub proof fn lemma_query_list_read_back(queries: Seq<QueryProofView>, tail: Seq<u8>)
    requires
        queries.len() <= u64::MAX,
        forall|i: int| 0 <= i < queries.len() ==> (#[trigger] queries[i]).well_formed(),
    ensures
        parse_query_list(queries_frame(queries) + tail) == Some((queries, tail)),
{
    let after_count = queries_body(queries) + tail;
    assert(queries_frame(queries) + tail =~= le_bytes_of_u64(queries.len() as u64) + after_count);
    lemma_u64_read_back(queries.len() as u64, after_count);
    lemma_queries_read_back(queries, tail);
}

/// The frame of the low-degree part of a proof, read back, gives that
/// part and what follows the frame.
pub proof fn lemma_fri_read_back(fri: FriProofView, tail: Seq<u8>)
    requires
        fri.well_formed(),
    ensures
        parse_fri(fri_frame(fri) + tail) == Some((fri, tail)),
{
    let commitments = digests_frame(fri.commitments);
    let last = words_frame(fri.final_polynomial);
    let queries = queries_frame(fri.query_proofs);
    lemma_join_three(commitments, last, queries, tail);
    lemma_digests_read_back(fri.commitments, last + (queries + tail));
    lemma_words_read_back(fri.final_polynomial, queries + tail);
    lemma_query_list_read_back(fri.query_proofs, tail);
}

/// The frame of a well-formed proof, read back, gives the proof, whatever
/// follows the frame.
pub proof fn lemma_proof_read_back(proof: StarkProofView, tail: Seq<u8>)
    requires
        proof.well_formed(),
    ensures
        parse_proof(proof_frame(proof) + tail) == Some(proof),
{
    let evaluations = words_frame(proof.constraint_evaluations);
    let merkle = digests_frame(proof.merkle_proof);
    let fri = fri_frame(proof.fri_proof);
    lemma_join_four(proof.trace_commitment, evaluations, merkle, fri, tail);
    lemma_words_read_back(proof.constraint_evaluations, merkle + (fri + tail));
    lemma_digests_read_back(proof.merkle_proof, fri + tail);
    lemma_fri_read_back(proof.fri_proof, tail);
}

/// The number read from eight bytes, written again, gives those bytes.
pub proof fn lemma_u64_written_back(bytes: Seq<u8>)
    requires
        bytes.len() >= 8,
    ensures
        le_bytes_of_u64(u64_of_le_bytes(bytes)) == bytes.take(8),
{
    let (b0, b1, b2, b3) = (bytes[0], bytes[1], bytes[2], bytes[3]);
    let (b4, b5, b6, b7) = (bytes[4], bytes[5], bytes[6], bytes[7]);
    let value = u64_of_le_bytes(bytes);
    assert(value == (b0 as u64) | ((b1 as u64) << 8) | ((b2 as u64) << 16) | ((b3 as u64) << 24)
        | ((b4 as u64) << 32) | ((b5 as u64) << 40) | ((b6 as u64) << 48) | ((b7 as u64) << 56));
    assert(((value >> 0u64) & 0xff) as u8 == b0 && ((value >> 8u64) & 0xff) as u8 == b1 && ((value
        >> 16u64) & 0xff) as u8 == b2 && ((value >> 24u64) & 0xff) as u8 == b3 && ((value >> 32u64)
        & 0xff) as u8 == b4 && ((value >> 40u64) & 0xff) as u8 == b5 && ((value >> 48u64)
        & 0xff) as u8 == b6 && ((value >> 56u64) & 0xff) as u8 == b7) by (bit_vector)
        requires
            value == (b0 as u64) | ((b1 as u64) << 8) | ((b2 as u64) << 16) | ((b3 as u64) << 24)
                | ((b4 as u64) << 32) | ((b5 as u64) << 40) | ((b6 as u64) << 48) | ((b7 as u64)
                << 56),
    ;
    assert(le_bytes_of_u64(value) =~= bytes.take(8));
}

/// The word read from four bytes has those bytes.
pub proof fn lemma_word_written_back(b0: u8, b1: u8, b2: u8, b3: u8)
    ensures
        byte_of_word(word_of_bytes(b0, b1, b2, b3), 0) == b0,
        byte_of_word(word_of_bytes(b0, b1, b2, b3), 1) == b1,
        byte_of_word(word_of_bytes(b0, b1, b2, b3), 2) == b2,
        byte_of_word(word_of_bytes(b0, b1, b2, b3), 3) == b3,
{
    let value = word_of_bytes(b0, b1, b2, b3);
    assert(((value >> 0u32) & 0xff) as u8 == b0 && ((value >> 8u32) & 0xff) as u8 == b1 && ((value
        >> 16u32) & 0xff) as u8 == b2 && ((value >> 24u32) & 0xff) as u8 == b3) by (bit_vector)
        requires
            value == (b0 as u32) | ((b1 as u32) << 8) | ((b2 as u32) << 16) | ((b3 as u32) << 24),
    ;
}

/// Words that are read from bytes are framed by those bytes.
pub proof fn lemma_words_written_back(bytes: Seq<u8>)
    requires
        parse_words(bytes) is Some,
    ensures
        words_frame(parse_words(bytes)->Some_0.0) + parse_words(bytes)->Some_0.1 == bytes,
        parse_words(bytes)->Some_0.0.len() <= bytes.len(),
{
    reveal(words_frame);
    reveal(parse_words);
    let (words, rest) = parse_words(bytes)->Some_0;
    let count = u64_of_le_bytes(bytes) as nat;
    let body = bytes.skip(8);
    lemma_u64_written_back(bytes);
    assert(words.len() == count);
    assert forall|j: int| 0 <= j < 4 * count implies words_body(words)[j] == body[j] by {
        let i = j / 4;
        lemma_word_written_back(body[4 * i], body[4 * i + 1], body[4 * i + 2], body[4 * i + 3]);
    }
    assert(words_body(words) =~= body.take(4 * count as int));
    assert(bytes.take(8) + (body.take(4 * count as int) + rest) =~= bytes);
    assert(words_frame(words) + rest =~= bytes.take(8) + (body.take(4 * count as int) + rest));
}

/// Digests that are read from bytes are digests, and are framed by those
/// bytes.
pub proof fn lemma_digests_written_back(bytes: Seq<u8>)
    requires
        parse_digests(bytes) is Some,
    ensures
        digests_frame(parse_digests(bytes)->Some_0.0) + parse_digests(bytes)->Some_0.1 == bytes,
        all_digests(parse_digests(bytes)->Some_0.0),
        parse_digests(bytes)->Some_0.0.len() <= bytes.len(),
        parse_digests(bytes)->Some_0.1.len() + 8 <= bytes.len(),
{
    reveal(digests_frame);
    reveal(parse_digests);
    let (digests, rest) = parse_digests(bytes)->Some_0;
    let count = u64_of_le_bytes(bytes) as nat;
    let body = bytes.skip(8);
    lemma_u64_written_back(bytes);
    assert(digests.len() == count);
    assert forall|j: int| 0 <= j < 32 * count implies digests_body(digests)[j] == body[j] by {
        let i = j / 32;
        assert(digests[i] == body.subrange(32 * i, 32 * i + 32));
    }
    assert(digests_body(digests) =~= body.take(32 * count as int));
    assert(bytes.take(8) + (body.take(32 * count as int) + rest) =~= bytes);
    assert(digests_frame(digests) + rest =~= bytes.take(8) + (body.take(32 * count as int)
        + rest));
}

/// A query proof that is read from bytes is framed by those bytes.
pub proof fn lemma_query_written_back(bytes: Seq<u8>)
    requires
        parse_query(bytes) is Some,
        bytes.len() <= usize::MAX,
    ensures
        query_frame(parse_query(bytes)->Some_0.0) + parse_query(bytes)->Some_0.1 == bytes,
        parse_query(bytes)->Some_0.0.well_formed(),
        parse_query(bytes)->Some_0.1.len() + 20 <= bytes.len(),
{
    reveal(query_frame);
    reveal(parse_query);
    let (query, rest) = parse_query(bytes)->Some_0;
    let tail = bytes.skip(12);
    lemma_u64_written_back(bytes);
    lemma_digests_written_back(tail);
    let value_bytes = bytes.skip(8);
    lemma_word_written_back(value_bytes[0], value_bytes[1], value_bytes[2], value_bytes[3]);
    assert(bytes_of_word(query.value) =~= bytes.subrange(8, 12));
    assert(bytes.take(8) + (bytes.subrange(8, 12) + tail) =~= bytes);
    assert(query_frame(query) + rest =~= bytes.take(8) + (bytes.subrange(8, 12) + (digests_frame(
        query.merkle_path,
    ) + rest)));
}

/// Query proofs that are read from bytes one by one are framed by those
/// bytes.
pub proof fn lemma_queries_written_back(bytes: Seq<u8>, count: nat)
    requires
        parse_queries(bytes, count) is Some,
        bytes.len() <= usize::MAX,
    ensures
        queries_body(parse_queries(bytes, count)->Some_0.0) + parse_queries(bytes, count)->Some_0.1
            == bytes,
        parse_queries(bytes, count)->Some_0.0.len() == count,
        20 * count + parse_queries(bytes, count)->Some_0.1.len() <= bytes.len(),
        forall|i: int|
            0 <= i < count ==> (#[trigger] parse_queries(bytes, count)->Some_0.0[i]).well_formed(),
    decreases count,
{
    let (queries, end) = parse_queries(bytes, count)->Some_0;
    if count == 0 {
        assert(queries_body(queries) + end =~= bytes);
    } else {
        let (first, rest) = parse_query(bytes)->Some_0;
        let (others, _) = parse_queries(rest, (count - 1) as nat)->Some_0;
        lemma_query_written_back(bytes);
        lemma_queries_written_back(rest, (count - 1) as nat);
        assert(queries == seq![first] + others);
        lemma_queries_body_front(queries);
        assert(queries.skip(1) =~= others);
        assert(queries_body(queries) + end =~= query_frame(first) + (queries_body(others) + end));
        assert forall|i: int| 0 <= i < count implies (#[trigger] queries[i]).well_formed() by {
            if i > 0 {
                assert(queries[i] == others[i - 1]);
            }
        }
    }
}

/// A list of query proofs that is read from bytes is framed by those
/// bytes.
pub proof fn lemma_query_list_written_back(bytes: Seq<u8>)
    requires
        parse_query_list(bytes) is Some,
        bytes.len() <= usize::MAX,
    ensures
        queries_frame(parse_query_list(bytes)->Some_0.0) + parse_query_list(bytes)->Some_0.1
            == bytes,
        parse_query_list(bytes)->Some_0.0.len() <= bytes.len(),
        forall|i: int|
            0 <= i < parse_query_list(bytes)->Some_0.0.len() ==> (#[trigger] parse_query_list(
                bytes,
            )->Some_0.0[i]).well_formed(),
{
    let (queries, end) = parse_query_list(bytes)->Some_0;
    let count = u64_of_le_bytes(bytes) as nat;
    lemma_u64_written_back(bytes);
    lemma_queries_written_back(bytes.skip(8), count);
    assert(bytes.take(8) + bytes.skip(8) =~= bytes);
    assert(queries_frame(queries) + end =~= bytes.take(8) + (queries_body(queries) + end));
}

/// The low-degree part of a proof that is read from bytes is well formed
/// and framed by those bytes.
pub proof fn lemma_fri_written_back(bytes: Seq<u8>)
    requires
        parse_fri(bytes) is Some,
        bytes.len() <= usize::MAX,
    ensures
        fri_frame(parse_fri(bytes)->Some_0.0) + parse_fri(bytes)->Some_0.1 == bytes,
        parse_fri(bytes)->Some_0.0.well_formed(),
{
    let (fri, end) = parse_fri(bytes)->Some_0;
    let after_commitments = parse_digests(bytes)->Some_0.1;
    let after_final = parse_words(after_commitments)->Some_0.1;
    lemma_digests_written_back(bytes);
    lemma_words_written_back(after_commitments);
    lemma_query_list_written_back(after_final);
    lemma_join_three(
        digests_frame(fri.commitments),
        words_frame(fri.final_polynomial),
        queries_frame(fri.query_proofs),
        end,
    );
}

/// A proof that is read from bytes is well formed, and those bytes start
/// with its frame.
pub proof fn lemma_proof_written_back(bytes: Seq<u8>)
    requires
        parse_proof(bytes) is Some,
        bytes.len() <= usize::MAX,
    ensures
        parse_proof(bytes)->Some_0.well_formed(),
        proof_frame(parse_proof(bytes)->Some_0).is_prefix_of(bytes),
{
    let proof = parse_proof(bytes)->Some_0;
    let after_commitment = bytes.skip(32);
    let after_evaluations = parse_words(after_commitment)->Some_0.1;
    let after_merkle = parse_digests(after_evaluations)->Some_0.1;
    let end = parse_fri(after_merkle)->Some_0.1;
    lemma_words_written_back(after_commitment);
    lemma_digests_written_back(after_evaluations);
    lemma_fri_written_back(after_merkle);
    lemma_join_four(
        bytes.take(32),
        words_frame(proof.constraint_evaluations),
        digests_frame(proof.merkle_proof),
        fri_frame(proof.fri_proof),
        end,
    );
    assert(bytes.take(32) + after_commitment =~= bytes);
    assert(proof_frame(proof) + end == bytes);
    assert(proof_frame(proof) =~= bytes.take(proof_frame(proof).len() as int));
}

} // verus!
