//! Witnesses: assignments of values to named cells.

use vstd::prelude::*;
use vstd::utf8::encode_utf8;

verus! {

/// The number of buckets of a witness.
pub const BUCKETS: usize = 1024;

/// The hash of a byte string by which names are spread over buckets.
pub open spec fn bytes_hash(bytes: Seq<u8>) -> u64
    decreases bytes.len(),
{
    if bytes.len() == 0 {
        5381
    } else {
        bytes_hash(bytes.drop_last()).wrapping_mul(33).wrapping_add(bytes.last() as u64)
    }
}

/// The bucket in which a name is kept.
pub open spec fn bucket_of(name: Seq<char>) -> int {
    (bytes_hash(encode_utf8(name)) % (BUCKETS as u64)) as int
}

/// The value of the first entry of `entries` that is named `name`.
pub open spec fn first_match(entries: Seq<(String, u32)>, name: Seq<char>) -> Option<u32>
    decreases entries.len(),
{
    if entries.len() == 0 {
        None
    } else if entries[0].0@ == name {
        Some(entries[0].1)
    } else {
        first_match(entries.skip(1), name)
    }
}

/// Where no entry before `at` is named `name`, the first match among all
/// entries is the first match from `at` on.
proof fn lemma_first_match_skips(entries: Seq<(String, u32)>, name: Seq<char>, at: int)
    requires
        0 <= at <= entries.len(),
        forall|j: int| 0 <= j < at ==> entries[j].0@ != name,
    ensures
        first_match(entries, name) == first_match(entries.skip(at), name),
    decreases at,
{
    if at == 0 {
        assert(entries.skip(0) =~= entries);
    } else {
        lemma_first_match_skips(entries.skip(1), name, at - 1);
        assert(entries.skip(1).skip(at - 1) =~= entries.skip(at));
    }
}

/// Giving a new value to the first entry named `name` changes what that
/// name matches, and nothing else.
proof fn lemma_first_match_after_update(
    entries: Seq<(String, u32)>,
    at: int,
    entry: (String, u32),
    other: Seq<char>,
)
    requires
        0 <= at < entries.len(),
        entries[at].0@ == entry.0@,
        forall|j: int| 0 <= j < at ==> entries[j].0@ != entry.0@,
    ensures
        first_match(entries.update(at, entry), other) == if other == entry.0@ {
            Some(entry.1)
        } else {
            first_match(entries, other)
        },
    decreases at,
{
    let updated = entries.update(at, entry);
    if at == 0 {
        assert(updated.skip(1) =~= entries.skip(1));
    } else {
        lemma_first_match_after_update(entries.skip(1), at - 1, entry, other);
        assert(updated.skip(1) =~= entries.skip(1).update(at - 1, entry));
    }
}

/// Adding an entry under a name that no entry has changes what that name
/// matches, and nothing else.
proof fn lemma_first_match_after_push(
    entries: Seq<(String, u32)>,
    entry: (String, u32),
    other: Seq<char>,
)
    requires
        forall|j: int| 0 <= j < entries.len() ==> entries[j].0@ != entry.0@,
    ensures
        first_match(entries.push(entry), other) == if other == entry.0@ {
            Some(entry.1)
        } else {
            first_match(entries, other)
        },
    decreases entries.len(),
{
    let pushed = entries.push(entry);
    if entries.len() == 0 {
        assert(pushed.skip(1) =~= Seq::<(String, u32)>::empty());
        assert(pushed[0] == entry);
        assert(first_match(pushed.skip(1), other) is None);
    } else {
        lemma_first_match_after_push(entries.skip(1), entry, other);
        assert(pushed.skip(1) =~= entries.skip(1).push(entry));
        assert(pushed[0] == entries[0]);
    }
}

/// A witness: a value for each of some named cells. A name that is given
/// a value twice keeps the second.
#[derive(Debug)]
pub struct Witness {
    buckets: Vec<Vec<(String, u32)>>,
}

impl View for Witness {
    type V = Map<Seq<char>, u32>;

    closed spec fn view(&self) -> Map<Seq<char>, u32> {
        Map::new(
            |name: Seq<char>| first_match(self.buckets@[bucket_of(name)]@, name) is Some,
            |name: Seq<char>| first_match(self.buckets@[bucket_of(name)]@, name)->Some_0,
        )
    }
}

impl Clone for Witness {
    fn clone(&self) -> (copy: Self)
        ensures
            copy@ == self@,
    {
        proof {
            use_type_invariant(self);
        }
        let mut buckets: Vec<Vec<(String, u32)>> = Vec::new();
        let mut b: usize = 0;
        while b < self.buckets.len()
            invariant
                b <= self.buckets@.len(),
                buckets@.len() == b,
                forall|c: int| 0 <= c < b ==> (#[trigger] buckets@[c])@ == self.buckets@[c]@,
            decreases self.buckets@.len() - b,
        {
            let bucket = &self.buckets[b];
            let mut entries: Vec<(String, u32)> = Vec::new();
            let mut j: usize = 0;
            while j < bucket.len()
                invariant
                    j <= bucket@.len(),
                    entries@ =~= bucket@.take(j as int),
                decreases bucket@.len() - j,
            {
                entries.push((bucket[j].0.clone(), bucket[j].1));
                j += 1;
            }
            assert(bucket@.take(j as int) =~= bucket@);
            buckets.push(entries);
            b += 1;
        }
        let copy = Witness { buckets };
        assert(copy@ =~= self@);
        copy
    }
}

/// The bucket for `name`.
fn bucket_index(name: &String) -> (index: usize)
    ensures
        index == bucket_of(name@),
        index < BUCKETS,
{
    let bytes = name.as_str().as_bytes();
    let mut hash: u64 = 5381;
    let mut i: usize = 0;
    assert(bytes@.take(0) =~= Seq::<u8>::empty());
    while i < bytes.len()
        invariant
            i <= bytes@.len(),
            hash == bytes_hash(bytes@.take(i as int)),
        decreases bytes@.len() - i,
    {
        assert(bytes@.take(i as int + 1).drop_last() =~= bytes@.take(i as int));
        hash = hash.wrapping_mul(33).wrapping_add(bytes[i] as u64);
        i += 1;
    }
    assert(bytes@.take(i as int) =~= bytes@);
    (hash % (BUCKETS as u64)) as usize
}

impl Witness {
    #[verifier::type_invariant]
    spec fn well_formed(self) -> bool {
        self.buckets@.len() == BUCKETS
    }

    /// The witness that gives no cell a value.
    pub fn new() -> (witness: Self)
        ensures
            witness@ == Map::<Seq<char>, u32>::empty(),
    {
        let mut buckets: Vec<Vec<(String, u32)>> = Vec::new();
        let mut i: usize = 0;
        while i < BUCKETS
            invariant
                i <= BUCKETS,
                buckets@.len() == i,
                forall|j: int| 0 <= j < i ==> (#[trigger] buckets@[j])@.len() == 0,
            decreases BUCKETS - i,
        {
            buckets.push(Vec::new());
            i += 1;
        }
        let witness = Witness { buckets };
        assert(witness@ =~= Map::<Seq<char>, u32>::empty());
        witness
    }

    /// Gives the cell `name` the value `value`.
    #[verifier::loop_isolation(false)]
    pub fn insert(&mut self, name: String, value: u32)
        ensures
            final(self)@ == old(self)@.insert(name@, value),
    {
        proof {
            use_type_invariant(&*self);
        }
        let b = bucket_index(&name);
        let ghost entries = self.buckets@[b as int]@;
        let mut j: usize = 0;
        while j < self.buckets[b].len()
            invariant
                *self == *old(self),
                self.buckets@.len() == BUCKETS,
                b < self.buckets@.len(),
                entries == self.buckets@[b as int]@,
                j <= entries.len(),
                forall|k: int| 0 <= k < j ==> entries[k].0@ != name@,
            decreases entries.len() - j,
        {
            if self.buckets[b][j].0 == name {
                self.buckets[b][j].1 = value;
                proof {
                    let entry = (entries[j as int].0, value);
                    assert(self.buckets@[b as int]@ =~= entries.update(j as int, entry));
                    assert forall|other: Seq<char>| bucket_of(other) == b implies first_match(
                        self.buckets@[b as int]@,
                        other,
                    ) == if other == name@ {
                        Some(value)
                    } else {
                        first_match(entries, other)
                    } by {
                        lemma_first_match_after_update(entries, j as int, entry, other);
                    }
                    lemma_view_after_change(*old(self), *self, b as int, name@, value);
                }
                return ;
            }
            j += 1;
        }
        let ghost entry = (name, value);
        self.buckets[b].push((name, value));
        proof {
            assert(self.buckets@[b as int]@ =~= entries.push(entry));
            assert forall|other: Seq<char>| bucket_of(other) == b implies first_match(
                self.buckets@[b as int]@,
                other,
            ) == if other == name@ {
                Some(value)
            } else {
                first_match(entries, other)
            } by {
                lemma_first_match_after_push(entries, entry, other);
            }
            lemma_view_after_change(*old(self), *self, b as int, name@, value);
        }
    }

    /// The value of the cell `name`, if it has one.
    #[verifier::loop_isolation(false)]
    pub fn get(&self, name: &String) -> (value: Option<u32>)
        ensures
            value == if self@.contains_key(name@) {
                Some(self@[name@])
            } else {
                None
            },
    {
        proof {
            use_type_invariant(self);
        }
        let b = bucket_index(name);
        let bucket = &self.buckets[b];
        let mut j: usize = 0;
        while j < bucket.len()
            invariant
                j <= bucket@.len(),
                forall|k: int| 0 <= k < j ==> bucket@[k].0@ != name@,
            decreases bucket@.len() - j,
        {
            if bucket[j].0 == *name {
                proof {
                    lemma_first_match_skips(bucket@, name@, j as int);
                    assert(bucket@.skip(j as int)[0] == bucket@[j as int]);
                    assert(first_match(bucket@, name@) == Some(bucket@[j as int].1));
                    assert(self@.contains_key(name@));
                }
                return Some(bucket[j].1);
            }
            j += 1;
        }
        proof {
            lemma_first_match_skips(bucket@, name@, j as int);
            assert(bucket@.skip(j as int) =~= Seq::<(String, u32)>::empty());
            assert(first_match(bucket@, name@) is None);
            assert(!self@.contains_key(name@));
        }
        None
    }
}

/// A change to the bucket of `name` that makes `name` match `value` and
/// leaves every other match as it was is an insertion into the mapping.
proof fn lemma_view_after_change(
    before: Witness,
    after: Witness,
    bucket: int,
    name: Seq<char>,
    value: u32,
)
    requires
        bucket == bucket_of(name),
        before.buckets@.len() == after.buckets@.len(),
        forall|c: int|
            0 <= c < before.buckets@.len() && c != bucket ==> before.buckets@[c]
                == after.buckets@[c],
        0 <= bucket < before.buckets@.len(),
        before.buckets@.len() == BUCKETS,
        forall|other: Seq<char>|
            bucket_of(other) == bucket ==> first_match(after.buckets@[bucket]@, other) == if other
                == name {
                Some(value)
            } else {
                first_match(before.buckets@[bucket]@, other)
            },
    ensures
        after@ == before@.insert(name, value),
{
    assert forall|other: Seq<char>| 0 <= #[trigger] bucket_of(other) < BUCKETS by {}
    assert(after@ =~= before@.insert(name, value));
}

} // verus!
