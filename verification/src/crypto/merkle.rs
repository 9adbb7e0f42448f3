//! A Merkle tree over hashed leaves, with inclusion proofs by index.

use super::hash::{hash_bytes, hash_pair, pair_digest, simple_digest, HashValue};
use crate::utils::vectors::copy_of;
use vstd::prelude::*;

verus! {

/// The digest of all zero bytes: the root of the empty tree.
pub open spec fn zero_digest() -> Seq<u8> {
    Seq::new(32, |k: int| 0u8)
}

/// The index of the node that is hashed together with node `index` in a
/// level of `len` nodes: its neighbour in the pair, or the node itself
/// where it is the unpaired last node.
pub open spec fn sibling_index(index: nat, len: nat) -> nat {
    if index % 2 == 1 {
        (index - 1) as nat
    } else if index + 1 < len {
        index + 1
    } else {
        index
    }
}

/// The level above `level`: the digests of its adjacent pairs, an unpaired
/// last node being paired with itself.
pub open spec fn parent_level(level: Seq<Seq<u8>>) -> Seq<Seq<u8>> {
    Seq::new(
        ((level.len() + 1) / 2) as nat,
        |j: int| pair_digest(level[2 * j], level[sibling_index((2 * j) as nat, level.len()) as int]),
    )
}

/// All levels of the tree above and including `level`, up to the level
/// that holds the root alone.
pub open spec fn levels_from(level: Seq<Seq<u8>>) -> Seq<Seq<Seq<u8>>>
    decreases level.len(),
{
    if level.len() <= 1 {
        seq![level]
    } else {
        seq![level] + levels_from(parent_level(level))
    }
}

/// The hashed leaves of a tree over `data`, the last one repeated where
/// their number is odd.
pub open spec fn leaf_level(data: Seq<Seq<u8>>) -> Seq<Seq<u8>> {
    let hashed = data.map_values(|d: Seq<u8>| simple_digest(d));
    if hashed.len() % 2 != 0 {
        hashed.push(hashed.last())
    } else {
        hashed
    }
}

/// The siblings that prove the node at `index` of the lowest of `levels`:
/// one from every level but the last, from the bottom up.
pub open spec fn siblings_along(levels: Seq<Seq<Seq<u8>>>, index: nat) -> Seq<Seq<u8>>
    decreases levels.len(),
{
    if levels.len() <= 1 {
        Seq::empty()
    } else {
        seq![levels[0][sibling_index(index, levels[0].len()) as int]] + siblings_along(
            levels.skip(1),
            index / 2,
        )
    }
}

/// The digest reached from `current`, the node at `index` of some level,
/// by hashing it with each of `siblings` in turn: on the left where the
/// index is even, on the right where it is odd.
pub open spec fn fold_siblings(current: Seq<u8>, index: nat, siblings: Seq<Seq<u8>>) -> Seq<u8>
    decreases siblings.len(),
{
    if siblings.len() == 0 {
        current
    } else {
        let next = if index % 2 == 0 {
            pair_digest(current, siblings[0])
        } else {
            pair_digest(siblings[0], current)
        };
        fold_siblings(next, index / 2, siblings.skip(1))
    }
}

/// The mathematical content of a [`MerkleProof`].
pub struct MerkleProofView {
    pub leaf: Seq<u8>,
    pub siblings: Seq<Seq<u8>>,
    pub index: nat,
}

/// The mathematical content of a [`MerkleTree`].
pub struct MerkleTreeView {
    pub leaves: Seq<Seq<u8>>,
    pub levels: Seq<Seq<Seq<u8>>>,
    pub root: Seq<u8>,
}

impl MerkleTreeView {
    /// The tree over `data`: empty input gives no levels and the zero
    /// root.
    pub open spec fn of(data: Seq<Seq<u8>>) -> MerkleTreeView {
        if data.len() == 0 {
            MerkleTreeView { leaves: Seq::empty(), levels: Seq::empty(), root: zero_digest() }
        } else {
            let leaves = leaf_level(data);
            let levels = levels_from(leaves);
            MerkleTreeView { leaves, levels, root: levels.last()[0] }
        }
    }

    /// Whether this is a tree as [`MerkleTreeView::of`] builds them.
    pub open spec fn well_formed(self) -> bool {
        if self.leaves.len() == 0 {
            self.levels.len() == 0 && self.root == zero_digest()
        } else {
            &&& self.levels == levels_from(self.leaves)
            &&& self.root == self.levels.last()[0]
        }
    }

    /// The inclusion proof for the leaf at `index`, if there is such a
    /// leaf.
    pub open spec fn proof_for(self, index: nat) -> Option<MerkleProofView> {
        if index < self.leaves.len() {
            Some(
                MerkleProofView {
                    leaf: self.leaves[index as int],
                    siblings: siblings_along(self.levels, index),
                    index,
                },
            )
        } else {
            None
        }
    }

    /// Whether `proof` leads to the root of this tree.
    pub open spec fn accepts(self, proof: MerkleProofView) -> bool {
        fold_siblings(proof.leaf, proof.index, proof.siblings) == self.root
    }
}

/// Whether every item of `digests` has the 32 bytes of a digest.
pub open spec fn all_digests(digests: Seq<Seq<u8>>) -> bool {
    forall|i: int| 0 <= i < digests.len() ==> (#[trigger] digests[i]).len() == 32
}

/// The views of a sequence of digests.
pub open spec fn digest_views(digests: Seq<HashValue>) -> Seq<Seq<u8>> {
    digests.map_values(|d: HashValue| d@)
}

/// The views of a sequence of levels.
pub open spec fn level_views(levels: Seq<Vec<HashValue>>) -> Seq<Seq<Seq<u8>>> {
    levels.map_values(|level: Vec<HashValue>| digest_views(level@))
}

/// The views of a sequence of byte slices.
pub open spec fn slice_views(data: Seq<&[u8]>) -> Seq<Seq<u8>> {
    data.map_values(|d: &[u8]| d@)
}

/// The chain of levels above a non-empty level starts with that level,
/// holds no empty level, and ends with a single node.
pub proof fn lemma_levels_from_shape(level: Seq<Seq<u8>>)
    requires
        level.len() >= 1,
    ensures
        levels_from(level).len() >= 1,
        levels_from(level)[0] == level,
        levels_from(level).last().len() == 1,
        forall|k: int| 0 <= k < levels_from(level).len() ==> #[trigger] levels_from(level)[k].len()
            >= 1,
        level.len() > 1 ==> levels_from(level).len() > 1 && levels_from(level).skip(1)
            == levels_from(parent_level(level)),
        level.len() == 1 ==> levels_from(level).len() == 1,
    decreases level.len(),
{
    if level.len() > 1 {
        let parent = parent_level(level);
        lemma_levels_from_shape(parent);
        let all = levels_from(level);
        assert(all.skip(1) =~= levels_from(parent));
        assert(all.last() == levels_from(parent).last());
        assert forall|k: int| 0 <= k < all.len() implies #[trigger] all[k].len() >= 1 by {
            if k > 0 {
                assert(all[k] == levels_from(parent)[k - 1]);
            }
        }
    }
}

/// Folding the siblings along the path from any node of a level leads to
/// the single node of the last level above it.
pub proof fn lemma_fold_reaches_top(level: Seq<Seq<u8>>, index: nat)
    requires
        index < level.len(),
    ensures
        fold_siblings(level[index as int], index, siblings_along(levels_from(level), index))
            == levels_from(level).last()[0],
    decreases level.len(),
{
    lemma_levels_from_shape(level);
    let all = levels_from(level);
    if level.len() > 1 {
        let parent = parent_level(level);
        let siblings = siblings_along(all, index);
        let rest = siblings_along(levels_from(parent), index / 2);
        assert(siblings == seq![level[sibling_index(index, level.len()) as int]] + rest);
        assert(siblings.skip(1) =~= rest);
        assert(siblings[0] == level[sibling_index(index, level.len()) as int]);
        let j = (index / 2) as int;
        assert(parent[j] == pair_digest(
            level[2 * j],
            level[sibling_index((2 * j) as nat, level.len()) as int],
        ));
        lemma_fold_reaches_top(parent, index / 2);
        lemma_levels_from_shape(parent);
        assert(all.last() == levels_from(parent).last());
    }
}

/// The proof that a well-formed tree gives for any of its leaves leads to
/// its root.
pub proof fn lemma_generated_proof_verifies(tree: MerkleTreeView, index: nat)
    requires
        tree.well_formed(),
        index < tree.leaves.len(),
    ensures
        tree.proof_for(index) is Some,
        tree.accepts(tree.proof_for(index)->Some_0),
{
    lemma_fold_reaches_top(tree.leaves, index);
}

/// A tree over any data is well formed, and over non-empty data it has an
/// even, positive number of leaves.
pub proof fn lemma_tree_of_data_well_formed(data: Seq<Seq<u8>>)
    ensures
        MerkleTreeView::of(data).well_formed(),
        data.len() > 0 ==> MerkleTreeView::of(data).leaves.len() >= 2,
        MerkleTreeView::of(data).leaves.len() % 2 == 0,
{
}

/// Every node above a level of digests is a digest.
pub proof fn lemma_levels_are_digests(level: Seq<Seq<u8>>)
    requires
        level.len() >= 1,
        all_digests(level),
    ensures
        forall|k: int|
            0 <= k < levels_from(level).len() ==> all_digests(#[trigger] levels_from(level)[k]),
    decreases level.len(),
{
    lemma_levels_from_shape(level);
    let all = levels_from(level);
    if level.len() > 1 {
        let parent = parent_level(level);
        assert forall|j: int| 0 <= j < parent.len() implies (#[trigger] parent[j]).len() == 32 by {}
        lemma_levels_are_digests(parent);
        assert forall|k: int| 0 <= k < all.len() implies all_digests(#[trigger] all[k]) by {
            if k > 0 {
                assert(all[k] == levels_from(parent)[k - 1]);
            }
        }
    }
}

/// The root of every tree is a digest.
pub proof fn lemma_root_is_digest(data: Seq<Seq<u8>>)
    ensures
        MerkleTreeView::of(data).root.len() == 32,
{
    if data.len() > 0 {
        let leaves = leaf_level(data);
        assert forall|j: int| 0 <= j < leaves.len() implies (#[trigger] leaves[j]).len() == 32 by {}
        lemma_levels_from_shape(leaves);
        lemma_levels_are_digests(leaves);
        let top = levels_from(leaves).last();
        assert(all_digests(top));
        assert(top[0].len() == 32);
    }
}

/// A Merkle tree: the hashed leaves, every level from the leaves up to the
/// root, and the root.
#[derive(Debug)]
pub struct MerkleTree {
    leaves: Vec<HashValue>,
    nodes: Vec<Vec<HashValue>>,
    root: HashValue,
}

/// An inclusion proof: a leaf digest, its index, and the sibling digests
/// from the leaves up.
#[derive(Debug)]
pub struct MerkleProof {
    pub leaf: HashValue,
    pub proof: Vec<HashValue>,
    pub index: usize,
}

impl View for MerkleProof {
    type V = MerkleProofView;

    open spec fn view(&self) -> MerkleProofView {
        MerkleProofView {
            leaf: self.leaf@,
            siblings: digest_views(self.proof@),
            index: self.index as nat,
        }
    }
}

impl Clone for MerkleProof {
    fn clone(&self) -> (copy: Self)
        ensures
            copy@ == self@,
    {
        MerkleProof { leaf: self.leaf, proof: copy_of(&self.proof), index: self.index }
    }
}

impl View for MerkleTree {
    type V = MerkleTreeView;

    closed spec fn view(&self) -> MerkleTreeView {
        MerkleTreeView {
            leaves: digest_views(self.leaves@),
            levels: level_views(self.nodes@),
            root: self.root@,
        }
    }
}

impl Clone for MerkleTree {
    fn clone(&self) -> (copy: Self)
        ensures
            copy@ == self@,
    {
        proof {
            use_type_invariant(self);
        }
        let mut nodes: Vec<Vec<HashValue>> = Vec::new();
        let mut i: usize = 0;
        while i < self.nodes.len()
            invariant
                i <= self.nodes@.len(),
                level_views(nodes@) =~= level_views(self.nodes@).take(i as int),
            decreases self.nodes@.len() - i,
        {
            let level = copy_of(&self.nodes[i]);
            let ghost before = nodes@;
            let ghost copied = digest_views(level@);
            nodes.push(level);
            assert(level_views(nodes@) =~= level_views(before).push(copied));
            i += 1;
        }
        assert(level_views(self.nodes@).take(i as int) =~= level_views(self.nodes@));
        MerkleTree { leaves: copy_of(&self.leaves), nodes, root: self.root }
    }
}

/// Whether two digests hold the same bytes.
fn same_digest(a: &HashValue, b: &HashValue) -> (same: bool)
    ensures
        same == (a@ == b@),
{
    let mut i: usize = 0;
    while i < 32
        invariant
            i <= 32,
            forall|j: int| 0 <= j < i ==> a@[j] == b@[j],
        decreases 32 - i,
    {
        if a[i] != b[i] {
            return false;
        }
        i += 1;
    }
    assert(a@ =~= b@);
    true
}

/// Builds the level above `level`.
fn build_parent_level(level: &Vec<HashValue>) -> (parent: Vec<HashValue>)
    ensures
        digest_views(parent@) == parent_level(digest_views(level@)),
{
    let mut parent: Vec<HashValue> = Vec::new();
    let mut j: usize = 0;
    let ghost below = digest_views(level@);
    let count = level.len() / 2 + level.len() % 2;
    while j < count
        invariant
            below == digest_views(level@),
            count == (level.len() + 1) / 2,
            j <= count,
            parent@.len() == j,
            digest_views(parent@) =~= parent_level(below).take(j as int),
        decreases count - j,
    {
        let left = &level[2 * j];
        let right = if 2 * j + 1 < level.len() {
            &level[2 * j + 1]
        } else {
            &level[2 * j]
        };
        parent.push(hash_pair(left, right));
        j += 1;
    }
    assert(parent_level(below).take(j as int) =~= parent_level(below));
    parent
}

impl MerkleTree {
    #[verifier::type_invariant]
    spec fn well_formed(self) -> bool {
        self@.well_formed()
    }

    /// Builds the tree over `data`. Each item is hashed into a leaf; an
    /// odd number of leaves has the last one repeated. No data gives the
    /// tree without levels, whose root is all zero.
    pub fn new(data: Vec<&[u8]>) -> (tree: Self)
        ensures
            tree@ == MerkleTreeView::of(slice_views(data@)),
    {
        if data.len() == 0 {
            let leaves: Vec<HashValue> = Vec::new();
            let nodes: Vec<Vec<HashValue>> = Vec::new();
            let root: HashValue = [0u8;32];
            assert(digest_views(leaves@) =~= Seq::<Seq<u8>>::empty());
            assert(level_views(nodes@) =~= Seq::<Seq<Seq<u8>>>::empty());
            assert(root@ =~= zero_digest());
            return Self { leaves, nodes, root };
        }
        let ghost hashed = slice_views(data@).map_values(|d: Seq<u8>| simple_digest(d));
        let mut leaves: Vec<HashValue> = Vec::new();
        let mut i: usize = 0;
        while i < data.len()
            invariant
                i <= data@.len(),
                hashed == slice_views(data@).map_values(|d: Seq<u8>| simple_digest(d)),
                digest_views(leaves@) =~= hashed.take(i as int),
            decreases data@.len() - i,
        {
            assert(hashed[i as int] == simple_digest(data@[i as int]@));
            leaves.push(hash_bytes(data[i]));
            assert(digest_views(leaves@) =~= hashed.take(i as int).push(hashed[i as int]));
            i += 1;
        }
        assert(hashed.take(i as int) =~= hashed);

        if leaves.len() % 2 != 0 {
            let last = leaves[leaves.len() - 1];
            leaves.push(last);
        }
        let ghost bottom = leaf_level(slice_views(data@));
        assert(digest_views(leaves@) =~= bottom);

        let mut nodes: Vec<Vec<HashValue>> = Vec::new();
        nodes.push(copy_of(&leaves));
        let mut current_level = copy_of(&leaves);
        assert(level_views(nodes@).drop_last() =~= Seq::<Seq<Seq<u8>>>::empty());

        while current_level.len() > 1
            invariant
                nodes@.len() >= 1,
                current_level@.len() >= 1,
                bottom.len() >= 1,
                level_views(nodes@).last() == digest_views(current_level@),
                levels_from(bottom) == level_views(nodes@).drop_last() + levels_from(
                    digest_views(current_level@),
                ),
            decreases current_level@.len(),
        {
            let next_level = build_parent_level(&current_level);
            let ghost before = level_views(nodes@);
            nodes.push(copy_of(&next_level));
            proof {
                let current = digest_views(current_level@);
                let next = digest_views(next_level@);
                assert(level_views(nodes@) =~= before.push(next));
                assert(level_views(nodes@).drop_last() =~= before);
                assert(before =~= before.drop_last() + seq![current]);
                assert(levels_from(current) == seq![current] + levels_from(next));
                assert(before.drop_last() + (seq![current] + levels_from(next)) =~= before
                    + levels_from(next));
            }
            current_level = next_level;
        }
        proof {
            let current = digest_views(current_level@);
            let levels = level_views(nodes@);
            assert(levels_from(current) =~= seq![current]);
            assert(levels =~= levels.drop_last() + seq![current]);
        }

        let root = current_level[0];
        let tree = Self { leaves, nodes, root };
        proof {
            lemma_levels_from_shape(bottom);
        }
        tree
    }

    /// The root digest.
    pub fn root(&self) -> (root: &HashValue)
        ensures
            root@ == self@.root,
    {
        &self.root
    }

    /// The inclusion proof for the leaf at `index`, or `None` where the
    /// tree has no such leaf.
    pub fn generate_proof(&self, index: usize) -> (generated: Option<MerkleProof>)
        ensures
            match generated {
                Some(proof) => self@.proof_for(index as nat) == Some(proof@) && self@.accepts(
                    proof@,
                ),
                None => self@.proof_for(index as nat) is None,
            },
    {
        proof {
            use_type_invariant(self);
        }
        if index >= self.leaves.len() {
            return None;
        }
        proof {
            lemma_generated_proof_verifies(self@, index as nat);
        }
        let ghost levels = level_views(self.nodes@);
        proof {
            lemma_levels_from_shape(self@.leaves);
            assert(levels.skip(0) =~= levels);
        }
        let mut proof: Vec<HashValue> = Vec::new();
        let mut current_index = index;
        let mut k: usize = 0;
        while k + 1 < self.nodes.len()
            invariant
                levels == level_views(self.nodes@),
                k < self.nodes.len(),
                levels.skip(k as int) == levels_from(levels[k as int]),
                current_index < levels[k as int].len(),
                siblings_along(levels, index as nat) == digest_views(proof@) + siblings_along(
                    levels.skip(k as int),
                    current_index as nat,
                ),
            decreases self.nodes@.len() - k,
        {
            let level = &self.nodes[k];
            let sibling_index = if current_index % 2 == 1 {
                current_index - 1
            } else if current_index + 1 < level.len() {
                current_index + 1
            } else {
                current_index
            };
            proof {
                let here = levels[k as int];
                let rest = levels.skip(k as int);
                lemma_levels_from_shape(here);
                assert(rest.len() > 1);
                assert(rest.skip(1) =~= levels.skip(k as int + 1));
                assert(levels[k as int + 1] == rest.skip(1)[0]);
                lemma_levels_from_shape(parent_level(here));
                assert(rest[0] == here);
                assert(digest_views(proof@.push(level[sibling_index as int])) =~= digest_views(
                    proof@,
                ) + seq![here[sibling_index as int]]);
                assert((digest_views(proof@) + seq![here[sibling_index as int]]) + siblings_along(
                    rest.skip(1),
                    (current_index / 2) as nat,
                ) =~= digest_views(proof@) + (seq![here[sibling_index as int]] + siblings_along(
                    rest.skip(1),
                    (current_index / 2) as nat,
                )));
            }
            proof.push(level[sibling_index]);
            current_index = current_index / 2;
            k += 1;
        }
        proof {
            assert(levels.skip(k as int).len() == 1);
            assert(digest_views(proof@) + Seq::<Seq<u8>>::empty() =~= digest_views(proof@));
        }

        Some(MerkleProof { leaf: self.leaves[index], proof, index })
    }

    /// Whether `proof` leads to the root of this tree: the leaf is hashed
    /// with each sibling in turn, on the side its index gives, and the
    /// result is compared with the root.
    pub fn verify_proof(&self, proof: &MerkleProof) -> (accepted: bool)
        ensures
            accepted == self@.accepts(proof@),
    {
        let mut current_hash = proof.leaf;
        let mut current_index = proof.index;
        let ghost siblings = digest_views(proof.proof@);
        let mut k: usize = 0;
        assert(siblings.skip(0) =~= siblings);
        while k < proof.proof.len()
            invariant
                k <= proof.proof@.len(),
                siblings == digest_views(proof.proof@),
                fold_siblings(proof.leaf@, proof.index as nat, siblings) == fold_siblings(
                    current_hash@,
                    current_index as nat,
                    siblings.skip(k as int),
                ),
            decreases proof.proof@.len() - k,
        {
            let sibling = &proof.proof[k];
            assert(siblings.skip(k as int).skip(1) =~= siblings.skip(k as int + 1));
            assert(siblings.skip(k as int)[0] == sibling@);
            if current_index % 2 == 0 {
                current_hash = hash_pair(&current_hash, sibling);
            } else {
                current_hash = hash_pair(sibling, &current_hash);
            }
            current_index = current_index / 2;
            k += 1;
        }
        same_digest(&current_hash, &self.root)
    }
}

} // verus!
