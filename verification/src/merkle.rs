use vstd::prelude::*;

use crate::hash_utils::{bytes_le, bytes_le_spec, sha256_spec, Hasher};

verus! {

/// The parent of two nodes: the SHA-256 hash of the smaller (in byte order) followed by the
/// larger. Proofs can therefore be checked without knowing on which side a node stood.
pub open spec fn hash_pair_spec(a: Seq<u8>, b: Seq<u8>) -> Seq<u8> {
    if bytes_le_spec(a, b) {
        sha256_spec(a + b)
    } else {
        sha256_spec(b + a)
    }
}

/// The views of a list of hashes.
pub open spec fn hashes_view(v: Seq<crate::hash_utils::Hash>) -> Seq<Seq<u8>> {
    v.map_values(|h: crate::hash_utils::Hash| h@)
}

/// The leaves a tree is built from: one zero hash for an empty list, the list itself for one
/// leaf or an even number, and the list with its last leaf repeated otherwise.
pub open spec fn padded_leaves_spec(leaves: Seq<Seq<u8>>) -> Seq<Seq<u8>> {
    if leaves.len() == 0 {
        seq![crate::hash_utils::Hash::zero_spec()]
    } else if leaves.len() % 2 != 0 && leaves.len() > 1 {
        leaves.push(leaves.last())
    } else {
        leaves
    }
}

/// The level above `level`: node `k` is the parent of nodes `2k` and `2k + 1`, or of node `2k`
/// with itself when `2k + 1` does not exist.
pub open spec fn next_level_spec(level: Seq<Seq<u8>>) -> Seq<Seq<u8>> {
    Seq::new(
        ((level.len() + 1) / 2) as nat,
        |k: int|
            hash_pair_spec(
                level[2 * k],
                if 2 * k + 1 < level.len() {
                    level[2 * k + 1]
                } else {
                    level[2 * k]
                },
            ),
    )
}

/// All levels from `level` up to the root level (a level of at most one node).
pub open spec fn tree_levels_spec(level: Seq<Seq<u8>>) -> Seq<Seq<Seq<u8>>>
    decreases level.len(),
{
    if level.len() <= 1 {
        seq![level]
    } else {
        seq![level] + tree_levels_spec(next_level_spec(level))
    }
}

/// The node next to `i` in its pair.
pub open spec fn sibling_spec(i: int) -> int {
    if i % 2 == 0 {
        i + 1
    } else {
        i - 1
    }
}

/// The index on level `j` of the ancestor of leaf `idx`.
pub open spec fn index_at_spec(idx: int, j: nat) -> int
    decreases j,
{
    if j == 0 {
        idx
    } else {
        index_at_spec(idx, (j - 1) as nat) / 2
    }
}

/// The node that node `i` of `level` is paired with when the level above is built: its
/// sibling, or itself when it is the unpaired last node of an odd level.
pub open spec fn partner_spec(level: Seq<Seq<u8>>, i: int) -> Seq<u8> {
    if 0 <= sibling_spec(i) < level.len() {
        level[sibling_spec(i)]
    } else {
        level[i]
    }
}

/// The partners of the ancestors of leaf `idx` on levels `0..j`.
pub open spec fn proof_prefix_spec(levels: Seq<Seq<Seq<u8>>>, idx: int, j: nat) -> Seq<Seq<u8>>
    decreases j,
{
    if j == 0 {
        seq![]
    } else {
        let k = (j - 1) as int;
        proof_prefix_spec(levels, idx, (j - 1) as nat).push(
            partner_spec(levels[k], index_at_spec(idx, (j - 1) as nat)),
        )
    }
}

/// Folding a proof over a leaf: each step hashes the running value with the next sibling.
pub open spec fn fold_proof_spec(leaf: Seq<u8>, proof: Seq<Seq<u8>>) -> Seq<u8>
    decreases proof.len(),
{
    if proof.len() == 0 {
        leaf
    } else {
        hash_pair_spec(fold_proof_spec(leaf, proof.drop_last()), proof.last())
    }
}

/// A copy of a list of hashes.
fn copy_hashes(v: &Vec<crate::hash_utils::Hash>) -> (r: Vec<crate::hash_utils::Hash>)
    ensures
        r@ == v@,
{
    let mut r: Vec<crate::hash_utils::Hash> = Vec::new();
    let mut i: usize = 0;
    while i < v.len()
        invariant
            0 <= i <= v@.len(),
            r@ =~= v@.subrange(0, i as int),
        decreases v@.len() - i,
    {
        r.push(v[i]);
        i = i + 1;
    }
    assert(r@ =~= v@);
    r
}

/// Merkle tree for state root calculation.
#[derive(Debug, Clone)]
pub struct MerkleTree {
    leaves: Vec<crate::hash_utils::Hash>,
    nodes: Vec<Vec<crate::hash_utils::Hash>>,
}

impl MerkleTree {
    /// The levels of the tree, leaves first.
    pub closed spec fn levels(&self) -> Seq<Seq<Seq<u8>>> {
        self.nodes@.map_values(|l: Vec<crate::hash_utils::Hash>| hashes_view(l@))
    }

    /// The (padded) leaves of the tree.
    pub closed spec fn leaves_view(&self) -> Seq<Seq<u8>> {
        hashes_view(self.leaves@)
    }

    /// A well-formed tree: its levels are those built from its leaves.
    pub closed spec fn wf(&self) -> bool {
        &&& self.leaves_view().len() >= 1
        &&& self.levels() == tree_levels_spec(self.leaves_view())
    }

    /// The root: the single node of the last level.
    pub open spec fn root_spec(&self) -> Seq<u8> {
        self.levels().last()[0]
    }

    /// The proof for leaf `index`, or `None` when there is no such leaf.
    pub open spec fn proof_spec(&self, index: int) -> Option<Seq<Seq<u8>>> {
        if index >= self.leaves_view().len() {
            None
        } else {
            Some(proof_prefix_spec(self.levels(), index, (self.levels().len() - 1) as nat))
        }
    }

    /// The parent of two nodes (see `hash_pair_spec`).
    fn hash_pair(left: crate::hash_utils::Hash, right: crate::hash_utils::Hash) -> (h: crate::hash_utils::Hash)
        ensures
            h@ == hash_pair_spec(left@, right@),
    {
        let mut hasher = Hasher::new();
        if bytes_le(left.as_bytes(), right.as_bytes()) {
            hasher.update(left.as_bytes());
            hasher.update(right.as_bytes());
        } else {
            hasher.update(right.as_bytes());
            hasher.update(left.as_bytes());
        }
        let h = hasher.finalize();
        assert(Seq::<u8>::empty() + left@ + right@ =~= left@ + right@);
        assert(Seq::<u8>::empty() + right@ + left@ =~= right@ + left@);
        h
    }

    /// Create a new Merkle tree from a list of leaf hashes.
    pub fn new(leaves: Vec<crate::hash_utils::Hash>) -> (t: MerkleTree)
        ensures
            t.wf(),
            t.leaves_view() == padded_leaves_spec(hashes_view(leaves@)),
            t.levels() == tree_levels_spec(t.leaves_view()),
    {
        let mut leaves = leaves;
        let ghost input = hashes_view(leaves@);
        if leaves.len() == 0 {
            leaves.push(crate::hash_utils::Hash::default());
            assert(hashes_view(leaves@) =~= seq![crate::hash_utils::Hash::zero_spec()]);
        } else if leaves.len() % 2 != 0 && leaves.len() > 1 {
            let last = leaves[leaves.len() - 1];
            leaves.push(last);
            assert(hashes_view(leaves@) =~= input.push(input.last()));
        }
        let ghost padded = hashes_view(leaves@);
        assert(padded == padded_leaves_spec(input));
        let mut current_level = copy_hashes(&leaves);
        let mut nodes: Vec<Vec<crate::hash_utils::Hash>> = Vec::new();
        nodes.push(leaves);
        assert(hashes_view(nodes@[0]@) == padded);
        assert(nodes@.map_values(|l: Vec<crate::hash_utils::Hash>| hashes_view(l@)).drop_last() =~= Seq::<
            Seq<Seq<u8>>,
        >::empty());
        while current_level.len() > 1
            invariant
                padded.len() >= 1,
                current_level@.len() >= 1,
                nodes@.len() >= 1,
                hashes_view(nodes@[0]@) == padded,
                hashes_view(nodes@.last()@) == hashes_view(current_level@),
                nodes@.map_values(|l: Vec<crate::hash_utils::Hash>| hashes_view(l@)).drop_last() + tree_levels_spec(
                    hashes_view(current_level@),
                ) == tree_levels_spec(padded),
            decreases current_level@.len(),
        {
            let ghost cur = hashes_view(current_level@);
            let n = current_level.len();
            let mut next_level: Vec<crate::hash_utils::Hash> = Vec::new();
            let pairs = n / 2 + n % 2;
            let mut p: usize = 0;
            while p < pairs
                invariant
                    n == current_level@.len(),
                    n > 1,
                    pairs == (n + 1) / 2,
                    cur == hashes_view(current_level@),
                    p <= pairs,
                    next_level@.len() == p,
                    forall|k: int|
                        0 <= k < next_level@.len() ==> #[trigger] next_level@[k]@
                            == next_level_spec(cur)[k],
                decreases pairs - p,
            {
                let i = 2 * p;
                let left = current_level[i];
                let right = if i + 1 < n {
                    current_level[i + 1]
                } else {
                    current_level[i]
                };
                let parent = Self::hash_pair(left, right);
                next_level.push(parent);
                p = p + 1;
            }
            let ghost nv = hashes_view(next_level@);
            assert(nv =~= next_level_spec(cur));
            let ghost before = nodes@.map_values(|l: Vec<crate::hash_utils::Hash>| hashes_view(l@));
            nodes.push(copy_hashes(&next_level));
            let ghost after = nodes@.map_values(|l: Vec<crate::hash_utils::Hash>| hashes_view(l@));
            assert(after.drop_last() =~= before);
            assert(before =~= before.drop_last().push(cur));
            assert(tree_levels_spec(cur) == seq![cur] + tree_levels_spec(nv));
            assert(before.drop_last() + tree_levels_spec(cur) =~= before + tree_levels_spec(nv));
            current_level = next_level;
        }
        let ghost fin = nodes@.map_values(|l: Vec<crate::hash_utils::Hash>| hashes_view(l@));
        assert(tree_levels_spec(hashes_view(current_level@)) == seq![hashes_view(current_level@)]);
        assert(fin =~= fin.drop_last().push(hashes_view(current_level@)));
        let first = copy_hashes(&nodes[0]);
        let t = MerkleTree { leaves: first, nodes };
        assert(t.leaves_view() == padded);
        assert(fin.drop_last() + seq![hashes_view(current_level@)] =~= fin);
        assert(t.levels() == fin);
        t
    }

    /// Get the root hash of the Merkle tree.
    pub fn root(&self) -> (h: crate::hash_utils::Hash)
        requires
            self.wf(),
        ensures
            h@ == self.root_spec(),
    {
        proof {
            lemma_tree_levels_shape(self.leaves_view());
        }
        let last = self.nodes.len() - 1;
        let level = &self.nodes[last];
        assert(hashes_view(level@) == self.levels()[last as int]);
        level[0]
    }

    /// Get a Merkle proof for a leaf at the given index.
    pub fn get_proof(&self, index: usize) -> (r: Option<Vec<crate::hash_utils::Hash>>)
        requires
            self.wf(),
        ensures
            match r {
                Some(p) => self.proof_spec(index as int) == Some(hashes_view(p@)),
                None => self.proof_spec(index as int) is None,
            },
    {
        proof {
            lemma_tree_levels_shape(self.leaves_view());
        }
        if index >= self.leaves.len() {
            return None;
        }
        let ghost levels = self.levels();
        let mut proof: Vec<crate::hash_utils::Hash> = Vec::new();
        let mut current_index = index;
        let count = self.nodes.len() - 1;
        let mut j: usize = 0;
        assert(hashes_view(proof@) =~= proof_prefix_spec(levels, index as int, 0));
        while j < count
            invariant
                levels == self.levels(),
                levels == tree_levels_spec(self.leaves_view()),
                levels[0] == self.leaves_view(),
                count == levels.len() - 1,
                self.nodes@.len() == levels.len(),
                forall|k: int|
                    0 <= k < levels.len() - 1 ==> levels[k + 1] == next_level_spec(
                        #[trigger] levels[k],
                    ),
                0 <= j <= count,
                current_index == index_at_spec(index as int, j as nat),
                current_index < levels[j as int].len(),
                hashes_view(proof@) == proof_prefix_spec(levels, index as int, j as nat),
            decreases count - j,
        {
            let level = &self.nodes[j];
            assert(hashes_view(level@) == levels[j as int]);
            let sibling_index = if current_index % 2 == 0 {
                current_index + 1
            } else {
                current_index - 1
            };
            if sibling_index < level.len() {
                proof.push(level[sibling_index]);
            } else {
                proof.push(level[current_index]);
            }
            assert(hashes_view(proof@) =~= proof_prefix_spec(levels, index as int, j as nat).push(
                partner_spec(levels[j as int], current_index as int),
            ));
            assert(levels[j + 1] == next_level_spec(levels[j as int]));
            current_index = current_index / 2;
            j = j + 1;
        }
        Some(proof)
    }

    /// Verify a Merkle proof.
    pub fn verify_proof(leaf: crate::hash_utils::Hash, proof: &[crate::hash_utils::Hash], root: crate::hash_utils::Hash) -> (r: bool)
        ensures
            r == (fold_proof_spec(leaf@, hashes_view(proof@)) == root@),
    {
        let mut current_hash = leaf;
        let mut i: usize = 0;
        assert(hashes_view(proof@).subrange(0, 0) =~= Seq::<Seq<u8>>::empty());
        while i < proof.len()
            invariant
                0 <= i <= proof@.len(),
                current_hash@ == fold_proof_spec(leaf@, hashes_view(proof@).subrange(0, i as int)),
            decreases proof@.len() - i,
        {
            let sibling = proof[i];
            current_hash = Self::hash_pair(current_hash, sibling);
            assert(hashes_view(proof@).subrange(0, i + 1).drop_last() =~= hashes_view(
                proof@,
            ).subrange(0, i as int));
            i = i + 1;
        }
        assert(hashes_view(proof@).subrange(0, proof@.len() as int) =~= hashes_view(proof@));
        current_hash == root
    }
}

/// Every level of a tree built from a nonempty list is nonempty, each level is the one above
/// the previous, and the last level has exactly one node.
pub proof fn lemma_tree_levels_shape(level: Seq<Seq<u8>>)
    requires
        level.len() >= 1,
    ensures
        tree_levels_spec(level).len() >= 1,
        tree_levels_spec(level)[0] == level,
        tree_levels_spec(level).last().len() == 1,
        forall|j: int|
            0 <= j < tree_levels_spec(level).len() ==> #[trigger] tree_levels_spec(level)[j].len()
                >= 1,
        forall|j: int|
            0 <= j < tree_levels_spec(level).len() - 1 ==> tree_levels_spec(level)[j + 1]
                == next_level_spec(#[trigger] tree_levels_spec(level)[j]),
        forall|j: int|
            0 <= j < tree_levels_spec(level).len() - 1 ==> #[trigger] tree_levels_spec(
                level,
            )[j].len() > 1,
    decreases level.len(),
{
    if level.len() > 1 {
        let nl = next_level_spec(level);
        lemma_tree_levels_shape(nl);
        let t = tree_levels_spec(level);
        let r = tree_levels_spec(nl);
        assert(t == seq![level] + r);
        assert forall|j: int| 0 <= j < t.len() - 1 implies t[j + 1] == next_level_spec(
            #[trigger] t[j],
        ) by {
            if j == 0 {
            } else {
                assert(t[j] == r[j - 1]);
                assert(t[j + 1] == r[j]);
            }
        }
        assert forall|j: int| 0 <= j < t.len() implies #[trigger] t[j].len() >= 1 by {
            if j > 0 {
                assert(t[j] == r[j - 1]);
            }
        }
        assert forall|j: int| 0 <= j < t.len() - 1 implies #[trigger] t[j].len() > 1 by {
            if j > 0 {
                assert(t[j] == r[j - 1]);
            }
        }
    }
}

/// Lexicographic order on byte strings is total.
pub proof fn lemma_bytes_le_total(a: Seq<u8>, b: Seq<u8>)
    ensures
        bytes_le_spec(a, b) || bytes_le_spec(b, a),
    decreases a.len(),
{
    if a.len() > 0 && b.len() > 0 && a[0] == b[0] {
        lemma_bytes_le_total(a.drop_first(), b.drop_first());
    }
}

/// Lexicographic order on byte strings is antisymmetric.
pub proof fn lemma_bytes_le_antisymmetric(a: Seq<u8>, b: Seq<u8>)
    requires
        bytes_le_spec(a, b),
        bytes_le_spec(b, a),
    ensures
        a == b,
    decreases a.len(),
{
    if a.len() == 0 || b.len() == 0 {
        assert(a =~= b);
    } else {
        lemma_bytes_le_antisymmetric(a.drop_first(), b.drop_first());
        assert(a =~= seq![a[0]] + a.drop_first());
        assert(b =~= seq![b[0]] + b.drop_first());
    }
}

/// The parent of two nodes does not depend on their order.
pub proof fn lemma_hash_pair_symmetric(a: Seq<u8>, b: Seq<u8>)
    ensures
        hash_pair_spec(a, b) == hash_pair_spec(b, a),
{
    lemma_bytes_le_total(a, b);
    if bytes_le_spec(a, b) && bytes_le_spec(b, a) {
        lemma_bytes_le_antisymmetric(a, b);
    }
}

proof fn lemma_fold_step(lvl: Seq<Seq<u8>>, i: int, acc: Seq<u8>)
    requires
        0 <= i < lvl.len(),
        acc == lvl[i],
    ensures
        0 <= i / 2 < next_level_spec(lvl).len(),
        hash_pair_spec(acc, partner_spec(lvl, i)) == next_level_spec(lvl)[i / 2],
{
    let k = i / 2;
    if 2 * k + 1 < lvl.len() {
        assert(next_level_spec(lvl)[k] == hash_pair_spec(lvl[2 * k], lvl[2 * k + 1]));
        if i % 2 != 0 {
            lemma_hash_pair_symmetric(lvl[i], lvl[sibling_spec(i)]);
        }
    } else {
        assert(i == 2 * k);
        assert(next_level_spec(lvl)[k] == hash_pair_spec(lvl[2 * k], lvl[2 * k]));
    }
}

proof fn lemma_proof_folds_to_level(levels: Seq<Seq<Seq<u8>>>, leaves: Seq<Seq<u8>>, idx: int, j: nat)
    requires
        levels.len() >= 1,
        levels[0] == leaves,
        0 <= idx < leaves.len(),
        j <= levels.len() - 1,
        forall|k: int|
            0 <= k < levels.len() - 1 ==> levels[k + 1] == next_level_spec(#[trigger] levels[k]),
    ensures
        0 <= index_at_spec(idx, j) < levels[j as int].len(),
        fold_proof_spec(leaves[idx], proof_prefix_spec(levels, idx, j)) == levels[j as int][index_at_spec(
            idx,
            j,
        )],
    decreases j,
{
    if j > 0 {
        let jm = (j - 1) as nat;
        lemma_proof_folds_to_level(levels, leaves, idx, jm);
        let i = index_at_spec(idx, jm);
        let lvl = levels[jm as int];
        let p = proof_prefix_spec(levels, idx, jm);
        let acc = fold_proof_spec(leaves[idx], p);
        assert(levels[j as int] == next_level_spec(lvl));
        lemma_fold_step(lvl, i, acc);
        let q = partner_spec(lvl, i);
        assert(proof_prefix_spec(levels, idx, j) == p.push(q));
        assert(p.push(q).drop_last() =~= p);
        assert(index_at_spec(idx, j) == i / 2);
    }
}

/// The proof that `get_proof` gives for any leaf of a tree verifies against the tree's root.
#[verifier::spinoff_prover]
pub proof fn lemma_get_proof_verifies(t: MerkleTree, index: int)
    requires
        t.wf(),
        0 <= index < t.leaves_view().len(),
    ensures
        t.proof_spec(index) matches Some(p) && fold_proof_spec(t.leaves_view()[index], p)
            == t.root_spec(),
{
    let levels = t.levels();
    let leaves = t.leaves_view();
    assert(levels == tree_levels_spec(leaves));
    lemma_tree_levels_shape(leaves);
    let last = (levels.len() - 1) as nat;
    lemma_proof_folds_to_level(levels, leaves, index, last);
    assert(levels[last as int].len() == 1);
    assert(t.proof_spec(index) == Some(proof_prefix_spec(levels, index, last)));
}

/// A well-formed tree has at least one leaf, its levels are those built from its leaves, and
/// its root is the single node of the last of them.
pub proof fn lemma_wf_levels(t: MerkleTree)
    requires
        t.wf(),
    ensures
        t.leaves_view().len() >= 1,
        t.levels() == tree_levels_spec(t.leaves_view()),
        t.root_spec() == tree_levels_spec(t.leaves_view()).last()[0],
{
}

/// The root of a tree of one leaf is that leaf.
pub proof fn lemma_single_leaf_root(t: MerkleTree)
    requires
        t.wf(),
        t.leaves_view().len() == 1,
    ensures
        t.root_spec() == t.leaves_view()[0],
{
    assert(tree_levels_spec(t.leaves_view()) == seq![t.leaves_view()]);
}

} // verus!
