//! Append-only Merkle commitment tree.
//!
//! Leaves are coin commitments; every internal node is the level-personalised
//! hash of its two children.  The tree has a fixed depth chosen at
//! construction, and the root is a pure function of the ordered leaf
//! sequence.  The node-combining function stands in for the external
//! tree-hash primitive, which is a black box to this crate: nothing here
//! depends on more than it being a deterministic function of level and
//! children.

use vstd::prelude::*;
use crate::error::Error;

verus! {

/// Mixing constants of the stand-in node hash.
pub const HASH_MULT_LEFT: u64 = 0x9E3779B97F4A7C15;
pub const HASH_MULT_RIGHT: u64 = 0xC2B2AE3D27D4EB4F;

/// Value of an unfilled leaf slot.
pub const BLANK_LEAF: u64 = 1;

/// A node of the commitment tree.
#[derive(Clone, Copy, PartialEq, Eq, Structural, Debug)]
pub struct MerkleNode {
    pub repr: u64,
}

/// The hash of two sibling nodes at a given level.
#[verifier::opaque]
pub open spec fn node_hash(level: u64, l: u64, r: u64) -> u64 {
    vstd::wrapping::u64_specs::wrapping_add(
        vstd::wrapping::u64_specs::wrapping_mul(l, HASH_MULT_LEFT),
        vstd::wrapping::u64_specs::wrapping_add(
            vstd::wrapping::u64_specs::wrapping_mul(r, HASH_MULT_RIGHT),
            level,
        ),
    )
}

/// Combines two sibling nodes at a given level.
pub fn combine(level: u64, l: MerkleNode, r: MerkleNode) -> (h: MerkleNode)
    ensures
        h.repr == node_hash(level, l.repr, r.repr),
{
    proof {
        reveal(node_hash);
    }
    MerkleNode {
        repr: l.repr.wrapping_mul(HASH_MULT_LEFT).wrapping_add(
            r.repr.wrapping_mul(HASH_MULT_RIGHT).wrapping_add(level),
        ),
    }
}

/// The root of an empty subtree whose leaves sit `level` levels down.
pub open spec fn empty_at(level: nat) -> MerkleNode
    decreases level,
{
    if level == 0 {
        MerkleNode { repr: BLANK_LEAF }
    } else {
        MerkleNode {
            repr: node_hash(
                (level - 1) as u64,
                empty_at((level - 1) as nat).repr,
                empty_at((level - 1) as nat).repr,
            ),
        }
    }
}

/// One level of hashing: pads an odd row with the empty subtree root of that
/// level, then combines the pairs.
pub open spec fn level_up(nodes: Seq<MerkleNode>, level: nat) -> Seq<MerkleNode> {
    let padded = if nodes.len() % 2 == 1 {
        nodes.push(empty_at(level))
    } else {
        nodes
    };
    Seq::new(
        padded.len() / 2,
        |i: int| MerkleNode { repr: node_hash(level as u64, padded[2 * i].repr, padded[2 * i + 1].repr) },
    )
}

/// The row obtained after hashing the leaf row up `count` levels.
pub open spec fn levels(leaves: Seq<MerkleNode>, count: nat) -> Seq<MerkleNode>
    decreases count,
{
    if count == 0 {
        leaves
    } else {
        level_up(levels(leaves, (count - 1) as nat), (count - 1) as nat)
    }
}

/// The root of a tree of the given depth over the given leaf sequence.
pub open spec fn root_spec(leaves: Seq<MerkleNode>, depth: nat) -> MerkleNode {
    let top = levels(leaves, depth);
    if top.len() >= 1 {
        top[0]
    } else {
        empty_at(depth)
    }
}

/// Hashes one row of nodes up a level.  `empty` must be the empty-subtree
/// root for this level.
#[verifier::rlimit(30)]
fn level_up_exec(row: &Vec<MerkleNode>, level: usize, empty: MerkleNode) -> (r: Vec<MerkleNode>)
    requires
        empty == empty_at(level as nat),
        level < 64,
    ensures
        r@ == level_up(row@, level as nat),
{
    let mut padded: Vec<MerkleNode> = Vec::new();
    let mut i: usize = 0;
    while i < row.len()
        invariant
            i <= row.len(),
            padded@ == row@.subrange(0, i as int),
        decreases row.len() - i,
    {
        padded.push(row[i]);
        i = i + 1;
        proof {
            assert(padded@ =~= row@.subrange(0, i as int));
        }
    }
    proof {
        assert(padded@ =~= row@);
    }
    if padded.len() % 2 == 1 {
        padded.push(empty);
    }
    let ghost padded_spec = if row@.len() % 2 == 1 {
        row@.push(empty_at(level as nat))
    } else {
        row@
    };
    proof {
        assert(padded@ =~= padded_spec);
    }
    let mut out: Vec<MerkleNode> = Vec::new();
    let mut j: usize = 0;
    while j + 1 < padded.len()
        invariant
            padded@ == padded_spec,
            padded@.len() % 2 == 0,
            j % 2 == 0,
            j <= padded.len(),
            level < 64,
            out@.len() == j / 2,
            forall|k: int|
                0 <= k < out@.len() ==> out@[k] == (MerkleNode {
                    repr: node_hash(level as u64, padded_spec[2 * k].repr, padded_spec[2 * k + 1].repr),
                }),
        decreases padded.len() - j,
    {
        out.push(combine(level as u64, padded[j], padded[j + 1]));
        j = j + 2;
    }
    proof {
        assert(out@ =~= level_up(row@, level as nat));
    }
    out
}

/// Copies a row of nodes.
fn copy_nodes(v: &Vec<MerkleNode>) -> (r: Vec<MerkleNode>)
    ensures
        r@ == v@,
{
    let mut r: Vec<MerkleNode> = Vec::new();
    let mut i: usize = 0;
    while i < v.len()
        invariant
            i <= v.len(),
            r@ == v@.subrange(0, i as int),
        decreases v.len() - i,
    {
        r.push(v[i]);
        i = i + 1;
        proof {
            assert(r@ =~= v@.subrange(0, i as int));
        }
    }
    proof {
        assert(r@ =~= v@);
    }
    r
}

/// The append-only commitment tree.
///
/// Well-formed trees have a depth of at most 32, so the capacity
/// `2^depth` always fits in a `u64`.
#[derive(Debug)]
pub struct CommitmentTree {
    pub depth: usize,
    pub leaves: Vec<MerkleNode>,
}

impl CommitmentTree {
    pub open spec fn wf(&self) -> bool {
        &&& self.depth <= 32
        &&& self.leaves@.len() <= self.capacity()
    }

    /// Number of leaf slots.
    pub open spec fn capacity(&self) -> nat {
        vstd::arithmetic::power2::pow2(self.depth as nat)
    }

    /// A new, empty tree of the given depth.
    pub fn new(depth: usize) -> (t: CommitmentTree)
        requires
            depth <= 32,
        ensures
            t.depth == depth,
            t.leaves@ == Seq::<MerkleNode>::empty(),
            t.wf(),
    {
        let t = CommitmentTree { depth, leaves: Vec::new() };
        proof {
            vstd::arithmetic::power2::lemma_pow2_pos(depth as nat);
        }
        t
    }

    /// Adds a leaf at the next empty position; fails with `TreeFull` when the
    /// tree already holds `2^depth` leaves.
    pub fn append(&mut self, node: MerkleNode) -> (r: Result<(), Error>)
        requires
            old(self).wf(),
        ensures
            final(self).depth == old(self).depth,
            final(self).wf(),
            old(self).leaves@.len() < old(self).capacity() ==> {
                &&& r is Ok
                &&& final(self).leaves@ == old(self).leaves@.push(node)
            },
            old(self).leaves@.len() >= old(self).capacity() ==> {
                &&& r == Result::<(), Error>::Err(Error::TreeFull)
                &&& final(self).leaves@ == old(self).leaves@
            },
    {
        proof {
            vstd::arithmetic::power2::lemma2_to64();
            vstd::arithmetic::power2::lemma_pow2_adds(self.depth as nat, (32 - self.depth) as nat);
            vstd::arithmetic::power2::lemma_pow2_pos((32 - self.depth) as nat);
            assert(self.capacity() <= vstd::arithmetic::power2::pow2(32)) by {
                vstd::arithmetic::mul::lemma_mul_increases(
                    vstd::arithmetic::power2::pow2((32 - self.depth) as nat) as int,
                    vstd::arithmetic::power2::pow2(self.depth as nat) as int,
                );
            };
        }
        let cap: u64 = 1u64 << (self.depth as u64);
        proof {
            assert(cap == self.capacity()) by {
                vstd::bits::lemma_u64_shl_is_mul(1u64, self.depth as u64);
            };
        }
        if (self.leaves.len() as u64) >= cap {
            return Err(Error::TreeFull);
        }
        self.leaves.push(node);
        Ok(())
    }

    /// The root over the current leaf sequence.
    pub fn root(&self) -> (r: MerkleNode)
        requires
            self.wf(),
        ensures
            r == root_spec(self.leaves@, self.depth as nat),
    {
        let mut row: Vec<MerkleNode> = copy_nodes(&self.leaves);
        let mut empty = MerkleNode { repr: BLANK_LEAF };
        let mut d: usize = 0;
        while d < self.depth
            invariant
                d <= self.depth,
                self.depth <= 32,
                empty == empty_at(d as nat),
                row@ == levels(self.leaves@, d as nat),
            decreases self.depth - d,
        {
            row = level_up_exec(&row, d, empty);
            empty = combine(d as u64, empty, empty);
            d = d + 1;
        }
        if row.len() >= 1 {
            row[0]
        } else {
            MerkleNode { repr: empty.repr }
        }
    }
}

/// The sibling of position `pos` in a row of nodes at the given level; an
/// absent sibling is the empty-subtree root of that level.
pub open spec fn sibling_of(nodes: Seq<MerkleNode>, pos: nat, level: nat) -> MerkleNode {
    let sib: nat = if pos % 2 == 0 { pos + 1 } else { (pos - 1) as nat };
    if sib < nodes.len() {
        nodes[sib as int]
    } else {
        empty_at(level)
    }
}

/// The authentication path for position `pos`, collected from `level` up to
/// `depth`.
pub open spec fn path_spec(nodes: Seq<MerkleNode>, pos: nat, level: nat, depth: nat) -> Seq<
    MerkleNode,
>
    decreases depth - level,
{
    if level >= depth {
        Seq::empty()
    } else {
        seq![sibling_of(nodes, pos, level)] + path_spec(
            level_up(nodes, level),
            pos / 2,
            level + 1,
            depth,
        )
    }
}

/// An authentication path has one sibling per level.
pub proof fn lemma_path_spec_len(nodes: Seq<MerkleNode>, pos: nat, level: nat, depth: nat)
    requires
        level <= depth,
    ensures
        path_spec(nodes, pos, level, depth).len() == depth - level,
    decreases depth - level,
{
    if level < depth {
        lemma_path_spec_len(level_up(nodes, level), pos / 2, level + 1, depth);
    }
}

/// An authentication path: the sibling hashes of one leaf, bottom level
/// first, together with the leaf's position.
#[derive(Debug)]
pub struct MerklePath {
    pub auth_path: Vec<MerkleNode>,
    pub position: usize,
}

/// The root reached by hashing a leaf up along an authentication path.
pub open spec fn fold_path_spec(leaf: MerkleNode, sibs: Seq<MerkleNode>, pos: nat, level: nat) -> MerkleNode
    decreases sibs.len(),
{
    if sibs.len() == 0 {
        leaf
    } else {
        let parent = if pos % 2 == 0 {
            MerkleNode { repr: node_hash(level as u64, leaf.repr, sibs[0].repr) }
        } else {
            MerkleNode { repr: node_hash(level as u64, sibs[0].repr, leaf.repr) }
        };
        fold_path_spec(parent, sibs.drop_first(), pos / 2, level + 1)
    }
}

impl MerklePath {
    /// Hashes `leaf` up along this path and returns the root it authenticates
    /// against.
    pub fn root(&self, leaf: MerkleNode) -> (r: MerkleNode)
        requires
            self.auth_path@.len() <= 32,
        ensures
            r == fold_path_spec(leaf, self.auth_path@, self.position as nat, 0),
    {
        let mut node = leaf;
        let mut pos = self.position;
        let mut d: usize = 0;
        proof {
            assert(self.auth_path@.skip(0) =~= self.auth_path@);
        }
        while d < self.auth_path.len()
            invariant
                d <= self.auth_path@.len(),
                self.auth_path@.len() <= 32,
                fold_path_spec(leaf, self.auth_path@, self.position as nat, 0) == fold_path_spec(
                    node,
                    self.auth_path@.skip(d as int),
                    pos as nat,
                    d as nat,
                ),
            decreases self.auth_path.len() - d,
        {
            let sib = self.auth_path[d];
            proof {
                assert(self.auth_path@.skip(d as int)[0] == self.auth_path@[d as int]);
                assert(self.auth_path@.skip(d as int).drop_first() =~= self.auth_path@.skip(
                    d as int + 1,
                ));
            }
            node = if pos % 2 == 0 {
                combine(d as u64, node, sib)
            } else {
                combine(d as u64, sib, node)
            };
            pos = pos / 2;
            d = d + 1;
        }
        proof {
            assert(self.auth_path@.skip(d as int) =~= Seq::<MerkleNode>::empty());
        }
        node
    }
}

/// The per-coin incremental witness.
///
/// It records the coin's leaf position and the full leaf row it has seen so
/// far; it must be extended by one node for every leaf the tree gains after
/// it, in append order, so its authentication path stays aligned with the
/// tree's frontier.
#[derive(Debug)]
pub struct IncrementalWitness {
    pub depth: usize,
    pub position: usize,
    pub leaves: Vec<MerkleNode>,
}

impl IncrementalWitness {
    pub open spec fn wf(&self) -> bool {
        &&& self.depth <= 32
        &&& self.position < self.leaves@.len()
        &&& self.leaves@.len() <= vstd::arithmetic::power2::pow2(self.depth as nat)
    }

    /// A fresh witness for the most recently appended leaf, anchored at the
    /// tree's current state.
    pub fn from_tree(tree: &CommitmentTree) -> (w: IncrementalWitness)
        requires
            tree.wf(),
            tree.leaves@.len() >= 1,
        ensures
            w.depth == tree.depth,
            w.position == tree.leaves@.len() - 1,
            w.leaves@ == tree.leaves@,
            w.wf(),
    {
        IncrementalWitness {
            depth: tree.depth,
            position: tree.leaves.len() - 1,
            leaves: copy_nodes(&tree.leaves),
        }
    }

    /// Records one more leaf appended to the tree after this witness.
    pub fn append(&mut self, node: MerkleNode) -> (r: Result<(), Error>)
        requires
            old(self).wf(),
        ensures
            final(self).depth == old(self).depth,
            final(self).position == old(self).position,
            final(self).wf(),
            old(self).leaves@.len() < vstd::arithmetic::power2::pow2(old(self).depth as nat) ==> {
                &&& r is Ok
                &&& final(self).leaves@ == old(self).leaves@.push(node)
            },
            old(self).leaves@.len() >= vstd::arithmetic::power2::pow2(old(self).depth as nat) ==> {
                &&& r == Result::<(), Error>::Err(Error::TreeFull)
                &&& final(self).leaves@ == old(self).leaves@
            },
    {
        proof {
            vstd::arithmetic::power2::lemma2_to64();
            vstd::arithmetic::power2::lemma_pow2_adds(self.depth as nat, (32 - self.depth) as nat);
            vstd::arithmetic::power2::lemma_pow2_pos((32 - self.depth) as nat);
            assert(vstd::arithmetic::power2::pow2(self.depth as nat)
                <= vstd::arithmetic::power2::pow2(32)) by {
                vstd::arithmetic::mul::lemma_mul_increases(
                    vstd::arithmetic::power2::pow2((32 - self.depth) as nat) as int,
                    vstd::arithmetic::power2::pow2(self.depth as nat) as int,
                );
            };
        }
        let cap: u64 = 1u64 << (self.depth as u64);
        proof {
            assert(cap == vstd::arithmetic::power2::pow2(self.depth as nat)) by {
                vstd::bits::lemma_u64_shl_is_mul(1u64, self.depth as u64);
            };
        }
        if (self.leaves.len() as u64) >= cap {
            return Err(Error::TreeFull);
        }
        self.leaves.push(node);
        Ok(())
    }

    /// The authentication path of this witness's leaf against the leaf row
    /// seen so far.
    pub fn path(&self) -> (p: MerklePath)
        requires
            self.wf(),
        ensures
            p.position == self.position,
            p.auth_path@ == path_spec(
                self.leaves@,
                self.position as nat,
                0,
                self.depth as nat,
            ),
            p.auth_path@.len() == self.depth,
    {
        let mut row: Vec<MerkleNode> = copy_nodes(&self.leaves);
        let mut pos: usize = self.position;
        let mut empty = MerkleNode { repr: BLANK_LEAF };
        let mut sibs: Vec<MerkleNode> = Vec::new();
        let mut d: usize = 0;
        while d < self.depth
            invariant
                d <= self.depth,
                self.depth <= 32,
                empty == empty_at(d as nat),
                1 <= row@.len(),
                pos < row@.len(),
                sibs@.len() == d,
                path_spec(self.leaves@, self.position as nat, 0, self.depth as nat) == sibs@
                    + path_spec(row@, pos as nat, d as nat, self.depth as nat),
            decreases self.depth - d,
        {
            let sib_idx: usize = if pos % 2 == 0 { pos + 1 } else { pos - 1 };
            let sib = if sib_idx < row.len() {
                row[sib_idx]
            } else {
                empty
            };
            proof {
                assert(sib == sibling_of(row@, pos as nat, d as nat));
            }
            let ghost old_row = row@;
            let ghost old_pos = pos as nat;
            sibs.push(sib);
            row = level_up_exec(&row, d, empty);
            pos = pos / 2;
            empty = combine(d as u64, empty, empty);
            d = d + 1;
            proof {
                assert(path_spec(old_row, old_pos, (d - 1) as nat, self.depth as nat) == seq![
                    sibling_of(old_row, old_pos, (d - 1) as nat),
                ] + path_spec(level_up(old_row, (d - 1) as nat), old_pos / 2, d as nat, self.depth as nat));
                assert(sibs@ + path_spec(row@, pos as nat, d as nat, self.depth as nat) =~= path_spec(
                    self.leaves@,
                    self.position as nat,
                    0,
                    self.depth as nat,
                ));
                assert(row@.len() == level_up(old_row, (d - 1) as nat).len());
                assert(1 <= row@.len() && pos < row@.len()) by {
                    if old_row.len() % 2 == 1 {
                        assert(row@.len() == (old_row.len() + 1) / 2);
                    } else {
                        assert(row@.len() == old_row.len() / 2);
                    }
                };
            }
        }
        proof {
            assert(path_spec(row@, pos as nat, d as nat, self.depth as nat) =~= Seq::<
                MerkleNode,
            >::empty());
            assert(sibs@ =~= path_spec(self.leaves@, self.position as nat, 0, self.depth as nat));
            lemma_path_spec_len(self.leaves@, self.position as nat, 0, self.depth as nat);
        }
        MerklePath { auth_path: sibs, position: self.position }
    }

    /// Length of the authentication path: always the tree depth, whatever
    /// sequence of leaves has been appended.
    pub fn path_length(&self) -> (r: usize)
        requires
            self.wf(),
        ensures
            r == self.depth,
    {
        let p = self.path();
        p.auth_path.len()
    }
}

/// The row reached by hashing `nodes` up from `level` to `depth`.
pub open spec fn rows_above(nodes: Seq<MerkleNode>, level: nat, depth: nat) -> Seq<MerkleNode>
    decreases depth - level,
{
    if level >= depth {
        nodes
    } else {
        rows_above(level_up(nodes, level), level + 1, depth)
    }
}

proof fn lemma_rows_above_snoc(nodes: Seq<MerkleNode>, level: nat, depth: nat)
    requires
        level <= depth,
    ensures
        rows_above(nodes, level, depth + 1) == level_up(rows_above(nodes, level, depth), depth),
    decreases depth - level,
{
    if level < depth {
        lemma_rows_above_snoc(level_up(nodes, level), level + 1, depth);
    } else {
        assert(rows_above(nodes, level, depth + 1) == rows_above(
            level_up(nodes, level),
            level + 1,
            depth + 1,
        ));
        assert(rows_above(level_up(nodes, level), level + 1, depth + 1) == level_up(nodes, level));
        assert(rows_above(nodes, level, depth) == nodes);
    }
}

proof fn lemma_rows_above_levels(leaves: Seq<MerkleNode>, depth: nat)
    ensures
        rows_above(leaves, 0, depth) == levels(leaves, depth),
    decreases depth,
{
    if depth > 0 {
        lemma_rows_above_levels(leaves, (depth - 1) as nat);
        lemma_rows_above_snoc(leaves, 0, (depth - 1) as nat);
    }
}

proof fn lemma_fold_rows(nodes: Seq<MerkleNode>, pos: nat, level: nat, depth: nat)
    requires
        level <= depth,
        pos < nodes.len(),
        nodes.len() <= vstd::arithmetic::power2::pow2((depth - level) as nat),
    ensures
        fold_path_spec(
            nodes[pos as int],
            path_spec(nodes, pos, level, depth),
            pos,
            level,
        ) == rows_above(nodes, level, depth)[0],
        rows_above(nodes, level, depth).len() >= 1,
    decreases depth - level,
{
    if level == depth {
        vstd::arithmetic::power2::lemma2_to64();
        assert(nodes.len() <= 1);
        assert(path_spec(nodes, pos, level, depth) =~= Seq::<MerkleNode>::empty());
    } else {
        let up = level_up(nodes, level);
        let sib = sibling_of(nodes, pos, level);
        let parent = if pos % 2 == 0 {
            MerkleNode { repr: node_hash(level as u64, nodes[pos as int].repr, sib.repr) }
        } else {
            MerkleNode { repr: node_hash(level as u64, sib.repr, nodes[pos as int].repr) }
        };
        let padded = if nodes.len() % 2 == 1 {
            nodes.push(empty_at(level))
        } else {
            nodes
        };
        assert(up[pos as int / 2] == parent) by {
            if pos % 2 == 0 {
                assert(padded[2 * (pos as int / 2)] == nodes[pos as int]);
                if pos + 1 < nodes.len() {
                    assert(padded[2 * (pos as int / 2) + 1] == nodes[pos as int + 1]);
                } else {
                    assert(padded[2 * (pos as int / 2) + 1] == empty_at(level));
                }
            } else {
                assert(padded[2 * (pos as int / 2)] == nodes[pos as int - 1]);
                assert(padded[2 * (pos as int / 2) + 1] == nodes[pos as int]);
            }
        };
        assert(pos / 2 < up.len());
        assert(up.len() <= vstd::arithmetic::power2::pow2((depth - level - 1) as nat)) by {
            vstd::arithmetic::power2::lemma_pow2_unfold((depth - level) as nat);
        };
        let tail = path_spec(up, pos / 2, level + 1, depth);
        assert(path_spec(nodes, pos, level, depth) == seq![sib] + tail);
        assert((seq![sib] + tail)[0] == sib);
        assert((seq![sib] + tail).drop_first() =~= tail);
        assert(fold_path_spec(nodes[pos as int], seq![sib] + tail, pos, level)
            == fold_path_spec(parent, tail, pos / 2, level + 1));
        lemma_fold_rows(up, pos / 2, level + 1, depth);
    }
}

/// A witness's authentication path authenticates its leaf: hashing the leaf
/// up the path yields exactly the root of the leaf row the witness has
/// seen.  A transaction built from the witness therefore references a root
/// the tree really produced at that point.
pub proof fn lemma_witness_path_authenticates(w: IncrementalWitness)
    requires
        w.wf(),
    ensures
        fold_path_spec(
            w.leaves@[w.position as int],
            path_spec(w.leaves@, w.position as nat, 0, w.depth as nat),
            w.position as nat,
            0,
        ) == root_spec(w.leaves@, w.depth as nat),
{
    lemma_fold_rows(w.leaves@, w.position as nat, 0, w.depth as nat);
    lemma_rows_above_levels(w.leaves@, w.depth as nat);
}

/// After any sequence of appends, a witness's authentication path has exactly
/// one entry per tree level: its length equals the tree depth.
pub proof fn lemma_witness_path_matches_depth(w: IncrementalWitness)
    requires
        w.wf(),
    ensures
        path_spec(w.leaves@, w.position as nat, 0, w.depth as nat).len() == w.depth,
{
    lemma_path_spec_len(w.leaves@, w.position as nat, 0, w.depth as nat);
}

} // verus!
