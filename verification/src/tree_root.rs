//! The root of the tree is the root of its leaves.
//!
//! The tree keeps one node for each level: the latest subtree of that level
//! that is complete and a left child. That this is enough to know the root of
//! all leaves rests on one thing more: the empty subtrees form a ladder, each
//! the hash of two copies of the one below. `zero_ladder_holds` checks it.
use vstd::prelude::*;
use vstd::arithmetic::div_mod::{
    lemma_div_denominator, lemma_fundamental_div_mod, lemma_mod_bound,
};
use vstd::arithmetic::power2::{lemma_pow2_pos, lemma_pow2_unfold, pow2};
use crate::history::lemma_appends_keep_shape;
use crate::codec::same_bytes;
use crate::merkle_tree::{
    capacity, climb, is_right_child, parent_of, poseidon, poseidon_pair, poseidon_zero, settle,
    zero_hash,
};
use crate::state::TreeModel;

verus! {

/// The empty subtrees form a ladder up to `height`: each is the hash of two
/// copies of the one below.
pub open spec fn zero_ladder(height: nat) -> bool {
    forall|level: nat|
        0 < level <= height ==> #[trigger] zero_hash(level) == poseidon(
            zero_hash((level - 1) as nat),
            zero_hash((level - 1) as nat),
        )
}

/// The node at `level`, the `place`-th from the left, of the tree over
/// `leaves` with an empty leaf wherever there is none.
pub open spec fn node_at(leaves: Seq<Seq<u8>>, level: nat, place: nat) -> Seq<u8>
    decreases level,
{
    if level == 0 {
        if place < leaves.len() {
            leaves[place as int]
        } else {
            zero_hash(0)
        }
    } else {
        poseidon(
            node_at(leaves, (level - 1) as nat, 2 * place),
            node_at(leaves, (level - 1) as nat, 2 * place + 1),
        )
    }
}

/// The root of the tree of `height` levels over `leaves`.
pub open spec fn root_of(leaves: Seq<Seq<u8>>, height: nat) -> Seq<u8> {
    node_at(leaves, height, 0)
}

/// Wherever the next leaf will be a right child, the stored neighbour is the
/// node to its left in the tree over `leaves`.
pub open spec fn frontier_holds(subtrees: Seq<Seq<u8>>, leaves: Seq<Seq<u8>>, height: nat) -> bool {
    forall|level: int|
        0 <= level < height && is_right_child(leaves.len(), level as nat) ==> #[trigger] subtrees[level]
            == node_at(leaves, level as nat, (leaves.len() / pow2(level as nat) - 1) as nat)
}

/// What the tree keeps at `level` once `leaves` have been appended: the latest
/// subtree of that level that is complete and a left child, or the empty
/// subtree where there is none yet.
pub open spec fn kept_at(leaves: Seq<Seq<u8>>, level: nat) -> Seq<u8> {
    let complete = leaves.len() / pow2(level);
    if complete == 0 {
        zero_hash(level)
    } else if complete % 2 == 1 {
        node_at(leaves, level, (complete - 1) as nat)
    } else {
        node_at(leaves, level, (complete - 2) as nat)
    }
}

/// At every level the stored neighbour is what the tree keeps there.
pub open spec fn subtrees_kept(subtrees: Seq<Seq<u8>>, leaves: Seq<Seq<u8>>, height: nat) -> bool {
    forall|level: int|
        0 <= level < height ==> #[trigger] subtrees[level] == kept_at(leaves, level as nat)
}

/// Whether leaf `index` is a right child at every level below `level`.
spec fn right_child_below(index: nat, level: nat) -> bool
    decreases level,
{
    level == 0 || (right_child_below(index, (level - 1) as nat) && is_right_child(
        index,
        (level - 1) as nat,
    ))
}

/// The place of a leaf one level up is half its place, and a place counts
/// whole subtrees to its left.
proof fn lemma_shift(index: nat, level: nat)
    ensures
        pow2(level) > 0,
        pow2(level + 1) == 2 * pow2(level),
        (index / pow2(level)) / 2 == index / pow2(level + 1),
        (index / pow2(level)) * pow2(level) <= index < (index / pow2(level) + 1) * pow2(level),
{
    lemma_pow2_pos(level);
    lemma_pow2_unfold(level + 1);
    lemma_div_denominator(index as int, pow2(level) as int, 2);
    assert(pow2(level) * 2 == 2 * pow2(level));
    lemma_fundamental_div_mod(index as int, pow2(level) as int);
    lemma_mod_bound(index as int, pow2(level) as int);
    let q = index / pow2(level);
    let d = pow2(level);
    assert(d * q == q * d) by (nonlinear_arith);
    assert((q + 1) * d == q * d + d) by (nonlinear_arith);
}

/// The place one level down, counted in leaves.
proof fn lemma_children(place: nat, level: nat)
    requires
        level > 0,
    ensures
        (2 * place) * pow2((level - 1) as nat) == place * pow2(level),
        (2 * place + 1) * pow2((level - 1) as nat) == place * pow2(level) + pow2(
            (level - 1) as nat,
        ),
        (2 * place + 2) * pow2((level - 1) as nat) == (place + 1) * pow2(level),
        pow2((level - 1) as nat) > 0,
{
    lemma_pow2_unfold(level);
    lemma_pow2_pos((level - 1) as nat);
    let half = pow2((level - 1) as nat);
    assert((2 * place) * half == place * (2 * half)) by (nonlinear_arith);
    assert((2 * place + 1) * half == place * (2 * half) + half) by (nonlinear_arith);
    assert((2 * place + 2) * half == (place + 1) * (2 * half)) by (nonlinear_arith);
}

/// A subtree to the right of all leaves is the empty subtree of its level.
proof fn lemma_empty_subtree(leaves: Seq<Seq<u8>>, level: nat, place: nat, height: nat)
    requires
        zero_ladder(height),
        level <= height,
        place * pow2(level) >= leaves.len(),
    ensures
        node_at(leaves, level, place) == zero_hash(level),
    decreases level,
{
    if level == 0 {
        lemma_pow2_pos(0);
        assert(pow2(0) == 1) by {
            vstd::arithmetic::power2::lemma2_to64();
        }
        assert(place * 1 == place);
    } else {
        lemma_children(place, level);
        lemma_empty_subtree(leaves, (level - 1) as nat, 2 * place, height);
        lemma_empty_subtree(leaves, (level - 1) as nat, 2 * place + 1, height);
    }
}

/// A subtree that lies within the leaves is not changed by one more leaf.
proof fn lemma_complete_subtree(leaves: Seq<Seq<u8>>, leaf: Seq<u8>, level: nat, place: nat)
    requires
        (place + 1) * pow2(level) <= leaves.len(),
    ensures
        node_at(leaves.push(leaf), level, place) == node_at(leaves, level, place),
    decreases level,
{
    if level == 0 {
        assert(pow2(0) == 1) by {
            vstd::arithmetic::power2::lemma2_to64();
        }
        assert((place + 1) * 1 == place + 1);
    } else {
        lemma_children(place, level);
        lemma_pow2_unfold(level);
        assert((place + 1) * pow2(level) == place * pow2(level) + pow2(level))
            by (nonlinear_arith);
        lemma_complete_subtree(leaves, leaf, (level - 1) as nat, 2 * place);
        lemma_complete_subtree(leaves, leaf, (level - 1) as nat, 2 * place + 1);
    }
}

/// Adding one to an index carries through the levels at which it is a right
/// child, and no further.
proof fn lemma_carry(index: nat, level: nat)
    ensures
        (index + 1) / pow2(level) == if right_child_below(index, level) {
            index / pow2(level) + 1
        } else {
            index / pow2(level)
        },
    decreases level,
{
    if level == 0 {
        assert(pow2(0) == 1) by {
            vstd::arithmetic::power2::lemma2_to64();
        }
    } else {
        let below = (level - 1) as nat;
        lemma_carry(index, below);
        lemma_shift(index, below);
        lemma_shift(index + 1, below);
        let here = index / pow2(below);
        let next = (index + 1) / pow2(below);
        assert(pow2(below + 1) == pow2(level));
        assert(index / pow2(level) == here / 2);
        assert((index + 1) / pow2(level) == next / 2);
        assert(right_child_below(index, level) == (right_child_below(index, below) && here % 2
            == 1));
    }
}

/// Going up from the node above the new leaf gives the node above it at the
/// top: at each level the sibling that `append` takes is the sibling in the
/// tree over all leaves.
proof fn lemma_climb(
    subtrees: Seq<Seq<u8>>,
    leaves: Seq<Seq<u8>>,
    leaf: Seq<u8>,
    node: Seq<u8>,
    level: nat,
    height: nat,
)
    requires
        zero_ladder(height),
        level <= height <= subtrees.len(),
        frontier_holds(subtrees, leaves, height),
        node == node_at(leaves.push(leaf), level, leaves.len() / pow2(level)),
    ensures
        climb(subtrees, leaves.len(), node, level, height) == node_at(
            leaves.push(leaf),
            height,
            leaves.len() / pow2(height),
        ),
    decreases height - level,
{
    if level < height {
        let index = leaves.len();
        let place = index / pow2(level);
        let more = leaves.push(leaf);
        lemma_shift(index, level);
        lemma_children(place / 2, level + 1);
        let above = parent_of(subtrees, index, node, level);
        if is_right_child(index, level) {
            assert(subtrees[level as int] == node_at(leaves, level, (place - 1) as nat));
            assert(((place - 1) as nat + 1) * pow2(level) <= leaves.len());
            lemma_complete_subtree(leaves, leaf, level, (place - 1) as nat);
            assert(2 * (place / 2) == place - 1);
        } else {
            assert(2 * (place / 2) == place);
            assert((place + 1) * pow2(level) >= more.len());
            lemma_empty_subtree(more, level, place + 1, height);
        }
        assert(above == node_at(more, level + 1, place / 2));
        lemma_climb(subtrees, leaves, leaf, above, level + 1, height);
    }
}

/// What is kept implies what the next leaf needs.
proof fn lemma_kept_gives_frontier(subtrees: Seq<Seq<u8>>, leaves: Seq<Seq<u8>>, height: nat)
    requires
        subtrees_kept(subtrees, leaves, height),
    ensures
        frontier_holds(subtrees, leaves, height),
{
    assert forall|level: int|
        0 <= level < height && is_right_child(
            leaves.len(),
            level as nat,
        ) implies #[trigger] subtrees[level] == node_at(
        leaves,
        level as nat,
        (leaves.len() / pow2(level as nat) - 1) as nat,
    ) by {
        assert(subtrees[level] == kept_at(leaves, level as nat));
    }
}

/// What the tree keeps at a level for which the new leaf completes no left
/// child is what it kept before.
proof fn lemma_kept_stays(leaves: Seq<Seq<u8>>, leaf: Seq<u8>, level: nat)
    requires
        !(right_child_below(leaves.len(), level) && !is_right_child(leaves.len(), level)),
    ensures
        kept_at(leaves.push(leaf), level) == kept_at(leaves, level),
{
    let index = leaves.len();
    let more = leaves.push(leaf);
    let before = index / pow2(level);
    let after = more.len() / pow2(level);
    lemma_carry(index, level);
    lemma_shift(index, level);
    assert(after == (index + 1) / pow2(level));
    if right_child_below(index, level) {
        // The leaf is a right child here too: one more subtree is complete,
        // a right child, and the latest left child is the one before it.
        assert(before % 2 == 1);
        assert(after == before + 1);
        assert(after % 2 == 0) by (nonlinear_arith)
            requires
                before % 2 == 1,
                after == before + 1,
        ;
        lemma_within(before, (before - 1) as nat, level, index);
        lemma_complete_subtree(leaves, leaf, level, (before - 1) as nat);
    } else {
        assert(after == before);
        if before > 0 {
            let place = if before % 2 == 1 {
                (before - 1) as nat
            } else {
                (before - 2) as nat
            };
            assert(before % 2 == 0 ==> before >= 2);
            lemma_within(before, place, level, index);
            lemma_complete_subtree(leaves, leaf, level, place);
        }
    }
}

/// A subtree to the left of `count` whole subtrees lies within the leaves
/// that they cover.
proof fn lemma_within(count: nat, place: nat, level: nat, leaves: nat)
    requires
        place < count,
        count * pow2(level) <= leaves,
    ensures
        (place + 1) * pow2(level) <= leaves,
{
    lemma_pow2_pos(level);
    assert((place + 1) * pow2(level) <= count * pow2(level)) by (nonlinear_arith)
        requires
            place + 1 <= count,
            pow2(level) > 0,
    ;
}

/// After the new leaf has gone up, the stored neighbours are what the tree
/// keeps for the leaves with the new one.
proof fn lemma_settle(
    subtrees: Seq<Seq<u8>>,
    leaves: Seq<Seq<u8>>,
    leaf: Seq<u8>,
    node: Seq<u8>,
    level: nat,
    height: nat,
)
    requires
        level <= height <= subtrees.len(),
        subtrees_kept(subtrees, leaves, height),
        right_child_below(leaves.len(), level),
        node == node_at(leaves.push(leaf), level, leaves.len() / pow2(level)),
    ensures
        subtrees_kept(
            settle(subtrees, leaves.len(), node, level, height),
            leaves.push(leaf),
            height,
        ),
    decreases height - level,
{
    let index = leaves.len();
    let more = leaves.push(leaf);
    let place = index / pow2(level);
    let after = settle(subtrees, index, node, level, height);
    lemma_shift(index, level);
    if level >= height {
        // The leaf was a right child all the way up, and nothing is stored.
        assert forall|k: int| 0 <= k < height implies #[trigger] after[k] == kept_at(
            more,
            k as nat,
        ) by {
            lemma_right_child_below(index, k as nat + 1, level);
            assert(right_child_below(index, k as nat) && is_right_child(index, k as nat));
            lemma_kept_stays(leaves, leaf, k as nat);
            assert(subtrees[k] == kept_at(leaves, k as nat));
        }
    } else if !is_right_child(index, level) {
        assert forall|k: int| 0 <= k < height implies #[trigger] after[k] == kept_at(
            more,
            k as nat,
        ) by {
            if k == level {
                lemma_carry(index, level);
                let complete = more.len() / pow2(level);
                assert(complete == place + 1);
                assert(complete % 2 == 1) by (nonlinear_arith)
                    requires
                        place % 2 == 0,
                        complete == place + 1,
                ;
                assert(after[k] == node);
            } else {
                if k < level {
                    lemma_right_child_below(index, k as nat + 1, level);
                    assert(right_child_below(index, k as nat) && is_right_child(index, k as nat));
                } else {
                    lemma_left_child_stops(index, level, k as nat);
                }
                lemma_kept_stays(leaves, leaf, k as nat);
                assert(after[k] == subtrees[k]);
                assert(subtrees[k] == kept_at(leaves, k as nat));
            }
        }
    } else {
        lemma_children(place / 2, level + 1);
        lemma_kept_gives_frontier(subtrees, leaves, height);
        assert(subtrees[level as int] == node_at(leaves, level, (place - 1) as nat));
        assert(((place - 1) as nat + 1) * pow2(level) <= leaves.len());
        lemma_complete_subtree(leaves, leaf, level, (place - 1) as nat);
        assert(2 * (place / 2) == place - 1);
        let above = poseidon(subtrees[level as int], node);
        assert(above == node_at(more, level + 1, place / 2));
        lemma_settle(subtrees, leaves, leaf, above, level + 1, height);
    }
}

/// A leaf that is a right child below `level` is one below every lower level.
proof fn lemma_right_child_below(index: nat, lower: nat, level: nat)
    requires
        lower <= level,
        right_child_below(index, level),
    ensures
        right_child_below(index, lower),
    decreases level - lower,
{
    if lower < level {
        lemma_right_child_below(index, lower, (level - 1) as nat);
    }
}

/// A leaf that is a left child at `level` is no right child below any level
/// above it.
proof fn lemma_left_child_stops(index: nat, level: nat, above: nat)
    requires
        level < above,
        !is_right_child(index, level),
    ensures
        !right_child_below(index, above),
    decreases above - level,
{
    if level + 1 < above {
        lemma_left_child_stops(index, level, (above - 1) as nat);
    }
}

/// A run of appends from the empty tree stores at each level what the tree
/// keeps there.
proof fn lemma_appends_keep_subtrees(seed: TreeModel, leaves: Seq<Seq<u8>>)
    requires
        seed.configured(),
        leaves.len() <= capacity(seed.height),
    ensures
        ({
            let tree = seed.initialized().after_appends(leaves);
            &&& tree.sized()
            &&& tree.height == seed.height
            &&& tree.next_index == leaves.len()
            &&& subtrees_kept(tree.subtrees, leaves, seed.height)
        }),
    decreases leaves.len(),
{
    let start = seed.initialized();
    lemma_appends_keep_shape(start, leaves);
    if leaves.len() == 0 {
        assert forall|level: int| 0 <= level < seed.height implies #[trigger] start.subtrees[level]
            == kept_at(leaves, level as nat) by {
            lemma_pow2_pos(level as nat);
            assert(0int / (pow2(level as nat) as int) == 0);
        }
    } else {
        let shorter = leaves.drop_last();
        lemma_appends_keep_subtrees(seed, shorter);
        let before = start.after_appends(shorter);
        assert(pow2(0) == 1) by {
            vstd::arithmetic::power2::lemma2_to64();
        }
        assert(shorter.len() / 1 == shorter.len());
        lemma_settle(before.subtrees, shorter, leaves.last(), leaves.last(), 0, seed.height);
        assert(shorter.push(leaves.last()) =~= leaves);
    }
}

/// A run of appends from the empty tree leaves the root of the leaves as the
/// root of the tree.
proof fn lemma_appends_keep_root(seed: TreeModel, leaves: Seq<Seq<u8>>)
    requires
        seed.configured(),
        zero_ladder(seed.height),
        leaves.len() <= capacity(seed.height),
    ensures
        seed.initialized().after_appends(leaves).root == root_of(leaves, seed.height),
{
    let start = seed.initialized();
    if leaves.len() == 0 {
        assert(0 * pow2(seed.height) == 0);
        lemma_empty_subtree(leaves, seed.height, 0, seed.height);
    } else {
        let shorter = leaves.drop_last();
        let leaf = leaves.last();
        let index = shorter.len();
        lemma_appends_keep_subtrees(seed, shorter);
        let before = start.after_appends(shorter);
        lemma_kept_gives_frontier(before.subtrees, shorter, seed.height);
        assert(pow2(0) == 1) by {
            vstd::arithmetic::power2::lemma2_to64();
        }
        assert(index / 1 == index);
        lemma_climb(before.subtrees, shorter, leaf, leaf, 0, seed.height);
        lemma_shift(index, seed.height);
        assert(index / pow2(seed.height) == 0) by {
            let d = pow2(seed.height);
            let q = index / d;
            assert(q * d <= index < d);
            assert(q == 0) by (nonlinear_arith)
                requires
                    q * d < d,
                    q >= 0,
                    d > 0,
            ;
        }
        assert(shorter.push(leaf) =~= leaves);
    }
}

/// The root of the tree is the root of its leaves: after any run of appends
/// from the empty tree that the tree has room for, the root is that of the
/// tree of the same height over the leaves appended, with an empty leaf
/// wherever there is none. This holds where the empty subtrees form a ladder.
pub proof fn law_root_is_root_of_leaves(seed: TreeModel, leaves: Seq<Seq<u8>>)
    requires
        seed.configured(),
        zero_ladder(seed.height),
        leaves.len() <= capacity(seed.height),
    ensures
        seed.initialized().after_appends(leaves).root == root_of(leaves, seed.height),
{
    lemma_appends_keep_root(seed, leaves);
}

/// The stored neighbours are the latest complete subtrees: after any run of
/// appends from the empty tree that the tree has room for, the neighbour
/// stored at each level is the latest subtree of that level that is complete
/// and a left child, or the empty subtree where there is none yet.
pub proof fn law_subtrees_are_latest_complete(seed: TreeModel, leaves: Seq<Seq<u8>>)
    requires
        seed.configured(),
        leaves.len() <= capacity(seed.height),
    ensures
        subtrees_kept(
            seed.initialized().after_appends(leaves).subtrees,
            leaves,
            seed.height,
        ),
{
    lemma_appends_keep_subtrees(seed, leaves);
}

/// Whether the empty subtrees form a ladder up to `height`, found by hashing
/// each of them with itself. The table has no entry above level 40, so for
/// a greater height the answer is no.
pub fn zero_ladder_holds(height: u8) -> (holds: bool)
    ensures
        holds == (height <= 40 && zero_ladder(height as nat)),
{
    if height > 40 {
        return false;
    }
    let top = height as usize;
    let mut level: usize = 0;
    while level < top
        invariant
            level <= top <= 40,
            top == height,
            forall|k: nat|
                0 < k <= level ==> #[trigger] zero_hash(k) == poseidon(
                    zero_hash((k - 1) as nat),
                    zero_hash((k - 1) as nat),
                ),
        decreases top - level,
    {
        let lower = poseidon_zero(level);
        let upper = poseidon_zero(level + 1);
        let hashed = match poseidon_pair(&lower, &lower) {
            Some(digest) => digest,
            None => unreached(),
        };
        if !same_bytes(hashed.as_slice(), upper.as_slice()) {
            assert(zero_hash((level + 1) as nat) != poseidon(
                zero_hash(level as nat),
                zero_hash(level as nat),
            ));
            return false;
        }
        level += 1;
    }
    true
}

} // verus!
