//! What holds of the tree over a run of appends.
use vstd::prelude::*;
use vstd::arithmetic::div_mod::{lemma_mod_self_0, lemma_small_mod};
use vstd::arithmetic::power2::lemma2_to64;
use crate::merkle_tree::{all_zero, capacity, is_right_child, poseidon, settle, zero_bytes32};
use crate::state::TreeModel;

verus! {

/// The slot that is `steps` writes after `slot` in a history of `size` slots.
pub open spec fn slot_after(slot: int, steps: int, size: int) -> int {
    if slot + steps < size {
        slot + steps
    } else {
        slot + steps - size
    }
}

/// The root of `tree` after `append` has been called with the first `count`
/// of `leaves`.
pub open spec fn root_after(tree: TreeModel, leaves: Seq<Seq<u8>>, count: int) -> Seq<u8> {
    tree.after_appends(leaves.take(count)).root
}

/// The slot of the latest root moves on by one and starts again at the end.
proof fn lemma_next_slot(slot: nat, size: nat)
    requires
        slot < size,
    ensures
        ((slot + 1) as int) % (size as int) == slot_after(slot as int, 1, size as int),
{
    if slot + 1 < size {
        lemma_small_mod(slot + 1, size);
    } else {
        lemma_mod_self_0(size as int);
    }
}

/// Storing a node keeps the number of stored neighbours.
proof fn lemma_settle_keeps_length(
    subtrees: Seq<Seq<u8>>,
    index: nat,
    node: Seq<u8>,
    level: nat,
    height: nat,
)
    requires
        height <= subtrees.len(),
    ensures
        settle(subtrees, index, node, level, height).len() == subtrees.len(),
    decreases height - level,
{
    if level < height && is_right_child(index, level) {
        lemma_settle_keeps_length(
            subtrees,
            index,
            poseidon(subtrees[level as int], node),
            (level + 1) as nat,
            height,
        );
    }
}

/// One append keeps the sizes, writes the new root at the next slot and
/// leaves the other slots alone.
proof fn lemma_one_append(tree: TreeModel, leaf: Seq<u8>)
    requires
        tree.sized(),
        !tree.is_full(),
    ensures
        ({
            let next = tree.appended(leaf);
            &&& next.sized()
            &&& next.height == tree.height
            &&& next.history_size == tree.history_size
            &&& next.next_index == tree.next_index + 1
            &&& next.root_index == slot_after(tree.root_index as int, 1, tree.history_size as int)
            &&& next.root_history == tree.root_history.update(next.root_index as int, next.root)
            &&& next.root_recorded()
        }),
{
    lemma_next_slot(tree.root_index, tree.history_size);
    lemma_settle_keeps_length(tree.subtrees, tree.next_index, leaf, 0, tree.height);
}

/// Appending two runs of leaves one after the other is appending them all.
proof fn lemma_appends_in_two_runs(tree: TreeModel, first: Seq<Seq<u8>>, second: Seq<Seq<u8>>)
    ensures
        tree.after_appends(first + second) == tree.after_appends(first).after_appends(second),
    decreases second.len(),
{
    if second.len() == 0 {
        assert(first + second =~= first);
    } else {
        lemma_appends_in_two_runs(tree, first, second.drop_last());
        assert((first + second).drop_last() =~= first + second.drop_last());
    }
}

/// A run of appends keeps the sizes and the record of the current root, and
/// fills the tree up to its capacity and no further.
pub(crate) proof fn lemma_appends_keep_shape(tree: TreeModel, leaves: Seq<Seq<u8>>)
    requires
        tree.sized(),
    ensures
        ({
            let end = tree.after_appends(leaves);
            &&& end.sized()
            &&& end.height == tree.height
            &&& end.history_size == tree.history_size
            &&& tree.root_recorded() ==> end.root_recorded()
            &&& tree.next_index <= capacity(tree.height) ==> end.next_index == if tree.next_index
                + leaves.len() <= capacity(tree.height) {
                tree.next_index + leaves.len()
            } else {
                capacity(tree.height)
            }
        }),
    decreases leaves.len(),
{
    if leaves.len() > 0 {
        lemma_appends_keep_shape(tree, leaves.drop_last());
        let before = tree.after_appends(leaves.drop_last());
        if !before.is_full() {
            lemma_one_append(before, leaves.last());
        }
    }
}

/// In every state that a run of appends reaches from the empty tree, the
/// current root stands in the history, and it is known unless all its bytes
/// are zero.
pub proof fn law_current_root_is_known(tree: TreeModel, leaves: Seq<Seq<u8>>)
    requires
        tree.configured(),
    ensures
        ({
            let end = tree.initialized().after_appends(leaves);
            &&& end.root_recorded()
            &&& !all_zero(end.root) ==> end.knows(end.root)
        }),
{
    lemma_appends_keep_shape(tree.initialized(), leaves);
}

/// Every root in the history was the root of the tree: after any run of
/// appends from the empty tree, a slot of the history holds the root that
/// the tree had after some of them, or it has not been written since the
/// tree was made empty.
pub proof fn law_history_holds_past_roots(seed: TreeModel, leaves: Seq<Seq<u8>>, slot: int)
    requires
        seed.configured(),
        0 <= slot < seed.history_size,
    ensures
        ({
            let start = seed.initialized();
            let tree = start.after_appends(leaves);
            ||| tree.root_history[slot] == seed.root_history[slot]
            ||| exists|count: int|
                0 <= count <= leaves.len() && tree.root_history[slot] == #[trigger] root_after(
                    start,
                    leaves,
                    count,
                )
        }),
    decreases leaves.len(),
{
    let start = seed.initialized();
    let tree = start.after_appends(leaves);
    if leaves.len() == 0 {
        assert(leaves.take(0) =~= leaves);
        if slot == 0 {
            assert(tree.root_history[slot] == root_after(start, leaves, 0));
        }
    } else {
        let shorter = leaves.drop_last();
        let before = start.after_appends(shorter);
        law_history_holds_past_roots(seed, shorter, slot);
        lemma_appends_keep_shape(start, shorter);
        if !before.is_full() {
            lemma_one_append(before, leaves.last());
        }
        if tree.root_history[slot] == before.root_history[slot] {
            if before.root_history[slot] != seed.root_history[slot] {
                let count = choose|count: int|
                    0 <= count <= shorter.len() && before.root_history[slot] == #[trigger] root_after(
                        start,
                        shorter,
                        count,
                    );
                assert(shorter.take(count) =~= leaves.take(count));
                assert(tree.root_history[slot] == root_after(start, leaves, count));
            }
        } else {
            assert(leaves.take(leaves.len() as int) =~= leaves);
            assert(tree.root_history[slot] == root_after(start, leaves, leaves.len() as int));
        }
    }
}

/// Thirty-two zero bytes are never a known root, whatever the tree holds.
pub proof fn law_zero_root_is_unknown(tree: TreeModel)
    ensures
        !tree.knows(zero_bytes32()),
{
    assert(all_zero(zero_bytes32()));
}

/// From the empty tree, `append` succeeds as many times as the tree has
/// leaves, and fails from then on: after any number of calls the tree holds
/// that number of leaves or its capacity, whichever is less, and the next
/// call fails iff it holds its capacity. A tree of 26 levels has 67,108,864
/// leaves.
pub proof fn law_tree_takes_its_capacity(tree: TreeModel, leaves: Seq<Seq<u8>>)
    requires
        tree.configured(),
    ensures
        ({
            let end = tree.initialized().after_appends(leaves);
            &&& end.next_index == if leaves.len() <= capacity(tree.height) {
                leaves.len()
            } else {
                capacity(tree.height)
            }
            &&& end.is_full() <==> leaves.len() >= capacity(tree.height)
        }),
        capacity(26) == 67_108_864,
{
    lemma_appends_keep_shape(tree.initialized(), leaves);
    lemma2_to64();
}

/// From a tree with room for all of `leaves`, a run of no more appends than
/// the history has slots writes each new root at the slot after the one
/// before, and every one of these roots is still there at the end.
proof fn lemma_window(tree: TreeModel, leaves: Seq<Seq<u8>>)
    requires
        tree.sized(),
        leaves.len() <= tree.history_size,
        tree.next_index + leaves.len() <= capacity(tree.height),
    ensures
        ({
            let end = tree.after_appends(leaves);
            let size = tree.history_size as int;
            &&& end.sized()
            &&& end.history_size == tree.history_size
            &&& end.height == tree.height
            &&& end.next_index == tree.next_index + leaves.len()
            &&& end.root_index == slot_after(tree.root_index as int, leaves.len() as int, size)
            &&& forall|i: int|
                1 <= i <= leaves.len() ==> end.root_history[slot_after(
                    tree.root_index as int,
                    i,
                    size,
                )] == #[trigger] root_after(tree, leaves, i)
            &&& forall|slot: int|
                0 <= slot < size && (forall|i: int|
                    1 <= i <= leaves.len() ==> slot != #[trigger] slot_after(
                        tree.root_index as int,
                        i,
                        size,
                    )) ==> end.root_history[slot] == tree.root_history[slot]
        }),
    decreases leaves.len(),
{
    let size = tree.history_size as int;
    let start = tree.root_index as int;
    let count = leaves.len() as int;
    if count > 0 {
        let shorter = leaves.drop_last();
        lemma_window(tree, shorter);
        let before = tree.after_appends(shorter);
        lemma_one_append(before, leaves.last());
        let end = tree.after_appends(leaves);
        assert(end == before.appended(leaves.last()));
        assert(end.root_index == slot_after(start, count, size));
        assert forall|i: int| 1 <= i <= count implies end.root_history[slot_after(start, i, size)]
            == #[trigger] root_after(tree, leaves, i) by {
            if i == count {
                assert(leaves.take(count) =~= leaves);
            } else {
                assert(shorter.take(i) =~= leaves.take(i));
                assert(root_after(tree, shorter, i) == root_after(tree, leaves, i));
                assert(slot_after(start, i, size) != slot_after(start, count, size));
            }
        }
        assert forall|slot: int|
            0 <= slot < size && (forall|i: int|
                1 <= i <= count ==> slot != #[trigger] slot_after(start, i, size)) implies end.root_history[slot]
            == tree.root_history[slot] by {
            assert(slot != slot_after(start, count, size));
            assert forall|i: int| 1 <= i <= count - 1 implies slot != #[trigger] slot_after(
                start,
                i,
                size,
            ) by {}
        }
    }
}

/// A root stays known while the history has not gone round: after fewer
/// further calls of `append` than the history has slots, the root that was
/// current before them still stands at its slot, and it is known unless all
/// its bytes are zero.
pub proof fn law_root_stays_known(tree: TreeModel, leaves: Seq<Seq<u8>>)
    requires
        tree.sized(),
        tree.root_recorded(),
        leaves.len() < tree.history_size,
    ensures
        ({
            let end = tree.after_appends(leaves);
            &&& end.root_history[tree.root_index as int] == tree.root
            &&& !all_zero(tree.root) ==> end.knows(tree.root)
        }),
    decreases leaves.len(),
{
    lemma_appends_keep_shape(tree, leaves);
    lemma_appends_stay_behind(tree, leaves);
}

/// After fewer calls of `append` than the history has slots, the slot of the
/// latest root has moved on by no more slots than there were calls, and the
/// slot of the root that was current before them has not been written.
proof fn lemma_appends_stay_behind(tree: TreeModel, leaves: Seq<Seq<u8>>)
    requires
        tree.sized(),
        leaves.len() < tree.history_size,
    ensures
        ({
            let end = tree.after_appends(leaves);
            &&& end.sized()
            &&& end.history_size == tree.history_size
            &&& exists|steps: int|
                0 <= steps <= leaves.len() && end.root_index == #[trigger] slot_after(
                    tree.root_index as int,
                    steps,
                    tree.history_size as int,
                )
            &&& end.root_history[tree.root_index as int] == tree.root_history[tree.root_index as int]
        }),
    decreases leaves.len(),
{
    let size = tree.history_size as int;
    let start = tree.root_index as int;
    if leaves.len() == 0 {
        assert(tree.root_index == slot_after(start, 0, size));
    } else {
        lemma_appends_stay_behind(tree, leaves.drop_last());
        let before = tree.after_appends(leaves.drop_last());
        let steps = choose|steps: int|
            0 <= steps <= leaves.len() - 1 && before.root_index == #[trigger] slot_after(
                start,
                steps,
                size,
            );
        if before.is_full() {
            assert(before.root_index == slot_after(start, steps, size));
        } else {
            lemma_one_append(before, leaves.last());
            let end = before.appended(leaves.last());
            assert(end.root_index == slot_after(start, steps + 1, size));
        }
    }
}

/// A root is forgotten once the history has gone round: after as many
/// further appends as the history has slots, or more, a root is known only
/// if one of the last of them, as many as there are slots, made it the root
/// of the tree.
pub proof fn law_history_goes_round(tree: TreeModel, leaves: Seq<Seq<u8>>, root: Seq<u8>)
    requires
        tree.sized(),
        leaves.len() >= tree.history_size,
        tree.next_index + leaves.len() <= capacity(tree.height),
        tree.after_appends(leaves).knows(root),
    ensures
        exists|i: int|
            leaves.len() - tree.history_size < i <= leaves.len() && #[trigger] root_after(
                tree,
                leaves,
                i,
            ) == root,
{
    let size = tree.history_size as int;
    let count = leaves.len() as int;
    let early = leaves.take(count - size);
    let late = leaves.skip(count - size);
    assert(early + late =~= leaves);
    lemma_appends_in_two_runs(tree, early, late);
    lemma_appends_keep_shape(tree, early);
    let middle = tree.after_appends(early);
    let end = tree.after_appends(leaves);
    lemma_window(middle, late);
    let start = middle.root_index as int;
    let slot = choose|slot: int| 0 <= slot < size && #[trigger] end.root_history[slot] == root;
    let steps = if slot > start {
        slot - start
    } else {
        slot - start + size
    };
    assert(slot == slot_after(start, steps, size));
    assert(end.root_history[slot_after(start, steps, size)] == root_after(middle, late, steps));
    lemma_appends_in_two_runs(tree, early, late.take(steps));
    assert(early + late.take(steps) =~= leaves.take(count - size + steps));
    assert(root_after(tree, leaves, count - size + steps) == root);
}

} // verus!
