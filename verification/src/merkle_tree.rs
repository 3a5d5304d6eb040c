//! The append-only commitment tree.
//!
//! Nodes are hashed in pairs with Poseidon, as `light_hasher` computes it. A
//! leaf that arrives is hashed upwards along the right edge of the tree: where
//! it is a right child the stored left neighbour is its sibling, where it is a
//! left child the empty subtree of that level is. The first level at which it
//! is a left child keeps the node for the leaves that follow.
use vstd::prelude::*;
use vstd::arithmetic::div_mod::lemma_div_denominator;
use vstd::arithmetic::power2::{lemma2_to64, lemma_pow2_pos, lemma_pow2_unfold, pow2};
use light_hasher::{Hasher, Poseidon};
use crate::codec::{in_field, rows, same_bytes};
use crate::errors::ErrorCode;
use crate::groth16::is_less_than_bn254_field_size_be;
use crate::state::{MerkleTreeAccount, TreeModel};

verus! {

/// What `Poseidon::hashv` returns for two 32-byte inputs below the field
/// order, each read as a big-endian field element.
pub uninterp spec fn poseidon(left: Seq<u8>, right: Seq<u8>) -> Seq<u8>;

/// The entry of `Poseidon::zero_bytes()` at `level`: the root of an empty
/// subtree of that height.
pub uninterp spec fn zero_hash(level: nat) -> Seq<u8>;

/// `Poseidon::hashv` of `light_hasher` on two inputs. It succeeds where both
/// are below the field order, and what comes back is a big-endian field
/// element again.
#[verifier::external_body]
pub(crate) fn poseidon_pair(left: &[u8; 32], right: &[u8; 32]) -> (digest: Option<[u8; 32]>)
    ensures
        in_field(left@) && in_field(right@) ==> digest is Some,
        digest matches Some(bytes) ==> bytes@ == poseidon(left@, right@) && in_field(bytes@),
{
    Poseidon::hashv(&[left.as_slice(), right.as_slice()]).ok()
}

/// One entry of the table `Poseidon::zero_bytes()` of `light_hasher`, which
/// has 41 of them, each a big-endian field element.
#[verifier::external_body]
pub(crate) fn poseidon_zero(level: usize) -> (zero: [u8; 32])
    requires
        level <= 40,
    ensures
        zero@ == zero_hash(level as nat),
        in_field(zero@),
{
    Poseidon::zero_bytes()[level]
}

/// Thirty-two zero bytes: what an untouched slot of the history holds.
pub open spec fn zero_bytes32() -> Seq<u8> {
    Seq::new(32, |i: int| 0u8)
}

/// Whether every byte is zero.
pub open spec fn all_zero(bytes: Seq<u8>) -> bool {
    forall|i: int| 0 <= i < bytes.len() ==> bytes[i] == 0
}

/// Number of leaves that a tree of `height` levels holds.
pub open spec fn capacity(height: nat) -> nat {
    pow2(height)
}

/// Whether the node above leaf `index` at `level` is a right child.
pub open spec fn is_right_child(index: nat, level: nat) -> bool {
    (index / pow2(level)) % 2 == 1
}

/// The sibling of the node above leaf `index` at `level`: the stored left
/// neighbour for a right child, the empty subtree for a left child.
pub open spec fn sibling_at(subtrees: Seq<Seq<u8>>, index: nat, level: nat) -> Seq<u8> {
    if is_right_child(index, level) {
        subtrees[level as int]
    } else {
        zero_hash(level)
    }
}

/// The parent of `node`, which stands above leaf `index` at `level`.
pub open spec fn parent_of(subtrees: Seq<Seq<u8>>, index: nat, node: Seq<u8>, level: nat) -> Seq<
    u8,
> {
    if is_right_child(index, level) {
        poseidon(subtrees[level as int], node)
    } else {
        poseidon(node, zero_hash(level))
    }
}

/// The root that is reached from `node` at `level` above leaf `index`.
pub open spec fn climb(
    subtrees: Seq<Seq<u8>>,
    index: nat,
    node: Seq<u8>,
    level: nat,
    height: nat,
) -> Seq<u8>
    decreases height - level,
{
    if level >= height {
        node
    } else {
        climb(subtrees, index, parent_of(subtrees, index, node, level), (level + 1) as nat, height)
    }
}

/// The stored left neighbours after `node` at `level` above leaf `index` has
/// gone up: the first level at which it is a left child keeps it.
pub open spec fn settle(
    subtrees: Seq<Seq<u8>>,
    index: nat,
    node: Seq<u8>,
    level: nat,
    height: nat,
) -> Seq<Seq<u8>>
    decreases height - level,
{
    if level >= height {
        subtrees
    } else if !is_right_child(index, level) {
        subtrees.update(level as int, node)
    } else {
        settle(
            subtrees,
            index,
            poseidon(subtrees[level as int], node),
            (level + 1) as nat,
            height,
        )
    }
}

/// The authentication path of leaf `index`: its sibling at each level.
pub open spec fn path_of(subtrees: Seq<Seq<u8>>, index: nat, height: nat) -> Seq<Seq<u8>> {
    Seq::new(height, |level: int| sibling_at(subtrees, index, level as nat))
}

impl TreeModel {
    /// The sizes are within what the account can hold.
    pub open spec fn configured(self) -> bool {
        &&& self.height <= 26
        &&& 1 <= self.history_size <= 100
        &&& self.subtrees.len() == 26
        &&& self.root_history.len() == 100
    }

    /// The sizes are within what the account can hold, and `root_index` names
    /// a slot of the history.
    pub open spec fn sized(self) -> bool {
        &&& self.configured()
        &&& self.root_index < self.history_size
    }

    /// The tree is sized, and the stored left neighbours are field elements.
    pub open spec fn wf(self) -> bool {
        &&& self.sized()
        &&& forall|level: int| 0 <= level < self.height ==> in_field(#[trigger] self.subtrees[level])
    }

    /// The current root stands in the history, at the slot that `root_index`
    /// names.
    pub open spec fn root_recorded(self) -> bool {
        self.root_history[self.root_index as int] == self.root
    }

    /// Whether the tree has no room for another leaf.
    pub open spec fn is_full(self) -> bool {
        self.next_index >= capacity(self.height)
    }

    /// The empty tree of the same sizes: every stored neighbour is the empty
    /// subtree of its level, and the root of the empty tree is the first
    /// entry of the history.
    pub open spec fn initialized(self) -> TreeModel {
        TreeModel {
            next_index: 0,
            root_index: 0,
            subtrees: Seq::new(
                self.subtrees.len(),
                |level: int|
                    if level < self.height {
                        zero_hash(level as nat)
                    } else {
                        self.subtrees[level]
                    },
            ),
            root: zero_hash(self.height),
            root_history: self.root_history.update(0, zero_hash(self.height)),
            ..self
        }
    }

    /// The tree after `leaf` has been appended, where there is room for it.
    pub open spec fn appended(self, leaf: Seq<u8>) -> TreeModel {
        let root = climb(self.subtrees, self.next_index, leaf, 0, self.height);
        let slot = ((self.root_index + 1) as int) % (self.history_size as int);
        TreeModel {
            next_index: self.next_index + 1,
            subtrees: settle(self.subtrees, self.next_index, leaf, 0, self.height),
            root,
            root_history: self.root_history.update(slot, root),
            root_index: slot as nat,
            ..self
        }
    }

    /// The tree as `append` leaves it: with `leaf` appended where there is
    /// room, as it was where there is none.
    pub open spec fn after_append(self, leaf: Seq<u8>) -> TreeModel {
        if self.is_full() {
            self
        } else {
            self.appended(leaf)
        }
    }

    /// The tree after `append` has been called with each of `leaves` in turn.
    pub open spec fn after_appends(self, leaves: Seq<Seq<u8>>) -> TreeModel
        decreases leaves.len(),
    {
        if leaves.len() == 0 {
            self
        } else {
            self.after_appends(leaves.drop_last()).after_append(leaves.last())
        }
    }

    /// Whether `root` is one of the remembered roots. A root of zero bytes is
    /// never one.
    pub open spec fn knows(self, root: Seq<u8>) -> bool {
        &&& !all_zero(root)
        &&& exists|slot: int| 0 <= slot < self.history_size && #[trigger] self.root_history[slot] == root
    }
}

/// Number of leaves that a tree of `height` levels holds.
pub fn capacity_of(height: u8) -> (leaves: u64)
    requires
        height <= 26,
    ensures
        leaves == capacity(height as nat),
        leaves <= 0x400_0000,
{
    let mut leaves: u64 = 1;
    let mut level: u8 = 0;
    proof {
        lemma2_to64();
    }
    while level < height
        invariant
            level <= height <= 26,
            leaves == pow2(level as nat),
            leaves * pow2((26 - level) as nat) == 0x400_0000,
        decreases height - level,
    {
        proof {
            lemma_pow2_unfold((level + 1) as nat);
            lemma_pow2_unfold((26 - level) as nat);
            lemma_pow2_pos((25 - level) as nat);
            assert(leaves * (2 * pow2((25 - level) as nat)) == (2 * leaves) * pow2(
                (25 - level) as nat,
            )) by (nonlinear_arith);
            assert((2 * leaves) * pow2((25 - level) as nat) >= 2 * leaves) by (nonlinear_arith)
                requires
                    pow2((25 - level) as nat) >= 1,
                    leaves >= 0,
            ;
        }
        leaves = leaves * 2;
        level = level + 1;
    }
    proof {
        lemma_pow2_pos((26 - level) as nat);
        assert(leaves <= 0x400_0000) by (nonlinear_arith)
            requires
                leaves * pow2((26 - level) as nat) == 0x400_0000,
                pow2((26 - level) as nat) >= 1,
                leaves >= 0,
        ;
    }
    leaves
}

impl MerkleTreeAccount {
    /// Whether the account is one that the operations on the tree accept:
    /// its sizes are within what it can hold, `root_index` names a slot of
    /// the history, and its stored left neighbours are field elements.
    pub fn is_well_formed(&self) -> (well_formed: bool)
        ensures
            well_formed == self@.wf(),
    {
        if self.height > 26 || self.root_history_size < 1 || self.root_history_size > 100
            || self.root_index >= self.root_history_size as u64 {
            return false;
        }
        let height = self.height as usize;
        let mut level: usize = 0;
        while level < height
            invariant
                level <= height <= 26,
                height == self.height,
                forall|k: int| 0 <= k < level ==> in_field(#[trigger] self@.subtrees[k]),
            decreases height - level,
        {
            if !is_less_than_bn254_field_size_be(&self.subtrees[level]) {
                assert(!in_field(self@.subtrees[level as int]));
                return false;
            }
            level += 1;
        }
        true
    }
}

/// The operations on the commitment tree.
pub struct MerkleTree;

impl MerkleTree {
    /// Makes the tree empty. The sizes `height` and `root_history_size` are
    /// read from the account and stay as they are.
    pub fn initialize(tree_account: &mut MerkleTreeAccount) -> (result: Result<(), ErrorCode>)
        requires
            old(tree_account).height <= 26,
            1 <= old(tree_account).root_history_size <= 100,
        ensures
            result is Ok,
            final(tree_account)@ == old(tree_account)@.initialized(),
            final(tree_account)@.wf(),
            final(tree_account)@.root_recorded(),
            final(tree_account).same_owner(old(tree_account)),
    {
        let height = tree_account.height as usize;
        let mut level: usize = 0;
        while level < height
            invariant
                level <= height <= 26,
                height == old(tree_account).height,
                tree_account.authority == old(tree_account).authority,
                tree_account.next_index == old(tree_account).next_index,
                tree_account.root == old(tree_account).root,
                tree_account.root_history == old(tree_account).root_history,
                tree_account.root_index == old(tree_account).root_index,
                tree_account.max_deposit_amount == old(tree_account).max_deposit_amount,
                tree_account.height == old(tree_account).height,
                tree_account.root_history_size == old(tree_account).root_history_size,
                tree_account.bump == old(tree_account).bump,
                forall|k: int|
                    0 <= k < level ==> tree_account.subtrees[k]@ == zero_hash(k as nat) && in_field(
                        tree_account.subtrees[k]@,
                    ),
                forall|k: int|
                    level <= k < 26 ==> tree_account.subtrees[k] == old(tree_account).subtrees[k],
            decreases height - level,
        {
            tree_account.subtrees[level] = poseidon_zero(level);
            level += 1;
        }
        let root = poseidon_zero(height);
        tree_account.root = root;
        tree_account.root_history[0] = root;
        tree_account.next_index = 0;
        tree_account.root_index = 0;
        proof {
            let before = old(tree_account)@;
            let after = tree_account@;
            assert(after.subtrees =~= before.initialized().subtrees);
            assert(after.root_history =~= before.initialized().root_history);
            assert(after.root =~= before.initialized().root);
        }
        Ok(())
    }

    /// Appends `leaf` and returns its authentication path, one sibling for
    /// each level. A full tree gives `MerkleTreeFull` and stays as it is.
    pub fn append(leaf: [u8; 32], tree_account: &mut MerkleTreeAccount) -> (result: Result<
        Vec<[u8; 32]>,
        ErrorCode,
    >)
        requires
            old(tree_account)@.wf(),
            in_field(leaf@),
        ensures
            final(tree_account)@.wf(),
            final(tree_account).same_owner(old(tree_account)),
            final(tree_account)@ == old(tree_account)@.after_append(leaf@),
            match result {
                Ok(path) => {
                    &&& !old(tree_account)@.is_full()
                    &&& final(tree_account)@ == old(tree_account)@.appended(leaf@)
                    &&& final(tree_account).next_index == old(tree_account).next_index + 1
                    &&& path@.len() == old(tree_account).height
                    &&& rows(path@) == path_of(
                        old(tree_account)@.subtrees,
                        old(tree_account)@.next_index,
                        old(tree_account)@.height,
                    )
                },
                Err(error) => {
                    &&& old(tree_account)@.is_full()
                    &&& error == ErrorCode::MerkleTreeFull
                    &&& *final(tree_account) == *old(tree_account)
                },
            },
    {
        let height = tree_account.height as usize;
        let leaves = capacity_of(tree_account.height);
        if tree_account.next_index >= leaves {
            return Err(ErrorCode::MerkleTreeFull);
        }
        let ghost before = old(tree_account)@;
        let ghost first = before.next_index;
        let mut index: u64 = tree_account.next_index;
        let mut node: [u8; 32] = leaf;
        let mut settled = false;
        let mut path: Vec<[u8; 32]> = Vec::new();
        let mut level: usize = 0;
        proof {
            lemma2_to64();
            assert(rows(tree_account.subtrees@) =~= before.subtrees);
        }
        while level < height
            invariant
                level <= height <= 26,
                height == before.height,
                before == old(tree_account)@,
                before.wf(),
                first == before.next_index,
                tree_account.authority == old(tree_account).authority,
                tree_account.next_index == old(tree_account).next_index,
                tree_account.root == old(tree_account).root,
                tree_account.root_history == old(tree_account).root_history,
                tree_account.root_index == old(tree_account).root_index,
                tree_account.max_deposit_amount == old(tree_account).max_deposit_amount,
                tree_account.height == old(tree_account).height,
                tree_account.root_history_size == old(tree_account).root_history_size,
                tree_account.bump == old(tree_account).bump,
                index == first / pow2(level as nat),
                in_field(node@),
                climb(before.subtrees, first, leaf@, 0, before.height) == climb(
                    before.subtrees,
                    first,
                    node@,
                    level as nat,
                    before.height,
                ),
                settled ==> rows(tree_account.subtrees@) == settle(
                    before.subtrees,
                    first,
                    leaf@,
                    0,
                    before.height,
                ),
                !settled ==> rows(tree_account.subtrees@) == before.subtrees && settle(
                    before.subtrees,
                    first,
                    leaf@,
                    0,
                    before.height,
                ) == settle(before.subtrees, first, node@, level as nat, before.height),
                forall|k: int| level <= k < 26 ==> tree_account.subtrees[k]@ == before.subtrees[k],
                forall|k: int|
                    0 <= k < height ==> in_field(#[trigger] rows(tree_account.subtrees@)[k]),
                path.len() == level,
                forall|k: int|
                    0 <= k < level ==> path[k]@ == sibling_at(before.subtrees, first, k as nat),
            decreases height - level,
        {
            let zero = poseidon_zero(level);
            let left: [u8; 32];
            let right: [u8; 32];
            let ghost rows_before = rows(tree_account.subtrees@);
            if index % 2 == 0 {
                if !settled {
                    tree_account.subtrees[level] = node;
                    settled = true;
                    assert(rows(tree_account.subtrees@) =~= rows_before.update(level as int, node@));
                }
                left = node;
                right = zero;
                path.push(zero);
            } else {
                let sibling = tree_account.subtrees[level];
                assert(in_field(rows(tree_account.subtrees@)[level as int]));
                left = sibling;
                right = node;
                path.push(sibling);
            }
            node = match poseidon_pair(&left, &right) {
                Some(digest) => digest,
                None => unreached(),
            };
            proof {
                lemma_pow2_pos(level as nat);
                lemma_pow2_unfold((level + 1) as nat);
                lemma_div_denominator(first as int, pow2(level as nat) as int, 2);
                assert(pow2(level as nat) * 2 == 2 * pow2(level as nat));
            }
            index = index / 2;
            level += 1;
        }
        proof {
            assert(before.height == level);
        }
        let slot = (tree_account.root_index + 1) % (tree_account.root_history_size as u64);
        tree_account.root = node;
        tree_account.next_index = tree_account.next_index + 1;
        tree_account.root_index = slot;
        tree_account.root_history[slot as usize] = node;
        proof {
            let after = tree_account@;
            let expected = before.appended(leaf@);
            assert(after.root_history =~= expected.root_history);
            assert(after.subtrees =~= expected.subtrees);
            assert(rows(path@) =~= path_of(before.subtrees, first, before.height));
            assert forall|k: int| 0 <= k < after.height implies in_field(
                #[trigger] after.subtrees[k],
            ) by {
                assert(in_field(rows(tree_account.subtrees@)[k]));
            }
        }
        Ok(path)
    }

    /// Whether `root` is one of the roots that the tree remembers. The
    /// history is walked from the latest root backwards, around its end.
    /// Thirty-two zero bytes are never known.
    pub fn is_known_root(tree_account: &MerkleTreeAccount, root: [u8; 32]) -> (known: bool)
        requires
            tree_account@.wf(),
        ensures
            known == tree_account@.knows(root@),
            all_zero(root@) ==> !known,
    {
        let zero = [0u8; 32];
        if same_bytes(root.as_slice(), zero.as_slice()) {
            assert(all_zero(root@));
            return false;
        }
        assert(!all_zero(root@)) by {
            if all_zero(root@) {
                assert(root@ =~= zero@);
            }
        }
        let size = tree_account.root_history_size as usize;
        let latest = tree_account.root_index as usize;
        let mut slot: usize = latest + 1;
        while slot > 0
            invariant
                slot <= latest + 1 <= size <= 100,
                size == tree_account.root_history_size,
                !all_zero(root@),
                forall|k: int| slot <= k <= latest ==> tree_account.root_history[k]@ != root@,
            decreases slot,
        {
            slot -= 1;
            if same_bytes(tree_account.root_history[slot].as_slice(), root.as_slice()) {
                assert(tree_account@.root_history[slot as int] == root@);
                return true;
            }
        }
        let mut slot: usize = size;
        while slot > latest + 1
            invariant
                latest + 1 <= slot <= size <= 100,
                size == tree_account.root_history_size,
                !all_zero(root@),
                forall|k: int| 0 <= k <= latest ==> tree_account.root_history[k]@ != root@,
                forall|k: int| slot <= k < size ==> tree_account.root_history[k]@ != root@,
            decreases slot,
        {
            slot -= 1;
            if same_bytes(tree_account.root_history[slot].as_slice(), root.as_slice()) {
                assert(tree_account@.root_history[slot as int] == root@);
                return true;
            }
        }
        assert forall|k: int| 0 <= k < size implies #[trigger] tree_account@.root_history[k]
            != root@ by {
            assert(tree_account.root_history[k]@ != root@);
        }
        false
    }
}

} // verus!
