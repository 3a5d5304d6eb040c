//! What the pool keeps, and what travels on the wire.
use vstd::prelude::*;
use crate::codec::rows;

verus! {

/// Height of the commitment tree.
pub const MERKLE_TREE_HEIGHT: u8 = 26;

/// Number of recent roots that the tree remembers.
pub const ROOT_HISTORY_SIZE: u8 = 100;

/// The largest deposit that a fresh pool accepts, in the smallest unit.
pub const DEFAULT_MAX_DEPOSIT_AMOUNT: u64 = 1_000_000_000_000;

/// The fee on deposits in a fresh pool, in basis points: none.
pub const DEFAULT_DEPOSIT_FEE_RATE: u16 = 0;

/// The fee on withdrawals in a fresh pool, in basis points: one percent.
pub const DEFAULT_WITHDRAWAL_FEE_RATE: u16 = 100;

/// By how much a fee may fall short in a fresh pool, in basis points of the
/// fee: five percent.
pub const DEFAULT_FEE_ERROR_MARGIN: u16 = 500;

/// The name under which the tree of a pool is kept: `merkle_tree`.
pub const MERKLE_TREE_SEED: [u8; 11] = [109, 101, 114, 107, 108, 101, 95, 116, 114, 101, 101];

/// The name under which the funds of a pool are kept: `tree_token`.
pub const TREE_TOKEN_SEED: [u8; 10] = [116, 114, 101, 101, 95, 116, 111, 107, 101, 110];

/// The name under which the fee policy of a pool is kept: `global_config`.
pub const GLOBAL_CONFIG_SEED: [u8; 13] = [
    103, 108, 111, 98, 97, 108, 95, 99, 111, 110, 102, 105, 103,
];

/// The name of the first slot of nullifiers: `nullifier0`.
pub const NULLIFIER0_SEED: [u8; 10] = [110, 117, 108, 108, 105, 102, 105, 101, 114, 48];

/// The name of the second slot of nullifiers: `nullifier1`.
pub const NULLIFIER1_SEED: [u8; 10] = [110, 117, 108, 108, 105, 102, 105, 101, 114, 49];

/// The name of the first slot of commitments: `commitment0`.
pub const COMMITMENT0_SEED: [u8; 11] = [99, 111, 109, 109, 105, 116, 109, 101, 110, 116, 48];

/// The name of the second slot of commitments: `commitment1`.
pub const COMMITMENT1_SEED: [u8; 11] = [99, 111, 109, 109, 105, 116, 109, 101, 110, 116, 49];

/// One basis point is a ten-thousandth.
pub const BASIS_POINTS: u16 = 10_000;

/// The commitment tree of a pool. Only the first `height` rows of `subtrees`
/// and the first `root_history_size` rows of `root_history` are in use.
/// `next_index` counts the leaves, and `root_index` names the slot of
/// `root_history` that holds the latest root; the next root goes to the slot
/// after it, and after the last slot to the first.
#[derive(Clone, Copy, Debug)]
pub struct MerkleTreeAccount {
    pub authority: [u8; 32],
    pub next_index: u64,
    pub subtrees: [[u8; 32]; 26],
    pub root: [u8; 32],
    pub root_history: [[u8; 32]; 100],
    pub root_index: u64,
    pub max_deposit_amount: u64,
    pub height: u8,
    pub root_history_size: u8,
    pub bump: u8,
}

/// The commitment tree as numbers and byte strings.
pub struct TreeModel {
    pub height: nat,
    pub history_size: nat,
    pub next_index: nat,
    pub subtrees: Seq<Seq<u8>>,
    pub root: Seq<u8>,
    pub root_history: Seq<Seq<u8>>,
    pub root_index: nat,
}

impl View for MerkleTreeAccount {
    type V = TreeModel;

    open spec fn view(&self) -> TreeModel {
        TreeModel {
            height: self.height as nat,
            history_size: self.root_history_size as nat,
            next_index: self.next_index as nat,
            subtrees: rows(self.subtrees@),
            root: self.root@,
            root_history: rows(self.root_history@),
            root_index: self.root_index as nat,
        }
    }
}

impl MerkleTreeAccount {
    /// The fields that no operation on the tree touches are the same in both.
    pub open spec fn same_owner(&self, other: &MerkleTreeAccount) -> bool {
        &&& self.authority == other.authority
        &&& self.max_deposit_amount == other.max_deposit_amount
        &&& self.bump == other.bump
    }
}

/// The account that holds the pool's funds.
#[derive(Clone, Copy, Debug)]
pub struct TreeTokenAccount {
    pub authority: [u8; 32],
    pub bump: u8,
}

/// Fee policy of the pool, in basis points.
#[derive(Clone, Copy, Debug)]
pub struct GlobalConfig {
    pub authority: [u8; 32],
    pub deposit_fee_rate: u16,
    pub withdrawal_fee_rate: u16,
    pub fee_error_margin: u16,
    pub bump: u8,
}

/// A proof with its seven public inputs. The 32-byte fields are big-endian
/// field elements; `proof_a` is the point as the prover emits it.
#[derive(Clone, Copy, Debug)]
pub struct Proof {
    pub proof_a: [u8; 64],
    pub proof_b: [u8; 128],
    pub proof_c: [u8; 64],
    pub root: [u8; 32],
    pub public_amount: [u8; 32],
    pub ext_data_hash: [u8; 32],
    pub input_nullifiers: [[u8; 32]; 2],
    pub output_commitments: [[u8; 32]; 2],
}

/// The part of the external data that travels with the transaction.
#[derive(Clone, Copy, Debug, PartialEq, Eq, Structural)]
pub struct ExtDataMinified {
    pub ext_amount: i64,
    pub fee: u64,
}

} // verus!
