//! The core of a shielded pool: a Groth16 verifier over BN254, an append-only
//! Poseidon Merkle tree with a rolling root history, and the rules by which a
//! transaction is accepted.
//!
//! - `codec`: byte strings read as integers, and the order of the scalar field.
//! - `field`: elements of the scalar field, computed with `ark_ff`.
//! - `groth16`: the verifier, over the group operations of `solana_bn254`.
//! - `merkle_tree`: the commitment tree, hashed with Poseidon of `light_hasher`.
//! - `history` and `tree_root`: what holds of the tree over a run of appends.
//! - `utils`: the checks of a transaction, one function for each.
//! - `encoding`: the encoding of the external data loses nothing.
//! - `program`: setting up the pool, changing its policy, accepting a
//!   transaction.
//! - `state` and `errors`: what the pool keeps, and why it refuses.
//!
//! The pool is bound to no verifying key and to no mint: both are handed to
//! `transact` by the program that embeds the pool.
pub mod codec;
pub mod encoding;
pub mod errors;
pub mod field;
pub mod groth16;
pub mod history;
pub mod merkle_tree;
pub mod program;
pub mod state;
pub mod tree_root;
pub mod utils;

pub use program::{initialize, transact, update_deposit_limit, update_global_config};
pub use state::{ExtDataMinified, GlobalConfig, MerkleTreeAccount, Proof, TreeTokenAccount};
