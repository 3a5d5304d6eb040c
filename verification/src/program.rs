//! The operations of the pool: setting it up, changing its policy, and
//! accepting a transaction.
use vstd::prelude::*;
use crate::codec::{be_value, extend_with, field_modulus, in_field, le_value, same_bytes};
use crate::errors::ErrorCode;
use crate::field::{fr_from_be, fr_from_le};
use crate::groth16::{Groth16Verifyingkey, KeyModel};
use crate::merkle_tree::{capacity, capacity_of, MerkleTree};
use crate::state::{
    ExtDataMinified, GlobalConfig, MerkleTreeAccount, Proof, TreeModel, TreeTokenAccount,
    BASIS_POINTS, COMMITMENT0_SEED, COMMITMENT1_SEED, DEFAULT_DEPOSIT_FEE_RATE,
    DEFAULT_FEE_ERROR_MARGIN, DEFAULT_MAX_DEPOSIT_AMOUNT, DEFAULT_WITHDRAWAL_FEE_RATE,
    MERKLE_TREE_HEIGHT, NULLIFIER0_SEED, NULLIFIER1_SEED, ROOT_HISTORY_SIZE,
};
use crate::utils::{
    calculate_complete_ext_data_hash, check_public_amount, fee_verdict, proof_accepted,
    public_amount_matches, public_inputs_of, sha256, validate_fee, verify_proof, ExtData,
};

verus! {

/// The key that alone may set up a pool where the deployment says so.
pub const ADMIN_PUBKEY: [u8; 32] = [
    141, 81, 242, 178, 60, 74, 227, 220, 34, 179, 65, 164, 202, 87, 196, 6,
    95, 197, 226, 113, 100, 8, 121, 155, 31, 86, 10, 150, 112, 223, 249, 108,
];

/// Whether `authority` may set up the pool: anyone where no administrator is
/// named, the administrator alone where one is.
pub open spec fn may_initialize(authority: Seq<u8>, admin: Option<[u8; 32]>) -> bool {
    match admin {
        Some(key) => key@ == authority,
        None => true,
    }
}

/// Sets up a pool for `authority`: an empty tree of the fixed height and
/// history size with the default deposit limit, the account of the funds, and
/// the default fee policy. Where `admin` names a key, only that key may do
/// this; anyone else gets `Unauthorized` and nothing changes.
pub fn initialize(
    authority: [u8; 32],
    admin: Option<[u8; 32]>,
    tree_account: &mut MerkleTreeAccount,
    tree_token_account: &mut TreeTokenAccount,
    global_config: &mut GlobalConfig,
    tree_bump: u8,
    token_bump: u8,
    config_bump: u8,
) -> (result: Result<(), ErrorCode>)
    ensures
        match result {
            Ok(_) => {
                &&& may_initialize(authority@, admin)
                &&& final(tree_account).authority == authority
                &&& final(tree_account).bump == tree_bump
                &&& final(tree_account).max_deposit_amount == DEFAULT_MAX_DEPOSIT_AMOUNT
                &&& final(tree_account)@ == (TreeModel {
                    height: MERKLE_TREE_HEIGHT as nat,
                    history_size: ROOT_HISTORY_SIZE as nat,
                    ..old(tree_account)@
                }).initialized()
                &&& final(tree_account)@.wf()
                &&& final(tree_account)@.root_recorded()
                &&& *final(tree_token_account) == (TreeTokenAccount { authority, bump: token_bump })
                &&& *final(global_config) == (GlobalConfig {
                    authority,
                    deposit_fee_rate: DEFAULT_DEPOSIT_FEE_RATE,
                    withdrawal_fee_rate: DEFAULT_WITHDRAWAL_FEE_RATE,
                    fee_error_margin: DEFAULT_FEE_ERROR_MARGIN,
                    bump: config_bump,
                })
            },
            Err(error) => {
                &&& !may_initialize(authority@, admin)
                &&& error == ErrorCode::Unauthorized
                &&& *final(tree_account) == *old(tree_account)
                &&& *final(tree_token_account) == *old(tree_token_account)
                &&& *final(global_config) == *old(global_config)
            },
        },
{
    if let Some(admin_key) = admin {
        if !same_bytes(authority.as_slice(), admin_key.as_slice()) {
            return Err(ErrorCode::Unauthorized);
        }
    }
    tree_account.authority = authority;
    tree_account.next_index = 0;
    tree_account.root_index = 0;
    tree_account.bump = tree_bump;
    tree_account.max_deposit_amount = DEFAULT_MAX_DEPOSIT_AMOUNT;
    tree_account.height = MERKLE_TREE_HEIGHT;
    tree_account.root_history_size = ROOT_HISTORY_SIZE;
    let ghost sized = tree_account@;
    let _ = MerkleTree::initialize(tree_account);
    proof {
        let expected = (TreeModel {
            height: MERKLE_TREE_HEIGHT as nat,
            history_size: ROOT_HISTORY_SIZE as nat,
            ..old(tree_account)@
        }).initialized();
        assert(sized.initialized().subtrees =~= expected.subtrees);
        assert(sized.initialized().root_history =~= expected.root_history);
    }

    tree_token_account.authority = authority;
    tree_token_account.bump = token_bump;

    global_config.authority = authority;
    global_config.deposit_fee_rate = DEFAULT_DEPOSIT_FEE_RATE;
    global_config.withdrawal_fee_rate = DEFAULT_WITHDRAWAL_FEE_RATE;
    global_config.fee_error_margin = DEFAULT_FEE_ERROR_MARGIN;
    global_config.bump = config_bump;
    Ok(())
}

/// Sets the largest deposit that the pool accepts. Only the authority of the
/// tree may do this; anyone else gets `Unauthorized` and nothing changes.
pub fn update_deposit_limit(
    tree_account: &mut MerkleTreeAccount,
    caller: [u8; 32],
    new_limit: u64,
) -> (result: Result<(), ErrorCode>)
    ensures
        match result {
            Ok(_) => {
                &&& caller@ == old(tree_account).authority@
                &&& *final(tree_account) == (MerkleTreeAccount {
                    max_deposit_amount: new_limit,
                    ..*old(tree_account)
                })
            },
            Err(error) => {
                &&& caller@ != old(tree_account).authority@
                &&& error == ErrorCode::Unauthorized
                &&& *final(tree_account) == *old(tree_account)
            },
        },
{
    if !same_bytes(caller.as_slice(), tree_account.authority.as_slice()) {
        return Err(ErrorCode::Unauthorized);
    }
    tree_account.max_deposit_amount = new_limit;
    Ok(())
}

/// A rate that was given must not be above ten thousand basis points.
pub open spec fn rate_in_range(rate: Option<u16>) -> bool {
    match rate {
        Some(basis_points) => basis_points <= BASIS_POINTS,
        None => true,
    }
}

/// The rate after an update: the new one where one was given.
pub open spec fn updated_rate(current: u16, rate: Option<u16>) -> u16 {
    match rate {
        Some(basis_points) => basis_points,
        None => current,
    }
}

/// Changes the fee policy: each rate that is given replaces the one in
/// force. Only the authority of the policy may do this (`Unauthorized`), and
/// no rate may be above ten thousand basis points (`InvalidFeeRate`). On an
/// error nothing changes.
pub fn update_global_config(
    global_config: &mut GlobalConfig,
    caller: [u8; 32],
    deposit_fee_rate: Option<u16>,
    withdrawal_fee_rate: Option<u16>,
    fee_error_margin: Option<u16>,
) -> (result: Result<(), ErrorCode>)
    ensures
        match result {
            Ok(_) => {
                &&& caller@ == old(global_config).authority@
                &&& rate_in_range(deposit_fee_rate)
                &&& rate_in_range(withdrawal_fee_rate)
                &&& rate_in_range(fee_error_margin)
                &&& *final(global_config) == (GlobalConfig {
                    deposit_fee_rate: updated_rate(
                        old(global_config).deposit_fee_rate,
                        deposit_fee_rate,
                    ),
                    withdrawal_fee_rate: updated_rate(
                        old(global_config).withdrawal_fee_rate,
                        withdrawal_fee_rate,
                    ),
                    fee_error_margin: updated_rate(
                        old(global_config).fee_error_margin,
                        fee_error_margin,
                    ),
                    ..*old(global_config)
                })
            },
            Err(error) => {
                &&& *final(global_config) == *old(global_config)
                &&& error == if caller@ != old(global_config).authority@ {
                    ErrorCode::Unauthorized
                } else {
                    ErrorCode::InvalidFeeRate
                }
                &&& caller@ == old(global_config).authority@ ==> !(rate_in_range(deposit_fee_rate)
                    && rate_in_range(withdrawal_fee_rate) && rate_in_range(fee_error_margin))
            },
        },
{
    if !same_bytes(caller.as_slice(), global_config.authority.as_slice()) {
        return Err(ErrorCode::Unauthorized);
    }
    if let Some(rate) = deposit_fee_rate {
        if rate > BASIS_POINTS {
            return Err(ErrorCode::InvalidFeeRate);
        }
    }
    if let Some(rate) = withdrawal_fee_rate {
        if rate > BASIS_POINTS {
            return Err(ErrorCode::InvalidFeeRate);
        }
    }
    if let Some(rate) = fee_error_margin {
        if rate > BASIS_POINTS {
            return Err(ErrorCode::InvalidFeeRate);
        }
    }
    if let Some(rate) = deposit_fee_rate {
        global_config.deposit_fee_rate = rate;
    }
    if let Some(rate) = withdrawal_fee_rate {
        global_config.withdrawal_fee_rate = rate;
    }
    if let Some(rate) = fee_error_margin {
        global_config.fee_error_margin = rate;
    }
    Ok(())
}

/// What the ledger holds for the pool when a transaction arrives: the funds
/// of the pool, and the part of them that has to stay for the account to
/// live on.
#[derive(Clone, Copy, Debug, PartialEq, Eq, Structural)]
pub struct PoolFunds {
    pub balance: u64,
    pub rent_reserve: u64,
}

/// The name under which the marker of a spent nullifier is kept: the name of
/// a slot, `NULLIFIER0_SEED` or `NULLIFIER1_SEED`, and the nullifier.
#[derive(Clone, Copy, Debug, PartialEq, Eq)]
pub struct MarkerKey {
    pub seed: [u8; 10],
    pub nullifier: [u8; 32],
}

/// An output commitment as it is kept: the name of its slot,
/// `COMMITMENT0_SEED` or `COMMITMENT1_SEED`, the commitment, the encrypted
/// note that came with it, and the index of its leaf.
#[derive(Clone, Debug, PartialEq, Eq)]
pub struct CommitmentRecord {
    pub seed: [u8; 11],
    pub commitment: [u8; 32],
    pub encrypted_output: Vec<u8>,
    pub index: u64,
}

/// What an accepted transaction asks of the ledger. The two `markers` are to
/// be created, and the transaction fails where the ledger holds one of the
/// four markers of `marker_keys` already. `deposit` moves from the signer to
/// the pool, `withdrawal` from the pool to the recipient and `fee` from the
/// pool to the fee recipient; `pool_balance` is what the pool holds after
/// that. The two `commitments` are to be kept.
#[derive(Clone, Debug, PartialEq, Eq)]
pub struct Settlement {
    pub markers: [MarkerKey; 2],
    pub deposit: u64,
    pub withdrawal: u64,
    pub fee: u64,
    pub pool_balance: u64,
    pub commitments: [CommitmentRecord; 2],
}

/// The four markers that tell whether the nullifiers of a proof have been
/// spent: the two that the transaction creates, each nullifier under the name
/// of its own slot, and the two under which the same nullifiers would stand
/// had they come in the other slot.
pub fn marker_keys(proof: &Proof) -> (keys: [MarkerKey; 4])
    ensures
        keys[0] == (MarkerKey { seed: NULLIFIER0_SEED, nullifier: proof.input_nullifiers[0] }),
        keys[1] == (MarkerKey { seed: NULLIFIER1_SEED, nullifier: proof.input_nullifiers[1] }),
        keys[2] == (MarkerKey { seed: NULLIFIER0_SEED, nullifier: proof.input_nullifiers[1] }),
        keys[3] == (MarkerKey { seed: NULLIFIER1_SEED, nullifier: proof.input_nullifiers[0] }),
{
    [
        MarkerKey { seed: NULLIFIER0_SEED, nullifier: proof.input_nullifiers[0] },
        MarkerKey { seed: NULLIFIER1_SEED, nullifier: proof.input_nullifiers[1] },
        MarkerKey { seed: NULLIFIER0_SEED, nullifier: proof.input_nullifiers[1] },
        MarkerKey { seed: NULLIFIER1_SEED, nullifier: proof.input_nullifiers[0] },
    ]
}

/// Whether the nullifiers of a transaction are unspent, given for each of
/// the four markers of `marker_keys` whether the ledger holds it: none of
/// them may be there.
pub fn nullifiers_unspent(held: &[bool; 4]) -> (unspent: bool)
    ensures
        unspent == forall|i: int| 0 <= i < 4 ==> !held[i],
{
    !held[0] && !held[1] && !held[2] && !held[3]
}

/// A transaction as it arrives: the proof, and the external data with what
/// the call site adds to them.
pub struct Request {
    pub proof: Proof,
    pub data: ExtData,
}

impl Request {
    /// The external data can be encoded, and its digest, read as a
    /// little-endian field element, is the big-endian field element that the
    /// proof carries.
    pub open spec fn ext_data_bound(self) -> bool {
        &&& self.data.encrypted_output1.len() <= u32::MAX
        &&& self.data.encrypted_output2.len() <= u32::MAX
        &&& le_value(sha256(self.data.encoding())) % field_modulus() == be_value(
            self.proof.ext_data_hash@,
        ) % field_modulus()
    }

    /// What leaves the pool towards the recipient.
    pub open spec fn withdrawal(self) -> int {
        if self.data.ext_amount < 0 {
            -self.data.ext_amount
        } else {
            0
        }
    }

    /// What enters the pool from the signer.
    pub open spec fn deposit(self) -> int {
        if self.data.ext_amount > 0 {
            self.data.ext_amount
        } else {
            0
        }
    }
}

/// The funds of the pool once the amount of the transaction has moved, or
/// the reason why it cannot move. A deposit must not be above the limit; a
/// withdrawal must leave the fee and the reserve behind.
pub open spec fn funds_after_amount(
    ext_amount: int,
    fee: int,
    funds: PoolFunds,
    max_deposit: int,
) -> Result<int, ErrorCode> {
    if ext_amount > 0 {
        if ext_amount > max_deposit {
            Err(ErrorCode::DepositLimitExceeded)
        } else if funds.balance + ext_amount > u64::MAX {
            Err(ErrorCode::ArithmeticOverflow)
        } else {
            Ok(funds.balance + ext_amount)
        }
    } else if ext_amount < 0 {
        let needed = -ext_amount + fee + funds.rent_reserve;
        if needed > u64::MAX {
            Err(ErrorCode::ArithmeticOverflow)
        } else if funds.balance < needed {
            Err(ErrorCode::InsufficientFundsForWithdrawal)
        } else {
            Ok(funds.balance + ext_amount)
        }
    } else {
        Ok(funds.balance as int)
    }
}

/// The funds of the pool once the amount and then the fee have moved, or the
/// reason why they cannot move. The fee is paid out of the pool, which must
/// keep its reserve.
pub open spec fn funds_after(ext_amount: int, fee: int, funds: PoolFunds, max_deposit: int) -> Result<
    int,
    ErrorCode,
> {
    match funds_after_amount(ext_amount, fee, funds, max_deposit) {
        Err(error) => Err(error),
        Ok(balance) => if fee > 0 {
            if fee + funds.rent_reserve > u64::MAX {
                Err(ErrorCode::ArithmeticOverflow)
            } else if balance < fee + funds.rent_reserve {
                Err(ErrorCode::InsufficientFundsForFee)
            } else {
                Ok(balance - fee)
            }
        } else {
            Ok(balance)
        },
    }
}

/// Why a transaction is refused, if it is: the first check that fails, in
/// the order in which the pool makes them.
pub open spec fn rejection(
    tree: TreeModel,
    max_deposit: int,
    config: GlobalConfig,
    funds: PoolFunds,
    key: KeyModel,
    request: Request,
) -> Option<ErrorCode> {
    if !tree.knows(request.proof.root@) {
        Some(ErrorCode::UnknownRoot)
    } else if !request.ext_data_bound() {
        Some(ErrorCode::ExtDataHashMismatch)
    } else if !public_amount_matches(
        request.data.ext_amount,
        request.data.fee as int,
        request.proof.public_amount@,
    ) {
        Some(ErrorCode::InvalidPublicAmountData)
    } else if fee_verdict(
        request.data.ext_amount,
        request.data.fee as int,
        config.deposit_fee_rate as int,
        config.withdrawal_fee_rate as int,
        config.fee_error_margin as int,
    ) is Err {
        Some(
            fee_verdict(
                request.data.ext_amount,
                request.data.fee as int,
                config.deposit_fee_rate as int,
                config.withdrawal_fee_rate as int,
                config.fee_error_margin as int,
            )->Err_0,
        )
    } else if !proof_accepted(request.proof, key) {
        Some(ErrorCode::InvalidProof)
    } else if funds_after(request.data.ext_amount, request.data.fee as int, funds, max_deposit) is Err {
        Some(
            funds_after(request.data.ext_amount, request.data.fee as int, funds, max_deposit)->Err_0,
        )
    } else if tree.next_index + 2 > capacity(tree.height) {
        Some(ErrorCode::MerkleTreeFull)
    } else {
        None
    }
}

/// Moves the amount and the fee of a transaction through the funds of the
/// pool and returns what the pool holds afterwards.
pub fn settle_funds(ext_amount: i64, fee: u64, funds: PoolFunds, max_deposit_amount: u64) -> (after: Result<
    u64,
    ErrorCode,
>)
    ensures
        match after {
            Ok(balance) => funds_after(
                ext_amount as int,
                fee as int,
                funds,
                max_deposit_amount as int,
            ) == Ok::<int, ErrorCode>(balance as int),
            Err(error) => funds_after(
                ext_amount as int,
                fee as int,
                funds,
                max_deposit_amount as int,
            ) == Err::<int, ErrorCode>(error),
        },
{
    let mut balance: u64 = funds.balance;
    if ext_amount > 0 {
        let deposit = ext_amount as u64;
        if deposit > max_deposit_amount {
            return Err(ErrorCode::DepositLimitExceeded);
        }
        balance = match balance.checked_add(deposit) {
            Some(sum) => sum,
            None => {
                return Err(ErrorCode::ArithmeticOverflow);
            },
        };
    } else if ext_amount < 0 {
        let withdrawal: u64 = if ext_amount == i64::MIN {
            0x8000_0000_0000_0000
        } else {
            (-ext_amount) as u64
        };
        let leaving = match withdrawal.checked_add(fee) {
            Some(sum) => sum,
            None => {
                return Err(ErrorCode::ArithmeticOverflow);
            },
        };
        let needed = match leaving.checked_add(funds.rent_reserve) {
            Some(sum) => sum,
            None => {
                return Err(ErrorCode::ArithmeticOverflow);
            },
        };
        if balance < needed {
            return Err(ErrorCode::InsufficientFundsForWithdrawal);
        }
        balance = balance - withdrawal;
    }
    if fee > 0 {
        let needed = match fee.checked_add(funds.rent_reserve) {
            Some(sum) => sum,
            None => {
                return Err(ErrorCode::ArithmeticOverflow);
            },
        };
        if balance < needed {
            return Err(ErrorCode::InsufficientFundsForFee);
        }
        balance = balance - fee;
    }
    Ok(balance)
}

/// A transaction as it arrives, seen as a `Request`.
pub open spec fn request_of(
    proof: Proof,
    ext_data: ExtDataMinified,
    recipient: [u8; 32],
    fee_recipient: [u8; 32],
    mint_address: [u8; 32],
    encrypted_output1: Seq<u8>,
    encrypted_output2: Seq<u8>,
) -> Request {
    Request {
        proof,
        data: ExtData {
            recipient: recipient@,
            ext_amount: ext_data.ext_amount as int,
            encrypted_output1,
            encrypted_output2,
            fee: ext_data.fee as nat,
            fee_recipient: fee_recipient@,
            mint_address: mint_address@,
        },
    }
}

/// A copy of `bytes`.
fn copy_of(bytes: &[u8]) -> (copy: Vec<u8>)
    ensures
        copy@ == bytes@,
{
    let mut copy: Vec<u8> = Vec::new();
    extend_with(&mut copy, bytes);
    assert(Seq::<u8>::empty() + bytes@ =~= bytes@);
    copy
}

/// Accepts or refuses one transaction.
///
/// The checks are made in this order, and the first that fails names the
/// error: the root of the proof is one that the tree remembers; the digest of
/// the external data is the one in the proof; the public amount fits the
/// amount and the fee; the fee meets the policy; the proof holds under
/// `verifying_key`; the amount and the fee can move; the tree has room for
/// both output commitments. A transaction that is refused leaves the tree as
/// it was. One that is accepted appends the two output commitments and
/// returns what the ledger has to do.
pub fn transact(
    tree_account: &mut MerkleTreeAccount,
    global_config: &GlobalConfig,
    funds: PoolFunds,
    verifying_key: &Groth16Verifyingkey,
    proof: &Proof,
    ext_data: ExtDataMinified,
    recipient: [u8; 32],
    fee_recipient: [u8; 32],
    mint_address: [u8; 32],
    encrypted_output1: &[u8],
    encrypted_output2: &[u8],
) -> (result: Result<Settlement, ErrorCode>)
    requires
        old(tree_account)@.wf(),
    ensures
        final(tree_account)@.wf(),
        final(tree_account).same_owner(old(tree_account)),
        match result {
            Ok(settlement) => {
                let request = request_of(
                    *proof,
                    ext_data,
                    recipient,
                    fee_recipient,
                    mint_address,
                    encrypted_output1@,
                    encrypted_output2@,
                );
                &&& rejection(
                    old(tree_account)@,
                    old(tree_account).max_deposit_amount as int,
                    *global_config,
                    funds,
                    verifying_key@,
                    request,
                ) is None
                &&& final(tree_account)@ == old(tree_account)@.appended(
                    proof.output_commitments[0]@,
                ).appended(proof.output_commitments[1]@)
                &&& final(tree_account).next_index == old(tree_account).next_index + 2
                &&& settlement.markers[0] == (MarkerKey {
                    seed: NULLIFIER0_SEED,
                    nullifier: proof.input_nullifiers[0],
                })
                &&& settlement.markers[1] == (MarkerKey {
                    seed: NULLIFIER1_SEED,
                    nullifier: proof.input_nullifiers[1],
                })
                &&& settlement.deposit == request.deposit()
                &&& settlement.withdrawal == request.withdrawal()
                &&& settlement.fee == ext_data.fee
                &&& Ok::<int, ErrorCode>(settlement.pool_balance as int) == funds_after(
                    ext_data.ext_amount as int,
                    ext_data.fee as int,
                    funds,
                    old(tree_account).max_deposit_amount as int,
                )
                &&& settlement.commitments[0].seed == COMMITMENT0_SEED
                &&& settlement.commitments[1].seed == COMMITMENT1_SEED
                &&& settlement.commitments[0].commitment == proof.output_commitments[0]
                &&& settlement.commitments[0].encrypted_output@ == encrypted_output1@
                &&& settlement.commitments[0].index == old(tree_account).next_index
                &&& settlement.commitments[1].commitment == proof.output_commitments[1]
                &&& settlement.commitments[1].encrypted_output@ == encrypted_output2@
                &&& settlement.commitments[1].index == old(tree_account).next_index + 1
            },
            Err(error) => {
                &&& rejection(
                    old(tree_account)@,
                    old(tree_account).max_deposit_amount as int,
                    *global_config,
                    funds,
                    verifying_key@,
                    request_of(
                        *proof,
                        ext_data,
                        recipient,
                        fee_recipient,
                        mint_address,
                        encrypted_output1@,
                        encrypted_output2@,
                    ),
                ) == Some(error)
                &&& *final(tree_account) == *old(tree_account)
            },
        },
{
    let ghost request = request_of(
        *proof,
        ext_data,
        recipient,
        fee_recipient,
        mint_address,
        encrypted_output1@,
        encrypted_output2@,
    );
    if !MerkleTree::is_known_root(tree_account, proof.root) {
        return Err(ErrorCode::UnknownRoot);
    }
    let digest = match calculate_complete_ext_data_hash(
        recipient,
        ext_data.ext_amount,
        encrypted_output1,
        encrypted_output2,
        ext_data.fee,
        fee_recipient,
        mint_address,
    ) {
        Ok(digest) => digest,
        Err(_) => {
            return Err(ErrorCode::ExtDataHashMismatch);
        },
    };
    if !fr_from_le(&digest).equals(&fr_from_be(&proof.ext_data_hash)) {
        return Err(ErrorCode::ExtDataHashMismatch);
    }
    assert(request.ext_data_bound());
    if !check_public_amount(ext_data.ext_amount, ext_data.fee, proof.public_amount) {
        return Err(ErrorCode::InvalidPublicAmountData);
    }
    match validate_fee(
        ext_data.ext_amount,
        ext_data.fee,
        global_config.deposit_fee_rate,
        global_config.withdrawal_fee_rate,
        global_config.fee_error_margin,
    ) {
        Ok(_) => {},
        Err(error) => {
            return Err(error);
        },
    }
    if !verify_proof(*proof, *verifying_key) {
        return Err(ErrorCode::InvalidProof);
    }
    let pool_balance = match settle_funds(
        ext_data.ext_amount,
        ext_data.fee,
        funds,
        tree_account.max_deposit_amount,
    ) {
        Ok(balance) => balance,
        Err(error) => {
            return Err(error);
        },
    };
    let leaves = capacity_of(tree_account.height);
    if tree_account.next_index >= leaves || leaves - tree_account.next_index < 2 {
        return Err(ErrorCode::MerkleTreeFull);
    }
    proof {
        let inputs = public_inputs_of(*proof);
        assert(in_field(inputs[5]));
        assert(in_field(inputs[6]));
    }
    let first_index = tree_account.next_index;
    match MerkleTree::append(proof.output_commitments[0], tree_account) {
        Ok(_) => {},
        Err(_) => unreached(),
    }
    match MerkleTree::append(proof.output_commitments[1], tree_account) {
        Ok(_) => {},
        Err(_) => unreached(),
    }
    let (deposit, withdrawal): (u64, u64) = if ext_data.ext_amount > 0 {
        (ext_data.ext_amount as u64, 0)
    } else if ext_data.ext_amount < 0 {
        (0, (-ext_data.ext_amount) as u64)
    } else {
        (0, 0)
    };
    Ok(
        Settlement {
            markers: [
                MarkerKey { seed: NULLIFIER0_SEED, nullifier: proof.input_nullifiers[0] },
                MarkerKey { seed: NULLIFIER1_SEED, nullifier: proof.input_nullifiers[1] },
            ],
            deposit,
            withdrawal,
            fee: ext_data.fee,
            pool_balance,
            commitments: [
                CommitmentRecord {
                    seed: COMMITMENT0_SEED,
                    commitment: proof.output_commitments[0],
                    encrypted_output: copy_of(encrypted_output1),
                    index: first_index,
                },
                CommitmentRecord {
                    seed: COMMITMENT1_SEED,
                    commitment: proof.output_commitments[1],
                    encrypted_output: copy_of(encrypted_output2),
                    index: first_index + 1,
                },
            ],
        },
    )
}

} // verus!
