//! Block payloads: signed transactions with the leader's base fees, as they are
//! propagated in shreds.

use vstd::prelude::*;

use crate::bytes::{append, append_text, text_bytes};
use crate::consensus::proposals::{fee_commitment, fee_commitment_of};
use crate::network::kestrel_cast::{
    all_data_there, chosen_from, config_check, data_payloads, decoded, empty_shreds, reconstruction,
    refuses_empty, sample_of, shred_models, shreds_of, KestrelCast, KestrelCastConfig,
    KestrelCastError, Shred, ShredModel,
};
use crate::node::lifecycle::LifecycleError;
use crate::types::{hash_of, Address, Hash256, Transaction, TransactionModel};

verus! {

/// Signed transaction payload propagated as one erasure-coded block.
///
/// `base_fees` is the leader's chosen local base fee per compute unit for each
/// transaction, in the same order as `transactions`.
#[derive(Debug, PartialEq, Eq)]
pub struct PropagatedBlock {
    pub height: u64,
    pub parent_id: Hash256,
    pub transactions: Vec<Transaction>,
    pub base_fees: Vec<u128>,
}

/// The value of a payload.
pub struct BlockModel {
    pub height: u64,
    pub parent_id: Hash256,
    pub transactions: Seq<TransactionModel>,
    pub base_fees: Seq<u128>,
}

/// The values of transactions.
pub open spec fn transaction_models(transactions: Seq<Transaction>) -> Seq<TransactionModel> {
    transactions.map_values(|transaction: Transaction| transaction@)
}

impl View for PropagatedBlock {
    type V = BlockModel;

    open spec fn view(&self) -> BlockModel {
        BlockModel {
            height: self.height,
            parent_id: self.parent_id,
            transactions: transaction_models(self.transactions@),
            base_fees: self.base_fees@,
        }
    }
}

impl Clone for PropagatedBlock {
    fn clone(&self) -> (copy: Self)
        ensures
            copy@ == self@,
    {
        let mut transactions: Vec<Transaction> = Vec::new();
        let mut index: usize = 0;
        while index < self.transactions.len()
            invariant
                index <= self.transactions@.len(),
                transaction_models(transactions@) == transaction_models(self.transactions@).take(
                    index as int,
                ),
            decreases self.transactions@.len() - index,
        {
            let ghost copied = transactions@;
            let copy = self.transactions[index].clone();
            transactions.push(copy);
            index += 1;
            proof {
                assert(transaction_models(transactions@) =~= transaction_models(copied).push(copy@));
                assert(transaction_models(transactions@) =~= transaction_models(
                    self.transactions@,
                ).take(index as int));
            }
        }
        assert(transaction_models(transactions@) =~= transaction_models(self.transactions@));
        let mut base_fees: Vec<u128> = Vec::new();
        let mut position: usize = 0;
        while position < self.base_fees.len()
            invariant
                position <= self.base_fees@.len(),
                base_fees@ == self.base_fees@.take(position as int),
            decreases self.base_fees@.len() - position,
        {
            base_fees.push(self.base_fees[position]);
            position += 1;
            assert(base_fees@ =~= self.base_fees@.take(position as int));
        }
        assert(base_fees@ =~= self.base_fees@);
        PropagatedBlock { height: self.height, parent_id: self.parent_id, transactions, base_fees }
    }
}

/// The most elements that a sequence may have to be encoded.
pub const MAXIMUM_ENCODED_LENGTH: usize = 2_147_483_647;

/// Whether a transaction can be encoded.
pub open spec fn encodable(transaction: TransactionModel) -> bool {
    &&& transaction.payload.len() <= MAXIMUM_ENCODED_LENGTH
    &&& transaction.public_key.len() <= MAXIMUM_ENCODED_LENGTH
    &&& transaction.signature.len() <= MAXIMUM_ENCODED_LENGTH
}

/// Whether a payload can be encoded.
pub open spec fn encodable_block(block: BlockModel) -> bool {
    &&& block.transactions.len() <= MAXIMUM_ENCODED_LENGTH
    &&& block.base_fees.len() <= MAXIMUM_ENCODED_LENGTH
    &&& forall|i: int| 0 <= i < block.transactions.len() ==> encodable(#[trigger] block.transactions[i])
}

/// The canonical encoding of a transaction.
pub uninterp spec fn transaction_encoding(transaction: TransactionModel) -> Seq<u8>;

/// The transaction that bytes encode, `None` where they encode none.
pub uninterp spec fn transaction_decoding(bytes: Seq<u8>) -> Option<TransactionModel>;

/// Calls `bcs::to_bytes` on the fields of a transaction in order, which is how a
/// record of those fields is encoded. Claimed: it fails on sequences above its
/// length limit alone; otherwise the bytes are a function of the fields, and
/// decoding them gives the transaction back, since the format is one-to-one.
#[verifier::external_body]
pub(crate) fn encode_transaction(transaction: &Transaction) -> (result: Result<Vec<u8>, String>)
    ensures
        result is Ok <==> encodable(transaction@),
        result matches Ok(bytes) ==> bytes@ == transaction_encoding(transaction@)
            && transaction_decoding(bytes@) == Some(transaction@),
{
    bcs::to_bytes(&(
        transaction.sender.bytes,
        transaction.nonce,
        &transaction.payload,
        transaction.scheme_id,
        &transaction.public_key,
        &transaction.signature,
    )).map_err(|error| error.to_string())
}

/// The fields of an encoded transaction.
type TransactionFields = ([u8; 32], u64, Vec<u8>, u16, Vec<u8>, Vec<u8>);

/// Calls `bcs::from_bytes` for the fields of a transaction. Claimed: which
/// transaction comes out, if any, depends on the bytes alone.
#[verifier::external_body]
pub(crate) fn decode_transaction(bytes: &[u8]) -> (result: Result<Transaction, String>)
    ensures
        match result {
            Ok(transaction) => transaction_decoding(bytes@) == Some(transaction@),
            Err(_) => transaction_decoding(bytes@) is None,
        },
{
    let one: TransactionFields = bcs::from_bytes(bytes).map_err(|error| error.to_string())?;
    Ok(Transaction {
        sender: Address { bytes: one.0 },
        nonce: one.1,
        payload: one.2,
        scheme_id: one.3,
        public_key: one.4,
        signature: one.5,
    })
}

/// The canonical encoding of a payload.
pub uninterp spec fn block_encoding(block: BlockModel) -> Seq<u8>;

/// The payload that bytes encode, `None` where they encode none.
pub uninterp spec fn block_decoding(bytes: Seq<u8>) -> Option<BlockModel>;

/// Calls `bcs::to_bytes` on the fields of a payload in order. Claimed: it fails
/// on sequences above its length limit alone; otherwise the bytes are a function
/// of the fields, and decoding them gives the payload back, since the format is
/// one-to-one.
#[verifier::external_body]
fn encode_block(block: &PropagatedBlock) -> (result: Result<Vec<u8>, String>)
    ensures
        result is Ok <==> encodable_block(block@),
        result matches Ok(bytes) ==> bytes@ == block_encoding(block@) && block_decoding(bytes@)
            == Some(block@),
{
    let transactions: Vec<_> = block.transactions.iter().map(
        |one| (one.sender.bytes, one.nonce, &one.payload, one.scheme_id, &one.public_key, &one.signature),
    ).collect();
    bcs::to_bytes(&(block.height, block.parent_id.bytes, transactions, &block.base_fees)).map_err(
        |error| error.to_string(),
    )
}

/// Calls `bcs::from_bytes` for the fields of a payload. Claimed: which payload
/// comes out, if any, depends on the bytes alone.
#[verifier::external_body]
fn decode_block(bytes: &[u8]) -> (result: Result<PropagatedBlock, String>)
    ensures
        match result {
            Ok(block) => block_decoding(bytes@) == Some(block@),
            Err(_) => block_decoding(bytes@) is None,
        },
{
    let fields: (u64, [u8; 32], Vec<TransactionFields>, Vec<u128>) = bcs::from_bytes(bytes).map_err(
        |error| error.to_string(),
    )?;
    let transactions = fields.2.into_iter().map(|one| Transaction {
        sender: Address { bytes: one.0 },
        nonce: one.1,
        payload: one.2,
        scheme_id: one.3,
        public_key: one.4,
        signature: one.5,
    }).collect();
    Ok(PropagatedBlock { height: fields.0, parent_id: Hash256 { bytes: fields.1 }, transactions, base_fees: fields.3 })
}

/// What the identifier of a transaction is the digest of.
pub open spec fn transaction_id_bytes(encoded: Seq<u8>) -> Seq<u8> {
    text_bytes("kestrel/transaction/id/v1") + encoded
}

/// The identifier of a transaction.
pub open spec fn transaction_id(transaction: TransactionModel) -> Hash256 {
    hash_of(transaction_id_bytes(transaction_encoding(transaction)))
}

/// The identifier of a transaction with the given encoding.
pub fn transaction_id_of(encoded: &[u8]) -> (id: Hash256)
    ensures
        id == hash_of(transaction_id_bytes(encoded@)),
{
    let mut bytes: Vec<u8> = Vec::new();
    append_text(&mut bytes, "kestrel/transaction/id/v1");
    append(&mut bytes, encoded);
    assert(bytes@ =~= transaction_id_bytes(encoded@));
    Hash256::digest(&bytes)
}

/// Returns the canonical ID of a complete signed transaction envelope.
///
/// # Errors
///
/// Returns an error if canonical envelope encoding fails.
pub fn signed_transaction_id(transaction: &Transaction) -> (result: Result<Hash256, LifecycleError>)
    ensures
        match result {
            Ok(id) => encodable(transaction@) && id == transaction_id(transaction@),
            Err(error) => !encodable(transaction@) && error is Encoding,
        },
{
    match encode_transaction(transaction) {
        Ok(bytes) => Ok(transaction_id_of(&bytes)),
        Err(reason) => Err(LifecycleError::Encoding(reason)),
    }
}

/// The identifiers of transactions in order.
pub open spec fn ids_of(transactions: Seq<TransactionModel>) -> Seq<Hash256> {
    transactions.map_values(|transaction: TransactionModel| transaction_id(transaction))
}

/// Whether all transactions of a list can be encoded.
pub open spec fn all_encodable(transactions: Seq<TransactionModel>) -> bool {
    forall|i: int| 0 <= i < transactions.len() ==> encodable(#[trigger] transactions[i])
}

/// What reconstructing a payload from shreds gives: for enough genuine shreds
/// of one encoding, what that encoding decodes to; otherwise what the shreds
/// reconstruct to, decoded. Shreds that carry nothing are refused.
pub open spec fn rebuilt_as(
    shreds: Seq<ShredModel>,
    result: Result<PropagatedBlock, LifecycleError>,
) -> bool {
    &&& forall|bytes: Seq<u8>, data: nat, parity: nat| #[trigger]
        sample_of(shreds, bytes, data, parity) ==> match result {
            Ok(block) => block_decoding(bytes) == Some(block@),
            Err(error) => error is Encoding && block_decoding(bytes) is None,
        }
    &&& all_data_there(shreds) ==> reconstruction(shreds) == decoded(
        shreds[0],
        data_payloads(shreds),
    )
    &&& if empty_shreds(shreds) {
        result matches Err(LifecycleError::KestrelCast(error)) && refuses_empty(error)
    } else {
        match result {
            Ok(block) => reconstruction(shreds) matches Ok(bytes) && block_decoding(bytes) == Some(
                block@,
            ),
            Err(LifecycleError::KestrelCast(error)) => reconstruction(shreds) == Err::<
                Seq<u8>,
                KestrelCastError,
            >(error),
            Err(error) => error is Encoding && (reconstruction(shreds) matches Ok(bytes)
                && block_decoding(bytes) is None),
        }
    }
}

/// Whether any `count` of the shreds give a payload back.
pub open spec fn survives(block: BlockModel, shreds: Seq<ShredModel>, count: nat) -> bool {
    forall|chosen: Seq<ShredModel>, result: Result<PropagatedBlock, LifecycleError>| #[trigger]
        chosen_from(chosen, shreds, count) && #[trigger] rebuilt_as(chosen, result) ==> (
        result matches Ok(rebuilt) && rebuilt@ == block)
}

impl PropagatedBlock {
    /// Returns canonical signed-envelope identifiers in payload order.
    ///
    /// # Errors
    ///
    /// Returns an error if canonical envelope encoding fails.
    pub fn transaction_ids(&self) -> (result: Result<Vec<Hash256>, LifecycleError>)
        ensures
            match result {
                Ok(ids) => all_encodable(self@.transactions) && ids@ == ids_of(self@.transactions),
                Err(error) => !all_encodable(self@.transactions) && error is Encoding,
            },
    {
        let ghost all = self@.transactions;
        let mut ids: Vec<Hash256> = Vec::new();
        let mut index: usize = 0;
        assert(ids@ =~= ids_of(all).take(0));
        while index < self.transactions.len()
            invariant
                index <= self.transactions@.len(),
                all == self@.transactions,
                ids@ == ids_of(all).take(index as int),
                forall|i: int| 0 <= i < index ==> encodable(#[trigger] all[i]),
            decreases self.transactions@.len() - index,
        {
            assert(all[index as int] == self.transactions@[index as int]@);
            match signed_transaction_id(&self.transactions[index]) {
                Ok(id) => {
                    ids.push(id);
                    assert(ids@ =~= ids_of(all).take(index + 1));
                },
                Err(error) => {
                    assert(!encodable(all[index as int]));
                    return Err(error);
                },
            }
            index += 1;
        }
        assert(ids@ =~= ids_of(all));
        Ok(ids)
    }

    /// Commits to the leader's chosen base fees, in the same way the transaction
    /// identifiers commit to ordering. Folded into the block identifier so any
    /// validator reconstructing this payload from shreds can detect a leader that
    /// certified one fee choice but propagated a different one.
    pub fn fee_commitment(&self) -> (commitment: Hash256)
        ensures
            commitment == fee_commitment_of(self@.base_fees),
    {
        fee_commitment(&self.base_fees)
    }

    /// Encodes this payload into independently integrity-checked shreds. Any
    /// of them, as many as there are data shreds, give the payload back.
    ///
    /// # Errors
    ///
    /// Returns canonical encoding or erasure-coding failures.
    pub fn shreds(&self, config: KestrelCastConfig) -> (result: Result<Vec<Shred>, LifecycleError>)
        ensures
            match result {
                Ok(shreds) => {
                    &&& encodable_block(self@)
                    &&& config_check(config.data_shards as nat, config.parity_shards as nat) is Ok
                    &&& shred_models(shreds@) == shreds_of(
                        block_encoding(self@),
                        config.data_shards as nat,
                        config.parity_shards as nat,
                    )
                    &&& block_decoding(block_encoding(self@)) == Some(self@)
                    &&& survives(self@, shred_models(shreds@), config.data_shards as nat)
                },
                Err(LifecycleError::KestrelCast(error)) => encodable_block(self@) && config_check(
                    config.data_shards as nat,
                    config.parity_shards as nat,
                ) == Err::<(), KestrelCastError>(error),
                Err(error) => error is Encoding && !encodable_block(self@),
            },
    {
        let bytes = match encode_block(self) {
            Ok(bytes) => bytes,
            Err(reason) => {
                return Err(LifecycleError::Encoding(reason));
            },
        };
        let codec = match KestrelCast::new(config) {
            Ok(codec) => codec,
            Err(error) => {
                return Err(LifecycleError::KestrelCast(error));
            },
        };
        match codec.encode(&bytes) {
            Ok(shreds) => Ok(shreds),
            Err(error) => {
                assert(false);
                Err(LifecycleError::KestrelCast(error))
            },
        }
    }

    /// Reconstructs and decodes a payload from any sufficient valid shred subset.
    ///
    /// # Errors
    ///
    /// Rejects insufficient/corrupt shreds or malformed canonical payload bytes.
    pub fn from_shreds(shreds: &[Shred]) -> (result: Result<Self, LifecycleError>)
        ensures
            rebuilt_as(shred_models(shreds@), result),
    {
        match KestrelCast::reconstruct(shreds) {
            Err(error) => Err(LifecycleError::KestrelCast(error)),
            Ok(bytes) => match decode_block(&bytes) {
                Ok(block) => Ok(block),
                Err(reason) => Err(LifecycleError::Encoding(reason)),
            },
        }
    }

    /// Returns the payload commitment.
    ///
    /// # Errors
    ///
    /// Returns an error if canonical encoding fails.
    pub fn payload_id(&self) -> (result: Result<Hash256, LifecycleError>)
        ensures
            match result {
                Ok(id) => encodable_block(self@) && id == hash_of(block_encoding(self@)),
                Err(error) => !encodable_block(self@) && error is Encoding,
            },
    {
        match encode_block(self) {
            Ok(bytes) => Ok(Hash256::digest(&bytes)),
            Err(reason) => Err(LifecycleError::Encoding(reason)),
        }
    }
}

} // verus!
