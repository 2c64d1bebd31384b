//! `KestrelCast`: erasure-coded block fragments and stake-weighted relays.

use rand::distributions::{Distribution, WeightedIndex};
use rand::rngs::StdRng;
use rand::SeedableRng;
use reed_solomon_erasure::galois_8::ReedSolomon;
use vstd::prelude::*;

use crate::bytes::{append, copy_bytes};
use crate::crypto::byte_strings;
use crate::ordered::{ascending, sort_by_key, Keyed, OrderedMap, OrderedSet};
use crate::types::{hash_of, Hash256};

verus! {

/// The most shards that a code over bytes can have.
pub const MAX_SHARDS: usize = 256;

/// Erasure-coding parameters for one `KestrelCast` block.
#[derive(Clone, Copy, Debug, PartialEq, Eq, Structural)]
pub struct KestrelCastConfig {
    pub data_shards: usize,
    pub parity_shards: usize,
}

impl Default for KestrelCastConfig {
    fn default() -> (config: Self)
        ensures
            config.data_shards == 10,
            config.parity_shards == 10,
    {
        KestrelCastConfig { data_shards: 10, parity_shards: 10 }
    }
}

/// One independently gossipable erasure-coded block fragment.
#[derive(Debug, PartialEq, Eq)]
pub struct Shred {
    pub block_id: Hash256,
    pub index: u16,
    pub data_shards: u16,
    pub parity_shards: u16,
    pub original_len: u64,
    pub payload: Vec<u8>,
}

/// The value of a shred.
pub struct ShredModel {
    pub block_id: Hash256,
    pub index: u16,
    pub data_shards: u16,
    pub parity_shards: u16,
    pub original_len: u64,
    pub payload: Seq<u8>,
}

impl View for Shred {
    type V = ShredModel;

    open spec fn view(&self) -> ShredModel {
        ShredModel {
            block_id: self.block_id,
            index: self.index,
            data_shards: self.data_shards,
            parity_shards: self.parity_shards,
            original_len: self.original_len,
            payload: self.payload@,
        }
    }
}

impl Clone for Shred {
    fn clone(&self) -> (copy: Self)
        ensures
            copy@ == self@,
    {
        Shred {
            block_id: self.block_id,
            index: self.index,
            data_shards: self.data_shards,
            parity_shards: self.parity_shards,
            original_len: self.original_len,
            payload: copy_bytes(&self.payload),
        }
    }
}

/// The values of a list of shreds.
pub open spec fn shred_models(shreds: Seq<Shred>) -> Seq<ShredModel> {
    shreds.map_values(|shred: Shred| shred@)
}

/// Validator eligible to relay shreds, identified independently of transport.
#[derive(Clone, Copy, Debug, PartialEq, Eq)]
pub struct RelayCandidate {
    pub id: Hash256,
    pub stake: u64,
}

impl Keyed<Hash256> for RelayCandidate {
    open spec fn sort_key(&self) -> Hash256 {
        self.id
    }

    fn key(&self) -> (key: Hash256) {
        self.id
    }
}

/// Deterministic single-layer relay assignment for one block.
#[derive(Debug, PartialEq, Eq)]
pub struct RelayPlan {
    pub relays: Vec<Hash256>,
    pub assignments: OrderedMap<Hash256, Vec<Shred>>,
}

/// Encoding, reconstruction, and relay-selection failures.
#[derive(Debug, PartialEq, Eq)]
pub enum KestrelCastError {
    /// Data and parity shard counts must both be greater than zero.
    EmptyShardClass,
    /// The total shard count exceeds what a code over bytes can have.
    TooManyShards,
    /// The block length cannot be represented on this platform.
    BlockTooLarge,
    /// Shred metadata is inconsistent.
    InconsistentMetadata,
    DuplicateShred(u16),
    InvalidShredIndex { index: u16, total: usize },
    InsufficientShreds { available: usize, required: usize },
    /// A Reed-Solomon operation failed.
    ReedSolomon(String),
    /// The reconstructed block failed its integrity check.
    IntegrityMismatch,
    /// Relay count and replication factor must both be greater than zero.
    InvalidRelayPlan,
    /// Relay candidates must have unique IDs and nonzero stake.
    InvalidRelayCandidate,
}

/// The parity shards of data shards.
pub uninterp spec fn reed_solomon_parity(data: Seq<Seq<u8>>, parity: nat) -> Seq<Seq<u8>>;

/// All shards of a code word: the data, followed by its parity.
pub open spec fn code_word(data: Seq<Seq<u8>>, parity: nat) -> Seq<Seq<u8>> {
    data + reed_solomon_parity(data, parity)
}

/// Whether every shard has one length.
pub open spec fn same_length(shards: Seq<Seq<u8>>, length: nat) -> bool {
    forall|i: int| 0 <= i < shards.len() ==> (#[trigger] shards[i]).len() == length
}

/// Calls `ReedSolomon::new` and `ReedSolomon::encode` of
/// `reed_solomon_erasure`. Claimed: the data shards stay, the shards behind
/// them become the parity that the data determines, and every shard keeps its
/// length. The required counts and lengths are those that the two functions
/// accept without an error.
#[verifier::external_body]
fn encode_parity(shards: &mut Vec<Vec<u8>>, data: usize, parity: usize)
    requires
        0 < data,
        0 < parity,
        data + parity <= 256,
        old(shards)@.len() == data + parity,
        old(shards)@[0]@.len() > 0,
        same_length(byte_strings(old(shards)@), old(shards)@[0]@.len()),
    ensures
        byte_strings(final(shards)@) == byte_strings(old(shards)@).take(data as int)
            + reed_solomon_parity(byte_strings(old(shards)@).take(data as int), parity as nat),
        final(shards)@.len() == old(shards)@.len(),
        same_length(byte_strings(final(shards)@), old(shards)@[0]@.len()),
{
    let codec = ReedSolomon::new(data, parity).unwrap();
    codec.encode(shards).unwrap();
}

/// The values of optional shards.
pub open spec fn slot_values(slots: Seq<Option<Vec<u8>>>) -> Seq<Option<Seq<u8>>> {
    slots.map_values(
        |slot: Option<Vec<u8>>|
            match slot {
                Some(bytes) => Some(bytes@),
                None => None,
            },
    )
}

/// The number of shards that are there.
pub open spec fn present_count(slots: Seq<Option<Seq<u8>>>) -> nat
    decreases slots.len(),
{
    if slots.len() == 0 {
        0
    } else {
        present_count(slots.drop_last()) + if slots.last() is Some {
            1nat
        } else {
            0
        }
    }
}

/// Every shard that is there has one length.
pub open spec fn slots_have_length(slots: Seq<Option<Seq<u8>>>, length: nat) -> bool {
    forall|i: int|
        0 <= i < slots.len() ==> (#[trigger] slots[i] matches Some(bytes) ==> bytes.len() == length)
}

/// Every shard that is there is the one of a code word.
pub open spec fn slots_agree(slots: Seq<Option<Seq<u8>>>, word: Seq<Seq<u8>>) -> bool {
    &&& slots.len() == word.len()
    &&& forall|i: int|
        0 <= i < slots.len() ==> (#[trigger] slots[i] matches Some(bytes) ==> bytes == word[i])
}

/// All shards that reconstruction makes of those that are there.
pub uninterp spec fn reed_solomon_shards(slots: Seq<Option<Seq<u8>>>, data: nat) -> Seq<Seq<u8>>;

/// Calls `ReedSolomon::new` and `ReedSolomon::reconstruct` of
/// `reed_solomon_erasure` on as many shards as the code has, of which at least
/// the number of data shards are there, all of one length. Claimed: it fails
/// only where that length is zero, with the text of its `EmptyShard` error;
/// otherwise the shards that are there stay, all have that length, and where
/// those that are there come from one code word, the result is that code word.
#[verifier::external_body]
fn reconstruct_shards(slots: Vec<Option<Vec<u8>>>, data: usize, length: usize) -> (result: Result<
    Vec<Vec<u8>>,
    String,
>)
    requires
        0 < data < slots@.len() <= 256,
        present_count(slot_values(slots@)) >= data,
        slots_have_length(slot_values(slots@), length as nat),
    ensures
        result is Err <==> length == 0,
        result matches Err(text) ==> text@ == "The first shard provided is of zero length"@,
        result matches Ok(shards) ==> {
            &&& byte_strings(shards@) == reed_solomon_shards(slot_values(slots@), data as nat)
            &&& shards@.len() == slots@.len()
            &&& same_length(byte_strings(shards@), length as nat)
            &&& slots_agree(slot_values(slots@), byte_strings(shards@))
            &&& forall|word: Seq<Seq<u8>>|
                word.len() == data && same_length(word, length as nat) && #[trigger] slots_agree(
                    slot_values(slots@),
                    code_word(word, (slots@.len() - data) as nat),
                ) ==> byte_strings(shards@) == code_word(word, (slots@.len() - data) as nat)
        },
{
    let mut slots = slots;
    let codec = ReedSolomon::new(data, slots.len() - data).unwrap();
    match codec.reconstruct(&mut slots) {
        Ok(()) => Ok(slots.into_iter().map(|slot| slot.unwrap()).collect()),
        Err(error) => Err(error.to_string()),
    }
}

/// The sum of weights.
pub open spec fn weight_sum(weights: Seq<u64>) -> nat
    decreases weights.len(),
{
    if weights.len() == 0 {
        0
    } else {
        weight_sum(weights.drop_last()) + weights.last() as nat
    }
}

/// The values of a list of weight lists.
pub open spec fn weight_lists(lists: Seq<Vec<u64>>) -> Seq<Seq<u64>> {
    lists.map_values(|list: Vec<u64>| list@)
}

/// The positions drawn one after another from lists of weights.
pub uninterp spec fn weighted_draws(seed: Seq<u8>, weights: Seq<Seq<u64>>) -> Seq<usize>;

/// Calls `StdRng::from_seed` of `rand` once, then `WeightedIndex::new` and
/// `Distribution::sample` for each list of weights with that one generator.
/// Claimed: the drawn positions are a function of the seed and the lists, and
/// each lies within its list. The required weights are those that
/// `WeightedIndex::new` accepts: their sum is positive and fits 64 bits.
#[verifier::external_body]
fn draw_weighted(seed: &[u8; 32], weights: &[Vec<u64>]) -> (draws: Vec<usize>)
    requires
        forall|i: int|
            0 <= i < weights@.len() ==> 0 < weight_sum((#[trigger] weights@[i])@) <= u64::MAX,
    ensures
        draws@ == weighted_draws(seed@, weight_lists(weights@)),
        draws@.len() == weights@.len(),
        forall|i: int|
            0 <= i < draws@.len() ==> (#[trigger] draws@[i]) < weights@[i]@.len(),
{
    let mut random = StdRng::from_seed(*seed);
    weights.iter().map(|list| WeightedIndex::new(list).unwrap().sample(&mut random)).collect()
}

/// Whether a configuration is one that a code over bytes has.
pub open spec fn config_check(data: nat, parity: nat) -> Result<(), KestrelCastError> {
    if data == 0 || parity == 0 {
        Err(KestrelCastError::EmptyShardClass)
    } else if data + parity > 256 {
        Err(KestrelCastError::TooManyShards)
    } else {
        Ok(())
    }
}

/// The length of every shard of a block.
pub open spec fn shard_length(length: nat, data: nat) -> nat {
    let quotient = (length + data - 1) as nat / data;
    if quotient == 0 {
        1
    } else {
        quotient
    }
}

/// A block followed by zeros up to a length.
pub open spec fn padded(block: Seq<u8>, length: nat) -> Seq<u8> {
    Seq::new(
        length,
        |i: int|
            if i < block.len() {
                block[i]
            } else {
                0
            },
    )
}

/// The data shards of a block.
pub open spec fn data_shards_of(block: Seq<u8>, data: nat) -> Seq<Seq<u8>> {
    let length = shard_length(block.len(), data);
    Seq::new(
        data,
        |j: int| padded(block, data * length).subrange(j * length, (j + 1) * length),
    )
}

/// The shreds of a block.
pub open spec fn shreds_of(block: Seq<u8>, data: nat, parity: nat) -> Seq<ShredModel> {
    let word = code_word(data_shards_of(block, data), parity);
    Seq::new(
        data + parity,
        |i: int|
            ShredModel {
                block_id: hash_of(block),
                index: i as u16,
                data_shards: data as u16,
                parity_shards: parity as u16,
                original_len: block.len() as u64,
                payload: word[i],
            },
    )
}

/// The bytes of shards, one after another.
pub open spec fn joined(shards: Seq<Seq<u8>>) -> Seq<u8>
    decreases shards.len(),
{
    if shards.len() == 0 {
        Seq::empty()
    } else {
        joined(shards.drop_last()) + shards.last()
    }
}

/// Why the shred at `i` is refused, given the first shred.
pub open spec fn shred_refusal(shreds: Seq<ShredModel>, i: int) -> Option<KestrelCastError> {
    let first = shreds[0];
    let shred = shreds[i];
    let total = first.data_shards + first.parity_shards;
    if shred.block_id != first.block_id || shred.data_shards != first.data_shards
        || shred.parity_shards != first.parity_shards || shred.original_len != first.original_len
        || shred.payload.len() != first.payload.len() {
        Some(KestrelCastError::InconsistentMetadata)
    } else if shred.index >= total {
        Some(KestrelCastError::InvalidShredIndex { index: shred.index, total: total as usize })
    } else if exists|j: int| 0 <= j < i && (#[trigger] shreds[j]).index == shred.index {
        Some(KestrelCastError::DuplicateShred(shred.index))
    } else {
        None
    }
}

/// The first reason to refuse one of the first `count` shreds.
pub open spec fn first_refusal(shreds: Seq<ShredModel>, count: nat) -> Option<KestrelCastError>
    decreases count,
{
    if count == 0 {
        None
    } else {
        match first_refusal(shreds, (count - 1) as nat) {
            Some(error) => Some(error),
            None => shred_refusal(shreds, count - 1),
        }
    }
}

/// The payload that the shreds have for an index.
pub open spec fn slot_of(shreds: Seq<ShredModel>, index: int) -> Option<Seq<u8>>
    decreases shreds.len(),
{
    if shreds.len() == 0 {
        None
    } else if shreds.last().index == index {
        Some(shreds.last().payload)
    } else {
        slot_of(shreds.drop_last(), index)
    }
}

/// The payloads by index.
pub open spec fn slots_of(shreds: Seq<ShredModel>, total: nat) -> Seq<Option<Seq<u8>>> {
    Seq::new(total, |index: int| slot_of(shreds, index))
}

/// What remains to decide once all shards are there.
pub open spec fn decoded(first: ShredModel, shards: Seq<Seq<u8>>) -> Result<
    Seq<u8>,
    KestrelCastError,
> {
    let bytes = joined(shards.take(first.data_shards as int));
    if first.original_len > usize::MAX {
        Err(KestrelCastError::BlockTooLarge)
    } else if first.original_len > bytes.len() {
        Err(KestrelCastError::InconsistentMetadata)
    } else if hash_of(bytes.take(first.original_len as int)) != first.block_id {
        Err(KestrelCastError::IntegrityMismatch)
    } else {
        Ok(bytes.take(first.original_len as int))
    }
}

/// What reconstructing a block gives, but for the text of a Reed-Solomon error.
pub open spec fn reconstruction(shreds: Seq<ShredModel>) -> Result<Seq<u8>, KestrelCastError> {
    if shreds.len() == 0 {
        Err(KestrelCastError::InsufficientShreds { available: 0, required: 1 })
    } else {
        let first = shreds[0];
        let data = first.data_shards as nat;
        let total = (first.data_shards + first.parity_shards) as nat;
        match config_check(data, first.parity_shards as nat) {
            Err(error) => Err(error),
            Ok(()) => match first_refusal(shreds, shreds.len()) {
                Some(error) => Err(error),
                None => if shreds.len() < data {
                    Err(
                        KestrelCastError::InsufficientShreds {
                            available: shreds.len() as usize,
                            required: data as usize,
                        },
                    )
                } else {
                    decoded(first, reed_solomon_shards(slots_of(shreds, total), data))
                },
            },
        }
    }
}

/// Whether shreds carry nothing at all: their length is zero, though they are
/// otherwise in order.
pub open spec fn empty_shreds(shreds: Seq<ShredModel>) -> bool {
    &&& shreds.len() > 0
    &&& shreds[0].payload.len() == 0
    &&& config_check(shreds[0].data_shards as nat, shreds[0].parity_shards as nat) is Ok
    &&& first_refusal(shreds, shreds.len()) is None
    &&& shreds.len() >= shreds[0].data_shards
}

/// Whether an error is the refusal of shreds that carry nothing.
pub open spec fn refuses_empty(error: KestrelCastError) -> bool {
    error matches KestrelCastError::ReedSolomon(text) && text@
        == "The first shard provided is of zero length"@
}

/// Whether shreds are in order and carry something, every data shred among them.
pub open spec fn all_data_there(shreds: Seq<ShredModel>) -> bool {
    &&& shreds.len() > 0
    &&& shreds[0].payload.len() > 0
    &&& config_check(shreds[0].data_shards as nat, shreds[0].parity_shards as nat) is Ok
    &&& first_refusal(shreds, shreds.len()) is None
    &&& shreds.len() >= shreds[0].data_shards
    &&& forall|index: int|
        0 <= index < shreds[0].data_shards ==> #[trigger] slot_of(shreds, index) is Some
}

/// The payloads of the data shreds in order.
pub open spec fn data_payloads(shreds: Seq<ShredModel>) -> Seq<Seq<u8>> {
    Seq::new(shreds[0].data_shards as nat, |index: int| slot_of(shreds, index).unwrap())
}

/// Shreds of one block, enough of them, none twice.
pub open spec fn sample_of(
    shreds: Seq<ShredModel>,
    block: Seq<u8>,
    data: nat,
    parity: nat,
) -> bool {
    &&& config_check(data, parity) is Ok
    &&& code_word(data_shards_of(block, data), parity).len() == data + parity
    &&& block.len() <= usize::MAX
    &&& shreds.len() >= data
    &&& forall|i: int|
        0 <= i < shreds.len() ==> {
            &&& (#[trigger] shreds[i]).index < data + parity
            &&& shreds[i] == shreds_of(block, data, parity)[shreds[i].index as int]
            &&& shreds[i].payload.len() == shard_length(block.len(), data)
        }
    &&& forall|i: int, j: int| #![trigger shreds[i], shreds[j]]
        0 <= i < j < shreds.len() ==> shreds[i].index != shreds[j].index
}

/// Some of the given shreds, at least `count`, none twice.
pub open spec fn chosen_from(
    chosen: Seq<ShredModel>,
    shreds: Seq<ShredModel>,
    count: nat,
) -> bool {
    &&& chosen.len() >= count
    &&& forall|i: int| 0 <= i < chosen.len() ==> shreds.contains(#[trigger] chosen[i])
    &&& forall|i: int, j: int| #![trigger chosen[i], chosen[j]]
        0 <= i < j < chosen.len() ==> chosen[i].index != chosen[j].index
}

/// `KestrelCast` codec and stake-weighted relay planner.
#[derive(Clone, Copy, Debug)]
pub struct KestrelCast {
    config: KestrelCastConfig,
}

impl KestrelCast {
    #[verifier::type_invariant]
    spec fn valid(self) -> bool {
        config_check(self.config.data_shards as nat, self.config.parity_shards as nat) is Ok
    }

    /// The parameters of the codec.
    pub closed spec fn parameters(&self) -> KestrelCastConfig {
        self.config
    }

    /// Creates a codec with an approximately 50% reconstruction threshold by
    /// default (10 data plus 10 parity shreds).
    ///
    /// # Errors
    ///
    /// Rejects zero-sized shard classes and more than 256 total shreds.
    pub fn new(config: KestrelCastConfig) -> (result: Result<Self, KestrelCastError>)
        ensures
            match result {
                Ok(codec) => config_check(
                    config.data_shards as nat,
                    config.parity_shards as nat,
                ) is Ok && codec.parameters() == config,
                Err(error) => config_check(config.data_shards as nat, config.parity_shards as nat)
                    == Err::<(), KestrelCastError>(error),
            },
    {
        if config.data_shards == 0 || config.parity_shards == 0 {
            return Err(KestrelCastError::EmptyShardClass);
        }
        match config.data_shards.checked_add(config.parity_shards) {
            Some(total) => {
                if total > MAX_SHARDS {
                    return Err(KestrelCastError::TooManyShards);
                }
            },
            None => {
                return Err(KestrelCastError::TooManyShards);
            },
        }
        Ok(KestrelCast { config })
    }

    /// The parameters of the codec.
    pub fn config(&self) -> (config: KestrelCastConfig)
        ensures
            config == self.parameters(),
    {
        self.config
    }

    /// Splits a block into equal-sized data and parity shreds.
    pub fn encode(&self, block: &[u8]) -> (result: Result<Vec<Shred>, KestrelCastError>)
        ensures
            result matches Ok(shreds) && shred_models(shreds@) == shreds_of(
                block@,
                self.parameters().data_shards as nat,
                self.parameters().parity_shards as nat,
            ) && forall|i: int|
                0 <= i < shreds@.len() ==> (#[trigger] shreds@[i]).payload@.len() == shard_length(
                    block@.len(),
                    self.parameters().data_shards as nat,
                ),
            code_word(
                data_shards_of(block@, self.parameters().data_shards as nat),
                self.parameters().parity_shards as nat,
            ).len() == self.parameters().data_shards + self.parameters().parity_shards,
            result matches Ok(shreds) ==> forall|chosen: Seq<ShredModel>| #[trigger]
                chosen_from(chosen, shred_models(shreds@), self.parameters().data_shards as nat)
                    ==> sample_of(
                    chosen,
                    block@,
                    self.parameters().data_shards as nat,
                    self.parameters().parity_shards as nat,
                ),
    {
        proof {
            use_type_invariant(self);
        }
        let data: usize = self.config.data_shards;
        let parity: usize = self.config.parity_shards;
        let quotient: usize = block.len() / data;
        let exact = block.len() % data == 0;
        proof {
            if !exact {
                let length = block@.len() as int;
                let count = data as int;
                vstd::arithmetic::div_mod::lemma_fundamental_div_mod(length, count);
                assert(length / count < length) by (nonlinear_arith)
                    requires
                        length == count * (length / count) + length % count,
                        length % count > 0,
                        count >= 1,
                        length >= 0,
                ;
            }
        }
        let shard_len: usize = if block.len() == 0 {
            1
        } else if exact {
            quotient
        } else {
            quotient + 1
        };
        proof {
            lemma_shard_length(block@.len(), data as nat, shard_len as nat);
        }
        let mut shards = split_shards(block, data, shard_len);
        let ghost parts = data_shards_of(block@, data as nat);
        assert(byte_strings(shards@) == parts);
        while shards.len() < data + parity
            invariant
                data + parity <= 256,
                data <= shards@.len() <= data + parity,
                parts.len() == data,
                byte_strings(shards@).take(data as int) == parts,
                same_length(byte_strings(shards@), shard_len as nat),
            decreases data + parity - shards@.len(),
        {
            let ghost before = byte_strings(shards@);
            let blank = zeros(shard_len);
            shards.push(blank);
            proof {
                let after = byte_strings(shards@);
                assert(after =~= before.push(blank@));
                assert(after.take(data as int) =~= before.take(data as int));
                assert forall|i: int| 0 <= i < after.len() implies (
                #[trigger] after[i]).len() == shard_len by {
                    if i < before.len() {
                        assert(after[i] == before[i]);
                    }
                }
            }
        }
        assert(byte_strings(shards@)[0] == shards@[0]@);
        encode_parity(&mut shards, data, parity);
        let ghost word = code_word(parts, parity as nat);
        let block_id = Hash256::digest(block);
        let mut shreds: Vec<Shred> = Vec::new();
        let ghost expected = shreds_of(block@, data as nat, parity as nat);
        assert(shred_models(shreds@) =~= expected.take(0));
        while shreds.len() < shards.len()
            invariant
                data + parity <= 256,
                shards@.len() == data + parity,
                shreds@.len() <= shards@.len(),
                byte_strings(shards@) == word,
                same_length(word, shard_len as nat),
                forall|i: int|
                    0 <= i < shreds@.len() ==> (#[trigger] shreds@[i]).payload@.len() == shard_len,
                block_id == hash_of(block@),
                word == code_word(data_shards_of(block@, data as nat), parity as nat),
                expected == shreds_of(block@, data as nat, parity as nat),
                shred_models(shreds@) == expected.take(shreds@.len() as int),
            decreases shards@.len() - shreds@.len(),
        {
            let index: usize = shreds.len();
            let ghost before = shred_models(shreds@);
            let shred = Shred {
                block_id,
                index: index as u16,
                data_shards: data as u16,
                parity_shards: parity as u16,
                original_len: block.len() as u64,
                payload: copy_bytes(&shards[index]),
            };
            proof {
                assert(byte_strings(shards@)[index as int] == shards@[index as int]@);
                assert(shred@ == expected[index as int]);
            }
            shreds.push(shred);
            proof {
                assert(shred_models(shreds@) =~= before.push(shred@));
                assert(expected.take(index + 1) =~= expected.take(index as int).push(
                    expected[index as int],
                ));
            }
        }
        assert(expected.take(shreds@.len() as int) =~= expected);
        proof {
            let models = shred_models(shreds@);
            assert forall|i: int| 0 <= i < models.len() implies (
            #[trigger] models[i]).payload.len() == shard_len by {
                assert(models[i] == shreds@[i]@);
            }
            assert forall|chosen: Seq<ShredModel>| #[trigger]
                chosen_from(chosen, models, data as nat) implies sample_of(
                chosen,
                block@,
                data as nat,
                parity as nat,
            ) by {
                lemma_chosen_is_sample(chosen, block@, data as nat, parity as nat);
            }
        }
        Ok(shreds)
    }

    /// Reconstructs and integrity-checks a block from any sufficient subset:
    /// whichever shreds of an encoded block are there, as many as it has data
    /// shreds give the block back. Where every data shred is there, their payloads
    /// one after another, cut to the stated length, are the block.
    ///
    /// # Errors
    ///
    /// Rejects inconsistent, duplicate, malformed, or insufficient shreds.
    pub fn reconstruct(shreds: &[Shred]) -> (result: Result<Vec<u8>, KestrelCastError>)
        ensures
            forall|block: Seq<u8>, data: nat, parity: nat| #[trigger]
                sample_of(shred_models(shreds@), block, data, parity) ==> (result matches Ok(
                    restored,
                ) && restored@ == block),
            all_data_there(shred_models(shreds@)) ==> reconstruction(shred_models(shreds@))
                == decoded(shred_models(shreds@)[0], data_payloads(shred_models(shreds@))),
            if empty_shreds(shred_models(shreds@)) {
                result matches Err(error) && refuses_empty(error)
            } else {
                match result {
                    Ok(block) => reconstruction(shred_models(shreds@)) == Ok::<
                        Seq<u8>,
                        KestrelCastError,
                    >(block@),
                    Err(error) => reconstruction(shred_models(shreds@)) == Err::<
                        Seq<u8>,
                        KestrelCastError,
                    >(error),
                }
            },
    {
        let ghost models = shred_models(shreds@);
        proof {
            assert forall|block: Seq<u8>, data: nat, parity: nat| #[trigger]
                sample_of(models, block, data, parity) implies sample_accepted(models) by {
                lemma_sample_accepted(models, block, data, parity);
            }
        }
        if shreds.len() == 0 {
            return Err(KestrelCastError::InsufficientShreds { available: 0, required: 1 });
        }
        let first = &shreds[0];
        assert(models[0] == first@);
        let data: usize = first.data_shards as usize;
        let parity: usize = first.parity_shards as usize;
        let total: usize = data + parity;
        match KestrelCast::new(KestrelCastConfig { data_shards: data, parity_shards: parity }) {
            Ok(_) => {},
            Err(error) => {
                return Err(error);
            },
        }
        let shard_len: usize = first.payload.len();
        let mut slots: Vec<Option<Vec<u8>>> = Vec::new();
        while slots.len() < total
            invariant
                slots@.len() <= total,
                slot_values(slots@) == slots_of(models.take(0), slots@.len()),
            decreases total - slots@.len(),
        {
            let ghost before = slot_values(slots@);
            slots.push(None);
            proof {
                assert(slot_values(slots@) =~= before.push(None));
                assert(slots_of(models.take(0), slots@.len()) =~= before.push(None));
            }
        }
        proof {
            lemma_none_present(slot_values(slots@));
        }
        let mut index: usize = 0;
        while index < shreds.len()
            invariant
                index <= shreds@.len(),
                shreds@.len() > 0,
                *first == shreds@[0],
                models == shred_models(shreds@),
                data == first.data_shards,
                parity == first.parity_shards,
                total == data + parity,
                total <= 256,
                shard_len == first.payload@.len(),
                slots@.len() == total,
                config_check(data as nat, parity as nat) is Ok,
                first_refusal(models, index as nat) is None,
                slot_values(slots@) == slots_of(models.take(index as int), total as nat),
                slots_have_length(slot_values(slots@), shard_len as nat),
                present_count(slot_values(slots@)) == index,
            decreases shreds@.len() - index,
        {
            let shred = &shreds[index];
            proof {
                assert(models[index as int] == shred@);
                assert(models[0] == first@);
            }
            if shred.block_id != first.block_id || shred.data_shards != first.data_shards
                || shred.parity_shards != first.parity_shards || shred.original_len
                != first.original_len || shred.payload.len() != shard_len {
                proof {
                    lemma_refusal_is_final(models, (index + 1) as nat);
                }
                return Err(KestrelCastError::InconsistentMetadata);
            }
            let position: usize = shred.index as usize;
            if position >= total {
                proof {
                    lemma_refusal_is_final(models, (index + 1) as nat);
                }
                return Err(KestrelCastError::InvalidShredIndex { index: shred.index, total });
            }
            let taken = slots[position].is_some();
            proof {
                lemma_slot_taken(models, index as int, position as int);
                assert(slot_values(slots@)[position as int] is Some == taken);
            }
            if taken {
                proof {
                    lemma_refusal_is_final(models, (index + 1) as nat);
                }
                return Err(KestrelCastError::DuplicateShred(shred.index));
            }
            let ghost before = slot_values(slots@);
            let payload = copy_bytes(&shred.payload);
            slots.set(position, Some(payload));
            proof {
                let after = slot_values(slots@);
                assert(after =~= before.update(position as int, Some(shred.payload@)));
                lemma_slots_step(models, index as int, total as nat);
                lemma_present_update(before, position as int, shred.payload@);
            }
            index += 1;
        }
        assert(models.take(index as int) =~= models);
        if shreds.len() < data {
            return Err(
                KestrelCastError::InsufficientShreds { available: shreds.len(), required: data },
            );
        }
        let ghost given = slot_values(slots@);
        let ghost spare = (slots@.len() - data) as nat;
        let shards = match reconstruct_shards(slots, data, shard_len) {
            Ok(shards) => shards,
            Err(text) => {
                return Err(KestrelCastError::ReedSolomon(text));
            },
        };
        let ghost values = byte_strings(shards@);
        proof {
            if all_data_there(models) {
                let payloads = data_payloads(models);
                assert forall|i: int| 0 <= i < data implies values[i] == payloads[i] by {
                    assert(given[i] == slot_of(models, i));
                    assert(slot_of(models, i) is Some);
                }
                assert(values.take(data as int) =~= payloads.take(data as int));
            }
            assert forall|block: Seq<u8>, d: nat, p: nat| #[trigger]
                sample_of(models, block, d, p) implies decoded(models[0], values) == Ok::<
                Seq<u8>,
                KestrelCastError,
            >(block) by {
                lemma_sample_accepted(models, block, d, p);
                lemma_sample_slots(models, block, d, p);
                lemma_data_shards(block, d);
                let word = data_shards_of(block, d);
                assert(d + p == total && d == data);
                assert(models[0].payload.len() == shard_length(block.len(), d));
                assert(p == spare);
                assert(slots_agree(given, code_word(word, spare)));
                assert(values == code_word(word, p));
                assert(values.take(d as int) =~= word);
                law_data_shards_hold_the_block(block, d);
            }
        }
        let mut block: Vec<u8> = Vec::new();
        let mut joined_count: usize = 0;
        assert(block@ =~= joined(values.take(0)));
        while joined_count < data
            invariant
                joined_count <= data,
                data <= shards@.len(),
                values == byte_strings(shards@),
                block@ == joined(values.take(joined_count as int)),
            decreases data - joined_count,
        {
            append(&mut block, &shards[joined_count]);
            proof {
                let next = values.take(joined_count + 1);
                assert(next.drop_last() =~= values.take(joined_count as int));
                assert(next.last() == shards@[joined_count as int]@);
            }
            joined_count += 1;
        }
        if first.original_len > usize::MAX as u64 {
            return Err(KestrelCastError::BlockTooLarge);
        }
        let original_len: usize = first.original_len as usize;
        if original_len > block.len() {
            return Err(KestrelCastError::InconsistentMetadata);
        }
        let ghost whole = block@;
        block.truncate(original_len);
        assert(block@ =~= whole.take(original_len as int));
        if Hash256::digest(&block) != first.block_id {
            return Err(KestrelCastError::IntegrityMismatch);
        }
        Ok(block)
    }
}

/// A shard of zeros.
fn zeros(length: usize) -> (shard: Vec<u8>)
    ensures
        shard@.len() == length,
        forall|i: int| 0 <= i < length ==> shard@[i] == 0,
{
    let mut shard: Vec<u8> = Vec::new();
    while shard.len() < length
        invariant
            shard@.len() <= length,
            forall|i: int| 0 <= i < shard@.len() ==> shard@[i] == 0,
        decreases length - shard@.len(),
    {
        shard.push(0);
    }
    shard
}

/// Cuts a block into data shards, the last ones filled up with zeros.
fn split_shards(block: &[u8], data: usize, shard_len: usize) -> (shards: Vec<Vec<u8>>)
    requires
        0 < data <= 256,
        shard_len == shard_length(block@.len(), data as nat),
    ensures
        byte_strings(shards@) == data_shards_of(block@, data as nat),
        same_length(byte_strings(shards@), shard_len as nat),
{
    let ghost parts = data_shards_of(block@, data as nat);
    let ghost whole = padded(block@, data as nat * shard_len as nat);
    let mut shards: Vec<Vec<u8>> = Vec::new();
    let mut start: usize = 0;
    assert(byte_strings(shards@) =~= parts.take(0));
    while shards.len() < data
        invariant
            shards@.len() <= data <= 256,
            parts == data_shards_of(block@, data as nat),
            shard_len == shard_length(block@.len(), data as nat),
            whole == padded(block@, data as nat * shard_len as nat),
            start == if shards@.len() * shard_len <= block@.len() {
                shards@.len() * shard_len
            } else {
                block@.len() as int
            },
            byte_strings(shards@) == parts.take(shards@.len() as int),
            same_length(byte_strings(shards@), shard_len as nat),
        decreases data - shards@.len(),
    {
        let ghost j = shards@.len() as int;
        let ghost offset = j * shard_len;
        let mut shard: Vec<u8> = Vec::new();
        let mut cursor: usize = start;
        while shard.len() < shard_len
            invariant
                shard@.len() <= shard_len,
                start <= cursor <= block@.len(),
                0 <= offset,
                start == if offset <= block@.len() {
                    offset
                } else {
                    block@.len() as int
                },
                cursor == if offset + shard@.len() <= block@.len() {
                    offset + shard@.len()
                } else {
                    block@.len() as int
                },
                forall|i: int|
                    0 <= i < shard@.len() ==> #[trigger] shard@[i] == (if offset + i < block@.len() {
                        block@[offset + i]
                    } else {
                        0
                    }),
            decreases shard_len - shard@.len(),
        {
            if cursor < block.len() {
                shard.push(block[cursor]);
                cursor += 1;
            } else {
                shard.push(0);
            }
        }
        proof {
            let length = shard_len as int;
            assert((j + 1) * length == j * length + length) by (nonlinear_arith);
            assert((j + 1) * length <= data * length) by (nonlinear_arith)
                requires
                    j + 1 <= data,
                    0 <= length,
            ;
            assert(0 <= j * length) by (nonlinear_arith)
                requires
                    0 <= j,
                    0 <= length,
            ;
            assert(parts[j] == whole.subrange(j * length, (j + 1) * length));
            assert(shard@ =~= parts[j]);
        }
        let ghost before = byte_strings(shards@);
        let ghost value = shard@;
        shards.push(shard);
        proof {
            let after = byte_strings(shards@);
            assert(after =~= before.push(value));
            assert(parts.take(j + 1) =~= parts.take(j).push(parts[j]));
            assert forall|i: int| 0 <= i < after.len() implies (#[trigger] after[i]).len()
                == shard_len by {
                if i < before.len() {
                    assert(after[i] == before[i]);
                }
            }
        }
        start = cursor;
    }
    assert(parts.take(shards@.len() as int) =~= parts);
    shards
}

proof fn lemma_chosen_is_sample(chosen: Seq<ShredModel>, block: Seq<u8>, data: nat, parity: nat)
    requires
        config_check(data, parity) is Ok,
        code_word(data_shards_of(block, data), parity).len() == data + parity,
        block.len() <= usize::MAX,
        forall|i: int|
            0 <= i < data + parity ==> (#[trigger] shreds_of(block, data, parity)[i]).payload.len()
                == shard_length(block.len(), data),
        chosen_from(chosen, shreds_of(block, data, parity), data),
    ensures
        sample_of(chosen, block, data, parity),
{
    let shreds = shreds_of(block, data, parity);
    assert forall|i: int| 0 <= i < chosen.len() implies {
        &&& (#[trigger] chosen[i]).index < data + parity
        &&& chosen[i] == shreds[chosen[i].index as int]
        &&& chosen[i].payload.len() == shard_length(block.len(), data)
    } by {
        assert(shreds.contains(chosen[i]));
        let j = choose|j: int| 0 <= j < shreds.len() && shreds[j] == chosen[i];
        assert(shreds[j].index == j);
    }
}

proof fn lemma_shard_length(length: nat, data: nat, computed: nat)
    requires
        data > 0,
        length == 0 ==> computed == 1,
        length > 0 && length % data == 0 ==> computed == length / data,
        length > 0 && length % data != 0 ==> computed == length / data + 1,
    ensures
        computed == shard_length(length, data),
        computed > 0,
{
    let q = length / data;
    let r = length % data;
    vstd::arithmetic::div_mod::lemma_fundamental_div_mod(length as int, data as int);
    if length == 0 {
        assert((data - 1) as nat / data == 0) by (nonlinear_arith)
            requires
                data > 0,
        ;
    } else if r == 0 {
        assert((length + data - 1) / data as int == q && q > 0) by (nonlinear_arith)
            requires
                length == data * q,
                data > 0,
                length > 0,
        ;
    } else {
        assert((length + data - 1) / data as int == q + 1) by (nonlinear_arith)
            requires
                length == data * q + r,
                0 < r < data,
                data > 0,
        ;
    }
}

proof fn lemma_refusal_is_final(shreds: Seq<ShredModel>, count: nat)
    requires
        count <= shreds.len(),
        first_refusal(shreds, count) is Some,
    ensures
        first_refusal(shreds, shreds.len()) == first_refusal(shreds, count),
    decreases shreds.len() - count,
{
    if count < shreds.len() {
        lemma_refusal_is_final(shreds, count + 1);
    }
}

proof fn lemma_slot_taken(shreds: Seq<ShredModel>, count: int, index: int)
    requires
        0 <= count <= shreds.len(),
    ensures
        slot_of(shreds.take(count), index) is Some <==> exists|j: int|
            0 <= j < count && (#[trigger] shreds[j]).index == index,
    decreases count,
{
    if count > 0 {
        lemma_slot_taken(shreds, count - 1, index);
        assert(shreds.take(count).drop_last() =~= shreds.take(count - 1));
        assert(shreds.take(count).last() == shreds[count - 1]);
    }
}

proof fn lemma_slots_step(shreds: Seq<ShredModel>, count: int, total: nat)
    requires
        0 <= count < shreds.len(),
        shreds[count].index < total,
    ensures
        slots_of(shreds.take(count + 1), total) == slots_of(shreds.take(count), total).update(
            shreds[count].index as int,
            Some(shreds[count].payload),
        ),
{
    assert(shreds.take(count + 1).drop_last() =~= shreds.take(count));
    assert(shreds.take(count + 1).last() == shreds[count]);
    assert(slots_of(shreds.take(count + 1), total) =~= slots_of(shreds.take(count), total).update(
        shreds[count].index as int,
        Some(shreds[count].payload),
    ));
}

proof fn lemma_present_update(slots: Seq<Option<Seq<u8>>>, position: int, value: Seq<u8>)
    requires
        0 <= position < slots.len(),
        slots[position] is None,
    ensures
        present_count(slots.update(position, Some(value))) == present_count(slots) + 1,
    decreases slots.len(),
{
    let after = slots.update(position, Some(value));
    if position == slots.len() - 1 {
        assert(after.drop_last() =~= slots.drop_last());
    } else {
        assert(after.drop_last() =~= slots.drop_last().update(position, Some(value)));
        lemma_present_update(slots.drop_last(), position, value);
    }
}

proof fn lemma_none_present(slots: Seq<Option<Seq<u8>>>)
    requires
        forall|i: int| 0 <= i < slots.len() ==> #[trigger] slots[i] is None,
    ensures
        present_count(slots) == 0,
    decreases slots.len(),
{
    if slots.len() > 0 {
        lemma_none_present(slots.drop_last());
    }
}

/// The stakes of candidates, in order.
pub open spec fn stakes_of(candidates: Seq<RelayCandidate>) -> Seq<u64> {
    candidates.map_values(|candidate: RelayCandidate| candidate.stake)
}

/// Candidates have stake, and no identity occurs twice.
pub open spec fn candidates_valid(candidates: Seq<RelayCandidate>) -> bool {
    &&& candidates.len() > 0
    &&& forall|i: int| 0 <= i < candidates.len() ==> (#[trigger] candidates[i]).stake > 0
    &&& forall|i: int, j: int| #![trigger candidates[i], candidates[j]]
        0 <= i < j < candidates.len() ==> candidates[i].id != candidates[j].id
}

/// Whether an identity is one of the candidates.
pub open spec fn is_candidate(candidates: Seq<RelayCandidate>, id: Hash256) -> bool {
    exists|i: int| 0 <= i < candidates.len() && (#[trigger] candidates[i]).id == id
}

/// How far the choice of relays has come.
pub struct RelayChoice {
    pub remaining: Seq<RelayCandidate>,
    pub weights: Seq<Seq<u64>>,
    pub relays: Seq<Hash256>,
}

/// The choice of `count` relays: each is drawn by stake from the candidates
/// that are left, and the last candidate takes its place in the list.
pub open spec fn relay_choice(
    seed: Seq<u8>,
    candidates: Seq<RelayCandidate>,
    count: nat,
) -> RelayChoice
    decreases count,
{
    if count == 0 {
        RelayChoice { remaining: candidates, weights: Seq::empty(), relays: Seq::empty() }
    } else {
        let earlier = relay_choice(seed, candidates, (count - 1) as nat);
        if earlier.remaining.len() == 0 {
            earlier
        } else {
            let weights = earlier.weights.push(stakes_of(earlier.remaining));
            let drawn = weighted_draws(seed, weights).last() as int;
            RelayChoice {
                remaining: earlier.remaining.update(drawn, earlier.remaining.last()).drop_last(),
                weights,
                relays: earlier.relays.push(earlier.remaining[drawn].id),
            }
        }
    }
}

/// Whether the relay at `position` holds the shred at `offset`: shreds go
/// round the relays, each to `copies` neighbours.
pub open spec fn holds(position: int, offset: int, relays: int, copies: int) -> bool {
    (position - offset) % relays < copies
}

/// The shreds that the relay at `position` holds.
pub open spec fn held_by(
    shreds: Seq<ShredModel>,
    position: int,
    relays: int,
    copies: int,
) -> Seq<ShredModel>
    decreases shreds.len(),
{
    if shreds.len() == 0 {
        Seq::empty()
    } else {
        let earlier = held_by(shreds.drop_last(), position, relays, copies);
        if holds(position, shreds.len() - 1, relays, copies) {
            earlier.push(shreds.last())
        } else {
            earlier
        }
    }
}

/// The smaller of two counts.
pub open spec fn at_most(count: nat, limit: nat) -> nat {
    if count < limit {
        count
    } else {
        limit
    }
}

/// A plan follows the chosen relays and hands every relay its shreds.
pub open spec fn follows(
    plan: RelayPlan,
    relays: Seq<Hash256>,
    shreds: Seq<ShredModel>,
    copies: nat,
) -> bool {
    &&& plan.relays@ == relays
    &&& plan.assignments@.dom() == relays.to_set()
    &&& forall|k: int|
        0 <= k < relays.len() ==> shred_models(plan.assignments@[#[trigger] relays[k]]@)
            == held_by(shreds, k, relays.len() as int, copies as int)
}

/// What planning the relays of a block comes to. The relays are drawn from the
/// candidates in the order of their identities.
pub open spec fn planned_as(
    block_id: Hash256,
    shreds: Seq<ShredModel>,
    candidates: Seq<RelayCandidate>,
    relay_count: usize,
    replication_factor: usize,
    result: Result<RelayPlan, KestrelCastError>,
) -> bool {
    match result {
        Ok(plan) => {
            &&& relay_count > 0 && replication_factor > 0 && candidates_valid(candidates)
            &&& exists|sorted: Seq<RelayCandidate>|
                {
                    &&& sorted.to_multiset() == candidates.to_multiset()
                    &&& ascending::<Hash256, RelayCandidate>(sorted)
                    &&& follows(
                        plan,
                        (#[trigger] relay_choice(
                            block_id@,
                            sorted,
                            relay_count as nat,
                        )).relays,
                        shreds,
                        at_most(replication_factor as nat, plan.relays@.len()),
                    )
                }
            &&& plan.relays@.len() == at_most(relay_count as nat, candidates.len())
            &&& plan.relays@.no_duplicates()
            &&& forall|k: int|
                0 <= k < plan.relays@.len() ==> is_candidate(candidates, #[trigger] plan.relays@[k])
        },
        Err(error) => if relay_count == 0 || replication_factor == 0 {
            error == KestrelCastError::InvalidRelayPlan
        } else {
            !candidates_valid(candidates) && error == KestrelCastError::InvalidRelayCandidate
        },
    }
}

impl KestrelCast {
    /// Selects stake-weighted relays deterministically from the block ID and
    /// assigns every shred to `replication_factor` relays. Relays form one layer:
    /// they fan out directly to validators and never forward through other relays.
    ///
    /// # Errors
    ///
    /// Rejects empty/duplicate candidates, zero stake, and zero sizing inputs.
    pub fn relay_plan(
        block_id: Hash256,
        shreds: &[Shred],
        candidates: &[RelayCandidate],
        relay_count: usize,
        replication_factor: usize,
    ) -> (result: Result<RelayPlan, KestrelCastError>)
        requires
            weight_sum(stakes_of(candidates@)) <= u64::MAX,
        ensures
            planned_as(
                block_id,
                shred_models(shreds@),
                candidates@,
                relay_count,
                replication_factor,
                result,
            ),
    {
        if relay_count == 0 || replication_factor == 0 {
            return Err(KestrelCastError::InvalidRelayPlan);
        }
        if !check_candidates(candidates) {
            return Err(KestrelCastError::InvalidRelayCandidate);
        }
        let remaining = sort_by_key(copy_candidates(candidates));
        let ghost sorted = remaining@;
        proof {
            lemma_sum_of_permutation(sorted, candidates@);
            lemma_valid_permutation(sorted, candidates@);
        }
        let relays = choose_relays(block_id, remaining, relay_count);
        let copies: usize = if replication_factor < relays.len() {
            replication_factor
        } else {
            relays.len()
        };
        let ghost models = shred_models(shreds@);
        let ghost count = relays@.len() as int;
        let mut assignments: OrderedMap<Hash256, Vec<Shred>> = OrderedMap::new();
        let mut position: usize = 0;
        assert(assignments@.dom() =~= relays@.take(0).to_set());
        while position < relays.len()
            invariant
                position <= relays@.len(),
                count == relays@.len(),
                copies <= count,
                relays@.no_duplicates(),
                models == shred_models(shreds@),
                assignments@.dom() == relays@.take(position as int).to_set(),
                forall|k: int|
                    0 <= k < position ==> shred_models(assignments@[#[trigger] relays@[k]]@)
                        == held_by(models, k, count, copies as int),
            decreases relays@.len() - position,
        {
            let held = shreds_held(shreds, position, relays.len(), copies);
            let ghost before = assignments@;
            let relay = relays[position];
            let _ = assignments.insert(relay, held);
            proof {
                let shorter = relays@.take(position as int);
                let longer = relays@.take(position + 1);
                assert(longer =~= shorter.push(relay));
                assert forall|id: Hash256| longer.to_set().contains(id)
                    <==> shorter.to_set().insert(relay).contains(id) by {
                    if shorter.contains(id) {
                        let i = choose|i: int| 0 <= i < shorter.len() && shorter[i] == id;
                        assert(longer[i] == id);
                    }
                    assert(longer[position as int] == relay);
                    if longer.contains(id) && id != relay {
                        let i = choose|i: int| 0 <= i < longer.len() && longer[i] == id;
                        assert(shorter[i] == id);
                    }
                }
                assert(longer.to_set() =~= shorter.to_set().insert(relay));
                assert(assignments@.dom() =~= longer.to_set());
                assert forall|k: int| 0 <= k < position + 1 implies shred_models(
                    assignments@[#[trigger] relays@[k]]@,
                ) == held_by(models, k, count, copies as int) by {
                    if k < position {
                        assert(relays@[k] != relays@[position as int]);
                    }
                }
            }
            position += 1;
        }
        assert(relays@.take(position as int) =~= relays@);
        let plan = RelayPlan { relays, assignments };
        proof {
            let choice = relay_choice(block_id@, sorted, relay_count as nat);
            assert(follows(plan, choice.relays, models, copies as nat));
            candidates@.to_multiset_ensures();
            sorted.to_multiset_ensures();
            assert forall|k: int| 0 <= k < plan.relays@.len() implies is_candidate(
                candidates@,
                #[trigger] plan.relays@[k],
            ) by {
                let i = choose|i: int| 0 <= i < sorted.len() && (#[trigger] sorted[i]).id
                    == plan.relays@[k];
                assert(sorted.contains(sorted[i]));
                assert(sorted.to_multiset().count(sorted[i]) > 0);
                assert(candidates@.to_multiset().count(sorted[i]) > 0);
                assert(candidates@.contains(sorted[i]));
            }
        }
        Ok(plan)
    }
}

/// Whether candidates have stake and no identity occurs twice.
fn check_candidates(candidates: &[RelayCandidate]) -> (valid: bool)
    ensures
        valid == candidates_valid(candidates@),
{
    if candidates.len() == 0 {
        return false;
    }
    let mut ids: OrderedSet<Hash256> = OrderedSet::new();
    let mut index: usize = 0;
    while index < candidates.len()
        invariant
            index <= candidates@.len(),
            forall|i: int| 0 <= i < index ==> (#[trigger] candidates@[i]).stake > 0,
            forall|i: int, j: int| #![trigger candidates@[i], candidates@[j]]
                0 <= i < j < index ==> candidates@[i].id != candidates@[j].id,
            forall|i: int| 0 <= i < index ==> ids@.contains((#[trigger] candidates@[i]).id),
            forall|id: Hash256| #[trigger]
                ids@.contains(id) ==> exists|i: int|
                    0 <= i < index && (#[trigger] candidates@[i]).id == id,
        decreases candidates@.len() - index,
    {
        if candidates[index].stake == 0 {
            return false;
        }
        let ghost before = ids@;
        let id = candidates[index].id;
        let fresh = ids.insert(id);
        if !fresh {
            proof {
                let i = choose|i: int| 0 <= i < index && (#[trigger] candidates@[i]).id == id;
                assert(candidates@[i].id == candidates@[index as int].id);
            }
            return false;
        }
        proof {
            assert forall|other: Hash256| #[trigger] ids@.contains(other) implies exists|i: int|
                0 <= i < index + 1 && (#[trigger] candidates@[i]).id == other by {
                if other == id {
                    assert(candidates@[index as int].id == other);
                } else {
                    assert(before.contains(other));
                }
            }
            assert forall|i: int, j: int| #![trigger candidates@[i], candidates@[j]]
                0 <= i < j < index + 1 implies candidates@[i].id != candidates@[j].id by {
                if j == index {
                    assert(before.contains(candidates@[i].id));
                }
            }
        }
        index += 1;
    }
    true
}

/// An owned copy of a list of candidates.
fn copy_candidates(source: &[RelayCandidate]) -> (copy: Vec<RelayCandidate>)
    ensures
        copy@ == source@,
{
    let mut copy: Vec<RelayCandidate> = Vec::new();
    let mut index: usize = 0;
    while index < source.len()
        invariant
            index <= source@.len(),
            copy@ == source@.take(index as int),
        decreases source@.len() - index,
    {
        copy.push(source[index]);
        index += 1;
        assert(copy@ =~= source@.take(index as int));
    }
    assert(copy@ =~= source@);
    copy
}

/// Draws relays by stake from sorted candidates.
fn choose_relays(block_id: Hash256, candidates: Vec<RelayCandidate>, relay_count: usize) -> (relays:
    Vec<Hash256>)
    requires
        candidates_valid(candidates@),
        weight_sum(stakes_of(candidates@)) <= u64::MAX,
        relay_count > 0,
    ensures
        relays@ == relay_choice(block_id@, candidates@, relay_count as nat).relays,
        relays@.len() == at_most(relay_count as nat, candidates@.len()),
        relays@.no_duplicates(),
        forall|k: int|
            0 <= k < relays@.len() ==> is_candidate(candidates@, #[trigger] relays@[k]),
{
    let ghost all = candidates@;
    let ghost seed = block_id@;
    let mut remaining = candidates;
    let mut weights: Vec<Vec<u64>> = Vec::new();
    let mut relays: Vec<Hash256> = Vec::new();
    proof {
        assert(weight_lists(weights@) =~= Seq::<Seq<u64>>::empty());
        assert forall|i: int| 0 <= i < all.len() implies is_candidate(
            all,
            (#[trigger] all[i]).id,
        ) by {}
    }
    while relays.len() < relay_count && remaining.len() > 0
        invariant
            seed == block_id@,
            relays@.len() <= relay_count,
            relays@.len() + remaining@.len() == all.len(),
            ({
                let choice = relay_choice(seed, all, relays@.len());
                &&& choice.remaining == remaining@
                &&& choice.weights == weight_lists(weights@)
                &&& choice.relays == relays@
            }),
            forall|i: int| 0 <= i < remaining@.len() ==> (#[trigger] remaining@[i]).stake > 0,
            weight_sum(stakes_of(remaining@)) <= u64::MAX,
            forall|i: int|
                0 <= i < weights@.len() ==> 0 < weight_sum((#[trigger] weights@[i])@) <= u64::MAX,
            forall|i: int, j: int| #![trigger remaining@[i], remaining@[j]]
                0 <= i < j < remaining@.len() ==> remaining@[i].id != remaining@[j].id,
            forall|i: int, j: int| #![trigger relays@[i], remaining@[j]]
                0 <= i < relays@.len() && 0 <= j < remaining@.len() ==> relays@[i]
                    != remaining@[j].id,
            relays@.no_duplicates(),
            forall|i: int|
                0 <= i < remaining@.len() ==> is_candidate(all, (#[trigger] remaining@[i]).id),
            forall|k: int| 0 <= k < relays@.len() ==> is_candidate(all, #[trigger] relays@[k]),
        decreases remaining@.len(),
    {
        let stakes = collect_stakes(&remaining);
        proof {
            lemma_sum_positive(remaining@);
        }
        let ghost lists = weight_lists(weights@);
        let ghost value = stakes@;
        weights.push(stakes);
        assert(weight_lists(weights@) =~= lists.push(value));
        let draws = draw_weighted(block_id.as_bytes(), &weights);
        let selected: usize = draws[draws.len() - 1];
        let ghost before = remaining@;
        let ghost chosen = relays@;
        proof {
            lemma_sum_swap_remove(before, selected as int);
        }
        let candidate = remaining.swap_remove(selected);
        relays.push(candidate.id);
        proof {
            assert(remaining@ =~= before.update(selected as int, before.last()).drop_last());
            assert forall|i: int| 0 <= i < remaining@.len() implies is_candidate(
                all,
                (#[trigger] remaining@[i]).id,
            ) by {
                assert(remaining@[i] == before[if i == selected { before.len() - 1 } else { i }]);
            }
            assert(is_candidate(all, before[selected as int].id));
            assert forall|i: int| 0 <= i < remaining@.len() implies (
            #[trigger] remaining@[i]).stake > 0 by {
                assert(remaining@[i] == before[if i == selected { before.len() - 1 } else { i }]);
            }
            assert forall|i: int, j: int| #![trigger remaining@[i], remaining@[j]]
                0 <= i < j < remaining@.len() implies remaining@[i].id != remaining@[j].id by {
                let a = if i == selected { before.len() - 1 } else { i };
                let b = if j == selected { before.len() - 1 } else { j };
                assert(remaining@[i] == before[a]);
                assert(remaining@[j] == before[b]);
                if a < b {
                    assert(before[a].id != before[b].id);
                } else {
                    assert(before[b].id != before[a].id);
                }
            }
            assert forall|i: int, j: int| #![trigger relays@[i], remaining@[j]]
                0 <= i < relays@.len() && 0 <= j < remaining@.len() implies relays@[i]
                != remaining@[j].id by {
                let b = if j == selected { before.len() - 1 } else { j };
                assert(remaining@[j] == before[b]);
                if i == chosen.len() {
                    if b < selected {
                        assert(before[b].id != before[selected as int].id);
                    } else {
                        assert(before[selected as int].id != before[b].id);
                    }
                } else {
                    assert(chosen[i] != before[b].id);
                }
            }
            assert forall|i: int, j: int|
                0 <= i < relays@.len() && 0 <= j < relays@.len() && i != j implies relays@[i]
                != relays@[j] by {
                if j == chosen.len() {
                    assert(chosen[i] != before[selected as int].id);
                } else if i == chosen.len() {
                    assert(chosen[j] != before[selected as int].id);
                }
            }
        }
    }
    proof {
        lemma_choice_stops(seed, all, relays@.len(), relay_count as nat);
    }
    relays
}

/// The stakes of candidates, in order.
fn collect_stakes(candidates: &Vec<RelayCandidate>) -> (stakes: Vec<u64>)
    ensures
        stakes@ == stakes_of(candidates@),
{
    let mut stakes: Vec<u64> = Vec::new();
    while stakes.len() < candidates.len()
        invariant
            stakes@.len() <= candidates@.len(),
            stakes@ == stakes_of(candidates@).take(stakes@.len() as int),
        decreases candidates@.len() - stakes@.len(),
    {
        let ghost before = stakes@;
        stakes.push(candidates[stakes.len()].stake);
        assert(stakes@ =~= stakes_of(candidates@).take(stakes@.len() as int));
    }
    assert(stakes@ =~= stakes_of(candidates@));
    stakes
}

/// The shreds that the relay at `position` holds.
fn shreds_held(shreds: &[Shred], position: usize, relays: usize, copies: usize) -> (held: Vec<Shred>)
    requires
        position < relays,
        copies <= relays,
    ensures
        shred_models(held@) == held_by(
            shred_models(shreds@),
            position as int,
            relays as int,
            copies as int,
        ),
{
    let ghost models = shred_models(shreds@);
    let mut held: Vec<Shred> = Vec::new();
    let mut offset: usize = 0;
    assert(shred_models(held@) =~= held_by(
        models.take(0),
        position as int,
        relays as int,
        copies as int,
    ));
    while offset < shreds.len()
        invariant
            offset <= shreds@.len(),
            position < relays,
            copies <= relays,
            models == shred_models(shreds@),
            shred_models(held@) == held_by(
                models.take(offset as int),
                position as int,
                relays as int,
                copies as int,
            ),
        decreases shreds@.len() - offset,
    {
        let base: usize = offset % relays;
        let distance: usize = if position >= base {
            position - base
        } else {
            (relays - base) + position
        };
        proof {
            lemma_distance(position as int, offset as int, relays as int, distance as int);
            let next = models.take(offset + 1);
            assert(next.drop_last() =~= models.take(offset as int));
            assert(next.last() == models[offset as int]);
        }
        if distance < copies {
            let ghost before = shred_models(held@);
            let shred = shreds[offset].clone();
            assert(shred@ == models[offset as int]);
            held.push(shred);
            assert(shred_models(held@) =~= before.push(shred@));
        }
        offset += 1;
    }
    assert(models.take(offset as int) =~= models);
    held
}

proof fn lemma_distance(position: int, offset: int, relays: int, distance: int)
    requires
        0 <= position < relays,
        0 <= offset,
        distance == (if position >= offset % relays {
            position - offset % relays
        } else {
            relays - offset % relays + position
        }),
    ensures
        distance == (position - offset) % relays,
{
    let q = offset / relays;
    let r = offset % relays;
    vstd::arithmetic::div_mod::lemma_fundamental_div_mod(offset, relays);
    assert(0 <= r < relays) by (nonlinear_arith)
        requires
            r == offset % relays,
            relays > 0,
    ;
    if position >= r {
        assert(position - offset == relays * (-q) + distance) by (nonlinear_arith)
            requires
                offset == relays * q + r,
                distance == position - r,
        ;
        vstd::arithmetic::div_mod::lemma_fundamental_div_mod_converse(
            position - offset,
            relays,
            -q,
            distance,
        );
    } else {
        assert(position - offset == relays * (-q - 1) + distance) by (nonlinear_arith)
            requires
                offset == relays * q + r,
                distance == relays - r + position,
        ;
        vstd::arithmetic::div_mod::lemma_fundamental_div_mod_converse(
            position - offset,
            relays,
            -q - 1,
            distance,
        );
    }
}

proof fn lemma_choice_stops(seed: Seq<u8>, candidates: Seq<RelayCandidate>, count: nat, more: nat)
    requires
        count <= more,
        count < more ==> relay_choice(seed, candidates, count).remaining.len() == 0,
    ensures
        relay_choice(seed, candidates, more) == relay_choice(seed, candidates, count),
    decreases more,
{
    if count < more {
        lemma_choice_stops(seed, candidates, count, (more - 1) as nat);
    }
}

proof fn lemma_sum_positive(candidates: Seq<RelayCandidate>)
    requires
        candidates.len() > 0,
        forall|i: int| 0 <= i < candidates.len() ==> (#[trigger] candidates[i]).stake > 0,
    ensures
        weight_sum(stakes_of(candidates)) > 0,
{
    let stakes = stakes_of(candidates);
    assert(stakes.last() == candidates[candidates.len() - 1].stake);
}

proof fn lemma_sum_update(weights: Seq<u64>, i: int, value: u64)
    requires
        0 <= i < weights.len(),
    ensures
        weight_sum(weights.update(i, value)) + weights[i] == weight_sum(weights) + value,
    decreases weights.len(),
{
    let after = weights.update(i, value);
    if i == weights.len() - 1 {
        assert(after.drop_last() =~= weights.drop_last());
    } else {
        assert(after.drop_last() =~= weights.drop_last().update(i, value));
        lemma_sum_update(weights.drop_last(), i, value);
    }
}

proof fn lemma_sum_swap_remove(candidates: Seq<RelayCandidate>, i: int)
    requires
        0 <= i < candidates.len(),
    ensures
        weight_sum(stakes_of(candidates.update(i, candidates.last()).drop_last()))
            <= weight_sum(stakes_of(candidates)),
{
    let stakes = stakes_of(candidates);
    lemma_sum_update(stakes, i, stakes.last());
    let updated = stakes.update(i, stakes.last());
    assert(stakes_of(candidates.update(i, candidates.last()).drop_last()) =~= updated.drop_last());
}

proof fn lemma_sum_remove_at(weights: Seq<u64>, i: int)
    requires
        0 <= i < weights.len(),
    ensures
        weight_sum(weights.remove(i)) + weights[i] == weight_sum(weights),
    decreases weights.len(),
{
    let after = weights.remove(i);
    if i == weights.len() - 1 {
        assert(after =~= weights.drop_last());
    } else {
        assert(after.drop_last() =~= weights.drop_last().remove(i));
        assert(after.last() == weights.last());
        lemma_sum_remove_at(weights.drop_last(), i);
    }
}

proof fn lemma_sum_of_permutation(left: Seq<RelayCandidate>, right: Seq<RelayCandidate>)
    requires
        left.to_multiset() == right.to_multiset(),
    ensures
        weight_sum(stakes_of(left)) == weight_sum(stakes_of(right)),
    decreases left.len(),
{
    left.to_multiset_ensures();
    right.to_multiset_ensures();
    if left.len() > 0 {
        let last = left.last();
        assert(left.contains(last));
        assert(left.to_multiset().count(last) > 0);
        assert(right.contains(last));
        let j = choose|j: int| 0 <= j < right.len() && right[j] == last;
        let shorter_left = left.remove(left.len() - 1);
        let shorter_right = right.remove(j);
        lemma_sum_of_permutation(shorter_left, shorter_right);
        lemma_sum_remove_at(stakes_of(left), left.len() - 1);
        lemma_sum_remove_at(stakes_of(right), j);
        assert(stakes_of(shorter_left) =~= stakes_of(left).remove(left.len() - 1));
        assert(stakes_of(shorter_right) =~= stakes_of(right).remove(j));
    }
}

proof fn lemma_valid_permutation(left: Seq<RelayCandidate>, right: Seq<RelayCandidate>)
    requires
        left.to_multiset() == right.to_multiset(),
        candidates_valid(right),
    ensures
        candidates_valid(left),
        left.len() == right.len(),
{
    left.to_multiset_ensures();
    right.to_multiset_ensures();
    assert forall|i: int| 0 <= i < left.len() implies (#[trigger] left[i]).stake > 0 by {
        assert(left.contains(left[i]));
        assert(left.to_multiset().count(left[i]) > 0);
        assert(right.contains(left[i]));
        let j = choose|j: int| 0 <= j < right.len() && right[j] == left[i];
        assert(right[j].stake > 0);
    }
    assert(right.no_duplicates()) by {
        assert forall|i: int, j: int|
            0 <= i < right.len() && 0 <= j < right.len() && i != j implies right[i] != right[j] by {
            if i < j {
                assert(right[i].id != right[j].id);
            } else {
                assert(right[j].id != right[i].id);
            }
        }
    }
    right.lemma_multiset_has_no_duplicates();
    left.lemma_multiset_has_no_duplicates_conv();
    assert forall|i: int, j: int| #![trigger left[i], left[j]]
        0 <= i < j < left.len() implies left[i].id != left[j].id by {
        assert(left.contains(left[i]) && left.contains(left[j]));
        assert(left.to_multiset().count(left[i]) > 0);
        assert(left.to_multiset().count(left[j]) > 0);
        assert(right.contains(left[i]) && right.contains(left[j]));
        let a = choose|a: int| 0 <= a < right.len() && right[a] == left[i];
        let b = choose|b: int| 0 <= b < right.len() && right[b] == left[j];
        assert(left[i] != left[j]);
        if a < b {
            assert(right[a].id != right[b].id);
        } else {
            assert(right[b].id != right[a].id);
        }
    }
}

/// Nothing about the shreds alone is refused.
spec fn sample_accepted(shreds: Seq<ShredModel>) -> bool {
    &&& shreds.len() > 0
    &&& config_check(shreds[0].data_shards as nat, shreds[0].parity_shards as nat) is Ok
    &&& first_refusal(shreds, shreds.len()) is None
    &&& shreds.len() >= shreds[0].data_shards
    &&& shreds[0].payload.len() > 0
}

proof fn lemma_shard_length_positive(length: nat, data: nat)
    requires
        data > 0,
    ensures
        shard_length(length, data) > 0,
        length <= data * shard_length(length, data),
{
    let sum = (length + data - 1) as int;
    let count = data as int;
    let q = sum / count;
    vstd::arithmetic::div_mod::lemma_fundamental_div_mod(sum, count);
    assert(0 <= q && length <= count * q) by (nonlinear_arith)
        requires
            sum == count * q + sum % count,
            sum == length + count - 1,
            count > 0,
            0 <= sum % count < count,
    ;
    if q == 0 {
        assert(count * q == 0) by (nonlinear_arith)
            requires
                q == 0,
        ;
    } else {
        assert(shard_length(length, data) == q);
    }
}

proof fn lemma_sample_accepted(shreds: Seq<ShredModel>, block: Seq<u8>, data: nat, parity: nat)
    requires
        sample_of(shreds, block, data, parity),
    ensures
        sample_accepted(shreds),
        shreds[0].data_shards == data,
        shreds[0].parity_shards == parity,
{
    lemma_shard_length_positive(block.len(), data);
    let all = shreds_of(block, data, parity);
    assert(shreds[0] == all[shreds[0].index as int]);
    lemma_sample_not_refused(shreds, block, data, parity, shreds.len());
}

proof fn lemma_sample_not_refused(
    shreds: Seq<ShredModel>,
    block: Seq<u8>,
    data: nat,
    parity: nat,
    count: nat,
)
    requires
        sample_of(shreds, block, data, parity),
        count <= shreds.len(),
    ensures
        first_refusal(shreds, count) is None,
    decreases count,
{
    if count > 0 {
        lemma_sample_not_refused(shreds, block, data, parity, (count - 1) as nat);
        let all = shreds_of(block, data, parity);
        let shred = shreds[count - 1];
        assert(shreds[0] == all[shreds[0].index as int]);
        assert(shred == all[shred.index as int]);
        assert forall|j: int| 0 <= j < count - 1 implies (#[trigger] shreds[j]).index
            != shred.index by {
            assert(shreds[j].index != shreds[count - 1].index);
        }
    }
}

/// The shreds of a block fill the slots of its code word.
proof fn lemma_sample_slots(shreds: Seq<ShredModel>, block: Seq<u8>, data: nat, parity: nat)
    requires
        sample_of(shreds, block, data, parity),
    ensures
        slots_agree(
            slots_of(shreds, data + parity),
            code_word(data_shards_of(block, data), parity),
        ),
{
    let word = code_word(data_shards_of(block, data), parity);
    let slots = slots_of(shreds, data + parity);
    assert forall|i: int| 0 <= i < slots.len() implies (#[trigger] slots[i] matches Some(bytes)
        ==> bytes == word[i]) by {
        lemma_slot_is_shred(shreds, shreds.len() as int, i);
        if slots[i] is Some {
            let j = choose|j: int|
                0 <= j < shreds.len() && (#[trigger] shreds[j]).index == i && slots[i] == Some(
                    shreds[j].payload,
                );
            assert(shreds[j] == shreds_of(block, data, parity)[i]);
        }
    }
}

proof fn lemma_slot_is_shred(shreds: Seq<ShredModel>, count: int, index: int)
    requires
        0 <= count <= shreds.len(),
    ensures
        slot_of(shreds.take(count), index) is Some ==> exists|j: int|
            0 <= j < count && (#[trigger] shreds[j]).index == index && slot_of(
                shreds.take(count),
                index,
            ) == Some(shreds[j].payload),
        count == shreds.len() ==> slot_of(shreds.take(count), index) == slot_of(shreds, index),
    decreases count,
{
    if count == shreds.len() {
        assert(shreds.take(count) =~= shreds);
    }
    if count > 0 {
        lemma_slot_is_shred(shreds, count - 1, index);
        assert(shreds.take(count).drop_last() =~= shreds.take(count - 1));
        assert(shreds.take(count).last() == shreds[count - 1]);
        if shreds[count - 1].index == index {
            assert(slot_of(shreds.take(count), index) == Some(shreds[count - 1].payload));
        }
    }
}

proof fn lemma_data_shards(block: Seq<u8>, data: nat)
    requires
        data > 0,
    ensures
        data_shards_of(block, data).len() == data,
        same_length(data_shards_of(block, data), shard_length(block.len(), data)),
{
    let length = shard_length(block.len(), data) as int;
    let shards = data_shards_of(block, data);
    lemma_shard_length_positive(block.len(), data);
    assert forall|j: int| 0 <= j < shards.len() implies (#[trigger] shards[j]).len() == length by {
        lemma_shard_bounds(j, data as int, length);
    }
}

proof fn lemma_shard_bounds(j: int, data: int, length: int)
    requires
        0 <= j < data,
        0 <= length,
    ensures
        0 <= j * length,
        (j + 1) * length == j * length + length,
        (j + 1) * length <= data * length,
{
    assert((j + 1) * length == j * length + length) by (nonlinear_arith);
    assert((j + 1) * length <= data * length) by (nonlinear_arith)
        requires
            j + 1 <= data,
            0 <= length,
    ;
    assert(0 <= j * length) by (nonlinear_arith)
        requires
            0 <= j,
            0 <= length,
    ;
}

/// The data shards of a block, one after another, are the block followed by
/// zeros: cut to its length, they give it back.
pub proof fn law_data_shards_hold_the_block(block: Seq<u8>, data: nat)
    requires
        data > 0,
    ensures
        joined(data_shards_of(block, data)).len() >= block.len(),
        joined(data_shards_of(block, data)).take(block.len() as int) == block,
{
    let length = shard_length(block.len(), data);
    let shards = data_shards_of(block, data);
    lemma_shard_length_positive(block.len(), data);
    lemma_joined_prefix(block, data, data);
    assert(shards.take(data as int) =~= shards);
    let whole = padded(block, data * length);
    assert(whole.take((data * length) as int) =~= whole);
    assert(joined(shards) == whole);
    assert(whole.take(block.len() as int) =~= block);
}

proof fn lemma_joined_prefix(block: Seq<u8>, data: nat, count: nat)
    requires
        data > 0,
        count <= data,
    ensures
        joined(data_shards_of(block, data).take(count as int)) == padded(
            block,
            data * shard_length(block.len(), data),
        ).take((count * shard_length(block.len(), data)) as int),
    decreases count,
{
    let length = shard_length(block.len(), data);
    let shards = data_shards_of(block, data);
    let whole = padded(block, data * length);
    if count > 0 {
        let j = count - 1;
        lemma_joined_prefix(block, data, j as nat);
        lemma_shard_bounds(j, data as int, length as int);
        assert(shards.take(count as int).drop_last() =~= shards.take(j));
        assert(shards.take(count as int).last() == shards[j]);
        assert(shards[j] == whole.subrange(j * length, (j + 1) * length));
        assert(whole.take((count * length) as int) =~= whole.take((j * length) as int)
            + whole.subrange(j * length, (j + 1) * length));
    } else {
        assert(0 * length == 0);
        assert(whole.take(0) =~= Seq::<u8>::empty());
    }
}

/// The plan does not depend on the order in which candidates are listed: there
/// is one ascending order of candidates with distinct identities.
pub proof fn law_relay_plan_ignores_candidate_order(
    candidates: Seq<RelayCandidate>,
    reordered: Seq<RelayCandidate>,
    sorted: Seq<RelayCandidate>,
    resorted: Seq<RelayCandidate>,
)
    requires
        candidates_valid(candidates),
        reordered.to_multiset() == candidates.to_multiset(),
        sorted.to_multiset() == candidates.to_multiset(),
        resorted.to_multiset() == reordered.to_multiset(),
        ascending::<Hash256, RelayCandidate>(sorted),
        ascending::<Hash256, RelayCandidate>(resorted),
    ensures
        sorted == resorted,
{
    lemma_valid_permutation(sorted, candidates);
    crate::ordered::lemma_ascending_unique::<Hash256, RelayCandidate>(sorted, resorted);
}

/// Every shred is held by exactly `copies` relays: the one whose turn it is
/// and its next neighbours.
pub proof fn law_each_shred_has_its_replicas(offset: int, relays: int, copies: int, position: int)
    requires
        0 <= offset,
        0 < copies <= relays,
        0 <= position < relays,
    ensures
        holds(position, offset, relays, copies) <==> exists|copy: int|
            0 <= copy < copies && position == #[trigger] ((offset + copy) % relays),
        forall|a: int, b: int|
            0 <= a < b < copies ==> #[trigger] ((offset + a) % relays) != #[trigger] ((offset + b)
                % relays),
{
    let distance = (position - offset) % relays;
    vstd::arithmetic::div_mod::lemma_fundamental_div_mod(position - offset, relays);
    let q = (position - offset) / relays;
    assert(0 <= distance < relays) by (nonlinear_arith)
        requires
            distance == (position - offset) % relays,
            relays > 0,
    ;
    assert(offset + distance == (-q) * relays + position) by (nonlinear_arith)
        requires
            position - offset == relays * q + distance,
    ;
    vstd::arithmetic::div_mod::lemma_fundamental_div_mod_converse(
        offset + distance,
        relays,
        -q,
        position,
    );
    assert forall|a: int, b: int| 0 <= a < b < copies implies #[trigger] ((offset + a) % relays)
        != #[trigger] ((offset + b) % relays) by {
        lemma_turns_differ(offset, relays, a, b);
    }
    if exists|copy: int|
        0 <= copy < copies && position == #[trigger] ((offset + copy) % relays) {
        let copy = choose|copy: int|
            0 <= copy < copies && position == #[trigger] ((offset + copy) % relays);
        if copy < distance {
            lemma_turns_differ(offset, relays, copy, distance);
        } else if distance < copy {
            lemma_turns_differ(offset, relays, distance, copy);
        }
    }
}

proof fn lemma_turns_differ(offset: int, relays: int, a: int, b: int)
    requires
        0 <= offset,
        0 <= a < b < relays,
    ensures
        (offset + a) % relays != (offset + b) % relays,
{
    let p = (offset + a) / relays;
    let q = (offset + b) / relays;
    vstd::arithmetic::div_mod::lemma_fundamental_div_mod(offset + a, relays);
    vstd::arithmetic::div_mod::lemma_fundamental_div_mod(offset + b, relays);
    if (offset + a) % relays == (offset + b) % relays {
        assert(b - a == relays * (q - p)) by (nonlinear_arith)
            requires
                offset + a == relays * p + (offset + a) % relays,
                offset + b == relays * q + (offset + b) % relays,
                (offset + a) % relays == (offset + b) % relays,
        ;
        assert(false) by (nonlinear_arith)
            requires
                b - a == relays * (q - p),
                0 < b - a < relays,
        ;
    }
}

} // verus!
