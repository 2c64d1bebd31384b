//! Canonical genesis and its validation.

use vstd::prelude::*;
use vstd::utf8::encode_utf8;

use crate::bytes::{append, copy_bytes};
use crate::consensus::errors::ConsensusError;
use crate::consensus::validators::{
    by_identity, formed_from, identity, law_listing_order_does_not_matter, models, valid_table,
    Validator, ValidatorModel, ValidatorSet,
};
use crate::consensus::votes::SlashingPolicy;
use crate::crypto::{Bls12381Scheme, CryptoError, BLS12381_SCHEME_ID, ED25519_SCHEME_ID};
use crate::node::payload::MAXIMUM_ENCODED_LENGTH;
use crate::ordered::{
    ascending_by, distinct_by, lemma_ascending_by_unique, lemma_distinct_by, lemma_map_multiset,
    lemma_two_places, sort_by_key, sorted_keys, Keyed, OrderedMap, SortKey,
};
use crate::types::{hash_of, Address, Hash256, Object, ObjectModel, Owner, SchemeId};

verus! {

pub const GENESIS_FORMAT_VERSION: u16 = 1;

pub const MIN_VALIDATORS: usize = 4;

pub const MAX_VALIDATORS: usize = 500;

/// Public validator identity and advertised endpoints committed at genesis.
///
/// `network_address` carries the consensus transport; `gossip_peer_id` and
/// `gossip_address` carry the separate transport used for transaction gossip and
/// shred relay. The two transports are a deliberate split.
#[derive(Debug, PartialEq, Eq)]
pub struct GenesisValidator {
    pub name: String,
    pub validator: Validator,
    pub network_address: String,
    pub rpc_address: String,
    pub gossip_peer_id: String,
    pub gossip_address: String,
}

/// The value of an entry of the validator list.
pub struct EntryModel {
    pub name: Seq<char>,
    pub validator: ValidatorModel,
    pub network_address: Seq<char>,
    pub rpc_address: Seq<char>,
    pub gossip_peer_id: Seq<char>,
    pub gossip_address: Seq<char>,
}

impl View for GenesisValidator {
    type V = EntryModel;

    open spec fn view(&self) -> EntryModel {
        EntryModel {
            name: self.name@,
            validator: self.validator@,
            network_address: self.network_address@,
            rpc_address: self.rpc_address@,
            gossip_peer_id: self.gossip_peer_id@,
            gossip_address: self.gossip_address@,
        }
    }
}

impl Keyed<Hash256> for GenesisValidator {
    open spec fn sort_key(&self) -> Hash256 {
        self.validator.id
    }

    fn key(&self) -> (key: Hash256) {
        self.validator.id
    }
}

impl Keyed<Hash256> for Object {
    open spec fn sort_key(&self) -> Hash256 {
        self.id
    }

    fn key(&self) -> (key: Hash256) {
        self.id
    }
}

/// A scheme in a list that is sorted by scheme.
impl Keyed<u16> for u16 {
    open spec fn sort_key(&self) -> u16 {
        *self
    }

    fn key(&self) -> (key: u16) {
        *self
    }
}

/// Canonical genesis input. It never contains private keys.
#[derive(Debug)]
pub struct GenesisDocument {
    pub format_version: u16,
    pub chain_id: String,
    pub genesis_unix_ms: u64,
    pub blocks_per_epoch: u64,
    /// The settings of the object state in their canonical encoding, which this
    /// library commits to and does not look into.
    pub state_config: Vec<u8>,
    pub active_signature_schemes: Vec<SchemeId>,
    pub equivocation_slash_basis_points: u16,
    pub validators: Vec<GenesisValidator>,
    pub initial_objects: Vec<Object>,
    /// Fee-ledger balances seeded at genesis, keyed by sender address. Absent
    /// senders start at a zero balance and must be funded before any of their
    /// transactions can settle.
    pub initial_fee_balances: OrderedMap<Address, u128>,
}

/// The value of a genesis document, with the fee balances listed by address.
#[verifier::ext_equal]
pub struct GenesisModel {
    pub format_version: u16,
    pub chain_id: Seq<char>,
    pub genesis_unix_ms: u64,
    pub blocks_per_epoch: u64,
    pub state_config: Seq<u8>,
    pub active_signature_schemes: Seq<SchemeId>,
    pub equivocation_slash_basis_points: u16,
    pub validators: Seq<EntryModel>,
    pub initial_objects: Seq<ObjectModel>,
    pub initial_fee_balances: Seq<([u8; 32], u128)>,
}

/// The values of entries.
pub open spec fn entry_models(entries: Seq<GenesisValidator>) -> Seq<EntryModel> {
    entries.map_values(|entry: GenesisValidator| entry@)
}

/// The values of objects.
pub open spec fn object_models(objects: Seq<Object>) -> Seq<ObjectModel> {
    objects.map_values(|object: Object| object@)
}

/// Balances as a list by address.
pub open spec fn balance_list(balances: Map<Address, u128>) -> Seq<([u8; 32], u128)> {
    sorted_keys(balances.dom()).map_values(|address: Address| (address.bytes, balances[address]))
}

impl View for GenesisDocument {
    type V = GenesisModel;

    open spec fn view(&self) -> GenesisModel {
        GenesisModel {
            format_version: self.format_version,
            chain_id: self.chain_id@,
            genesis_unix_ms: self.genesis_unix_ms,
            blocks_per_epoch: self.blocks_per_epoch,
            state_config: self.state_config@,
            active_signature_schemes: self.active_signature_schemes@,
            equivocation_slash_basis_points: self.equivocation_slash_basis_points,
            validators: entry_models(self.validators@),
            initial_objects: object_models(self.initial_objects@),
            initial_fee_balances: balance_list(self.initial_fee_balances@),
        }
    }
}

/// Validated roots and stake table derived solely from canonical genesis.
pub struct ValidatedGenesis {
    pub genesis_hash: Hash256,
    pub state_root: Hash256,
    pub validators: ValidatorSet,
}

/// Why a genesis document was refused.
#[derive(Debug, PartialEq, Eq)]
pub enum GenesisError {
    UnsupportedFormat(u16),
    /// The chain ID must be 1-64 ASCII letters, digits, '-' or '_'.
    InvalidChainId,
    /// The genesis timestamp must be nonzero.
    InvalidGenesisTime,
    /// Blocks per epoch must be nonzero.
    InvalidBlocksPerEpoch,
    /// The validator count is outside the supported 4-500 range.
    ValidatorCount(usize),
    /// Active schemes must uniquely contain the supported Ed25519 and BLS IDs.
    InvalidSignatureSchemes,
    /// Validator names and endpoints must be nonempty and unique.
    InvalidValidatorMetadata,
    Consensus(ConsensusError),
    Crypto(CryptoError),
    State(String),
    Encoding(String),
    Io(String),
    Json(String),
}

/// A text without the white space at its start and end.
pub uninterp spec fn without_outer_space(text: Seq<char>) -> Seq<char>;

/// Calls `str::trim`, which leaves out leading and trailing white space as
/// Unicode defines it. Claimed: the result depends on the text alone and is no
/// longer than it.
#[verifier::external_body]
fn trimmed(text: &str) -> (rest: String)
    ensures
        rest@ == without_outer_space(text@),
        rest@.len() <= text@.len(),
{
    text.trim().to_owned()
}

/// Whether a text is a gossip peer identity.
pub uninterp spec fn is_peer_id(text: Seq<char>) -> bool;

/// Calls `libp2p::PeerId`'s text parser. Claimed: whether it accepts a text
/// depends on the text alone.
#[verifier::external_body]
fn parses_as_peer_id(text: &str) -> (valid: bool)
    ensures
        valid == is_peer_id(text@),
{
    text.parse::<libp2p::PeerId>().is_ok()
}

/// Whether a text is a multiaddress.
pub uninterp spec fn is_multiaddress(text: Seq<char>) -> bool;

/// Calls `libp2p::Multiaddr`'s text parser. Claimed: whether it accepts a text
/// depends on the text alone.
#[verifier::external_body]
fn parses_as_multiaddress(text: &str) -> (valid: bool)
    ensures
        valid == is_multiaddress(text@),
{
    text.parse::<libp2p::Multiaddr>().is_ok()
}

/// Whether a text is empty or white space.
pub open spec fn is_blank(text: Seq<char>) -> bool {
    without_outer_space(text).len() == 0
}

fn blank(text: &String) -> (empty: bool)
    ensures
        empty == is_blank(text@),
{
    let rest = trimmed(text.as_str());
    let empty = rest.as_str().is_empty();
    proof {
        if rest@.len() == 0 {
            assert(rest@ =~= Seq::<char>::empty());
        }
    }
    empty
}

/// Whether a byte may stand in a chain ID.
pub open spec fn chain_id_byte(byte: u8) -> bool {
    ||| 48 <= byte <= 57
    ||| 65 <= byte <= 90
    ||| 97 <= byte <= 122
    ||| byte == 45
    ||| byte == 95
}

/// Whether a chain ID has 1-64 ASCII letters, digits, '-' or '_'.
pub open spec fn valid_chain_id(bytes: Seq<u8>) -> bool {
    &&& 1 <= bytes.len() <= 64
    &&& forall|i: int| 0 <= i < bytes.len() ==> chain_id_byte(#[trigger] bytes[i])
}

fn is_valid_chain_id(chain_id: &String) -> (valid: bool)
    ensures
        valid == valid_chain_id(encode_utf8(chain_id@)),
{
    let bytes = chain_id.as_str().as_bytes();
    if bytes.len() == 0 || bytes.len() > 64 {
        return false;
    }
    let mut index: usize = 0;
    while index < bytes.len()
        invariant
            index <= bytes@.len(),
            bytes@ == encode_utf8(chain_id@),
            forall|i: int| 0 <= i < index ==> chain_id_byte(#[trigger] bytes@[i]),
        decreases bytes@.len() - index,
    {
        let byte: u8 = bytes[index];
        if !((48 <= byte && byte <= 57) || (65 <= byte && byte <= 90) || (97 <= byte && byte <= 122)
            || byte == 45 || byte == 95) {
            return false;
        }
        index += 1;
    }
    true
}

/// Whether the schemes are the two supported ones, each once.
pub open spec fn valid_schemes(schemes: Seq<SchemeId>) -> bool {
    &&& schemes.no_duplicates()
    &&& schemes.contains(ED25519_SCHEME_ID)
    &&& schemes.contains(BLS12381_SCHEME_ID)
    &&& forall|i: int|
        0 <= i < schemes.len() ==> #[trigger] schemes[i] == ED25519_SCHEME_ID || schemes[i]
            == BLS12381_SCHEME_ID
}

fn are_valid_schemes(schemes: &[SchemeId]) -> (valid: bool)
    ensures
        valid == valid_schemes(schemes@),
{
    let valid = schemes.len() == 2 && ((schemes[0] == ED25519_SCHEME_ID && schemes[1]
        == BLS12381_SCHEME_ID) || (schemes[0] == BLS12381_SCHEME_ID && schemes[1]
        == ED25519_SCHEME_ID));
    proof {
        if valid {
            assert(schemes@.contains(schemes@[0]) && schemes@.contains(schemes@[1]));
        }
        if valid_schemes(schemes@) {
            let i = choose|i: int| 0 <= i < schemes@.len() && schemes@[i] == ED25519_SCHEME_ID;
            let j = choose|j: int| 0 <= j < schemes@.len() && schemes@[j] == BLS12381_SCHEME_ID;
            if schemes@.len() > 2 {
                let k = if i != 0 && j != 0 {
                    0int
                } else if i != 1 && j != 1 {
                    1int
                } else {
                    2int
                };
                assert(schemes@[k] == schemes@[i] || schemes@[k] == schemes@[j]);
            }
            assert(schemes@[0] == ED25519_SCHEME_ID || schemes@[0] == BLS12381_SCHEME_ID);
            assert(schemes@[1] == ED25519_SCHEME_ID || schemes@[1] == BLS12381_SCHEME_ID);
        }
    }
    valid
}

/// Whether an entry shares none of its texts with an earlier entry.
pub open spec fn is_distinct(entries: Seq<EntryModel>, i: int, j: int) -> bool {
    &&& entries[i].name != entries[j].name
    &&& entries[i].network_address != entries[j].network_address
    &&& entries[i].rpc_address != entries[j].rpc_address
    &&& entries[i].gossip_peer_id != entries[j].gossip_peer_id
    &&& entries[i].gossip_address != entries[j].gossip_address
}

/// Whether the texts of an entry are usable by themselves.
pub open spec fn usable_entry(entry: EntryModel) -> bool {
    &&& !is_blank(entry.name)
    &&& !is_blank(entry.network_address)
    &&& !is_blank(entry.rpc_address)
    &&& is_peer_id(entry.gossip_peer_id)
    &&& is_multiaddress(entry.gossip_address)
}

/// Whether names and endpoints are usable and unique.
pub open spec fn valid_metadata(entries: Seq<EntryModel>) -> bool {
    &&& forall|i: int| 0 <= i < entries.len() ==> usable_entry(#[trigger] entries[i])
    &&& forall|i: int, j: int|
        0 <= i < j < entries.len() ==> #[trigger] is_distinct(entries, i, j)
}

fn are_distinct(entries: &[GenesisValidator], i: usize, j: usize) -> (distinct: bool)
    requires
        i < entries@.len(),
        j < entries@.len(),
    ensures
        distinct == is_distinct(entry_models(entries@), i as int, j as int),
{
    let left = &entries[i];
    let right = &entries[j];
    left.name != right.name && left.network_address != right.network_address && left.rpc_address
        != right.rpc_address && left.gossip_peer_id != right.gossip_peer_id && left.gossip_address
        != right.gossip_address
}

fn is_valid_metadata(entries: &[GenesisValidator]) -> (valid: bool)
    ensures
        valid == valid_metadata(entry_models(entries@)),
{
    let ghost values = entry_models(entries@);
    let mut j: usize = 0;
    while j < entries.len()
        invariant
            j <= entries@.len(),
            values == entry_models(entries@),
            forall|k: int| 0 <= k < j ==> usable_entry(#[trigger] values[k]),
            forall|a: int, b: int| 0 <= a < b < j ==> #[trigger] is_distinct(values, a, b),
        decreases entries@.len() - j,
    {
        let entry = &entries[j];
        assert(values[j as int] == entry@);
        if blank(&entry.name) || blank(&entry.network_address) || blank(&entry.rpc_address)
            || !parses_as_peer_id(entry.gossip_peer_id.as_str()) || !parses_as_multiaddress(
            entry.gossip_address.as_str(),
        ) {
            assert(!usable_entry(values[j as int]));
            return false;
        }
        let mut i: usize = 0;
        while i < j
            invariant
                i <= j < entries@.len(),
                values == entry_models(entries@),
                forall|a: int| 0 <= a < i ==> #[trigger] is_distinct(values, a, j as int),
            decreases j - i,
        {
            if !are_distinct(entries, i, j) {
                return false;
            }
            i += 1;
        }
        j += 1;
    }
    true
}

/// The validators of entries.
pub open spec fn entry_validators(entries: Seq<EntryModel>) -> Seq<ValidatorModel> {
    entries.map_values(|entry: EntryModel| entry.validator)
}

/// Why a document is refused before its validators are looked at.
pub open spec fn refusal(document: GenesisModel) -> Option<GenesisError> {
    if document.format_version != GENESIS_FORMAT_VERSION {
        Some(GenesisError::UnsupportedFormat(document.format_version))
    } else if !valid_chain_id(encode_utf8(document.chain_id)) {
        Some(GenesisError::InvalidChainId)
    } else if document.genesis_unix_ms == 0 {
        Some(GenesisError::InvalidGenesisTime)
    } else if document.blocks_per_epoch == 0 {
        Some(GenesisError::InvalidBlocksPerEpoch)
    } else if !(MIN_VALIDATORS <= document.validators.len() <= MAX_VALIDATORS) {
        Some(GenesisError::ValidatorCount(document.validators.len() as usize))
    } else if !valid_schemes(document.active_signature_schemes) {
        Some(GenesisError::InvalidSignatureSchemes)
    } else if !(1 <= document.equivocation_slash_basis_points <= 10_000) {
        Some(GenesisError::Consensus(ConsensusError::InvalidSlashBasisPoints))
    } else if !valid_metadata(document.validators) {
        Some(GenesisError::InvalidValidatorMetadata)
    } else {
        None
    }
}

/// What checking a document gives, before its state is built: its stake table,
/// or why it is refused.
pub open spec fn checked_as(
    document: GenesisModel,
    result: Result<ValidatorSet, GenesisError>,
) -> bool {
    match refusal(document) {
        Some(refused) => result == Err::<ValidatorSet, GenesisError>(refused),
        None => match result {
            Ok(set) => formed_from(
                entry_validators(document.validators),
                Bls12381Scheme,
                Ok::<ValidatorSet, ConsensusError>(set),
            ),
            Err(GenesisError::Consensus(error)) => formed_from(
                entry_validators(document.validators),
                Bls12381Scheme,
                Err::<ValidatorSet, ConsensusError>(error),
            ),
            Err(_) => false,
        },
    }
}

impl GenesisDocument {
    /// Checks every consensus parameter and forms the stake table.
    ///
    /// # Errors
    ///
    /// Rejects malformed identifiers, endpoint collisions, unsupported schemes and
    /// invalid validator keys or stake.
    pub fn check(&self) -> (result: Result<ValidatorSet, GenesisError>)
        ensures
            checked_as(self@, result),
    {
        if self.format_version != GENESIS_FORMAT_VERSION {
            return Err(GenesisError::UnsupportedFormat(self.format_version));
        }
        if !is_valid_chain_id(&self.chain_id) {
            return Err(GenesisError::InvalidChainId);
        }
        if self.genesis_unix_ms == 0 {
            return Err(GenesisError::InvalidGenesisTime);
        }
        if self.blocks_per_epoch == 0 {
            return Err(GenesisError::InvalidBlocksPerEpoch);
        }
        let count: usize = self.validators.len();
        if count < MIN_VALIDATORS || count > MAX_VALIDATORS {
            return Err(GenesisError::ValidatorCount(count));
        }
        if !are_valid_schemes(&self.active_signature_schemes) {
            return Err(GenesisError::InvalidSignatureSchemes);
        }
        match SlashingPolicy::new(self.equivocation_slash_basis_points) {
            Ok(_) => {},
            Err(error) => {
                return Err(GenesisError::Consensus(error));
            },
        }
        if !is_valid_metadata(&self.validators) {
            return Err(GenesisError::InvalidValidatorMetadata);
        }
        let mut list: Vec<Validator> = Vec::new();
        let mut index: usize = 0;
        assert(models(list@) =~= entry_validators(self@.validators).take(0));
        while index < self.validators.len()
            invariant
                index <= self.validators@.len(),
                models(list@) == entry_validators(self@.validators).take(index as int),
            decreases self.validators@.len() - index,
        {
            let ghost before = models(list@);
            list.push(self.validators[index].validator.clone());
            proof {
                assert(models(list@) =~= before.push(list@.last()@));
                assert(models(list@) =~= entry_validators(self@.validators).take(index + 1));
            }
            index += 1;
        }
        assert(models(list@) =~= entry_validators(self@.validators));
        match ValidatorSet::new(list, &Bls12381Scheme) {
            Ok(set) => Ok(set),
            Err(error) => Err(GenesisError::Consensus(error)),
        }
    }

    /// Validates every consensus and state parameter and derives deterministic
    /// roots, given the root of the state that the initial objects make, or why
    /// they make none.
    ///
    /// # Errors
    ///
    /// Rejects what the check of the document rejects, after it invalid rent or
    /// duplicate objects, and last what cannot be encoded.
    pub fn validate(&self, state_root: Result<Hash256, String>) -> (result: Result<
        ValidatedGenesis,
        GenesisError,
    >)
        ensures
            validated_as(self@, state_root, result),
    {
        let validators = match self.check() {
            Ok(set) => set,
            Err(error) => {
                return Err(error);
            },
        };
        match state_root {
            Err(reason) => Err(GenesisError::State(reason)),
            Ok(state_root) => match self.canonical_bytes() {
                Err(error) => Err(error),
                Ok(bytes) => Ok(
                    ValidatedGenesis {
                        genesis_hash: Hash256::digest(&bytes),
                        state_root,
                        validators,
                    },
                ),
            },
        }
    }

    /// The canonical encoding of the document, in which validators, objects and
    /// schemes are listed in ascending order.
    ///
    /// # Errors
    ///
    /// Fails where a list or a text is too long to be encoded.
    pub fn canonical_bytes(&self) -> (result: Result<Vec<u8>, GenesisError>)
        ensures
            match result {
                Ok(bytes) => encodable_genesis(self@) && is_canonical_encoding(self@, bytes@),
                Err(error) => error is Encoding && !encodable_genesis(self@),
            },
    {
        let normal = self.clone().normalized();
        proof {
            lemma_encodable_in_any_order(self@, normal@);
        }
        let validators = entry_fields(&normal.validators);
        let objects = object_fields(&normal.initial_objects);
        let balances = balance_fields(&normal.initial_fee_balances);
        assert(entries_of(validators@) == normal@.validators);
        assert(objects_of(objects@) == normal@.initial_objects);
        let mut bytes = match encode_parameters(
            normal.format_version,
            &normal.chain_id,
            normal.genesis_unix_ms,
            normal.blocks_per_epoch,
        ) {
            Ok(bytes) => bytes,
            Err(reason) => {
                return Err(GenesisError::Encoding(reason));
            },
        };
        let lists = match encode_lists(
            &normal.active_signature_schemes,
            normal.equivocation_slash_basis_points,
            &validators,
            &objects,
            &balances,
        ) {
            Ok(lists) => lists,
            Err(reason) => {
                return Err(GenesisError::Encoding(reason));
            },
        };
        append(&mut bytes, &normal.state_config);
        append(&mut bytes, &lists);
        assert(bytes@ == genesis_encoding(normal@));
        Ok(bytes)
    }

    /// The document in the form that is encoded: validators and objects by
    /// identity, schemes by number.
    pub fn normalized(self) -> (document: GenesisDocument)
        ensures
            normal_form_of(document@, self@),
    {
        let document = GenesisDocument {
            format_version: self.format_version,
            chain_id: self.chain_id,
            genesis_unix_ms: self.genesis_unix_ms,
            blocks_per_epoch: self.blocks_per_epoch,
            state_config: self.state_config,
            active_signature_schemes: sort_by_key::<u16, u16>(self.active_signature_schemes),
            equivocation_slash_basis_points: self.equivocation_slash_basis_points,
            validators: sort_by_key::<Hash256, GenesisValidator>(self.validators),
            initial_objects: sort_by_key::<Hash256, Object>(self.initial_objects),
            initial_fee_balances: self.initial_fee_balances,
        };
        proof {
            let entry_value = |entry: GenesisValidator| entry@;
            lemma_map_multiset(document.validators@, self.validators@, entry_value);
            assert(entry_models(document.validators@) =~= document.validators@.map_values(entry_value));
            assert(entry_models(self.validators@) =~= self.validators@.map_values(entry_value));
            let object_value = |object: Object| object@;
            lemma_map_multiset(document.initial_objects@, self.initial_objects@, object_value);
            assert(object_models(document.initial_objects@)
                =~= document.initial_objects@.map_values(object_value));
            assert(object_models(self.initial_objects@) =~= self.initial_objects@.map_values(
                object_value,
            ));
            let entries = document@.validators;
            assert forall|i: int, j: int| #![trigger entries[i], entries[j]]
                0 <= i < j < entries.len() implies !entry_identity()(entries[j]).precedes(
                entry_identity()(entries[i]),
            ) by {
                assert(!document.validators@[j].sort_key().precedes(
                    document.validators@[i].sort_key(),
                ));
            }
            let objects = document@.initial_objects;
            assert forall|i: int, j: int| #![trigger objects[i], objects[j]]
                0 <= i < j < objects.len() implies !object_identity()(objects[j]).precedes(
                object_identity()(objects[i]),
            ) by {
                assert(!document.initial_objects@[j].sort_key().precedes(
                    document.initial_objects@[i].sort_key(),
                ));
            }
            let schemes = document@.active_signature_schemes;
            assert forall|i: int, j: int| #![trigger schemes[i], schemes[j]]
                0 <= i < j < schemes.len() implies !scheme_number()(schemes[j]).precedes(
                scheme_number()(schemes[i]),
            ) by {
                assert(!schemes[j].sort_key().precedes(schemes[i].sort_key()));
            }
        }
        document
    }
}

impl Clone for GenesisValidator {
    fn clone(&self) -> (copy: Self)
        ensures
            copy@ == self@,
    {
        GenesisValidator {
            name: self.name.clone(),
            validator: self.validator.clone(),
            network_address: self.network_address.clone(),
            rpc_address: self.rpc_address.clone(),
            gossip_peer_id: self.gossip_peer_id.clone(),
            gossip_address: self.gossip_address.clone(),
        }
    }
}

impl Clone for GenesisDocument {
    fn clone(&self) -> (copy: Self)
        ensures
            copy@ == self@,
    {
        let mut schemes: Vec<SchemeId> = Vec::new();
        let mut position: usize = 0;
        while position < self.active_signature_schemes.len()
            invariant
                position <= self.active_signature_schemes@.len(),
                schemes@ == self.active_signature_schemes@.take(position as int),
            decreases self.active_signature_schemes@.len() - position,
        {
            schemes.push(self.active_signature_schemes[position]);
            position += 1;
            assert(schemes@ =~= self.active_signature_schemes@.take(position as int));
        }
        assert(schemes@ =~= self.active_signature_schemes@);
        let mut validators: Vec<GenesisValidator> = Vec::new();
        position = 0;
        while position < self.validators.len()
            invariant
                position <= self.validators@.len(),
                entry_models(validators@) == entry_models(self.validators@).take(position as int),
            decreases self.validators@.len() - position,
        {
            let ghost before = entry_models(validators@);
            validators.push(self.validators[position].clone());
            assert(entry_models(validators@) =~= before.push(self.validators@[position as int]@));
            position += 1;
            assert(entry_models(validators@) =~= entry_models(self.validators@).take(position as int));
        }
        assert(entry_models(validators@) =~= entry_models(self.validators@));
        let mut objects: Vec<Object> = Vec::new();
        position = 0;
        while position < self.initial_objects.len()
            invariant
                position <= self.initial_objects@.len(),
                object_models(objects@) == object_models(self.initial_objects@).take(
                    position as int,
                ),
            decreases self.initial_objects@.len() - position,
        {
            let ghost before = object_models(objects@);
            let object = &self.initial_objects[position];
            objects.push(
                Object {
                    id: object.id,
                    owner: object.owner,
                    type_tag: object.type_tag.clone(),
                    version: object.version,
                    data: copy_bytes(&object.data),
                    rent_balance: object.rent_balance,
                },
            );
            assert(object_models(objects@) =~= before.push(self.initial_objects@[position as int]@));
            position += 1;
            assert(object_models(objects@) =~= object_models(self.initial_objects@).take(
                position as int,
            ));
        }
        assert(object_models(objects@) =~= object_models(self.initial_objects@));
        GenesisDocument {
            format_version: self.format_version,
            chain_id: self.chain_id.clone(),
            genesis_unix_ms: self.genesis_unix_ms,
            blocks_per_epoch: self.blocks_per_epoch,
            state_config: copy_bytes(&self.state_config),
            active_signature_schemes: schemes,
            equivocation_slash_basis_points: self.equivocation_slash_basis_points,
            validators,
            initial_objects: objects,
            initial_fee_balances: self.initial_fee_balances.copy(),
        }
    }
}

/// The identity that an entry is listed by.
pub open spec fn entry_identity() -> spec_fn(EntryModel) -> Hash256 {
    |entry: EntryModel| entry.validator.id
}

/// The identity that an object is listed by.
pub open spec fn object_identity() -> spec_fn(ObjectModel) -> Hash256 {
    |object: ObjectModel| object.id
}

/// The number that a scheme is listed by.
pub open spec fn scheme_number() -> spec_fn(SchemeId) -> SchemeId {
    |scheme: SchemeId| scheme
}

/// Whether two documents differ at most in the order in which validators, objects
/// and schemes are listed.
pub open spec fn reordering_of(left: GenesisModel, right: GenesisModel) -> bool {
    &&& left.format_version == right.format_version
    &&& left.chain_id == right.chain_id
    &&& left.genesis_unix_ms == right.genesis_unix_ms
    &&& left.blocks_per_epoch == right.blocks_per_epoch
    &&& left.state_config == right.state_config
    &&& left.equivocation_slash_basis_points == right.equivocation_slash_basis_points
    &&& left.initial_fee_balances == right.initial_fee_balances
    &&& left.active_signature_schemes.to_multiset() == right.active_signature_schemes.to_multiset()
    &&& left.validators.to_multiset() == right.validators.to_multiset()
    &&& left.initial_objects.to_multiset() == right.initial_objects.to_multiset()
}

/// Whether a document is the normal form of another: the same, with every list in
/// ascending order.
pub open spec fn normal_form_of(normal: GenesisModel, document: GenesisModel) -> bool {
    &&& reordering_of(normal, document)
    &&& ascending_by(normal.active_signature_schemes, scheme_number())
    &&& ascending_by(normal.validators, entry_identity())
    &&& ascending_by(normal.initial_objects, object_identity())
}

/// Whether a text can be encoded.
pub open spec fn encodable_text(text: Seq<char>) -> bool {
    encode_utf8(text).len() <= MAXIMUM_ENCODED_LENGTH
}

/// Whether an entry can be encoded.
pub open spec fn encodable_entry(entry: EntryModel) -> bool {
    &&& encodable_text(entry.name)
    &&& entry.validator.public_key.len() <= MAXIMUM_ENCODED_LENGTH
    &&& entry.validator.proof_of_possession.len() <= MAXIMUM_ENCODED_LENGTH
    &&& encodable_text(entry.network_address)
    &&& encodable_text(entry.rpc_address)
    &&& encodable_text(entry.gossip_peer_id)
    &&& encodable_text(entry.gossip_address)
}

/// Whether an object can be encoded.
pub open spec fn encodable_object(object: ObjectModel) -> bool {
    &&& encodable_text(object.type_tag)
    &&& object.data.len() <= MAXIMUM_ENCODED_LENGTH
}

/// Whether a document can be encoded.
pub open spec fn encodable_genesis(document: GenesisModel) -> bool {
    encodable_text(document.chain_id) && encodable_lists(lists_in(document))
}

/// The lists of a document, with the slash that stands among them.
pub struct ListsModel {
    pub schemes: Seq<SchemeId>,
    pub slash_basis_points: u16,
    pub validators: Seq<EntryModel>,
    pub objects: Seq<ObjectModel>,
    pub balances: Seq<([u8; 32], u128)>,
}

/// The lists of a document.
pub open spec fn lists_in(document: GenesisModel) -> ListsModel {
    ListsModel {
        schemes: document.active_signature_schemes,
        slash_basis_points: document.equivocation_slash_basis_points,
        validators: document.validators,
        objects: document.initial_objects,
        balances: document.initial_fee_balances,
    }
}

/// Whether the lists of a document can be encoded.
pub open spec fn encodable_lists(lists: ListsModel) -> bool {
    &&& lists.schemes.len() <= MAXIMUM_ENCODED_LENGTH
    &&& lists.validators.len() <= MAXIMUM_ENCODED_LENGTH
    &&& lists.objects.len() <= MAXIMUM_ENCODED_LENGTH
    &&& lists.balances.len() <= MAXIMUM_ENCODED_LENGTH
    &&& forall|i: int|
        0 <= i < lists.validators.len() ==> encodable_entry(#[trigger] lists.validators[i])
    &&& forall|i: int|
        0 <= i < lists.objects.len() ==> encodable_object(#[trigger] lists.objects[i])
}

proof fn lemma_encodable_in_any_order(document: GenesisModel, reordered: GenesisModel)
    requires
        reordering_of(reordered, document),
    ensures
        encodable_genesis(document) == encodable_genesis(reordered),
{
    document.active_signature_schemes.to_multiset_ensures();
    reordered.active_signature_schemes.to_multiset_ensures();
    lemma_entries_carry_over(document.validators, reordered.validators);
    lemma_entries_carry_over(reordered.validators, document.validators);
    lemma_objects_carry_over(document.initial_objects, reordered.initial_objects);
    lemma_objects_carry_over(reordered.initial_objects, document.initial_objects);
}

proof fn lemma_entries_carry_over(left: Seq<EntryModel>, right: Seq<EntryModel>)
    requires
        left.to_multiset() == right.to_multiset(),
    ensures
        left.len() == right.len(),
        (forall|i: int| 0 <= i < left.len() ==> encodable_entry(#[trigger] left[i])) ==> (forall|
            i: int,
        | 0 <= i < right.len() ==> encodable_entry(#[trigger] right[i])),
        (forall|i: int| 0 <= i < left.len() ==> usable_entry(#[trigger] left[i])) ==> (forall|i: int|
         0 <= i < right.len() ==> usable_entry(#[trigger] right[i])),
{
    left.to_multiset_ensures();
    right.to_multiset_ensures();
    assert forall|i: int| 0 <= i < right.len() implies left.contains(#[trigger] right[i]) by {
        assert(right.contains(right[i]));
        assert(right.to_multiset().count(right[i]) > 0);
    }
}

proof fn lemma_objects_carry_over(left: Seq<ObjectModel>, right: Seq<ObjectModel>)
    requires
        left.to_multiset() == right.to_multiset(),
    ensures
        left.len() == right.len(),
        (forall|i: int| 0 <= i < left.len() ==> encodable_object(#[trigger] left[i])) ==> (forall|
            i: int,
        | 0 <= i < right.len() ==> encodable_object(#[trigger] right[i])),
{
    left.to_multiset_ensures();
    right.to_multiset_ensures();
    assert forall|i: int| 0 <= i < right.len() implies left.contains(#[trigger] right[i]) by {
        assert(right.contains(right[i]));
        assert(right.to_multiset().count(right[i]) > 0);
    }
}

/// The fields of an entry in the order in which they are encoded.
type EntryFields = (String, ([u8; 32], u64, Vec<u8>, Vec<u8>), String, String, String, String);

/// The fields of an object in the order in which they are encoded. A single owner
/// is the first of two variants, a shared object the second.
type ObjectFields = ([u8; 32], Result<[u8; 32], ()>, String, u64, Vec<u8>, u64);

/// The entry that fields stand for.
pub open spec fn entry_of(fields: EntryFields) -> EntryModel {
    EntryModel {
        name: fields.0@,
        validator: ValidatorModel {
            id: Hash256 { bytes: fields.1.0 },
            stake: fields.1.1,
            public_key: fields.1.2@,
            proof_of_possession: fields.1.3@,
        },
        network_address: fields.2@,
        rpc_address: fields.3@,
        gossip_peer_id: fields.4@,
        gossip_address: fields.5@,
    }
}

/// The object that fields stand for.
pub open spec fn object_of(fields: ObjectFields) -> ObjectModel {
    ObjectModel {
        id: Hash256 { bytes: fields.0 },
        owner: match fields.1 {
            Ok(bytes) => Owner::Single(Address { bytes }),
            Err(_) => Owner::Shared,
        },
        type_tag: fields.2@,
        version: fields.3,
        data: fields.4@,
        rent_balance: fields.5,
    }
}

/// The entries that a list of fields stands for.
pub open spec fn entries_of(list: Seq<EntryFields>) -> Seq<EntryModel> {
    list.map_values(|fields: EntryFields| entry_of(fields))
}

/// The objects that a list of fields stands for.
pub open spec fn objects_of(list: Seq<ObjectFields>) -> Seq<ObjectModel> {
    list.map_values(|fields: ObjectFields| object_of(fields))
}

fn entry_fields(entries: &Vec<GenesisValidator>) -> (list: Vec<EntryFields>)
    ensures
        entries_of(list@) == entry_models(entries@),
{
    let mut list: Vec<EntryFields> = Vec::new();
    let mut position: usize = 0;
    while position < entries.len()
        invariant
            position <= entries@.len(),
            entries_of(list@) == entry_models(entries@).take(position as int),
        decreases entries@.len() - position,
    {
        let ghost before = entries_of(list@);
        let entry = &entries[position];
        list.push(
            (
                entry.name.clone(),
                (
                    entry.validator.id.bytes,
                    entry.validator.stake,
                    copy_bytes(&entry.validator.public_key),
                    copy_bytes(&entry.validator.proof_of_possession),
                ),
                entry.network_address.clone(),
                entry.rpc_address.clone(),
                entry.gossip_peer_id.clone(),
                entry.gossip_address.clone(),
            ),
        );
        assert(entries_of(list@) =~= before.push(entry@));
        position += 1;
        assert(entries_of(list@) =~= entry_models(entries@).take(position as int));
    }
    assert(entries_of(list@) =~= entry_models(entries@));
    list
}

fn object_fields(objects: &Vec<Object>) -> (list: Vec<ObjectFields>)
    ensures
        objects_of(list@) == object_models(objects@),
{
    let mut list: Vec<ObjectFields> = Vec::new();
    let mut position: usize = 0;
    while position < objects.len()
        invariant
            position <= objects@.len(),
            objects_of(list@) == object_models(objects@).take(position as int),
        decreases objects@.len() - position,
    {
        let ghost before = objects_of(list@);
        let object = &objects[position];
        let owner: Result<[u8; 32], ()> = match object.owner {
            Owner::Single(address) => Ok(address.bytes),
            Owner::Shared => Err(()),
        };
        list.push(
            (
                object.id.bytes,
                owner,
                object.type_tag.clone(),
                object.version,
                copy_bytes(&object.data),
                object.rent_balance,
            ),
        );
        assert(objects_of(list@) =~= before.push(object@));
        position += 1;
        assert(objects_of(list@) =~= object_models(objects@).take(position as int));
    }
    assert(objects_of(list@) =~= object_models(objects@));
    list
}

fn balance_fields(balances: &OrderedMap<Address, u128>) -> (list: Vec<([u8; 32], u128)>)
    ensures
        list@ == balance_list(balances@),
{
    let addresses = balances.keys();
    let mut list: Vec<([u8; 32], u128)> = Vec::new();
    let mut position: usize = 0;
    while position < addresses.len()
        invariant
            position <= addresses@.len(),
            addresses@ == sorted_keys(balances@.dom()),
            forall|key: Address| addresses@.contains(key) <==> balances@.contains_key(key),
            list@ == balance_list(balances@).take(position as int),
        decreases addresses@.len() - position,
    {
        let address: Address = addresses[position];
        assert(addresses@.contains(address));
        if let Some(amount) = balances.get(&address) {
            list.push((address.bytes, *amount));
        }
        position += 1;
        assert(list@ =~= balance_list(balances@).take(position as int));
    }
    assert(list@ =~= balance_list(balances@));
    list
}

/// The lists that lists of fields stand for.
pub open spec fn lists_of(
    schemes: Seq<SchemeId>,
    slash_basis_points: u16,
    validators: Seq<EntryFields>,
    objects: Seq<ObjectFields>,
    balances: Seq<([u8; 32], u128)>,
) -> ListsModel {
    ListsModel {
        schemes,
        slash_basis_points,
        validators: entries_of(validators),
        objects: objects_of(objects),
        balances,
    }
}

/// The encoding of what comes before the settings of the state in a document.
pub uninterp spec fn parameters_encoding(
    format_version: u16,
    chain_id: Seq<char>,
    genesis_unix_ms: u64,
    blocks_per_epoch: u64,
) -> Seq<u8>;

/// Calls `bcs::to_bytes` on the fields of a document up to the settings of the
/// state, in order. Claimed: it fails on a chain ID above its length limit alone;
/// otherwise the bytes are a function of the fields.
#[verifier::external_body]
fn encode_parameters(
    format_version: u16,
    chain_id: &String,
    genesis_unix_ms: u64,
    blocks_per_epoch: u64,
) -> (result: Result<Vec<u8>, String>)
    ensures
        result is Ok <==> encodable_text(chain_id@),
        result matches Ok(bytes) ==> bytes@ == parameters_encoding(
            format_version,
            chain_id@,
            genesis_unix_ms,
            blocks_per_epoch,
        ),
{
    bcs::to_bytes(&(format_version, chain_id, genesis_unix_ms, blocks_per_epoch)).map_err(
        |error| error.to_string(),
    )
}

/// The encoding of what comes after the settings of the state in a document.
pub uninterp spec fn lists_encoding(lists: ListsModel) -> Seq<u8>;

/// Calls `bcs::to_bytes` on the fields of a document after the settings of the
/// state, in order, which is how a record of those fields is encoded; a map is
/// encoded as its pairs by ascending key. Claimed: it fails on sequences and texts
/// above its length limit alone; otherwise the bytes are a function of the fields.
#[verifier::external_body]
fn encode_lists(
    schemes: &Vec<SchemeId>,
    slash_basis_points: u16,
    validators: &Vec<EntryFields>,
    objects: &Vec<ObjectFields>,
    balances: &Vec<([u8; 32], u128)>,
) -> (result: Result<Vec<u8>, String>)
    ensures
        result is Ok <==> encodable_lists(
            lists_of(schemes@, slash_basis_points, validators@, objects@, balances@),
        ),
        result matches Ok(bytes) ==> bytes@ == lists_encoding(
            lists_of(schemes@, slash_basis_points, validators@, objects@, balances@),
        ),
{
    bcs::to_bytes(&(schemes, slash_basis_points, validators, objects, balances)).map_err(
        |error| error.to_string(),
    )
}

/// The canonical encoding of a document: a record is encoded field by field, so
/// the encoded settings of the state stand between what comes before and after
/// them.
pub open spec fn genesis_encoding(document: GenesisModel) -> Seq<u8> {
    parameters_encoding(
        document.format_version,
        document.chain_id,
        document.genesis_unix_ms,
        document.blocks_per_epoch,
    ) + document.state_config + lists_encoding(lists_in(document))
}

/// Whether bytes encode the normal form of a document.
pub open spec fn is_canonical_encoding(document: GenesisModel, bytes: Seq<u8>) -> bool {
    exists|normal: GenesisModel| #[trigger]
        normal_form_of(normal, document) && bytes == genesis_encoding(normal)
}

/// Whether a digest is that of the encoding of the normal form of a document.
pub open spec fn is_genesis_hash(document: GenesisModel, digest: Hash256) -> bool {
    exists|bytes: Seq<u8>| #[trigger]
        is_canonical_encoding(document, bytes) && digest == hash_of(bytes)
}

/// What validating a document gives, with the root of its state or why there is
/// none.
pub open spec fn validated_as(
    document: GenesisModel,
    state_root: Result<Hash256, String>,
    result: Result<ValidatedGenesis, GenesisError>,
) -> bool {
    match result {
        Ok(genesis) => {
            &&& checked_as(document, Ok(genesis.validators))
            &&& state_root == Ok::<Hash256, String>(genesis.state_root)
            &&& encodable_genesis(document)
            &&& is_genesis_hash(document, genesis.genesis_hash)
        },
        Err(error) => {
            ||| checked_as(document, Err(error))
            ||| exists|set: ValidatorSet| #[trigger]
                checked_as(document, Ok(set)) && match state_root {
                    Err(reason) => error == GenesisError::State(reason),
                    Ok(_) => error is Encoding && !encodable_genesis(document),
                }
        },
    }
}

proof fn lemma_admissible_in_any_order(document: GenesisModel, reordered: GenesisModel)
    requires
        reordering_of(reordered, document),
        refusal(document) is None,
    ensures
        refusal(reordered) is None,
{
    let schemes = document.active_signature_schemes;
    let again = reordered.active_signature_schemes;
    schemes.to_multiset_ensures();
    again.to_multiset_ensures();
    assert(valid_schemes(again)) by {
        assert forall|i: int, j: int| 0 <= i < again.len() && 0 <= j < again.len() && i
            != j implies again[i] != again[j] by {
            let (a, b) = lemma_two_places(schemes, again, i, j);
            assert(schemes[a] != schemes[b]);
        }
        assert(schemes.to_multiset().count(ED25519_SCHEME_ID) > 0);
        assert(schemes.to_multiset().count(BLS12381_SCHEME_ID) > 0);
        assert forall|i: int| 0 <= i < again.len() implies #[trigger] again[i] == ED25519_SCHEME_ID
            || again[i] == BLS12381_SCHEME_ID by {
            assert(again.contains(again[i]));
            assert(again.to_multiset().count(again[i]) > 0);
            assert(schemes.contains(again[i]));
        }
    }
    lemma_entries_carry_over(document.validators, reordered.validators);
    assert(valid_metadata(reordered.validators)) by {
        assert forall|i: int, j: int| 0 <= i < j < reordered.validators.len() implies
            #[trigger] is_distinct(reordered.validators, i, j) by {
            let (a, b) = lemma_two_places(document.validators, reordered.validators, i, j);
            if a < b {
                assert(is_distinct(document.validators, a, b));
            } else {
                assert(is_distinct(document.validators, b, a));
            }
        }
    }
}

/// Documents that differ only in the order of their lists have one normal form, as
/// long as identities and schemes are distinct.
proof fn lemma_one_normal_form(
    document: GenesisModel,
    reordered: GenesisModel,
    normal: GenesisModel,
    renormal: GenesisModel,
)
    requires
        reordering_of(reordered, document),
        normal_form_of(normal, document),
        normal_form_of(renormal, reordered),
        distinct_by(document.active_signature_schemes, scheme_number()),
        distinct_by(document.validators, entry_identity()),
        distinct_by(document.initial_objects, object_identity()),
    ensures
        normal == renormal,
{
    lemma_distinct_by(
        document.active_signature_schemes,
        normal.active_signature_schemes,
        scheme_number(),
    );
    lemma_distinct_by(document.validators, normal.validators, entry_identity());
    lemma_distinct_by(
        document.initial_objects,
        normal.initial_objects,
        object_identity(),
    );
    lemma_ascending_by_unique(
        normal.active_signature_schemes,
        renormal.active_signature_schemes,
        scheme_number(),
    );
    lemma_ascending_by_unique(normal.validators, renormal.validators, entry_identity());
    lemma_ascending_by_unique(normal.initial_objects, renormal.initial_objects, object_identity());
}

/// The order in which validators, objects and schemes are listed does not matter: a
/// document that is valid stays valid when its lists are reordered, with the same
/// genesis hash, the same state root and the same stake table, as long as no two
/// objects share an identity.
pub proof fn law_genesis_ignores_listing_order(
    document: GenesisModel,
    reordered: GenesisModel,
    state_root: Result<Hash256, String>,
    genesis: ValidatedGenesis,
    result: Result<ValidatedGenesis, GenesisError>,
)
    requires
        reordering_of(reordered, document),
        distinct_by(document.initial_objects, object_identity()),
        validated_as(document, state_root, Ok(genesis)),
        validated_as(reordered, state_root, result),
    ensures
        result matches Ok(again) && again.genesis_hash == genesis.genesis_hash && again.state_root
            == genesis.state_root && again.validators@ == genesis.validators@,
{
    lemma_admissible_in_any_order(document, reordered);
    lemma_encodable_in_any_order(document, reordered);
    let validators = entry_validators(document.validators);
    let revalidators = entry_validators(reordered.validators);
    let value = |entry: EntryModel| entry.validator;
    lemma_map_multiset(document.validators, reordered.validators, value);
    assert(validators =~= document.validators.map_values(value));
    assert(revalidators =~= reordered.validators.map_values(value));
    match result {
        Ok(again) => {
            law_listing_order_does_not_matter(
                validators,
                revalidators,
                Bls12381Scheme,
                genesis.validators,
                Ok(again.validators),
            );
            lemma_distinct_validators(document, genesis.validators);
            let bytes = choose|bytes: Seq<u8>| #[trigger]
                is_canonical_encoding(document, bytes) && genesis.genesis_hash == hash_of(bytes);
            let normal = choose|normal: GenesisModel| #[trigger]
                normal_form_of(normal, document) && bytes == genesis_encoding(normal);
            let rebytes = choose|rebytes: Seq<u8>| #[trigger]
                is_canonical_encoding(reordered, rebytes) && again.genesis_hash == hash_of(rebytes);
            let renormal = choose|renormal: GenesisModel| #[trigger]
                normal_form_of(renormal, reordered) && rebytes == genesis_encoding(renormal);
            lemma_one_normal_form(document, reordered, normal, renormal);
        },
        Err(GenesisError::Consensus(error)) => {
            law_listing_order_does_not_matter(
                validators,
                revalidators,
                Bls12381Scheme,
                genesis.validators,
                Err(error),
            );
        },
        Err(_) => {},
    }
}

/// The validators of a checked document have distinct identities, and so do its
/// schemes.
proof fn lemma_distinct_validators(document: GenesisModel, set: ValidatorSet)
    requires
        checked_as(document, Ok(set)),
    ensures
        distinct_by(document.validators, entry_identity()),
        distinct_by(document.active_signature_schemes, scheme_number()),
{
    let validators = entry_validators(document.validators);
    assert(refusal(document) is None);
    let order = choose|order: Seq<ValidatorModel>| #[trigger]
        by_identity(order, validators) && set@ == order && valid_table(set@);
    assert(distinct_by(order, identity())) by {
        assert forall|i: int, j: int| #![trigger order[i], order[j]]
            0 <= i < j < order.len() implies identity()(order[i]) != identity()(order[j]) by {
            assert(order[i].id.precedes(order[j].id));
            Hash256::precedes_irreflexive(order[i].id);
        }
    }
    lemma_distinct_by(order, validators, identity());
    assert forall|i: int, j: int| #![trigger document.validators[i], document.validators[j]]
        0 <= i < j < document.validators.len() implies entry_identity()(document.validators[i])
        != entry_identity()(document.validators[j]) by {
        assert(validators[i].id != validators[j].id) by {
            assert(identity()(validators[i]) != identity()(validators[j]));
        }
    }
}

} // verus!
