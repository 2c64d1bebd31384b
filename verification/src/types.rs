//! Protocol-wide identifiers and records.

use sha2::Digest;
use vstd::prelude::*;

use crate::bytes::{append, append_be64, append_text, is_before};
use crate::ordered::SortKey;

verus! {

/// Identifier of a transaction signature scheme.
pub type SchemeId = u16;

/// Number of a checkpoint interval.
pub type Epoch = u64;

/// Identifier of an object.
pub type ObjectId = Hash256;

/// The SHA-256 digest of a message.
pub uninterp spec fn sha256(message: Seq<u8>) -> [u8; 32];

/// Calls `sha2::Sha256::digest` and returns its 32 bytes. Claimed: the result
/// is a function of the message alone, named `sha256`.
#[verifier::external_body]
fn sha256_of(message: &[u8]) -> (digest: [u8; 32])
    ensures
        digest == sha256(message@),
{
    sha2::Sha256::digest(message).into()
}

/// A 32-byte content identifier.
#[derive(Clone, Copy, Debug, Eq, PartialOrd, Ord, Hash)]
pub struct Hash256 {
    pub bytes: [u8; 32],
}

impl View for Hash256 {
    type V = Seq<u8>;

    open spec fn view(&self) -> Seq<u8> {
        self.bytes@
    }
}

impl vstd::std_specs::cmp::PartialEqSpecImpl for Hash256 {
    open spec fn obeys_eq_spec() -> bool {
        true
    }

    open spec fn eq_spec(&self, other: &Hash256) -> bool {
        *self == *other
    }
}

impl PartialEq for Hash256 {
    fn eq(&self, other: &Hash256) -> (same: bool) {
        same_array(&self.bytes, &other.bytes)
    }
}

/// The identifier of a message.
pub open spec fn hash_of(message: Seq<u8>) -> Hash256 {
    Hash256 { bytes: sha256(message) }
}

/// The identifier of 32 zero bytes.
pub open spec fn zero_hash() -> Hash256 {
    Hash256 { bytes: vstd::array::spec_array_fill_for_copy_type(0u8) }
}

impl Default for Hash256 {
    fn default() -> (hash: Hash256)
        ensures
            hash == zero_hash(),
            hash@ == Seq::new(32, |i: int| 0u8),
    {
        let hash = Hash256 { bytes: [0u8; 32] };
        assert(hash.bytes =~= zero_hash().bytes);
        assert(hash@ =~= Seq::new(32, |i: int| 0u8));
        hash
    }
}

impl Hash256 {
    /// The content identifier of a message.
    pub fn digest(message: &[u8]) -> (hash: Hash256)
        ensures
            hash == hash_of(message@),
    {
        Hash256 { bytes: sha256_of(message) }
    }

    /// The identifier made of the given bytes.
    pub fn from_bytes(bytes: [u8; 32]) -> (hash: Hash256)
        ensures
            hash.bytes == bytes,
    {
        Hash256 { bytes }
    }

    /// The bytes of the identifier.
    pub fn as_bytes(&self) -> (bytes: &[u8; 32])
        ensures
            *bytes == self.bytes,
            bytes@ == self@,
    {
        &self.bytes
    }
}

impl SortKey for Hash256 {
    open spec fn precedes(self, other: Self) -> bool {
        crate::bytes::bytes_before(self@, other@)
    }

    proof fn precedes_irreflexive(x: Self) {
    }

    proof fn precedes_transitive(x: Self, y: Self, z: Self) {
        crate::bytes::lemma_bytes_before_transitive(x@, y@, z@);
    }

    proof fn precedes_total(x: Self, y: Self) {
        crate::bytes::lemma_bytes_before_total(x@, y@);
        if x@ == y@ {
            assert(x.bytes =~= y.bytes);
        }
    }

    fn is_before(&self, other: &Self) -> (before: bool) {
        is_before(&self.bytes, &other.bytes)
    }
}

/// Whether two 32-byte arrays are identical.
fn same_array(left: &[u8; 32], right: &[u8; 32]) -> (same: bool)
    ensures
        same == (*left == *right),
{
    let mut index: usize = 0;
    while index < 32
        invariant
            index <= 32,
            forall|i: int| 0 <= i < index ==> left@[i] == right@[i],
        decreases 32 - index,
    {
        if left[index] != right[index] {
            return false;
        }
        index += 1;
    }
    assert(*left =~= *right);
    true
}

/// A 32-byte account address.
#[derive(Clone, Copy, Debug, Eq, PartialOrd, Ord, Hash)]
pub struct Address {
    pub bytes: [u8; 32],
}

impl View for Address {
    type V = Seq<u8>;

    open spec fn view(&self) -> Seq<u8> {
        self.bytes@
    }
}

impl vstd::std_specs::cmp::PartialEqSpecImpl for Address {
    open spec fn obeys_eq_spec() -> bool {
        true
    }

    open spec fn eq_spec(&self, other: &Address) -> bool {
        *self == *other
    }
}

impl PartialEq for Address {
    fn eq(&self, other: &Address) -> (same: bool) {
        same_array(&self.bytes, &other.bytes)
    }
}

/// What the address of a public key is the digest of: a domain, the scheme and the key.
pub open spec fn address_preimage(scheme: SchemeId, public_key: Seq<u8>) -> Seq<u8> {
    crate::bytes::text_bytes("kestrel/address/v1") + crate::bytes::be64(scheme as u64) + public_key
}

/// The account address of a public key under a signature scheme.
pub open spec fn address_of(scheme: SchemeId, public_key: Seq<u8>) -> Address {
    Address { bytes: sha256(address_preimage(scheme, public_key)) }
}

impl Address {
    /// The address made of the given bytes.
    pub fn from_bytes(bytes: [u8; 32]) -> (address: Address)
        ensures
            address.bytes == bytes,
    {
        Address { bytes }
    }

    /// The bytes of the address.
    pub fn as_bytes(&self) -> (bytes: &[u8; 32])
        ensures
            *bytes == self.bytes,
            bytes@ == self@,
    {
        &self.bytes
    }

    /// The account address that a scheme and a public key determine.
    pub fn derive(scheme: SchemeId, public_key: &[u8]) -> (address: Address)
        ensures
            address == address_of(scheme, public_key@),
    {
        let mut message: Vec<u8> = Vec::new();
        append_text(&mut message, "kestrel/address/v1");
        append_be64(&mut message, scheme as u64);
        append(&mut message, public_key);
        assert(message@ =~= address_preimage(scheme, public_key@));
        Address { bytes: sha256_of(&message) }
    }
}

/// Two schemes and keys that lead to one address preimage are the same.
pub proof fn law_address_binds_scheme_and_key(
    scheme: SchemeId,
    public_key: Seq<u8>,
    other_scheme: SchemeId,
    other_key: Seq<u8>,
)
    requires
        address_preimage(scheme, public_key) == address_preimage(other_scheme, other_key),
    ensures
        scheme == other_scheme,
        public_key == other_key,
{
    let domain = crate::bytes::text_bytes("kestrel/address/v1");
    let left = crate::bytes::be64(scheme as u64);
    let right = crate::bytes::be64(other_scheme as u64);
    crate::bytes::lemma_big_endian_len(scheme as nat, 8);
    crate::bytes::lemma_big_endian_len(other_scheme as nat, 8);
    crate::bytes::lemma_concat_injective(domain + left, public_key, domain + right, other_key);
    crate::bytes::lemma_concat_injective(domain, left, domain, right);
    crate::bytes::lemma_be64_injective(scheme as u64, other_scheme as u64);
}

impl SortKey for Address {
    open spec fn precedes(self, other: Self) -> bool {
        crate::bytes::bytes_before(self@, other@)
    }

    proof fn precedes_irreflexive(x: Self) {
    }

    proof fn precedes_transitive(x: Self, y: Self, z: Self) {
        crate::bytes::lemma_bytes_before_transitive(x@, y@, z@);
    }

    proof fn precedes_total(x: Self, y: Self) {
        crate::bytes::lemma_bytes_before_total(x@, y@);
        if x@ == y@ {
            assert(x.bytes =~= y.bytes);
        }
    }

    fn is_before(&self, other: &Self) -> (before: bool) {
        is_before(&self.bytes, &other.bytes)
    }
}

/// Who may use an object.
#[derive(Clone, Copy, Debug, PartialEq, Eq)]
pub enum Owner {
    Single(Address),
    Shared,
}

/// Whether two owners are the same.
pub fn same_owner(left: &Owner, right: &Owner) -> (same: bool)
    ensures
        same == (*left == *right),
{
    match (left, right) {
        (Owner::Single(a), Owner::Single(b)) => *a == *b,
        (Owner::Shared, Owner::Shared) => true,
        _ => false,
    }
}

/// A versioned value in the object store.
#[derive(Debug, PartialEq, Eq)]
pub struct Object {
    pub id: ObjectId,
    pub owner: Owner,
    pub type_tag: String,
    pub version: u64,
    pub data: Vec<u8>,
    pub rent_balance: u64,
}

/// The value of an object.
pub struct ObjectModel {
    pub id: ObjectId,
    pub owner: Owner,
    pub type_tag: Seq<char>,
    pub version: u64,
    pub data: Seq<u8>,
    pub rent_balance: u64,
}

impl View for Object {
    type V = ObjectModel;

    open spec fn view(&self) -> ObjectModel {
        ObjectModel {
            id: self.id,
            owner: self.owner,
            type_tag: self.type_tag@,
            version: self.version,
            data: self.data@,
            rent_balance: self.rent_balance,
        }
    }
}

/// A signed transaction envelope.
#[derive(Debug, PartialEq, Eq)]
pub struct Transaction {
    pub sender: Address,
    pub nonce: u64,
    pub payload: Vec<u8>,
    pub scheme_id: SchemeId,
    pub public_key: Vec<u8>,
    pub signature: Vec<u8>,
}

/// The value of a transaction.
pub struct TransactionModel {
    pub sender: Address,
    pub nonce: u64,
    pub payload: Seq<u8>,
    pub scheme_id: SchemeId,
    pub public_key: Seq<u8>,
    pub signature: Seq<u8>,
}

impl View for Transaction {
    type V = TransactionModel;

    open spec fn view(&self) -> TransactionModel {
        TransactionModel {
            sender: self.sender,
            nonce: self.nonce,
            payload: self.payload@,
            scheme_id: self.scheme_id,
            public_key: self.public_key@,
            signature: self.signature@,
        }
    }
}

impl Clone for Transaction {
    fn clone(&self) -> (copy: Self)
        ensures
            copy@ == self@,
    {
        Transaction {
            sender: self.sender,
            nonce: self.nonce,
            payload: crate::bytes::copy_bytes(&self.payload),
            scheme_id: self.scheme_id,
            public_key: crate::bytes::copy_bytes(&self.public_key),
            signature: crate::bytes::copy_bytes(&self.signature),
        }
    }
}

/// What the sender of a transaction signs: everything but the signature.
pub open spec fn signed_bytes(transaction: TransactionModel) -> Seq<u8> {
    crate::bytes::text_bytes("kestrel/transaction/v1") + transaction.sender@ + crate::bytes::be64(
        transaction.nonce,
    ) + crate::bytes::be64(transaction.scheme_id as u64) + crate::bytes::be64(
        transaction.public_key.len() as u64,
    ) + transaction.public_key + transaction.payload
}

impl Transaction {
    /// What the sender signs.
    pub fn signing_message(&self) -> (message: Vec<u8>)
        ensures
            message@ == signed_bytes(self@),
    {
        let mut message: Vec<u8> = Vec::new();
        append_text(&mut message, "kestrel/transaction/v1");
        append(&mut message, self.sender.as_bytes());
        append_be64(&mut message, self.nonce);
        append_be64(&mut message, self.scheme_id as u64);
        append_be64(&mut message, self.public_key.len() as u64);
        append(&mut message, &self.public_key);
        append(&mut message, &self.payload);
        assert(message@ =~= signed_bytes(self@));
        message
    }
}

/// A signature covers the whole transaction: two transactions with one signing
/// message differ in their signatures at most.
pub proof fn law_signing_message_is_binding(left: TransactionModel, right: TransactionModel)
    requires
        left.public_key.len() <= u64::MAX,
        right.public_key.len() <= u64::MAX,
        signed_bytes(left) == signed_bytes(right),
    ensures
        left.sender == right.sender,
        left.nonce == right.nonce,
        left.scheme_id == right.scheme_id,
        left.public_key == right.public_key,
        left.payload == right.payload,
{
    let domain = crate::bytes::text_bytes("kestrel/transaction/v1");
    let (a, b) = (crate::bytes::be64(left.nonce), crate::bytes::be64(right.nonce));
    let (c, d) = (
        crate::bytes::be64(left.scheme_id as u64),
        crate::bytes::be64(right.scheme_id as u64),
    );
    let (e, f) = (
        crate::bytes::be64(left.public_key.len() as u64),
        crate::bytes::be64(right.public_key.len() as u64),
    );
    crate::bytes::lemma_big_endian_len(left.nonce as nat, 8);
    crate::bytes::lemma_big_endian_len(right.nonce as nat, 8);
    crate::bytes::lemma_big_endian_len(left.scheme_id as nat, 8);
    crate::bytes::lemma_big_endian_len(right.scheme_id as nat, 8);
    crate::bytes::lemma_big_endian_len(left.public_key.len() as u64 as nat, 8);
    crate::bytes::lemma_big_endian_len(right.public_key.len() as u64 as nat, 8);
    let head_left = domain + left.sender@ + a + c + e;
    let head_right = domain + right.sender@ + b + d + f;
    assert(signed_bytes(left) =~= head_left + (left.public_key + left.payload));
    assert(signed_bytes(right) =~= head_right + (right.public_key + right.payload));
    crate::bytes::lemma_concat_injective(
        head_left,
        left.public_key + left.payload,
        head_right,
        right.public_key + right.payload,
    );
    crate::bytes::lemma_concat_injective(
        domain + left.sender@ + a + c,
        e,
        domain + right.sender@ + b + d,
        f,
    );
    crate::bytes::lemma_be64_injective(
        left.public_key.len() as u64,
        right.public_key.len() as u64,
    );
    crate::bytes::lemma_concat_injective(
        domain + left.sender@ + a,
        c,
        domain + right.sender@ + b,
        d,
    );
    crate::bytes::lemma_be64_injective(left.scheme_id as u64, right.scheme_id as u64);
    crate::bytes::lemma_concat_injective(domain + left.sender@, a, domain + right.sender@, b);
    crate::bytes::lemma_be64_injective(left.nonce, right.nonce);
    crate::bytes::lemma_concat_injective(domain, left.sender@, domain, right.sender@);
    assert(left.sender.bytes =~= right.sender.bytes);
    crate::bytes::lemma_concat_injective(
        left.public_key,
        left.payload,
        right.public_key,
        right.payload,
    );
}

} // verus!
