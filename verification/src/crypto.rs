//! Crypto-agile signature primitives.

pub mod guarantees;

use blst::{min_pk, BLST_ERROR};
use ed25519_dalek::{Signature, Signer, SigningKey, VerifyingKey};
use rand::rngs::OsRng;
use rand::RngCore;
use vstd::prelude::*;

use crate::bytes::{copy_bytes, text_bytes};
use crate::ordered::{OrderedMap, OrderedSet};
use crate::types::{address_of, Address, SchemeId};

verus! {

/// Stable identifier for Ed25519 signatures.
pub const ED25519_SCHEME_ID: SchemeId = 1;

/// Stable identifier for BLS12-381 validator vote signatures.
pub const BLS12381_SCHEME_ID: SchemeId = 2;

/// Domain of every BLS message signature.
pub open spec fn bls_signature_domain() -> Seq<u8> {
    text_bytes("KESTREL_BLS_SIG_BLS12381G2_XMD:SHA-256_SSWU_RO_V1")
}

/// Domain of every BLS proof of possession.
pub open spec fn bls_possession_domain() -> Seq<u8> {
    text_bytes("KESTREL_BLS_POP_BLS12381G2_XMD:SHA-256_SSWU_RO_V1")
}

/// Errors returned by signature schemes and their registry.
#[derive(Clone, Copy, Debug, PartialEq, Eq, Structural)]
pub enum CryptoError {
    InvalidPrivateKeyLength { expected: usize, actual: usize },
    InvalidPrivateKey,
    InvalidPublicKey,
    InvalidSignature,
    VerificationFailed,
    EmptyAggregate,
    InvalidProofOfPossession,
    UnknownScheme(SchemeId),
    InactiveScheme(SchemeId),
    DuplicateScheme(SchemeId),
    ActivatedSchemeMissing(SchemeId),
}

/// The value of a result that carries an owned byte string.
pub open spec fn bytes_result<E>(result: Result<Vec<u8>, E>) -> Result<Seq<u8>, E> {
    match result {
        Ok(bytes) => Ok(bytes@),
        Err(error) => Err(error),
    }
}

/// The value of an optional owned byte string.
pub open spec fn bytes_option(value: Option<Vec<u8>>) -> Option<Seq<u8>> {
    match value {
        Some(bytes) => Some(bytes@),
        None => None,
    }
}

/// The values of a list of owned byte strings.
pub open spec fn byte_strings(list: Seq<Vec<u8>>) -> Seq<Seq<u8>> {
    list.map_values(|bytes: Vec<u8>| bytes@)
}

/// A source of key material.
pub trait SecureRng {
    /// Whether the source, as it stands, can give a seed next, or fail.
    spec fn gives(&self, seed: Option<[u8; 32]>) -> bool;

    /// Fresh bytes for one private key, or nothing where the source has failed.
    fn next_seed(&mut self) -> (seed: Option<[u8; 32]>)
        ensures
            old(self).gives(seed),
    ;
}

/// The random number generator of the operating system.
#[derive(Clone, Copy, Debug)]
pub struct OsEntropy;

/// Calls `rand::rngs::OsRng::try_fill_bytes` on 32 bytes. Nothing is claimed of
/// the bytes; there are none where the operating system reports an error.
#[verifier::external_body]
fn os_seed() -> (seed: Option<[u8; 32]>)
{
    let mut bytes = [0u8; 32];
    match OsRng.try_fill_bytes(&mut bytes) {
        Ok(()) => Some(bytes),
        Err(_) => None,
    }
}

/// Whether the operating system can give a seed, or fail.
pub closed spec fn os_gives(seed: Option<[u8; 32]>) -> bool {
    call_ensures(os_seed, (), seed)
}

/// The private key that a seed stands for.
pub open spec fn seed_key(seed: Option<[u8; 32]>) -> Option<Seq<u8>> {
    match seed {
        Some(bytes) => Some(bytes@),
        None => None,
    }
}

impl SecureRng for OsEntropy {
    open spec fn gives(&self, seed: Option<[u8; 32]>) -> bool {
        os_gives(seed)
    }

    fn next_seed(&mut self) -> Option<[u8; 32]> {
        os_seed()
    }
}

/// The private key that a seed stands for.
pub fn private_key_from_seed(seed: Option<[u8; 32]>) -> (key: Option<Vec<u8>>)
    ensures
        bytes_option(key) == seed_key(seed),
{
    match seed {
        Some(bytes) => Some(copy_bytes(&bytes)),
        None => None,
    }
}

/// Interface implemented by every transaction signature scheme.
pub trait SignatureScheme {
    /// What signing a message with a private key gives.
    spec fn signature(&self, private_key: Seq<u8>, message: Seq<u8>) -> Result<Seq<u8>, CryptoError>;

    /// What checking a signature gives.
    spec fn verification(&self, public_key: Seq<u8>, message: Seq<u8>, signature: Seq<u8>) -> Result<
        (),
        CryptoError,
    >;

    /// What deriving a public key gives.
    spec fn derived_key(&self, private_key: Seq<u8>) -> Result<Seq<u8>, CryptoError>;

    /// Length of a public key in bytes.
    spec fn key_length(&self) -> usize;

    /// Length of a signature in bytes.
    spec fn signature_length(&self) -> usize;

    /// The scheme's stable identifier.
    spec fn id(&self) -> SchemeId;

    /// Whether a signature holds the neutral group element, which verification
    /// refuses.
    spec fn is_neutral(&self, signature: Seq<u8>) -> bool;

    /// Signs a message using the scheme's canonical private-key encoding. What
    /// it signs verifies under the key that the private key derives.
    fn sign(&self, private_key: &[u8], message: &[u8]) -> (result: Result<Vec<u8>, CryptoError>)
        ensures
            bytes_result(result) == self.signature(private_key@, message@),
            result matches Ok(signature) ==> (self.derived_key(private_key@) matches Ok(key) && (
            !self.is_neutral(signature@) ==> self.verification(key, message@, signature@) is Ok)),
    ;

    /// Verifies a signature using canonical public-key and signature encodings.
    fn verify(&self, public_key: &[u8], message: &[u8], signature: &[u8]) -> (result: Result<
        (),
        CryptoError,
    >)
        ensures
            result == self.verification(public_key@, message@, signature@),
    ;

    /// Derives the canonical public key from a private key.
    fn public_key(&self, private_key: &[u8]) -> (result: Result<Vec<u8>, CryptoError>)
        ensures
            bytes_result(result) == self.derived_key(private_key@),
    ;

    /// Generates a canonical private key using the provided secure source.
    fn generate_private_key(&self, rng: &mut dyn SecureRng) -> (key: Option<Vec<u8>>)
        ensures
            exists|seed: Option<[u8; 32]>| #[trigger]
                old(rng).gives(seed) && bytes_option(key) == seed_key(seed),
            key matches Some(bytes) ==> bytes@.len() == 32,
    ;

    fn public_key_size(&self) -> (size: usize)
        ensures
            size == self.key_length(),
    ;

    fn signature_size(&self) -> (size: usize)
        ensures
            size == self.signature_length(),
    ;

    fn scheme_id(&self) -> (id: SchemeId)
        ensures
            id == self.id(),
    ;

    /// Derives the crypto-agile account address for a public key.
    fn address(&self, public_key: &[u8]) -> (result: Result<Address, CryptoError>)
        ensures
            result == account_address(self.id(), self.key_length(), public_key@),
    {
        if public_key.len() != self.public_key_size() {
            return Err(CryptoError::InvalidPublicKey);
        }
        Ok(Address::derive(self.scheme_id(), public_key))
    }
}

/// The account address of a public key of the right length.
pub open spec fn account_address(id: SchemeId, key_length: usize, public_key: Seq<u8>) -> Result<
    Address,
    CryptoError,
> {
    if public_key.len() != key_length {
        Err(CryptoError::InvalidPublicKey)
    } else {
        Ok(address_of(id, public_key))
    }
}

/// Whether each signature verifies under the key of the same place.
pub open spec fn each_verifies<S: SignatureScheme + ?Sized>(
    scheme: &S,
    keys: Seq<Seq<u8>>,
    message: Seq<u8>,
    signatures: Seq<Seq<u8>>,
) -> bool {
    &&& keys.len() == signatures.len()
    &&& forall|i: int|
        0 <= i < keys.len() ==> scheme.verification(#[trigger] keys[i], message, signatures[i]) is Ok
}

/// Interface for a signature scheme whose signatures can be combined into one
/// compact aggregate: the capability consensus needs for quorum certificates.
/// Not every `SignatureScheme` supports this (Ed25519 does not), so it is a
/// separate, opt-in extension rather than part of the base trait.
pub trait AggregateSignatureScheme: SignatureScheme {
    /// What proving possession of a private key gives.
    spec fn possession_proof(&self, private_key: Seq<u8>) -> Result<Seq<u8>, CryptoError>;

    /// What checking a proof of possession gives.
    spec fn possession_verification(&self, public_key: Seq<u8>, proof: Seq<u8>) -> Result<
        (),
        CryptoError,
    >;

    /// What combining signatures gives.
    spec fn aggregation(&self, signatures: Seq<Seq<u8>>) -> Result<Seq<u8>, CryptoError>;

    /// What checking an aggregate against its signers gives.
    spec fn aggregate_verification(
        &self,
        public_keys: Seq<Seq<u8>>,
        message: Seq<u8>,
        signature: Seq<u8>,
    ) -> Result<(), CryptoError>;

    /// Proves the holder of a public key knows its private key, guarding
    /// against rogue-key attacks on signature aggregation.
    fn proof_of_possession(&self, private_key: &[u8]) -> (result: Result<Vec<u8>, CryptoError>)
        ensures
            bytes_result(result) == self.possession_proof(private_key@),
            result matches Ok(proof) ==> (self.derived_key(private_key@) matches Ok(key) && (
            !self.is_neutral(proof@) ==> self.possession_verification(key, proof@) is Ok)),
    ;

    /// Verifies a proof of possession before its public key is admitted into
    /// a validator set.
    fn verify_proof_of_possession(&self, public_key: &[u8], proof: &[u8]) -> (result: Result<
        (),
        CryptoError,
    >)
        ensures
            result == self.possession_verification(public_key@, proof@),
    ;

    /// Aggregates individual signatures over the same message into one. What
    /// verifies one by one verifies as an aggregate.
    fn aggregate(&self, signatures: &[Vec<u8>]) -> (result: Result<Vec<u8>, CryptoError>)
        ensures
            bytes_result(result) == self.aggregation(byte_strings(signatures@)),
            forall|keys: Seq<Seq<u8>>, message: Seq<u8>| #[trigger]
                each_verifies(self, keys, message, byte_strings(signatures@)) && keys.len() > 0
                    ==> (result matches Ok(aggregate) && (!self.is_neutral(aggregate@)
                    ==> self.aggregate_verification(keys, message, aggregate@) is Ok)),
    ;

    /// Verifies an aggregate signature over one message against every
    /// signer's proof-of-possession-validated public key.
    fn verify_aggregate(&self, public_keys: &[Vec<u8>], message: &[u8], signature: &[u8]) -> (result:
        Result<(), CryptoError>)
        ensures
            result == self.aggregate_verification(byte_strings(public_keys@), message@, signature@),
    ;
}

/// The Ed25519 public key of a 32-byte secret.
pub uninterp spec fn ed25519_public_key(secret: Seq<u8>) -> Seq<u8>;

/// Calls `SigningKey::from_bytes` and `SigningKey::verifying_key` of
/// `ed25519_dalek`. Claimed: the 32-byte key is a function of the secret.
#[verifier::external_body]
fn dalek_public_key(secret: &[u8]) -> (key: Vec<u8>)
    requires
        secret@.len() == 32,
    ensures
        key@ == ed25519_public_key(secret@),
        key@.len() == 32,
{
    let bytes: &[u8; 32] = secret.try_into().unwrap();
    SigningKey::from_bytes(bytes).verifying_key().to_bytes().to_vec()
}

/// The Ed25519 signature of a message under a 32-byte secret.
pub uninterp spec fn ed25519_signature(secret: Seq<u8>, message: Seq<u8>) -> Seq<u8>;

/// Whether the commitment of an Ed25519 signature, its first half, is the
/// encoding of the neutral point.
pub open spec fn ed25519_neutral(signature: Seq<u8>) -> bool {
    signature.take(32) == Seq::new(
        32,
        |i: int|
            if i == 0 {
                1u8
            } else {
                0u8
            },
    )
}

/// Calls `Signer::sign` of an `ed25519_dalek` signing key. Claimed: the 64-byte
/// signature is a function of the secret and the message, and it holds under
/// strict verification with the secret's public key, which decodes. Strict
/// verification refuses points of small order: the public key is never one, the
/// commitment is one only where it is the neutral point.
#[verifier::external_body]
fn dalek_sign(secret: &[u8], message: &[u8]) -> (signature: Vec<u8>)
    requires
        secret@.len() == 32,
    ensures
        signature@ == ed25519_signature(secret@, message@),
        signature@.len() == 64,
        !ed25519_neutral(signature@) ==> ({
            let key = ed25519_public_key(secret@);
            key.len() == 32 && ed25519_key_decodes(key) && ed25519_holds(key, message@, signature@)
        }),
{
    let bytes: &[u8; 32] = secret.try_into().unwrap();
    SigningKey::from_bytes(bytes).sign(message).to_bytes().to_vec()
}

/// Whether 32 bytes decode to an Ed25519 public key.
pub uninterp spec fn ed25519_key_decodes(key: Seq<u8>) -> bool;

/// Calls `ed25519_dalek::VerifyingKey::from_bytes`. Claimed: whether it
/// succeeds is a function of the bytes.
#[verifier::external_body]
fn dalek_key_decodes(key: &[u8]) -> (decodes: bool)
    requires
        key@.len() == 32,
    ensures
        decodes == ed25519_key_decodes(key@),
{
    let bytes: &[u8; 32] = key.try_into().unwrap();
    VerifyingKey::from_bytes(bytes).is_ok()
}

/// Whether a signature holds under strict Ed25519 verification.
pub uninterp spec fn ed25519_holds(key: Seq<u8>, message: Seq<u8>, signature: Seq<u8>) -> bool;

/// Calls `VerifyingKey::verify_strict` of `ed25519_dalek` on a 32-byte key and
/// a 64-byte signature. Claimed: whether it succeeds is a function of the key,
/// the message and the signature, and it fails for a key that does not decode.
/// That a signature of one key fails under another is not claimed.
#[verifier::external_body]
fn dalek_verify(key: &[u8], message: &[u8], signature: &[u8]) -> (holds: bool)
    requires
        key@.len() == 32,
        signature@.len() == 64,
    ensures
        holds == ed25519_holds(key@, message@, signature@),
        holds ==> ed25519_key_decodes(key@),
{
    let bytes: &[u8; 32] = key.try_into().unwrap();
    match (VerifyingKey::from_bytes(bytes), Signature::from_slice(signature)) {
        (Ok(verifying), Ok(parsed)) => verifying.verify_strict(message, &parsed).is_ok(),
        _ => false,
    }
}

/// Ed25519 transaction signatures.
#[derive(Clone, Copy, Debug)]
pub struct Ed25519Scheme;

impl Default for Ed25519Scheme {
    fn default() -> Self {
        Ed25519Scheme
    }
}

impl Ed25519Scheme {
    pub const PRIVATE_KEY_SIZE: usize = 32;

    pub const PUBLIC_KEY_SIZE: usize = 32;

    pub const SIGNATURE_SIZE: usize = 64;

    /// Checks the length of a private key.
    fn signing_key(private_key: &[u8]) -> (result: Result<(), CryptoError>)
        ensures
            result == private_key_length(private_key@),
    {
        if private_key.len() != 32 {
            Err(CryptoError::InvalidPrivateKeyLength { expected: 32, actual: private_key.len() })
        } else {
            Ok(())
        }
    }

    /// Generates a private key from the operating system generator.
    pub fn generate_os_private_key() -> (key: Option<Vec<u8>>)
        ensures
            exists|seed: Option<[u8; 32]>| #[trigger]
                os_gives(seed) && bytes_option(key) == seed_key(seed),
            key matches Some(bytes) ==> bytes@.len() == 32,
    {
        let seed = os_seed();
        assert(os_gives(seed));
        private_key_from_seed(seed)
    }
}

/// Both schemes take private keys of exactly 32 bytes.
pub open spec fn private_key_length(private_key: Seq<u8>) -> Result<(), CryptoError> {
    if private_key.len() != 32 {
        Err(
            CryptoError::InvalidPrivateKeyLength {
                expected: 32,
                actual: private_key.len() as usize,
            },
        )
    } else {
        Ok(())
    }
}

impl SignatureScheme for Ed25519Scheme {
    open spec fn signature(&self, private_key: Seq<u8>, message: Seq<u8>) -> Result<
        Seq<u8>,
        CryptoError,
    > {
        match private_key_length(private_key) {
            Ok(()) => Ok(ed25519_signature(private_key, message)),
            Err(error) => Err(error),
        }
    }

    open spec fn verification(&self, public_key: Seq<u8>, message: Seq<u8>, signature: Seq<u8>) -> Result<
        (),
        CryptoError,
    > {
        if public_key.len() != 32 || !ed25519_key_decodes(public_key) {
            Err(CryptoError::InvalidPublicKey)
        } else if signature.len() != 64 {
            Err(CryptoError::InvalidSignature)
        } else if !ed25519_holds(public_key, message, signature) {
            Err(CryptoError::VerificationFailed)
        } else {
            Ok(())
        }
    }

    open spec fn derived_key(&self, private_key: Seq<u8>) -> Result<Seq<u8>, CryptoError> {
        match private_key_length(private_key) {
            Ok(()) => Ok(ed25519_public_key(private_key)),
            Err(error) => Err(error),
        }
    }

    open spec fn key_length(&self) -> usize {
        32
    }

    open spec fn signature_length(&self) -> usize {
        64
    }

    open spec fn id(&self) -> SchemeId {
        ED25519_SCHEME_ID
    }

    open spec fn is_neutral(&self, signature: Seq<u8>) -> bool {
        ed25519_neutral(signature)
    }

    fn sign(&self, private_key: &[u8], message: &[u8]) -> (result: Result<Vec<u8>, CryptoError>) {
        Self::signing_key(private_key)?;
        Ok(dalek_sign(private_key, message))
    }

    fn verify(&self, public_key: &[u8], message: &[u8], signature: &[u8]) -> (result: Result<
        (),
        CryptoError,
    >) {
        if public_key.len() != 32 || !dalek_key_decodes(public_key) {
            return Err(CryptoError::InvalidPublicKey);
        }
        if signature.len() != 64 {
            return Err(CryptoError::InvalidSignature);
        }
        if dalek_verify(public_key, message, signature) {
            Ok(())
        } else {
            Err(CryptoError::VerificationFailed)
        }
    }

    fn public_key(&self, private_key: &[u8]) -> (result: Result<Vec<u8>, CryptoError>) {
        Self::signing_key(private_key)?;
        Ok(dalek_public_key(private_key))
    }

    fn generate_private_key(&self, rng: &mut dyn SecureRng) -> (key: Option<Vec<u8>>) {
        private_key_from_seed(rng.next_seed())
    }

    fn public_key_size(&self) -> (size: usize) {
        Self::PUBLIC_KEY_SIZE
    }

    fn signature_size(&self) -> (size: usize) {
        Self::SIGNATURE_SIZE
    }

    fn scheme_id(&self) -> (id: SchemeId) {
        ED25519_SCHEME_ID
    }
}

/// The compressed BLS public key of key material.
pub uninterp spec fn bls_public_key(material: Seq<u8>) -> Option<Seq<u8>>;

/// Calls `min_pk::SecretKey::key_gen` of `blst` with empty key info, then
/// `sk_to_pk` and `to_bytes`. Claimed: the 48-byte key is a function of the
/// material, and there is one exactly for material of at least 32 bytes.
#[verifier::external_body]
fn blst_public_key(material: &[u8]) -> (key: Option<Vec<u8>>)
    ensures
        bytes_option(key) == bls_public_key(material@),
        key is Some <==> material@.len() >= 32,
        key matches Some(bytes) ==> bytes@.len() == 48,
{
    match min_pk::SecretKey::key_gen(material, &[]) {
        Ok(secret) => Some(secret.sk_to_pk().to_bytes().to_vec()),
        Err(_) => None,
    }
}

/// The compressed BLS signature of a message under key material and a domain.
pub uninterp spec fn bls_signature(material: Seq<u8>, message: Seq<u8>, domain: Seq<u8>) -> Option<
    Seq<u8>,
>;

/// Whether a compressed BLS signature is the point at infinity.
pub open spec fn bls_neutral(signature: Seq<u8>) -> bool {
    signature == Seq::new(
        96,
        |i: int|
            if i == 0 {
                0xc0u8
            } else {
                0u8
            },
    )
}

/// Whether a signature holds for the public key of key material.
pub open spec fn bls_holds_for(
    material: Seq<u8>,
    message: Seq<u8>,
    domain: Seq<u8>,
    signature: Seq<u8>,
) -> bool {
    &&& bls_public_key(material) matches Some(key)
    &&& bls_key_encoding(key) == Some(key)
    &&& bls_signature_decodes(signature)
    &&& !bls_neutral(signature) ==> bls_holds(key, message, domain, signature)
}

/// Calls `min_pk::SecretKey::key_gen` of `blst` with empty key info, then
/// `sign` without augmentation and `to_bytes`. Claimed: the 96-byte signature
/// is a function of the material, the message and the domain; there is one
/// exactly for material of at least 32 bytes; it decodes and, unless it is the
/// point at infinity, holds for the material's public key, which is in
/// compressed form.
#[verifier::external_body]
fn blst_sign(material: &[u8], message: &[u8], domain: &[u8]) -> (signature: Option<Vec<u8>>)
    ensures
        bytes_option(signature) == bls_signature(material@, message@, domain@),
        signature is Some <==> material@.len() >= 32,
        signature matches Some(bytes) ==> bytes@.len() == 96 && bls_holds_for(
            material@,
            message@,
            domain@,
            bytes@,
        ),
{
    match min_pk::SecretKey::key_gen(material, &[]) {
        Ok(secret) => Some(secret.sign(message, domain, &[]).to_bytes().to_vec()),
        Err(_) => None,
    }
}

/// The compressed form of an encoded BLS public key, where it decodes.
pub uninterp spec fn bls_key_encoding(key: Seq<u8>) -> Option<Seq<u8>>;

/// Calls `min_pk::PublicKey::from_bytes` of `blst`, then `to_bytes`. Claimed:
/// the 48-byte compressed form is a function of the bytes, and only 48 or 96
/// bytes decode.
#[verifier::external_body]
fn blst_key_encoding(key: &[u8]) -> (encoding: Option<Vec<u8>>)
    ensures
        bytes_option(encoding) == bls_key_encoding(key@),
        encoding is Some ==> key@.len() == 48 || key@.len() == 96,
        encoding matches Some(bytes) ==> bytes@.len() == 48,
{
    match min_pk::PublicKey::from_bytes(key) {
        Ok(parsed) => Some(parsed.to_bytes().to_vec()),
        Err(_) => None,
    }
}

/// Whether bytes decode to a BLS signature.
pub uninterp spec fn bls_signature_decodes(signature: Seq<u8>) -> bool;

/// Calls `min_pk::Signature::from_bytes` of `blst`. Claimed: whether it
/// succeeds is a function of the bytes, and only 96 or 192 bytes decode.
#[verifier::external_body]
fn blst_signature_decodes(signature: &[u8]) -> (decodes: bool)
    ensures
        decodes == bls_signature_decodes(signature@),
        decodes ==> signature@.len() == 96 || signature@.len() == 192,
{
    min_pk::Signature::from_bytes(signature).is_ok()
}

/// Whether a BLS signature holds for one key, message and domain.
pub uninterp spec fn bls_holds(
    key: Seq<u8>,
    message: Seq<u8>,
    domain: Seq<u8>,
    signature: Seq<u8>,
) -> bool;

/// Calls `min_pk::Signature::verify` of `blst` with group checks and without
/// augmentation. Claimed: whether it succeeds is a function of the key, the
/// message, the domain and the signature; what does not decode does not hold.
/// That a signature of one key fails under another is not claimed.
#[verifier::external_body]
fn blst_verify(key: &[u8], message: &[u8], domain: &[u8], signature: &[u8]) -> (holds: bool)
    ensures
        holds == bls_holds(key@, message@, domain@, signature@),
        holds ==> bls_key_encoding(key@) is Some && bls_signature_decodes(signature@),
{
    match (min_pk::PublicKey::from_bytes(key), min_pk::Signature::from_bytes(signature)) {
        (Ok(key), Ok(parsed)) => {
            parsed.verify(true, message, domain, &[], &key, true) == BLST_ERROR::BLST_SUCCESS
        },
        _ => false,
    }
}

/// The compressed aggregate of encoded BLS signatures.
pub uninterp spec fn bls_aggregate(signatures: Seq<Seq<u8>>) -> Option<Seq<u8>>;

/// Whether each BLS signature holds for the key of the same place.
pub open spec fn bls_each_holds(
    keys: Seq<Seq<u8>>,
    message: Seq<u8>,
    domain: Seq<u8>,
    signatures: Seq<Seq<u8>>,
) -> bool {
    &&& keys.len() == signatures.len()
    &&& forall|i: int|
        0 <= i < keys.len() ==> bls_holds(#[trigger] keys[i], message, domain, signatures[i])
}

/// Whether an aggregate holds for all keys wherever each signature holds for
/// its key over one message, unless it is the point at infinity.
pub open spec fn bls_combines(signatures: Seq<Seq<u8>>, aggregate: Option<Seq<u8>>) -> bool {
    forall|keys: Seq<Seq<u8>>, message: Seq<u8>, domain: Seq<u8>| #[trigger]
        bls_each_holds(keys, message, domain, signatures) && keys.len() > 0 ==> (
        aggregate matches Some(bytes) && bls_signature_decodes(bytes) && (!bls_neutral(bytes)
            ==> bls_aggregate_holds(keys, message, domain, bytes)))
}

/// Calls `min_pk::AggregateSignature::aggregate` of `blst` with group checks on
/// the decoded signatures, then `to_signature` and `to_bytes`. Claimed: the
/// 96-byte aggregate is a function of the list; there is none for an empty
/// list or one that holds bytes that do not decode; where each signature holds
/// for its key over one message, there is one, it decodes and, unless it is the
/// point at infinity, it holds for all the keys over that message.
#[verifier::external_body]
fn blst_aggregate(signatures: &[Vec<u8>]) -> (aggregate: Option<Vec<u8>>)
    ensures
        bytes_option(aggregate) == bls_aggregate(byte_strings(signatures@)),
        aggregate is Some ==> signatures@.len() > 0 && forall|i: int|
            0 <= i < signatures@.len() ==> bls_signature_decodes((#[trigger] signatures@[i])@),
        aggregate matches Some(bytes) ==> bytes@.len() == 96,
        bls_combines(byte_strings(signatures@), bytes_option(aggregate)),
{
    let parsed: Result<Vec<min_pk::Signature>, BLST_ERROR> =
        signatures.iter().map(|bytes| min_pk::Signature::from_bytes(bytes)).collect();
    let Ok(parsed) = parsed else { return None };
    let references: Vec<&min_pk::Signature> = parsed.iter().collect();
    match min_pk::AggregateSignature::aggregate(&references, true) {
        Ok(aggregate) => Some(aggregate.to_signature().to_bytes().to_vec()),
        Err(_) => None,
    }
}

/// Whether a BLS aggregate holds for all keys over one message and domain.
pub uninterp spec fn bls_aggregate_holds(
    keys: Seq<Seq<u8>>,
    message: Seq<u8>,
    domain: Seq<u8>,
    signature: Seq<u8>,
) -> bool;

/// Calls `min_pk::Signature::fast_aggregate_verify` of `blst` with group checks
/// on the decoded keys and signature. Claimed: whether it succeeds is a
/// function of the keys, the message, the domain and the signature, and it
/// fails for an empty list of keys.
#[verifier::external_body]
fn blst_aggregate_verify(
    keys: &[Vec<u8>],
    message: &[u8],
    domain: &[u8],
    signature: &[u8],
) -> (holds: bool)
    ensures
        holds == bls_aggregate_holds(byte_strings(keys@), message@, domain@, signature@),
        holds ==> keys@.len() > 0,
{
    let parsed: Result<Vec<min_pk::PublicKey>, BLST_ERROR> =
        keys.iter().map(|bytes| min_pk::PublicKey::from_bytes(bytes)).collect();
    let Ok(parsed) = parsed else { return false };
    let references: Vec<&min_pk::PublicKey> = parsed.iter().collect();
    match min_pk::Signature::from_bytes(signature) {
        Ok(aggregate) => aggregate.fast_aggregate_verify(true, message, domain, &references)
            == BLST_ERROR::BLST_SUCCESS,
        Err(_) => false,
    }
}

/// BLS12-381 signatures in the minimum-public-key configuration.
///
/// Consensus public keys are admitted only after proof-of-possession
/// verification, which makes same-message fast aggregate verification safe
/// against rogue-key attacks.
#[derive(Clone, Copy, Debug)]
pub struct Bls12381Scheme;

impl Default for Bls12381Scheme {
    fn default() -> Self {
        Bls12381Scheme
    }
}

impl Bls12381Scheme {
    pub const PRIVATE_KEY_SIZE: usize = 32;

    pub const PUBLIC_KEY_SIZE: usize = 48;

    pub const SIGNATURE_SIZE: usize = 96;

    /// Checks the length of a private key.
    fn secret_key(private_key: &[u8]) -> (result: Result<(), CryptoError>)
        ensures
            result == private_key_length(private_key@),
    {
        if private_key.len() != 32 {
            Err(CryptoError::InvalidPrivateKeyLength { expected: 32, actual: private_key.len() })
        } else {
            Ok(())
        }
    }

    /// Generates validator private-key material from the operating system generator.
    pub fn generate_os_private_key() -> (key: Option<Vec<u8>>)
        ensures
            exists|seed: Option<[u8; 32]>| #[trigger]
                os_gives(seed) && bytes_option(key) == seed_key(seed),
            key matches Some(bytes) ==> bytes@.len() == 32,
    {
        let seed = os_seed();
        assert(os_gives(seed));
        private_key_from_seed(seed)
    }

    /// Creates a proof that the holder of a validator public key knows its
    /// private key: a signature of the public key under its own domain. The proof
    /// verifies under that key, unless it is the point at infinity.
    ///
    /// # Errors
    ///
    /// Rejects private keys that do not have 32 bytes, and no others.
    pub fn proof_of_possession(&self, private_key: &[u8]) -> (result: Result<Vec<u8>, CryptoError>)
        ensures
            bytes_result(result) == bls_possession_proof(private_key@),
            match result {
                Ok(proof) => {
                    &&& private_key@.len() == 32
                    &&& proof@.len() == 96
                    &&& bls_public_key(private_key@) matches Some(key) && (!bls_neutral(proof@)
                        ==> bls_possession_verification(key, proof@) is Ok)
                },
                Err(error) => private_key@.len() != 32 && error
                    == (CryptoError::InvalidPrivateKeyLength {
                    expected: 32,
                    actual: private_key@.len() as usize,
                }),
            },
    {
        Self::secret_key(private_key)?;
        let domain = "KESTREL_BLS_POP_BLS12381G2_XMD:SHA-256_SSWU_RO_V1".as_bytes();
        match blst_public_key(private_key) {
            Some(key) => match blst_sign(private_key, &key, domain) {
                Some(proof) => Ok(proof),
                None => Err(CryptoError::InvalidPrivateKey),
            },
            None => Err(CryptoError::InvalidPrivateKey),
        }
    }

    /// Verifies a validator's proof of possession before its key is admitted.
    pub fn verify_proof_of_possession(&self, public_key: &[u8], proof: &[u8]) -> (result: Result<
        (),
        CryptoError,
    >)
        ensures
            result == bls_possession_verification(public_key@, proof@),
    {
        let domain = "KESTREL_BLS_POP_BLS12381G2_XMD:SHA-256_SSWU_RO_V1".as_bytes();
        match blst_key_encoding(public_key) {
            None => Err(CryptoError::InvalidPublicKey),
            Some(encoding) => if !blst_signature_decodes(proof) {
                Err(CryptoError::InvalidSignature)
            } else if blst_verify(public_key, &encoding, domain, proof) {
                Ok(())
            } else {
                Err(CryptoError::InvalidProofOfPossession)
            },
        }
    }

    /// Aggregates individual signatures over the same canonical vote message.
    pub fn aggregate(&self, signatures: &[Vec<u8>]) -> (result: Result<Vec<u8>, CryptoError>)
        ensures
            bytes_result(result) == bls_aggregation(byte_strings(signatures@)),
            forall|keys: Seq<Seq<u8>>, message: Seq<u8>| #[trigger]
                each_verifies(self, keys, message, byte_strings(signatures@)) && keys.len() > 0
                    ==> (result matches Ok(aggregate) && (!bls_neutral(aggregate@)
                    ==> bls_aggregate_verification(keys, message, aggregate@) is Ok)),
    {
        if signatures.len() == 0 {
            return Err(CryptoError::EmptyAggregate);
        }
        proof {
            assert forall|keys: Seq<Seq<u8>>, message: Seq<u8>| #[trigger]
                each_verifies(self, keys, message, byte_strings(signatures@))
                implies bls_each_holds(
                keys,
                message,
                bls_signature_domain(),
                byte_strings(signatures@),
            ) && (forall|i: int|
                0 <= i < keys.len() ==> bls_key_encoding(#[trigger] keys[i]) is Some) by {
                assert forall|i: int| 0 <= i < keys.len() implies bls_holds(
                    #[trigger] keys[i],
                    message,
                    bls_signature_domain(),
                    byte_strings(signatures@)[i],
                ) && bls_key_encoding(keys[i]) is Some by {}
            }
        }
        match blst_aggregate(signatures) {
            Some(aggregate) => Ok(aggregate),
            None => Err(CryptoError::InvalidSignature),
        }
    }

    /// Verifies an aggregate over one message using PoP-validated public keys.
    pub fn verify_aggregate(
        &self,
        public_keys: &[Vec<u8>],
        message: &[u8],
        signature: &[u8],
    ) -> (result: Result<(), CryptoError>)
        ensures
            result == bls_aggregate_verification(byte_strings(public_keys@), message@, signature@),
    {
        if public_keys.len() == 0 {
            return Err(CryptoError::EmptyAggregate);
        }
        let ghost keys = byte_strings(public_keys@);
        let mut index: usize = 0;
        while index < public_keys.len()
            invariant
                index <= public_keys@.len(),
                keys == byte_strings(public_keys@),
                forall|i: int| 0 <= i < index ==> bls_key_encoding(#[trigger] keys[i]) is Some,
            decreases public_keys@.len() - index,
        {
            assert(keys[index as int] == public_keys@[index as int]@);
            if blst_key_encoding(&public_keys[index]).is_none() {
                assert(bls_key_encoding(keys[index as int]) is None);
                return Err(CryptoError::InvalidPublicKey);
            }
            index += 1;
        }
        if !blst_signature_decodes(signature) {
            return Err(CryptoError::InvalidSignature);
        }
        let domain = "KESTREL_BLS_SIG_BLS12381G2_XMD:SHA-256_SSWU_RO_V1".as_bytes();
        if blst_aggregate_verify(public_keys, message, domain, signature) {
            Ok(())
        } else {
            Err(CryptoError::VerificationFailed)
        }
    }
}

/// What proving possession of a BLS key gives.
pub open spec fn bls_possession_proof(private_key: Seq<u8>) -> Result<Seq<u8>, CryptoError> {
    match private_key_length(private_key) {
        Err(error) => Err(error),
        Ok(()) => match bls_public_key(private_key) {
            Some(key) => bls_signature_result(
                bls_signature(private_key, key, bls_possession_domain()),
            ),
            None => Err(CryptoError::InvalidPrivateKey),
        },
    }
}

/// A missing signature means that the key material was refused.
pub open spec fn bls_signature_result(signature: Option<Seq<u8>>) -> Result<Seq<u8>, CryptoError> {
    match signature {
        Some(bytes) => Ok(bytes),
        None => Err(CryptoError::InvalidPrivateKey),
    }
}

/// What checking a BLS proof of possession gives.
pub open spec fn bls_possession_verification(public_key: Seq<u8>, proof: Seq<u8>) -> Result<
    (),
    CryptoError,
> {
    match bls_key_encoding(public_key) {
        None => Err(CryptoError::InvalidPublicKey),
        Some(encoding) => if !bls_signature_decodes(proof) {
            Err(CryptoError::InvalidSignature)
        } else if bls_holds(public_key, encoding, bls_possession_domain(), proof) {
            Ok(())
        } else {
            Err(CryptoError::InvalidProofOfPossession)
        },
    }
}

/// What combining BLS signatures gives.
pub open spec fn bls_aggregation(signatures: Seq<Seq<u8>>) -> Result<Seq<u8>, CryptoError> {
    if signatures.len() == 0 {
        Err(CryptoError::EmptyAggregate)
    } else {
        match bls_aggregate(signatures) {
            Some(aggregate) => Ok(aggregate),
            None => Err(CryptoError::InvalidSignature),
        }
    }
}

/// What checking a BLS aggregate gives.
pub open spec fn bls_aggregate_verification(
    public_keys: Seq<Seq<u8>>,
    message: Seq<u8>,
    signature: Seq<u8>,
) -> Result<(), CryptoError> {
    if public_keys.len() == 0 {
        Err(CryptoError::EmptyAggregate)
    } else if exists|i: int|
        0 <= i < public_keys.len() && bls_key_encoding(#[trigger] public_keys[i]) is None {
        Err(CryptoError::InvalidPublicKey)
    } else if !bls_signature_decodes(signature) {
        Err(CryptoError::InvalidSignature)
    } else if bls_aggregate_holds(public_keys, message, bls_signature_domain(), signature) {
        Ok(())
    } else {
        Err(CryptoError::VerificationFailed)
    }
}

impl AggregateSignatureScheme for Bls12381Scheme {
    open spec fn possession_proof(&self, private_key: Seq<u8>) -> Result<Seq<u8>, CryptoError> {
        bls_possession_proof(private_key)
    }

    open spec fn possession_verification(&self, public_key: Seq<u8>, proof: Seq<u8>) -> Result<
        (),
        CryptoError,
    > {
        bls_possession_verification(public_key, proof)
    }

    open spec fn aggregation(&self, signatures: Seq<Seq<u8>>) -> Result<Seq<u8>, CryptoError> {
        bls_aggregation(signatures)
    }

    open spec fn aggregate_verification(
        &self,
        public_keys: Seq<Seq<u8>>,
        message: Seq<u8>,
        signature: Seq<u8>,
    ) -> Result<(), CryptoError> {
        bls_aggregate_verification(public_keys, message, signature)
    }

    fn proof_of_possession(&self, private_key: &[u8]) -> (result: Result<Vec<u8>, CryptoError>) {
        self.proof_of_possession(private_key)
    }

    fn verify_proof_of_possession(&self, public_key: &[u8], proof: &[u8]) -> (result: Result<
        (),
        CryptoError,
    >) {
        self.verify_proof_of_possession(public_key, proof)
    }

    fn aggregate(&self, signatures: &[Vec<u8>]) -> (result: Result<Vec<u8>, CryptoError>) {
        self.aggregate(signatures)
    }

    fn verify_aggregate(&self, public_keys: &[Vec<u8>], message: &[u8], signature: &[u8]) -> (result:
        Result<(), CryptoError>) {
        self.verify_aggregate(public_keys, message, signature)
    }
}

impl SignatureScheme for Bls12381Scheme {
    open spec fn signature(&self, private_key: Seq<u8>, message: Seq<u8>) -> Result<
        Seq<u8>,
        CryptoError,
    > {
        match private_key_length(private_key) {
            Err(error) => Err(error),
            Ok(()) => bls_signature_result(
                bls_signature(private_key, message, bls_signature_domain()),
            ),
        }
    }

    open spec fn verification(&self, public_key: Seq<u8>, message: Seq<u8>, signature: Seq<u8>) -> Result<
        (),
        CryptoError,
    > {
        if bls_key_encoding(public_key) is None {
            Err(CryptoError::InvalidPublicKey)
        } else if !bls_signature_decodes(signature) {
            Err(CryptoError::InvalidSignature)
        } else if bls_holds(public_key, message, bls_signature_domain(), signature) {
            Ok(())
        } else {
            Err(CryptoError::VerificationFailed)
        }
    }

    open spec fn derived_key(&self, private_key: Seq<u8>) -> Result<Seq<u8>, CryptoError> {
        match private_key_length(private_key) {
            Err(error) => Err(error),
            Ok(()) => bls_signature_result(bls_public_key(private_key)),
        }
    }

    open spec fn key_length(&self) -> usize {
        48
    }

    open spec fn signature_length(&self) -> usize {
        96
    }

    open spec fn id(&self) -> SchemeId {
        BLS12381_SCHEME_ID
    }

    open spec fn is_neutral(&self, signature: Seq<u8>) -> bool {
        bls_neutral(signature)
    }

    fn sign(&self, private_key: &[u8], message: &[u8]) -> (result: Result<Vec<u8>, CryptoError>) {
        Self::secret_key(private_key)?;
        let domain = "KESTREL_BLS_SIG_BLS12381G2_XMD:SHA-256_SSWU_RO_V1".as_bytes();
        match blst_sign(private_key, message, domain) {
            Some(signature) => Ok(signature),
            None => Err(CryptoError::InvalidPrivateKey),
        }
    }

    fn verify(&self, public_key: &[u8], message: &[u8], signature: &[u8]) -> (result: Result<
        (),
        CryptoError,
    >) {
        if blst_key_encoding(public_key).is_none() {
            return Err(CryptoError::InvalidPublicKey);
        }
        if !blst_signature_decodes(signature) {
            return Err(CryptoError::InvalidSignature);
        }
        let domain = "KESTREL_BLS_SIG_BLS12381G2_XMD:SHA-256_SSWU_RO_V1".as_bytes();
        if blst_verify(public_key, message, domain, signature) {
            Ok(())
        } else {
            Err(CryptoError::VerificationFailed)
        }
    }

    fn public_key(&self, private_key: &[u8]) -> (result: Result<Vec<u8>, CryptoError>) {
        Self::secret_key(private_key)?;
        match blst_public_key(private_key) {
            Some(key) => Ok(key),
            None => Err(CryptoError::InvalidPrivateKey),
        }
    }

    fn generate_private_key(&self, rng: &mut dyn SecureRng) -> (key: Option<Vec<u8>>) {
        private_key_from_seed(rng.next_seed())
    }

    fn public_key_size(&self) -> (size: usize) {
        Self::PUBLIC_KEY_SIZE
    }

    fn signature_size(&self) -> (size: usize) {
        Self::SIGNATURE_SIZE
    }

    fn scheme_id(&self) -> (id: SchemeId) {
        BLS12381_SCHEME_ID
    }
}

/// One of the signature schemes that accounts can sign transactions with.
#[derive(Clone, Copy, Debug)]
pub enum TransactionScheme {
    Ed25519(Ed25519Scheme),
    Bls12381(Bls12381Scheme),
}

impl SignatureScheme for TransactionScheme {
    open spec fn signature(&self, private_key: Seq<u8>, message: Seq<u8>) -> Result<
        Seq<u8>,
        CryptoError,
    > {
        match self {
            TransactionScheme::Ed25519(scheme) => scheme.signature(private_key, message),
            TransactionScheme::Bls12381(scheme) => scheme.signature(private_key, message),
        }
    }

    open spec fn verification(&self, public_key: Seq<u8>, message: Seq<u8>, signature: Seq<u8>) -> Result<
        (),
        CryptoError,
    > {
        match self {
            TransactionScheme::Ed25519(scheme) => scheme.verification(
                public_key,
                message,
                signature,
            ),
            TransactionScheme::Bls12381(scheme) => scheme.verification(
                public_key,
                message,
                signature,
            ),
        }
    }

    open spec fn derived_key(&self, private_key: Seq<u8>) -> Result<Seq<u8>, CryptoError> {
        match self {
            TransactionScheme::Ed25519(scheme) => scheme.derived_key(private_key),
            TransactionScheme::Bls12381(scheme) => scheme.derived_key(private_key),
        }
    }

    open spec fn key_length(&self) -> usize {
        match self {
            TransactionScheme::Ed25519(scheme) => scheme.key_length(),
            TransactionScheme::Bls12381(scheme) => scheme.key_length(),
        }
    }

    open spec fn signature_length(&self) -> usize {
        match self {
            TransactionScheme::Ed25519(scheme) => scheme.signature_length(),
            TransactionScheme::Bls12381(scheme) => scheme.signature_length(),
        }
    }

    open spec fn id(&self) -> SchemeId {
        match self {
            TransactionScheme::Ed25519(scheme) => scheme.id(),
            TransactionScheme::Bls12381(scheme) => scheme.id(),
        }
    }

    open spec fn is_neutral(&self, signature: Seq<u8>) -> bool {
        match self {
            TransactionScheme::Ed25519(scheme) => scheme.is_neutral(signature),
            TransactionScheme::Bls12381(scheme) => scheme.is_neutral(signature),
        }
    }

    fn sign(&self, private_key: &[u8], message: &[u8]) -> (result: Result<Vec<u8>, CryptoError>) {
        match self {
            TransactionScheme::Ed25519(scheme) => scheme.sign(private_key, message),
            TransactionScheme::Bls12381(scheme) => scheme.sign(private_key, message),
        }
    }

    fn verify(&self, public_key: &[u8], message: &[u8], signature: &[u8]) -> (result: Result<
        (),
        CryptoError,
    >) {
        match self {
            TransactionScheme::Ed25519(scheme) => scheme.verify(public_key, message, signature),
            TransactionScheme::Bls12381(scheme) => scheme.verify(public_key, message, signature),
        }
    }

    fn public_key(&self, private_key: &[u8]) -> (result: Result<Vec<u8>, CryptoError>) {
        match self {
            TransactionScheme::Ed25519(scheme) => scheme.public_key(private_key),
            TransactionScheme::Bls12381(scheme) => scheme.public_key(private_key),
        }
    }

    fn generate_private_key(&self, rng: &mut dyn SecureRng) -> (key: Option<Vec<u8>>) {
        private_key_from_seed(rng.next_seed())
    }

    fn public_key_size(&self) -> (size: usize) {
        match self {
            TransactionScheme::Ed25519(scheme) => scheme.public_key_size(),
            TransactionScheme::Bls12381(scheme) => scheme.public_key_size(),
        }
    }

    fn signature_size(&self) -> (size: usize) {
        match self {
            TransactionScheme::Ed25519(scheme) => scheme.signature_size(),
            TransactionScheme::Bls12381(scheme) => scheme.signature_size(),
        }
    }

    fn scheme_id(&self) -> (id: SchemeId) {
        match self {
            TransactionScheme::Ed25519(scheme) => scheme.scheme_id(),
            TransactionScheme::Bls12381(scheme) => scheme.scheme_id(),
        }
    }
}

/// Immutable registry configured by the genesis signature-scheme allowlist.
pub struct SchemeRegistry<S: SignatureScheme> {
    schemes: OrderedMap<SchemeId, S>,
    active: OrderedSet<SchemeId>,
}

/// The identifiers of schemes, in order.
pub open spec fn scheme_ids<S: SignatureScheme>(schemes: Seq<S>) -> Seq<SchemeId> {
    schemes.map_values(|scheme: S| scheme.id())
}

/// The scheme at `i` repeats the identifier of an earlier one.
pub open spec fn repeats_earlier(ids: Seq<SchemeId>, i: int) -> bool {
    0 <= i < ids.len() && ids.take(i).contains(ids[i])
}

/// The position of the first scheme that repeats an earlier identifier.
pub open spec fn first_repeat(ids: Seq<SchemeId>, i: int) -> bool {
    repeats_earlier(ids, i) && forall|j: int| 0 <= j < i ==> !#[trigger] repeats_earlier(ids, j)
}

/// The smallest activated identifier that no scheme has.
pub open spec fn first_missing(ids: Seq<SchemeId>, active: Seq<SchemeId>, id: SchemeId) -> bool {
    &&& active.contains(id)
    &&& !ids.contains(id)
    &&& forall|other: SchemeId| active.contains(other) && !ids.contains(other) ==> id <= other
}

impl<S: SignatureScheme> SchemeRegistry<S> {
    /// The registered schemes by identifier.
    pub closed spec fn registered(&self) -> Map<SchemeId, S> {
        self.schemes@
    }

    /// The identifiers activated from genesis.
    pub closed spec fn activated(&self) -> Set<SchemeId> {
        self.active@
    }

    /// Constructs a registry and validates its static governance activation list.
    ///
    /// # Errors
    ///
    /// Returns an error for duplicate scheme IDs or activation of an unregistered scheme.
    pub fn from_genesis_config(schemes: Vec<S>, active: Vec<SchemeId>) -> (result: Result<
        Self,
        CryptoError,
    >)
        ensures
            match result {
                Ok(registry) => {
                    &&& forall|i: int| !repeats_earlier(scheme_ids(schemes@), i)
                    &&& forall|id: SchemeId|
                        active@.contains(id) ==> scheme_ids(schemes@).contains(id)
                    &&& registry.activated() == active@.to_set()
                    &&& forall|id: SchemeId|
                        registry.registered().contains_key(id) <==> scheme_ids(schemes@).contains(
                            id,
                        )
                    &&& forall|i: int|
                        0 <= i < schemes@.len() ==> registry.registered()[(
                        #[trigger] schemes@[i]).id()] == schemes@[i]
                },
                Err(CryptoError::DuplicateScheme(id)) => exists|i: int| #[trigger]
                    first_repeat(scheme_ids(schemes@), i) && scheme_ids(schemes@)[i] == id,
                Err(CryptoError::ActivatedSchemeMissing(id)) => {
                    &&& forall|i: int| !repeats_earlier(scheme_ids(schemes@), i)
                    &&& first_missing(scheme_ids(schemes@), active@, id)
                },
                Err(_) => false,
            },
    {
        let ghost all = schemes@;
        let ghost ids = scheme_ids(all);
        let mut registered: OrderedMap<SchemeId, S> = OrderedMap::new();
        let mut rest = schemes;
        let ghost mut done: int = 0;
        assert(rest@ =~= all.skip(0));
        while rest.len() > 0
            invariant
                0 <= done <= all.len(),
                all == schemes@,
                ids == scheme_ids(all),
                rest@ == all.skip(done),
                forall|id: SchemeId| registered@.contains_key(id) <==> ids.take(done).contains(id),
                forall|i: int|
                    0 <= i < done ==> registered@[(#[trigger] all[i]).id()] == all[i],
                forall|i: int| 0 <= i < done ==> !repeats_earlier(ids, i),
            decreases rest@.len(),
        {
            let scheme = rest.remove(0);
            let id: SchemeId = scheme.scheme_id();
            assert(ids[done] == id);
            assert(rest@ =~= all.skip(done + 1));
            let ghost before = registered@;
            if registered.insert(id, scheme).is_some() {
                assert(first_repeat(ids, done));
                return Err(CryptoError::DuplicateScheme(id));
            }
            proof {
                assert(!repeats_earlier(ids, done));
                let shorter = ids.take(done);
                let longer = ids.take(done + 1);
                assert(longer =~= shorter.push(id));
                assert forall|other: SchemeId| registered@.contains_key(other)
                    <==> longer.contains(other) by {
                    if shorter.contains(other) {
                        let k = choose|k: int| 0 <= k < shorter.len() && shorter[k] == other;
                        assert(longer[k] == other);
                    }
                    if other == id {
                        assert(longer[done] == id);
                    }
                }
                assert forall|i: int| 0 <= i < done + 1 implies registered@[(
                #[trigger] all[i]).id()] == all[i] by {
                    if i < done {
                        assert(shorter[i] == all[i].id());
                        assert(shorter.contains(all[i].id()));
                    }
                }
                done = done + 1;
            }
        }
        proof {
            assert(all.skip(done).len() == 0);
            assert(ids.take(done) =~= ids);
            assert forall|i: int| !repeats_earlier(ids, i) by {}
        }
        let activated = OrderedSet::from_keys(&active);
        let wanted = activated.keys();
        let mut index: usize = 0;
        while index < wanted.len()
            invariant
                index <= wanted@.len(),
                activated@ == active@.to_set(),
                forall|id: SchemeId| wanted@.contains(id) <==> activated@.contains(id),
                crate::ordered::strictly_sorted(wanted@),
                forall|id: SchemeId| registered@.contains_key(id) <==> ids.contains(id),
                forall|i: int| 0 <= i < index ==> ids.contains(#[trigger] wanted@[i]),
                ids == scheme_ids(schemes@),
                forall|i: int| !repeats_earlier(ids, i),
            decreases wanted@.len() - index,
        {
            let id: SchemeId = wanted[index];
            if !registered.contains_key(&id) {
                proof {
                    assert(wanted@[index as int] == id);
                    assert(activated@.contains(id));
                    assert(active@.contains(id));
                    assert forall|other: SchemeId|
                        active@.contains(other) && !ids.contains(other) implies id <= other by {
                        assert(activated@.contains(other));
                        let k = choose|k: int| 0 <= k < wanted@.len() && wanted@[k] == other;
                        assert(k >= index);
                    }
                    assert(first_missing(ids, active@, id));
                }
                return Err(CryptoError::ActivatedSchemeMissing(id));
            }
            index += 1;
        }
        proof {
            assert forall|id: SchemeId| active@.contains(id) implies ids.contains(id) by {
                assert(activated@.contains(id));
                let k = choose|k: int| 0 <= k < wanted@.len() && wanted@[k] == id;
                assert(ids.contains(wanted@[k]));
            }
        }
        Ok(SchemeRegistry { schemes: registered, active: activated })
    }

    /// Looks up an active signature scheme.
    ///
    /// # Errors
    ///
    /// Returns an error when the scheme is unregistered or inactive.
    pub fn get(&self, id: SchemeId) -> (result: Result<&S, CryptoError>)
        ensures
            result == (if !self.registered().contains_key(id) {
                Err(CryptoError::UnknownScheme(id))
            } else if !self.activated().contains(id) {
                Err(CryptoError::InactiveScheme(id))
            } else {
                Ok(&self.registered()[id])
            }),
    {
        match self.schemes.get(&id) {
            None => Err(CryptoError::UnknownScheme(id)),
            Some(scheme) => if self.active.contains(&id) {
                Ok(scheme)
            } else {
                Err(CryptoError::InactiveScheme(id))
            },
        }
    }
}

impl SchemeRegistry<Ed25519Scheme> {
    /// The registry of a chain that has only Ed25519 active from genesis.
    pub fn phase_zero() -> (registry: Self)
        ensures
            registry.registered() == map![ED25519_SCHEME_ID => Ed25519Scheme],
            registry.activated() == set![ED25519_SCHEME_ID],
    {
        let mut schemes: OrderedMap<SchemeId, Ed25519Scheme> = OrderedMap::new();
        let _ = schemes.insert(ED25519_SCHEME_ID, Ed25519Scheme);
        let mut active: OrderedSet<SchemeId> = OrderedSet::new();
        let _ = active.insert(ED25519_SCHEME_ID);
        let registry = SchemeRegistry { schemes, active };
        assert(registry.registered() =~= map![ED25519_SCHEME_ID => Ed25519Scheme]);
        assert(registry.activated() =~= set![ED25519_SCHEME_ID]);
        registry
    }
}

} // verus!
