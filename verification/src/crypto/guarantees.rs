//! What signature schemes are for.

use vstd::prelude::*;
use vstd::utf8::{encode_utf8, encode_utf8_decode_utf8};

use crate::crypto::{
    account_address, bls_aggregate, bls_aggregate_holds, bls_aggregate_verification,
    bls_aggregation, bls_holds, bls_key_encoding, bls_possession_domain,
    bls_possession_verification, bls_signature_decodes, bls_signature_domain, ed25519_holds,
    ed25519_key_decodes, first_missing, first_repeat, Bls12381Scheme, CryptoError, Ed25519Scheme,
    SchemeRegistry, SignatureScheme, TransactionScheme,
};
use crate::types::{address_of, SchemeId};

verus! {

/// The two schemes have identifiers and sizes of their own.
pub proof fn law_schemes_can_be_told_apart()
    ensures
        Ed25519Scheme.id() == 1,
        Ed25519Scheme.key_length() == 32,
        Ed25519Scheme.signature_length() == 64,
        Bls12381Scheme.id() == 2,
        Bls12381Scheme.key_length() == 48,
        Bls12381Scheme.signature_length() == 96,
{
}

/// A signature verifies exactly where key and signature can be read and the signature is
/// one of that key over that message.
pub proof fn law_verification_is_of_key_and_message(
    public_key: Seq<u8>,
    message: Seq<u8>,
    signature: Seq<u8>,
)
    ensures
        Ed25519Scheme.verification(public_key, message, signature) is Ok <==> {
            &&& public_key.len() == 32
            &&& ed25519_key_decodes(public_key)
            &&& signature.len() == 64
            &&& ed25519_holds(public_key, message, signature)
        },
        Bls12381Scheme.verification(public_key, message, signature) is Ok <==> {
            &&& bls_key_encoding(public_key) is Some
            &&& bls_signature_decodes(signature)
            &&& bls_holds(public_key, message, bls_signature_domain(), signature)
        },
        TransactionScheme::Ed25519(Ed25519Scheme).verification(public_key, message, signature)
            == Ed25519Scheme.verification(public_key, message, signature),
        TransactionScheme::Bls12381(Bls12381Scheme).verification(public_key, message, signature)
            == Bls12381Scheme.verification(public_key, message, signature),
{
}

/// Private keys are thirty-two bytes; any other length is refused and named.
pub proof fn law_private_keys_are_thirty_two_bytes(private_key: Seq<u8>, message: Seq<u8>)
    requires
        private_key.len() <= usize::MAX,
    ensures
        Ed25519Scheme.signature(private_key, message) is Ok <==> private_key.len() == 32,
        Ed25519Scheme.derived_key(private_key) is Ok <==> private_key.len() == 32,
        Bls12381Scheme.signature(private_key, message) is Ok ==> private_key.len() == 32,
        Bls12381Scheme.derived_key(private_key) is Ok ==> private_key.len() == 32,
        private_key.len() != 32 ==> Bls12381Scheme.signature(private_key, message) == Err::<
            Seq<u8>,
            CryptoError,
        >(
            CryptoError::InvalidPrivateKeyLength {
                expected: 32,
                actual: private_key.len() as usize,
            },
        ),
{
}

/// A vote can never be passed off as a proof of possession, nor the other way round: the
/// two are signed in different domains.
pub proof fn law_possession_is_proved_in_its_own_domain(public_key: Seq<u8>, proof_bytes: Seq<u8>)
    ensures
        bls_signature_domain() != bls_possession_domain(),
        bls_possession_verification(public_key, proof_bytes) is Ok <==> {
            &&& bls_key_encoding(public_key) is Some
            &&& bls_signature_decodes(proof_bytes)
            &&& bls_holds(
                public_key,
                bls_key_encoding(public_key).unwrap(),
                bls_possession_domain(),
                proof_bytes,
            )
        },
{
    let votes = "KESTREL_BLS_SIG_BLS12381G2_XMD:SHA-256_SSWU_RO_V1"@;
    let proofs = "KESTREL_BLS_POP_BLS12381G2_XMD:SHA-256_SSWU_RO_V1"@;
    reveal_strlit("KESTREL_BLS_SIG_BLS12381G2_XMD:SHA-256_SSWU_RO_V1");
    reveal_strlit("KESTREL_BLS_POP_BLS12381G2_XMD:SHA-256_SSWU_RO_V1");
    assert(votes[12] == 'S' && proofs[12] == 'P');
    encode_utf8_decode_utf8(votes);
    encode_utf8_decode_utf8(proofs);
    assert(encode_utf8(votes) != encode_utf8(proofs));
}

/// An aggregate verifies exactly where there are keys, all of them and the signature can
/// be read, and it is an aggregate of signatures of all those keys over that message;
/// nothing is aggregated of nothing.
pub proof fn law_aggregates_are_of_all_keys(
    public_keys: Seq<Seq<u8>>,
    message: Seq<u8>,
    signature: Seq<u8>,
    signatures: Seq<Seq<u8>>,
)
    ensures
        bls_aggregate_verification(public_keys, message, signature) is Ok <==> {
            &&& public_keys.len() > 0
            &&& forall|i: int|
                0 <= i < public_keys.len() ==> bls_key_encoding(#[trigger] public_keys[i]) is Some
            &&& bls_signature_decodes(signature)
            &&& bls_aggregate_holds(public_keys, message, bls_signature_domain(), signature)
        },
        signatures.len() == 0 ==> bls_aggregation(signatures) == Err::<Seq<u8>, CryptoError>(
            CryptoError::EmptyAggregate,
        ),
        signatures.len() > 0 ==> (bls_aggregation(signatures) is Ok <==> bls_aggregate(signatures)
            is Some),
        bls_aggregation(signatures) matches Ok(aggregate) ==> bls_aggregate(signatures) == Some(
            aggregate,
        ),
{
}

/// An account belongs to one scheme and one key of that scheme's length.
pub proof fn law_account_is_of_scheme_and_key(id: SchemeId, length: usize, public_key: Seq<u8>)
    ensures
        account_address(id, length, public_key) is Ok <==> public_key.len() == length,
        account_address(id, length, public_key) matches Ok(address) ==> address == address_of(
            id,
            public_key,
        ),
{
}

/// A registry refuses the first identifier that repeats an earlier one, and of those that
/// are activated without being there the lowest.
pub proof fn law_registry_names_what_is_wrong(
    ids: Seq<SchemeId>,
    active: Seq<SchemeId>,
    i: int,
    id: SchemeId,
)
    ensures
        first_repeat(ids, i) ==> 0 <= i < ids.len() && (exists|j: int|
            0 <= j < i && ids[j] == ids[i]) && forall|a: int, b: int|
            0 <= a < b < i ==> ids[a] != ids[b],
        first_missing(ids, active, id) ==> active.contains(id) && !ids.contains(id) && forall|
            k: int,
        |
            0 <= k < active.len() && !ids.contains(#[trigger] active[k]) ==> id <= active[k],
{
    if first_repeat(ids, i) {
        let earlier = ids.take(i);
        let j = choose|j: int| 0 <= j < earlier.len() && earlier[j] == ids[i];
        assert(ids[j] == ids[i]);
        assert forall|a: int, b: int| 0 <= a < b < i implies ids[a] != ids[b] by {
            assert(!crate::crypto::repeats_earlier(ids, b));
            assert(ids.take(b)[a] == ids[a]);
        }
    }
    if first_missing(ids, active, id) {
        assert forall|k: int| 0 <= k < active.len() && !ids.contains(#[trigger] active[k]) implies id
            <= active[k] by {
            assert(active.contains(active[k]));
        }
    }
}

/// A registry hands out a scheme exactly where it is registered and activated, and hands
/// out the one that was registered under that identifier.
pub proof fn law_registry_hands_out_active_schemes<S: SignatureScheme>(
    registry: &SchemeRegistry<S>,
    id: SchemeId,
    result: Result<&S, CryptoError>,
)
    requires
        call_ensures(SchemeRegistry::<S>::get, (registry, id), result),
    ensures
        result is Ok <==> registry.registered().contains_key(id) && registry.activated().contains(
            id,
        ),
        result matches Ok(scheme) ==> *scheme == registry.registered()[id],
        !registry.registered().contains_key(id) ==> result == Err::<&S, CryptoError>(
            CryptoError::UnknownScheme(id),
        ),
{
}

} // verus!
