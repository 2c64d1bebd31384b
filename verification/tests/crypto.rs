//! Signatures, keys and addresses with the real schemes.

use kestrel::crypto::{
    Bls12381Scheme, CryptoError, Ed25519Scheme, SchemeRegistry, SecureRng, SignatureScheme,
    TransactionScheme, BLS12381_SCHEME_ID, ED25519_SCHEME_ID,
};

#[test]
fn ed25519_sign_verify_round_trip() {
    let scheme = Ed25519Scheme;
    let private_key = [7_u8; Ed25519Scheme::PRIVATE_KEY_SIZE];
    let public_key = scheme.public_key(&private_key).unwrap();
    let signature = scheme.sign(&private_key, b"kestrel").unwrap();
    assert_eq!(public_key.len(), scheme.public_key_size());
    assert_eq!(signature.len(), scheme.signature_size());
    assert_eq!(scheme.verify(&public_key, b"kestrel", &signature), Ok(()));
    assert_eq!(
        scheme.verify(&public_key, b"tampered", &signature),
        Err(CryptoError::VerificationFailed)
    );
}

#[test]
fn registry_enforces_activation() {
    let registry =
        SchemeRegistry::from_genesis_config(vec![TransactionScheme::Ed25519(Ed25519Scheme)], vec![])
            .unwrap();
    assert!(matches!(
        registry.get(ED25519_SCHEME_ID),
        Err(CryptoError::InactiveScheme(ED25519_SCHEME_ID))
    ));
}

#[test]
fn registry_rejects_duplicate_scheme_ids() {
    let schemes = vec![
        TransactionScheme::Ed25519(Ed25519Scheme),
        TransactionScheme::Ed25519(Ed25519Scheme),
    ];
    assert!(matches!(
        SchemeRegistry::from_genesis_config(schemes, vec![ED25519_SCHEME_ID]),
        Err(CryptoError::DuplicateScheme(ED25519_SCHEME_ID))
    ));
}

#[test]
fn address_is_bound_to_scheme_and_public_key() {
    let scheme = Ed25519Scheme;
    let private_key = [11_u8; Ed25519Scheme::PRIVATE_KEY_SIZE];
    let public_key = scheme.public_key(&private_key).unwrap();
    let address = scheme.address(&public_key).unwrap();
    assert_ne!(address.as_bytes().as_slice(), public_key.as_slice());
}

#[test]
fn bls_aggregate_round_trip_requires_all_signers() {
    let scheme = Bls12381Scheme;
    let private_keys = [[1_u8; 32], [2_u8; 32], [3_u8; 32]];
    let public_keys = private_keys
        .iter()
        .map(|key| scheme.public_key(key).unwrap())
        .collect::<Vec<_>>();
    for (key, public_key) in private_keys.iter().zip(&public_keys) {
        let proof = scheme.proof_of_possession(key).unwrap();
        scheme
            .verify_proof_of_possession(public_key, &proof)
            .unwrap();
    }
    let signatures = private_keys
        .iter()
        .map(|key| scheme.sign(key, b"vote").unwrap())
        .collect::<Vec<_>>();
    let aggregate = scheme.aggregate(&signatures).unwrap();
    scheme
        .verify_aggregate(&public_keys, b"vote", &aggregate)
        .unwrap();
    assert_eq!(
        scheme.verify_aggregate(&public_keys[..2], b"vote", &aggregate),
        Err(CryptoError::VerificationFailed)
    );
}

#[test]
fn bls_proof_of_possession_is_key_bound() {
    let scheme = Bls12381Scheme;
    let first = [11_u8; 32];
    let second = [12_u8; 32];
    let proof = scheme.proof_of_possession(&first).unwrap();
    let second_public = scheme.public_key(&second).unwrap();
    assert_eq!(
        scheme.verify_proof_of_possession(&second_public, &proof),
        Err(CryptoError::InvalidProofOfPossession)
    );
}

#[test]
fn a_proof_of_possession_takes_a_key_of_its_length_and_verifies_under_it() {
    let scheme = Bls12381Scheme;
    let key = [13_u8; 32];
    let proof = scheme.proof_of_possession(&key).unwrap();
    assert_eq!(proof.len(), 96);
    let public = scheme.public_key(&key).unwrap();
    assert_eq!(scheme.verify_proof_of_possession(&public, &proof), Ok(()));
    assert_eq!(
        scheme.proof_of_possession(&[13; 31]),
        Err(CryptoError::InvalidPrivateKeyLength {
            expected: 32,
            actual: 31
        })
    );
}

#[test]
fn bls_signatures_verify_under_their_own_key_alone() {
    let scheme = Bls12381Scheme;
    let public_key = scheme.public_key(&[5; 32]).unwrap();
    let other_key = scheme.public_key(&[6; 32]).unwrap();
    let signature = scheme.sign(&[5; 32], b"message").unwrap();
    assert_eq!(public_key.len(), scheme.public_key_size());
    assert_eq!(signature.len(), scheme.signature_size());
    assert_eq!(scheme.verify(&public_key, b"message", &signature), Ok(()));
    assert_eq!(
        scheme.verify(&other_key, b"message", &signature),
        Err(CryptoError::VerificationFailed)
    );
    assert_ne!(
        Ed25519Scheme.address(&Ed25519Scheme.public_key(&[5; 32]).unwrap()),
        scheme.address(&public_key)
    );
}

#[test]
fn malformed_keys_and_signatures_are_refused() {
    let ed25519 = Ed25519Scheme;
    assert!(ed25519.public_key(&[1; 31]).is_err());
    assert!(ed25519.sign(&[1; 33], b"m").is_err());
    let public_key = ed25519.public_key(&[1; 32]).unwrap();
    assert!(ed25519.verify(&public_key, b"m", &[0; 63]).is_err());
    assert!(ed25519.address(&[0; 5]).is_err());
    let bls = Bls12381Scheme;
    assert!(bls.public_key(&[1; 31]).is_err());
    assert!(bls.aggregate(&[]).is_err());
    assert!(bls.verify(&[0; 48], b"m", &[0; 96]).is_err());
}

#[test]
fn generated_keys_sign_and_differ() {
    let first = Ed25519Scheme::generate_os_private_key().unwrap();
    let second = Ed25519Scheme::generate_os_private_key().unwrap();
    assert_ne!(first, second);
    let public_key = Ed25519Scheme.public_key(&first).unwrap();
    let signature = Ed25519Scheme.sign(&first, b"generated").unwrap();
    assert_eq!(Ed25519Scheme.verify(&public_key, b"generated", &signature), Ok(()));
    let bls = Bls12381Scheme::generate_os_private_key().unwrap();
    assert_eq!(bls.len(), 32);
    assert!(Bls12381Scheme.public_key(&bls).is_ok());
}

#[test]
fn phase_zero_knows_the_first_scheme_alone() {
    let registry = SchemeRegistry::phase_zero();
    assert!(registry.get(ED25519_SCHEME_ID).is_ok());
    assert!(matches!(
        registry.get(BLS12381_SCHEME_ID),
        Err(CryptoError::UnknownScheme(BLS12381_SCHEME_ID))
    ));
}

/// A source that gives one seed, then fails.
struct OneSeed(Option<[u8; 32]>);

impl SecureRng for OneSeed {
    fn gives(&self, seed: Option<[u8; 32]>) -> bool {
        self.0 == seed
    }

    fn next_seed(&mut self) -> Option<[u8; 32]> {
        self.0.take()
    }
}

#[test]
fn a_generated_key_is_the_seed_that_its_source_gave() {
    let schemes: [&dyn SignatureScheme; 3] = [
        &Ed25519Scheme,
        &Bls12381Scheme,
        &TransactionScheme::Ed25519(Ed25519Scheme),
    ];
    for scheme in schemes {
        let mut source = OneSeed(Some([5; 32]));
        assert_eq!(scheme.generate_private_key(&mut source), Some(vec![5; 32]));
        assert_eq!(scheme.generate_private_key(&mut source), None);
    }
}
