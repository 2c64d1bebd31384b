//! Genesis documents: validation, normal form and refusals.

use kestrel::consensus::{ConsensusError, Validator};
use kestrel::crypto::{Bls12381Scheme, SignatureScheme};
use kestrel::node::genesis::{
    GenesisDocument, GenesisError, GenesisValidator, GENESIS_FORMAT_VERSION,
};
use kestrel::ordered::OrderedMap;
use kestrel::types::{Address, Hash256, Object, Owner};

fn fixture(reverse: bool) -> GenesisDocument {
    let scheme = Bls12381Scheme;
    let mut validators = (1_u8..=4)
        .map(|index| {
            let private_key = [index; 32];
            let gossip_identity =
                libp2p::identity::Keypair::ed25519_from_bytes([index; 32]).unwrap();
            GenesisValidator {
                name: format!("validator-{index}"),
                validator: Validator {
                    id: Hash256::digest(&[index]),
                    stake: 25,
                    public_key: scheme.public_key(&private_key).unwrap(),
                    proof_of_possession: scheme.proof_of_possession(&private_key).unwrap(),
                },
                network_address: format!("127.0.0.1:{}", 9_000 + u16::from(index)),
                rpc_address: format!("127.0.0.1:{}", 10_000 + u16::from(index)),
                gossip_peer_id: gossip_identity.public().to_peer_id().to_string(),
                gossip_address: format!("/ip4/127.0.0.1/tcp/{}", 11_000 + u16::from(index)),
            }
        })
        .collect::<Vec<_>>();
    let mut objects = (1_u8..=2)
        .map(|index| Object {
            id: Hash256::digest(&[index, 9]),
            owner: Owner::Single(Address::from_bytes([index; 32])),
            type_tag: "genesis::Balance".to_owned(),
            version: 0,
            data: vec![index],
            rent_balance: 100,
        })
        .collect::<Vec<_>>();
    if reverse {
        validators.reverse();
        objects.reverse();
    }
    GenesisDocument {
        format_version: GENESIS_FORMAT_VERSION,
        chain_id: "kestrel-testnet-1".to_owned(),
        genesis_unix_ms: 1_800_000_000_000,
        blocks_per_epoch: 100,
        state_config: vec![7, 8, 9],
        active_signature_schemes: vec![1, 2],
        equivocation_slash_basis_points: 5_000,
        validators,
        initial_objects: objects,
        initial_fee_balances: OrderedMap::new(),
    }
}

/// One validator as plain values.
type ValidatorFields = (String, [u8; 32], u64, Vec<u8>, Vec<u8>, [String; 4]);

/// One object as plain values; an owner is one address or none.
type ObjectFields = ([u8; 32], Option<[u8; 32]>, String, u64, Vec<u8>, u64);

/// A document as plain values.
type DocumentFields = (
    (u16, String, u64, u64, Vec<u8>),
    Vec<u16>,
    u16,
    Vec<ValidatorFields>,
    Vec<ObjectFields>,
    Vec<([u8; 32], u128)>,
);

fn fields(document: &GenesisDocument) -> DocumentFields {
    (
        (
            document.format_version,
            document.chain_id.clone(),
            document.genesis_unix_ms,
            document.blocks_per_epoch,
            document.state_config.clone(),
        ),
        document.active_signature_schemes.clone(),
        document.equivocation_slash_basis_points,
        document
            .validators
            .iter()
            .map(|entry| {
                (
                    entry.name.clone(),
                    entry.validator.id.bytes,
                    entry.validator.stake,
                    entry.validator.public_key.clone(),
                    entry.validator.proof_of_possession.clone(),
                    [
                        entry.network_address.clone(),
                        entry.rpc_address.clone(),
                        entry.gossip_peer_id.clone(),
                        entry.gossip_address.clone(),
                    ],
                )
            })
            .collect(),
        document
            .initial_objects
            .iter()
            .map(|object| {
                let owner = match object.owner {
                    Owner::Single(address) => Some(address.bytes),
                    Owner::Shared => None,
                };
                (
                    object.id.bytes,
                    owner,
                    object.type_tag.clone(),
                    object.version,
                    object.data.clone(),
                    object.rent_balance,
                )
            })
            .collect(),
        document
            .initial_fee_balances
            .keys()
            .into_iter()
            .map(|address| {
                let amount = document.initial_fee_balances.get(&address).unwrap();
                (address.bytes, *amount)
            })
            .collect(),
    )
}

fn document_of(fields: DocumentFields) -> GenesisDocument {
    let (head, schemes, slash, validators, objects, balances) = fields;
    let mut initial_fee_balances = OrderedMap::new();
    for (address, amount) in balances {
        initial_fee_balances.insert(Address::from_bytes(address), amount);
    }
    GenesisDocument {
        format_version: head.0,
        chain_id: head.1,
        genesis_unix_ms: head.2,
        blocks_per_epoch: head.3,
        state_config: head.4,
        active_signature_schemes: schemes,
        equivocation_slash_basis_points: slash,
        validators: validators
            .into_iter()
            .map(|(name, id, stake, public_key, proof_of_possession, addresses)| {
                let [network_address, rpc_address, gossip_peer_id, gossip_address] = addresses;
                GenesisValidator {
                    name,
                    validator: Validator {
                        id: Hash256 { bytes: id },
                        stake,
                        public_key,
                        proof_of_possession,
                    },
                    network_address,
                    rpc_address,
                    gossip_peer_id,
                    gossip_address,
                }
            })
            .collect(),
        initial_objects: objects
            .into_iter()
            .map(|(id, owner, type_tag, version, data, rent_balance)| Object {
                id: Hash256 { bytes: id },
                owner: owner.map_or(Owner::Shared, |bytes| {
                    Owner::Single(Address::from_bytes(bytes))
                }),
                type_tag,
                version,
                data,
                rent_balance,
            })
            .collect(),
        initial_fee_balances,
    }
}

fn state_root(document: GenesisDocument) -> Hash256 {
    Hash256::digest(&bcs::to_bytes(&fields(&document.normalized()).4).unwrap())
}

#[test]
fn genesis_is_order_independent_and_round_trips_json() {
    let first = fixture(false);
    let second = fixture(true);
    let first_validated = first.validate(Ok(state_root(first.clone()))).unwrap();
    let second_validated = second.validate(Ok(state_root(second.clone()))).unwrap();
    assert_eq!(first_validated.genesis_hash, second_validated.genesis_hash);
    assert_eq!(first_validated.state_root, second_validated.state_root);

    let json = serde_json::to_vec(&fields(&first.clone().normalized())).unwrap();
    let read: DocumentFields = serde_json::from_slice(&json).unwrap();
    assert_eq!(
        document_of(read).canonical_bytes().unwrap(),
        first.canonical_bytes().unwrap()
    );
}

#[test]
fn canonical_bytes_are_the_fields_in_order() {
    let mut document = fixture(true);
    document.chain_id = "k".to_owned();
    document.active_signature_schemes = vec![2, 1];
    document.validators.truncate(0);
    document.initial_objects.truncate(1);
    document.initial_objects[0].owner = Owner::Shared;
    document.initial_objects[0].type_tag = "t".to_owned();
    document.initial_fee_balances.insert(Address::from_bytes([9; 32]), 5);
    document.initial_fee_balances.insert(Address::from_bytes([8; 32]), 6);
    let mut expected = vec![1, 0, 1, b'k'];
    expected.extend_from_slice(&1_800_000_000_000_u64.to_le_bytes());
    expected.extend_from_slice(&100_u64.to_le_bytes());
    // The encoded settings of the state stand as they are.
    expected.extend_from_slice(&[7, 8, 9]);
    expected.extend_from_slice(&[2, 1, 0, 2, 0]);
    expected.extend_from_slice(&5_000_u16.to_le_bytes());
    expected.push(0);
    expected.push(1);
    expected.extend_from_slice(&document.initial_objects[0].id.bytes);
    expected.extend_from_slice(&[1, 1, b't']);
    expected.extend_from_slice(&0_u64.to_le_bytes());
    expected.extend_from_slice(&[1, 2]);
    expected.extend_from_slice(&100_u64.to_le_bytes());
    expected.push(2);
    expected.extend_from_slice(&[8; 32]);
    expected.extend_from_slice(&6_u128.to_le_bytes());
    expected.extend_from_slice(&[9; 32]);
    expected.extend_from_slice(&5_u128.to_le_bytes());
    assert_eq!(document.canonical_bytes(), Ok(expected));
}

#[test]
fn every_part_of_a_document_is_in_its_hash() {
    let hash = |change: &dyn Fn(&mut GenesisDocument)| {
        let mut document = fixture(false);
        change(&mut document);
        document.validate(Ok(Hash256::default())).unwrap().genesis_hash
    };
    let plain = hash(&|_| {});
    assert_eq!(plain, Hash256::digest(&fixture(true).canonical_bytes().unwrap()));
    assert_ne!(plain, hash(&|document| document.equivocation_slash_basis_points = 1));
    assert_ne!(plain, hash(&|document| document.blocks_per_epoch = 1));
    assert_ne!(plain, hash(&|document| document.state_config = vec![7, 8]));
    assert_ne!(plain, hash(&|document| document.initial_objects[0].owner = Owner::Shared));
    assert_ne!(
        plain,
        hash(&|document| {
            document.initial_fee_balances.insert(Address::from_bytes([1; 32]), 1);
        })
    );
    assert_eq!(plain, hash(&|document| document.active_signature_schemes = vec![2, 1]));
}

#[test]
fn documents_are_refused_for_each_reason() {
    let refused = |change: &dyn Fn(&mut GenesisDocument)| {
        let mut document = fixture(false);
        change(&mut document);
        document.check().err()
    };
    assert!(fixture(false).check().is_ok());
    assert_eq!(
        refused(&|document| document.format_version = 99),
        Some(GenesisError::UnsupportedFormat(99))
    );
    for chain_id in ["", "white space", &"x".repeat(65)] {
        assert_eq!(
            refused(&|document| document.chain_id = chain_id.to_owned()),
            Some(GenesisError::InvalidChainId)
        );
    }
    assert_eq!(
        refused(&|document| document.genesis_unix_ms = 0),
        Some(GenesisError::InvalidGenesisTime)
    );
    assert_eq!(
        refused(&|document| document.blocks_per_epoch = 0),
        Some(GenesisError::InvalidBlocksPerEpoch)
    );
    assert!(refused(&|document| document.equivocation_slash_basis_points = 0).is_some());
    assert!(refused(&|document| document.active_signature_schemes = vec![1, 1]).is_some());
    assert!(refused(&|document| document.active_signature_schemes = vec![7]).is_some());
    assert!(refused(&|document| document.validators[0].name = "  ".to_owned()).is_some());
    assert!(refused(&|document| {
        document.validators[0].gossip_peer_id = "not a peer".to_owned();
    })
    .is_some());
    assert!(refused(&|document| {
        document.validators[0].gossip_address = "not an address".to_owned();
    })
    .is_some());
    assert!(refused(&|document| {
        let address = document.validators[1].network_address.clone();
        document.validators[0].network_address = address;
    })
    .is_some());
    assert_eq!(
        refused(&|document| document.validators.truncate(3)),
        Some(GenesisError::ValidatorCount(3))
    );
    assert!(matches!(
        refused(&|document| document.validators[0].validator.stake = 0),
        Some(GenesisError::Consensus(ConsensusError::InvalidValidatorSet))
    ));
    assert_eq!(
        fixture(false).validate(Err("no state".to_owned())).err(),
        Some(GenesisError::State("no state".to_owned()))
    );
}
