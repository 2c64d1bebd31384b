//! What operators hand over, and what is made of it.

use kestrel::node::arguments::{
    check_rpc_bind, cli_command, has_flag, new_genesis, parse_hash, parse_hash_list,
    parse_number, parse_stake, runs_as_validator, validator_identity, value_after,
    ArgumentError, CliCommand, CLI_NAME, NODE_NAME,
};
use kestrel::types::Hash256;

fn words(list: &[&str]) -> Vec<String> {
    list.iter().map(|word| (*word).to_owned()).collect()
}

#[test]
fn help_identifies_as_kestrel() {
    assert_eq!(CLI_NAME, "cli");
}

#[test]
fn binary_identifies_as_kestrel() {
    assert_eq!(NODE_NAME, "node");
}

#[test]
fn commands_are_named_by_the_first_argument() {
    assert_eq!(cli_command(&words(&[])), CliCommand::Help);
    assert_eq!(cli_command(&words(&["validator-init", "x"])), CliCommand::ValidatorInit);
    assert_eq!(cli_command(&words(&["genesis-create"])), CliCommand::GenesisCreate);
    assert_eq!(cli_command(&words(&["genesis-validate"])), CliCommand::GenesisValidate);
    assert_eq!(cli_command(&words(&["genesis"])), CliCommand::Help);
}

#[test]
fn values_follow_the_first_occurrence_of_their_flag() {
    let arguments = words(&["run", "--rpc", "a", "--rpc", "b", "--last"]);
    assert_eq!(value_after(&arguments, "--rpc"), Some("a"));
    assert_eq!(value_after(&arguments, "run"), Some("--rpc"));
    assert_eq!(value_after(&arguments, "--last"), None);
    assert_eq!(value_after(&arguments, "--missing"), None);
    assert_eq!(value_after(&[], "--rpc"), None);
    assert!(has_flag(&arguments, "--last"));
    assert!(!has_flag(&arguments, "--lasting"));
}

#[test]
fn identifiers_are_thirty_two_hexadecimal_bytes() {
    let digits = "000102030405060708090a0b0c0d0e0f101112131415161718191A1B1C1D1E1F";
    let mut bytes = [0_u8; 32];
    for (index, byte) in bytes.iter_mut().enumerate() {
        *byte = index as u8;
    }
    let expected = Hash256::from_bytes(bytes);
    assert_eq!(parse_hash(digits), Ok(expected));
    assert_eq!(parse_hash(&format!("0x{digits}")), Ok(expected));
    assert_eq!(parse_hash(&digits[..62]), Err(ArgumentError::WrongLength));
    assert_eq!(parse_hash(&digits[..63]), Err(ArgumentError::NotHexadecimal));
    assert_eq!(parse_hash("zz"), Err(ArgumentError::NotHexadecimal));
    assert_eq!(parse_hash(""), Err(ArgumentError::WrongLength));
    let other = Hash256::from_bytes([0xff; 32]);
    let list = format!(",{digits},{},{digits},", "f".repeat(64));
    let hashes = parse_hash_list(&list).unwrap();
    assert_eq!(hashes.len(), 2);
    assert!(hashes.contains(&expected) && hashes.contains(&other));
    assert_eq!(parse_hash_list("").unwrap().len(), 0);
    assert_eq!(
        parse_hash_list(&format!("{digits},xy,00")).err(),
        Some(ArgumentError::NotHexadecimal)
    );
}

#[test]
fn numbers_are_decimal_and_bounded() {
    assert_eq!(parse_number("0", u64::MAX), Ok(0));
    assert_eq!(parse_number("+42", u64::MAX), Ok(42));
    assert_eq!(parse_number("18446744073709551615", u64::MAX), Ok(u64::MAX));
    for text in ["", "+", "-1", " 1", "1 ", "1_000", "18446744073709551616", "0x1"] {
        assert_eq!(parse_number(text, u64::MAX), Err(ArgumentError::NotAnInteger));
        assert!(text.parse::<u64>().is_err());
    }
    assert_eq!(parse_number("65535", 65_535), Ok(65_535));
    assert_eq!(parse_number("65536", 65_535), Err(ArgumentError::NotAnInteger));
    assert_eq!(parse_stake("100"), Ok(100));
    assert_eq!(parse_stake("0"), Err(ArgumentError::ZeroStake));
    assert_eq!(parse_stake("many"), Err(ArgumentError::NotAnInteger));
}

#[test]
fn identities_and_new_chains_are_fixed_by_their_parts() {
    let mut message = b"kestrel/validator/id/v1".to_vec();
    message.extend_from_slice(&[1, 2, 3]);
    assert_eq!(validator_identity(&[1, 2, 3]), Hash256::digest(&message));
    let document = new_genesis("chain".to_owned(), 7, vec![3], Vec::new());
    assert_eq!(document.state_config, vec![3]);
    assert_eq!(document.blocks_per_epoch, 100);
    assert_eq!(document.active_signature_schemes, vec![1, 2]);
    assert_eq!(document.equivocation_slash_basis_points, 5_000);
    assert_eq!(document.genesis_unix_ms, 7);
}

#[test]
fn validators_give_their_whole_identity() {
    assert_eq!(runs_as_validator(true, true, true, true), Ok(true));
    assert_eq!(runs_as_validator(false, false, false, false), Ok(false));
    for missing in 0..4 {
        let given: Vec<bool> = (0..4).map(|part| part != missing).collect();
        assert_eq!(
            runs_as_validator(given[0], given[1], given[2], given[3]),
            Err(ArgumentError::IncompleteIdentity)
        );
    }
    assert_eq!(check_rpc_bind(true, false), Ok(()));
    assert_eq!(check_rpc_bind(false, true), Ok(()));
    assert_eq!(check_rpc_bind(false, false), Err(ArgumentError::PublicRpcRefused));
}
