//! What operators hand to the node and the command-line tool: flags, numbers,
//! identifiers, and the records made from them.

use vstd::prelude::*;

use crate::bytes::{append, append_text, same_bytes, text_bytes};
use crate::node::genesis::{GenesisDocument, GenesisValidator, GENESIS_FORMAT_VERSION};
use crate::ordered::{OrderedMap, OrderedSet};
use crate::types::{hash_of, Hash256};

verus! {

/// The name of the command-line tool.
pub const CLI_NAME: &'static str = "cli";

/// The name of the node.
pub const NODE_NAME: &'static str = "node";

/// Why an argument was refused.
#[derive(Clone, Copy, Debug, PartialEq, Eq, Structural)]
pub enum ArgumentError {
    /// An identifier must be hexadecimal.
    NotHexadecimal,
    /// An identifier must contain exactly 32 bytes.
    WrongLength,
    /// A number was expected.
    NotAnInteger,
    /// Stake must be nonzero.
    ZeroStake,
    /// The validator's identity, its two keys and its data directory must be
    /// supplied together.
    IncompleteIdentity,
    /// A public RPC address was not explicitly allowed.
    PublicRpcRefused,
}

/// What the command-line tool is asked to do.
#[derive(Clone, Copy, Debug, PartialEq, Eq, Structural)]
pub enum CliCommand {
    ValidatorInit,
    GenesisCreate,
    GenesisValidate,
    Help,
}

/// Whether two texts are the same.
fn same_text(left: &str, right: &str) -> (same: bool)
    ensures
        same == (left@ == right@),
{
    proof {
        vstd::utf8::encode_utf8_decode_utf8(left@);
        vstd::utf8::encode_utf8_decode_utf8(right@);
    }
    same_bytes(left.as_bytes(), right.as_bytes())
}

/// The command that the first argument names; everything else asks for help.
pub open spec fn named_command(arguments: Seq<String>) -> CliCommand {
    if arguments.len() == 0 {
        CliCommand::Help
    } else if arguments[0]@ == "validator-init"@ {
        CliCommand::ValidatorInit
    } else if arguments[0]@ == "genesis-create"@ {
        CliCommand::GenesisCreate
    } else if arguments[0]@ == "genesis-validate"@ {
        CliCommand::GenesisValidate
    } else {
        CliCommand::Help
    }
}

/// The command that the first argument names; everything else asks for help.
pub fn cli_command(arguments: &[String]) -> (command: CliCommand)
    ensures
        command == named_command(arguments@),
{
    if arguments.len() == 0 {
        return CliCommand::Help;
    }
    let first = arguments[0].as_str();
    if same_text(first, "validator-init") {
        CliCommand::ValidatorInit
    } else if same_text(first, "genesis-create") {
        CliCommand::GenesisCreate
    } else if same_text(first, "genesis-validate") {
        CliCommand::GenesisValidate
    } else {
        CliCommand::Help
    }
}

/// The first argument that follows a flag stands at `i`.
pub open spec fn follows_flag(arguments: Seq<String>, flag: Seq<char>, i: int) -> bool {
    &&& 0 < i < arguments.len()
    &&& arguments[i - 1]@ == flag
    &&& forall|j: int| 0 <= j < i - 1 ==> (#[trigger] arguments[j])@ != flag
}

/// The argument that follows the first occurrence of a flag, where one does.
pub fn value_after<'a>(arguments: &'a [String], flag: &str) -> (value: Option<&'a str>)
    ensures
        match value {
            Some(value) => exists|i: int| #[trigger]
                follows_flag(arguments@, flag@, i) && value@ == arguments@[i]@,
            None => forall|j: int|
                0 <= j < arguments@.len() - 1 ==> (#[trigger] arguments@[j])@ != flag@,
        },
{
    if arguments.len() < 2 {
        return None;
    }
    let mut index: usize = 0;
    while index < arguments.len() - 1
        invariant
            arguments@.len() >= 2,
            index <= arguments@.len() - 1,
            forall|j: int| 0 <= j < index ==> (#[trigger] arguments@[j])@ != flag@,
        decreases arguments@.len() - index,
    {
        if same_text(arguments[index].as_str(), flag) {
            assert(follows_flag(arguments@, flag@, index + 1));
            return Some(arguments[index + 1].as_str());
        }
        index += 1;
    }
    None
}

/// Whether a flag is among the arguments.
pub fn has_flag(arguments: &[String], flag: &str) -> (found: bool)
    ensures
        found == exists|i: int| 0 <= i < arguments@.len() && (#[trigger] arguments@[i])@ == flag@,
{
    let mut index: usize = 0;
    while index < arguments.len()
        invariant
            index <= arguments@.len(),
            forall|j: int| 0 <= j < index ==> (#[trigger] arguments@[j])@ != flag@,
        decreases arguments@.len() - index,
    {
        if same_text(arguments[index].as_str(), flag) {
            assert(arguments@[index as int]@ == flag@);
            return true;
        }
        index += 1;
    }
    false
}

/// Whether a byte is a decimal digit.
pub open spec fn is_digit(byte: u8) -> bool {
    48 <= byte <= 57
}

/// The number that decimal digits denote.
pub open spec fn decimal(digits: Seq<u8>) -> nat
    decreases digits.len(),
{
    if digits.len() == 0 {
        0
    } else {
        decimal(digits.drop_last()) * 10 + (digits.last() - 48) as nat
    }
}

/// The digits of a number, behind an optional plus sign.
pub open spec fn unsigned_digits(text: Seq<u8>) -> Seq<u8> {
    if text.len() > 0 && text[0] == 43 {
        text.skip(1)
    } else {
        text
    }
}

/// The number that a text denotes: decimal digits behind an optional plus sign,
/// at most `maximum`.
pub open spec fn number_in(text: Seq<u8>, maximum: u64) -> Option<u64> {
    let digits = unsigned_digits(text);
    if digits.len() > 0 && (forall|i: int| 0 <= i < digits.len() ==> is_digit(#[trigger] digits[i]))
        && decimal(digits) <= maximum {
        Some(decimal(digits) as u64)
    } else {
        None
    }
}

/// Reads a number of at most `maximum`.
///
/// # Errors
///
/// Rejects texts that are no such number.
pub fn parse_number(text: &str, maximum: u64) -> (result: Result<u64, ArgumentError>)
    ensures
        match number_in(text_bytes(text), maximum) {
            Some(number) => result == Ok::<u64, ArgumentError>(number),
            None => result == Err::<u64, ArgumentError>(ArgumentError::NotAnInteger),
        },
{
    let bytes = text.as_bytes();
    let start: usize = if bytes.len() > 0 && bytes[0] == 43 {
        1
    } else {
        0
    };
    let ghost digits = unsigned_digits(bytes@);
    assert(digits =~= bytes@.skip(start as int));
    if bytes.len() == start {
        return Err(ArgumentError::NotAnInteger);
    }
    let mut value: u64 = 0;
    let mut index: usize = start;
    assert(digits.take(0) =~= Seq::<u8>::empty());
    while index < bytes.len()
        invariant
            start <= index <= bytes@.len(),
            bytes@ == text_bytes(text),
            digits == unsigned_digits(bytes@),
            digits == bytes@.skip(start as int),
            value == decimal(digits.take(index - start)),
            value <= maximum,
            forall|i: int| 0 <= i < index - start ==> is_digit(#[trigger] digits[i]),
        decreases bytes@.len() - index,
    {
        let byte: u8 = bytes[index];
        let ghost place = index - start;
        proof {
            assert(digits[place] == byte);
            assert(digits.take(place + 1).drop_last() =~= digits.take(place));
        }
        if byte < 48 || byte > 57 {
            assert(!is_digit(digits[place]));
            return Err(ArgumentError::NotAnInteger);
        }
        let digit: u64 = (byte - 48) as u64;
        if value > maximum / 10 || digit > maximum - value * 10 {
            proof {
                if forall|i: int| 0 <= i < digits.len() ==> is_digit(#[trigger] digits[i]) {
                    lemma_decimal_grows(digits, place + 1);
                }
            }
            return Err(ArgumentError::NotAnInteger);
        }
        value = value * 10 + digit;
        index += 1;
    }
    assert(digits.take(index - start) =~= digits);
    Ok(value)
}

/// More digits denote no smaller number.
proof fn lemma_decimal_grows(digits: Seq<u8>, count: int)
    requires
        0 <= count <= digits.len(),
        forall|i: int| 0 <= i < digits.len() ==> is_digit(#[trigger] digits[i]),
    ensures
        decimal(digits.take(count)) <= decimal(digits),
    decreases digits.len() - count,
{
    if count < digits.len() {
        lemma_decimal_grows(digits, count + 1);
        assert(digits.take(count + 1).drop_last() =~= digits.take(count));
        assert(is_digit(digits[count]));
    } else {
        assert(digits.take(count) =~= digits);
    }
}

/// The value of a hexadecimal digit of either case.
pub open spec fn hex_digit(byte: u8) -> Option<u8> {
    if 48 <= byte <= 57 {
        Some((byte - 48) as u8)
    } else if 65 <= byte <= 70 {
        Some((byte - 55) as u8)
    } else if 97 <= byte <= 102 {
        Some((byte - 87) as u8)
    } else {
        None
    }
}

/// Whether a text is pairs of hexadecimal digits.
pub open spec fn is_hexadecimal(text: Seq<u8>) -> bool {
    &&& text.len() % 2 == 0
    &&& forall|i: int| 0 <= i < text.len() ==> hex_digit(#[trigger] text[i]) is Some
}

/// The bytes that pairs of hexadecimal digits denote.
pub open spec fn hex_bytes(text: Seq<u8>) -> Seq<u8> {
    Seq::new(
        text.len() / 2,
        |i: int| (hex_digit(text[2 * i])->0 * 16 + hex_digit(text[2 * i + 1])->0) as u8,
    )
}

/// Calls `hex::decode`. Claimed: it takes exactly the texts that are pairs of
/// hexadecimal digits of either case, and each pair gives one byte, the high half
/// first.
#[verifier::external_body]
fn decode_hex(text: &[u8]) -> (bytes: Option<Vec<u8>>)
    ensures
        match bytes {
            Some(bytes) => is_hexadecimal(text@) && bytes@ == hex_bytes(text@),
            None => !is_hexadecimal(text@),
        },
{
    hex::decode(text).ok()
}

/// The digits of an identifier, behind an optional `0x`.
pub open spec fn identifier_digits(text: Seq<u8>) -> Seq<u8> {
    if text.len() >= 2 && text[0] == 48 && text[1] == 120 {
        text.skip(2)
    } else {
        text
    }
}

/// The identifier that a text denotes.
pub open spec fn identifier_in(text: Seq<u8>) -> Result<Seq<u8>, ArgumentError> {
    let digits = identifier_digits(text);
    if !is_hexadecimal(digits) {
        Err(ArgumentError::NotHexadecimal)
    } else if digits.len() != 64 {
        Err(ArgumentError::WrongLength)
    } else {
        Ok(hex_bytes(digits))
    }
}

/// What reading an identifier comes to.
pub open spec fn read_as(text: Seq<u8>, result: Result<Hash256, ArgumentError>) -> bool {
    match identifier_in(text) {
        Ok(bytes) => result matches Ok(hash) && hash@ == bytes,
        Err(error) => result == Err::<Hash256, ArgumentError>(error),
    }
}

/// Reads an identifier.
///
/// # Errors
///
/// Rejects texts that are not hexadecimal, and those of another length than 32
/// bytes.
pub fn parse_hash(encoded: &str) -> (result: Result<Hash256, ArgumentError>)
    ensures
        read_as(text_bytes(encoded), result),
{
    parse_hash_bytes(encoded.as_bytes())
}

fn parse_hash_bytes(text: &[u8]) -> (result: Result<Hash256, ArgumentError>)
    ensures
        read_as(text@, result),
{
    let start: usize = if text.len() >= 2 && text[0] == 48 && text[1] == 120 {
        2
    } else {
        0
    };
    let digits = vstd::slice::slice_subrange(text, start, text.len());
    assert(digits@ =~= identifier_digits(text@));
    match decode_hex(digits) {
        None => Err(ArgumentError::NotHexadecimal),
        Some(bytes) => {
            if bytes.len() != 32 {
                return Err(ArgumentError::WrongLength);
            }
            let mut array: [u8; 32] = [0; 32];
            let mut index: usize = 0;
            while index < 32
                invariant
                    index <= 32,
                    bytes@.len() == 32,
                    forall|i: int| 0 <= i < index ==> array@[i] == bytes@[i],
                decreases 32 - index,
            {
                array[index] = bytes[index];
                index += 1;
            }
            let hash = Hash256::from_bytes(array);
            assert(hash@ =~= bytes@);
            Ok(hash)
        },
    }
}

/// The parts of a text between commas.
pub open spec fn comma_parts(text: Seq<u8>) -> Seq<Seq<u8>>
    decreases text.len(),
{
    if text.len() == 0 {
        seq![Seq::empty()]
    } else {
        let earlier = comma_parts(text.drop_last());
        if text.last() == 44 {
            earlier.push(Seq::empty())
        } else {
            earlier.drop_last().push(earlier.last().push(text.last()))
        }
    }
}

/// The identifiers that parts of a text denote, in order; empty parts denote
/// none, and the first part in error decides.
pub open spec fn identifiers_in(parts: Seq<Seq<u8>>) -> Result<Seq<Seq<u8>>, ArgumentError>
    decreases parts.len(),
{
    if parts.len() == 0 {
        Ok(Seq::empty())
    } else {
        match identifiers_in(parts.drop_last()) {
            Err(error) => Err(error),
            Ok(earlier) => if parts.last().len() == 0 {
                Ok(earlier)
            } else {
                match identifier_in(parts.last()) {
                    Ok(bytes) => Ok(earlier.push(bytes)),
                    Err(error) => Err(error),
                }
            },
        }
    }
}

/// Identifiers by their bytes.
pub open spec fn hash_bytes(hashes: Seq<Hash256>) -> Seq<Seq<u8>> {
    hashes.map_values(|hash: Hash256| hash@)
}

/// An identifier among the first parts that is in error decides.
proof fn lemma_error_stays(parts: Seq<Seq<u8>>, count: int)
    requires
        0 <= count <= parts.len(),
        identifiers_in(parts.take(count)) is Err,
    ensures
        identifiers_in(parts) == identifiers_in(parts.take(count)),
    decreases parts.len() - count,
{
    if count < parts.len() {
        assert(parts.take(count + 1).drop_last() =~= parts.take(count));
        lemma_error_stays(parts, count + 1);
    } else {
        assert(parts.take(count) =~= parts);
    }
}

/// Splits a text at commas.
fn split_at_commas(text: &[u8]) -> (parts: Vec<Vec<u8>>)
    ensures
        crate::crypto::byte_strings(parts@) == comma_parts(text@),
{
    let mut parts: Vec<Vec<u8>> = Vec::new();
    let mut current: Vec<u8> = Vec::new();
    let mut index: usize = 0;
    proof {
        assert(text@.take(0) =~= Seq::<u8>::empty());
        assert(crate::crypto::byte_strings(parts@).push(current@) =~= seq![Seq::<u8>::empty()]);
    }
    while index < text.len()
        invariant
            index <= text@.len(),
            crate::crypto::byte_strings(parts@).push(current@) == comma_parts(
                text@.take(index as int),
            ),
        decreases text@.len() - index,
    {
        let byte: u8 = text[index];
        let ghost before = crate::crypto::byte_strings(parts@);
        let ghost open = current@;
        proof {
            let longer = text@.take(index + 1);
            assert(longer.drop_last() =~= text@.take(index as int));
            assert(before.push(open).drop_last() =~= before);
            assert(before.push(open).last() == open);
        }
        if byte == 44 {
            parts.push(current);
            current = Vec::new();
            assert(crate::crypto::byte_strings(parts@) =~= before.push(open));
            assert(current@ =~= Seq::<u8>::empty());
        } else {
            current.push(byte);
        }
        index += 1;
    }
    assert(text@.take(index as int) =~= text@);
    let ghost before = crate::crypto::byte_strings(parts@);
    let ghost open = current@;
    parts.push(current);
    assert(crate::crypto::byte_strings(parts@) =~= before.push(open));
    parts
}

/// Reads a list of identifiers between commas.
///
/// # Errors
///
/// Returns why the first identifier that cannot be read is refused.
pub fn parse_hash_list(encoded: &str) -> (result: Result<OrderedSet<Hash256>, ArgumentError>)
    ensures
        match identifiers_in(comma_parts(text_bytes(encoded))) {
            Ok(listed) => result matches Ok(hashes) && forall|hash: Hash256| #[trigger]
                hashes@.contains(hash) <==> listed.contains(hash@),
            Err(error) => result matches Err(given) && given == error,
        },
{
    let parts = split_at_commas(encoded.as_bytes());
    let ghost all = crate::crypto::byte_strings(parts@);
    let mut hashes: Vec<Hash256> = Vec::new();
    let mut index: usize = 0;
    proof {
        assert(all.take(0) =~= Seq::<Seq<u8>>::empty());
        assert(hash_bytes(hashes@) =~= Seq::<Seq<u8>>::empty());
    }
    while index < parts.len()
        invariant
            index <= parts@.len(),
            all == crate::crypto::byte_strings(parts@),
            all == comma_parts(text_bytes(encoded)),
            identifiers_in(all.take(index as int)) == Ok::<Seq<Seq<u8>>, ArgumentError>(
                hash_bytes(hashes@),
            ),
        decreases parts@.len() - index,
    {
        let ghost so_far = hashes@;
        proof {
            let longer = all.take(index + 1);
            assert(longer.drop_last() =~= all.take(index as int));
            assert(longer.last() == parts@[index as int]@);
        }
        if parts[index].len() > 0 {
            match parse_hash_bytes(&parts[index]) {
                Ok(hash) => {
                    hashes.push(hash);
                    assert(hash_bytes(hashes@) =~= hash_bytes(so_far).push(hash@));
                },
                Err(error) => {
                    proof {
                        lemma_error_stays(all, index + 1);
                    }
                    return Err(error);
                },
            }
        }
        index += 1;
    }
    assert(all.take(index as int) =~= all);
    let set = OrderedSet::from_keys(&hashes);
    proof {
        let listed = hash_bytes(hashes@);
        assert forall|hash: Hash256| #[trigger] set@.contains(hash) <==> listed.contains(hash@) by {
            if hashes@.contains(hash) {
                let i = choose|i: int| 0 <= i < hashes@.len() && hashes@[i] == hash;
                assert(listed[i] == hash@);
            }
            if listed.contains(hash@) {
                let i = choose|i: int| 0 <= i < listed.len() && listed[i] == hash@;
                assert(hashes@[i]@ == hash@);
                assert(hashes@[i].bytes =~= hash.bytes);
                assert(hashes@[i] == hash);
            }
        }
    }
    Ok(set)
}

/// Reads the stake of a new validator.
///
/// # Errors
///
/// Rejects texts that are no number, and zero.
pub fn parse_stake(text: &str) -> (result: Result<u64, ArgumentError>)
    ensures
        result == (match number_in(text_bytes(text), u64::MAX) {
            None => Err::<u64, ArgumentError>(ArgumentError::NotAnInteger),
            Some(stake) => if stake == 0 {
                Err(ArgumentError::ZeroStake)
            } else {
                Ok(stake)
            },
        }),
{
    match parse_number(text, u64::MAX) {
        Err(error) => Err(error),
        Ok(stake) => {
            if stake == 0 {
                Err(ArgumentError::ZeroStake)
            } else {
                Ok(stake)
            }
        },
    }
}

/// The identity of a validator with the given public key.
pub open spec fn identity_of(public_key: Seq<u8>) -> Hash256 {
    hash_of(text_bytes("kestrel/validator/id/v1") + public_key)
}

/// The identity of a validator with the given public key.
pub fn validator_identity(public_key: &[u8]) -> (id: Hash256)
    ensures
        id == identity_of(public_key@),
{
    let mut bytes: Vec<u8> = Vec::new();
    append_text(&mut bytes, "kestrel/validator/id/v1");
    append(&mut bytes, public_key);
    assert(bytes@ =~= text_bytes("kestrel/validator/id/v1") + public_key@);
    Hash256::digest(&bytes)
}

/// The genesis of a new chain with encoded settings of its state: an epoch of a
/// hundred blocks, both signature schemes, half the stake slashed for equivocation,
/// no objects and no balances.
pub fn new_genesis(
    chain_id: String,
    genesis_unix_ms: u64,
    state_config: Vec<u8>,
    validators: Vec<GenesisValidator>,
) -> (document: GenesisDocument)
    ensures
        document.format_version == GENESIS_FORMAT_VERSION,
        document.chain_id == chain_id,
        document.genesis_unix_ms == genesis_unix_ms,
        document.blocks_per_epoch == 100,
        document.state_config == state_config,
        document.active_signature_schemes@ == seq![1u16, 2u16],
        document.equivocation_slash_basis_points == 5_000,
        document.validators == validators,
        document.initial_objects@.len() == 0,
        document.initial_fee_balances@ == Map::<crate::types::Address, u128>::empty(),
{
    let mut active_signature_schemes: Vec<u16> = Vec::new();
    active_signature_schemes.push(1);
    active_signature_schemes.push(2);
    assert(active_signature_schemes@ =~= seq![1u16, 2u16]);
    GenesisDocument {
        format_version: GENESIS_FORMAT_VERSION,
        chain_id,
        genesis_unix_ms,
        blocks_per_epoch: 100,
        state_config,
        active_signature_schemes,
        equivocation_slash_basis_points: 5_000,
        validators,
        initial_objects: Vec::new(),
        initial_fee_balances: OrderedMap::new(),
    }
}

/// Whether the node runs as a validator: all parts of its identity are given, or
/// none is.
///
/// # Errors
///
/// Rejects an identity of which only some parts are given.
pub fn runs_as_validator(id: bool, validator_key: bool, gossip_key: bool, data_dir: bool) -> (result:
    Result<bool, ArgumentError>)
    ensures
        result == (if id && validator_key && gossip_key && data_dir {
            Ok::<bool, ArgumentError>(true)
        } else if id || validator_key || gossip_key || data_dir {
            Err(ArgumentError::IncompleteIdentity)
        } else {
            Ok(false)
        }),
{
    if id && validator_key && gossip_key && data_dir {
        Ok(true)
    } else if id || validator_key || gossip_key || data_dir {
        Err(ArgumentError::IncompleteIdentity)
    } else {
        Ok(false)
    }
}

/// Whether the RPC address may be bound.
///
/// # Errors
///
/// Refuses an address beyond this host that was not explicitly allowed.
pub fn check_rpc_bind(loopback: bool, allow_public: bool) -> (result: Result<(), ArgumentError>)
    ensures
        result == (if loopback || allow_public {
            Ok::<(), ArgumentError>(())
        } else {
            Err(ArgumentError::PublicRpcRefused)
        }),
{
    if loopback || allow_public {
        Ok(())
    } else {
        Err(ArgumentError::PublicRpcRefused)
    }
}

} // verus!
