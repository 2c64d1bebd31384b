//! What genesis documents, arguments and frames mean.

use vstd::prelude::*;
use vstd::utf8::encode_utf8;

use crate::bytes::{lemma_concat_injective, text_bytes};
use crate::node::arguments::{
    comma_parts, decimal, hex_bytes, hex_digit, identifier_in, identifiers_in, is_hexadecimal,
    number_in, ArgumentError,
};
use crate::node::genesis::{
    genesis_encoding, is_blank, is_multiaddress, is_peer_id, lists_in, normal_form_of,
    parameters_encoding, refusal, EntryModel, GenesisModel,
};
use crate::node::wire::{drop_seed, is_lost};
use crate::types::{hash_of, Hash256};

verus! {

/// A genesis document is sound exactly where it is of the one format, names its chain by
/// letters, digits, hyphens and underscores, has a time and a length of epochs, lists
/// four to five hundred validators that can be told apart and reached, activates both
/// signature schemes and no other, and slashes a share that is neither nothing nor more
/// than all.
pub proof fn law_genesis_is_refused_for_cause_only(document: GenesisModel)
    ensures
        refusal(document) is None <==> {
            let name = encode_utf8(document.chain_id);
            let schemes = document.active_signature_schemes;
            let entries = document.validators;
            &&& document.format_version == 1
            &&& 1 <= name.len() <= 64
            &&& forall|i: int|
                0 <= i < name.len() ==> {
                    ||| '0' as u8 <= #[trigger] name[i] <= '9' as u8
                    ||| 'A' as u8 <= name[i] <= 'Z' as u8
                    ||| 'a' as u8 <= name[i] <= 'z' as u8
                    ||| name[i] == '-' as u8
                    ||| name[i] == '_' as u8
                }
            &&& document.genesis_unix_ms > 0
            &&& document.blocks_per_epoch > 0
            &&& 4 <= entries.len() <= 500
            &&& schemes.len() == 2
            &&& schemes.contains(1)
            &&& schemes.contains(2)
            &&& 0 < document.equivocation_slash_basis_points <= 10_000
            &&& forall|i: int| 0 <= i < entries.len() ==> is_reachable(#[trigger] entries[i])
            &&& forall|i: int, j: int|
                0 <= i < j < entries.len() ==> #[trigger] shares_nothing(entries, i, j)
        },
{
    let schemes = document.active_signature_schemes;
    if schemes.no_duplicates() && schemes.contains(1) && schemes.contains(2) && (forall|i: int|
        0 <= i < schemes.len() ==> #[trigger] schemes[i] == 1 || schemes[i] == 2) {
        let a = choose|a: int| 0 <= a < schemes.len() && schemes[a] == 1;
        let b = choose|b: int| 0 <= b < schemes.len() && schemes[b] == 2;
        if schemes.len() > 2 {
            let c: int = if a != 0 && b != 0 {
                0
            } else if a != 1 && b != 1 {
                1
            } else {
                2
            };
            assert(schemes[c] == schemes[a] || schemes[c] == schemes[b]);
        }
    }
    if schemes.len() == 2 && schemes.contains(1) && schemes.contains(2) {
        assert(schemes[0] == 1 && schemes[1] == 2 || schemes[0] == 2 && schemes[1] == 1);
        assert(schemes.no_duplicates());
    }
    let entries = document.validators;
    assert forall|i: int, j: int| 0 <= i < j < entries.len() implies (
    crate::node::genesis::is_distinct(entries, i, j) <==> #[trigger] shares_nothing(
        entries,
        i,
        j,
    )) by {}
    if forall|i: int, j: int|
        0 <= i < j < entries.len() ==> #[trigger] shares_nothing(entries, i, j) {
        assert forall|i: int, j: int| 0 <= i < j < entries.len() implies
            #[trigger] crate::node::genesis::is_distinct(entries, i, j) by {
            assert(shares_nothing(entries, i, j));
        }
    }
    if forall|i: int, j: int|
        0 <= i < j < entries.len() ==> #[trigger] crate::node::genesis::is_distinct(
            entries,
            i,
            j,
        ) {
        assert forall|i: int, j: int| 0 <= i < j < entries.len() implies
            #[trigger] shares_nothing(entries, i, j) by {
            assert(crate::node::genesis::is_distinct(entries, i, j));
        }
    }
}

/// Whether a validator has a name and addresses at which it can be reached.
pub open spec fn is_reachable(entry: EntryModel) -> bool {
    &&& !is_blank(entry.name)
    &&& !is_blank(entry.network_address)
    &&& !is_blank(entry.rpc_address)
    &&& is_peer_id(entry.gossip_peer_id)
    &&& is_multiaddress(entry.gossip_address)
}

/// Whether two validators have neither name nor address in common.
pub open spec fn shares_nothing(entries: Seq<EntryModel>, i: int, j: int) -> bool {
    let a = entries[i];
    let b = entries[j];
    a.name != b.name && a.network_address != b.network_address && a.rpc_address != b.rpc_address
        && a.gossip_peer_id != b.gossip_peer_id && a.gossip_address != b.gossip_address
}

/// The bytes behind the genesis hash cover the whole document: the state configuration,
/// where all else is the same, and all lists, where parameters and configuration are.
pub proof fn law_genesis_bytes_cover_the_document(left: GenesisModel, right: GenesisModel)
    requires
        genesis_encoding(left) == genesis_encoding(right),
        left.format_version == right.format_version,
        left.chain_id == right.chain_id,
        left.genesis_unix_ms == right.genesis_unix_ms,
        left.blocks_per_epoch == right.blocks_per_epoch,
    ensures
        left.active_signature_schemes == right.active_signature_schemes
            && left.equivocation_slash_basis_points == right.equivocation_slash_basis_points
            && left.validators == right.validators && left.initial_objects == right.initial_objects
            && left.initial_fee_balances == right.initial_fee_balances ==> left.state_config
            == right.state_config,
        left.state_config == right.state_config ==> crate::node::genesis::lists_encoding(
            lists_in(left),
        ) == crate::node::genesis::lists_encoding(lists_in(right)),
        lists_in(left) == lists_in(right) <==> {
            &&& left.active_signature_schemes == right.active_signature_schemes
            &&& left.equivocation_slash_basis_points == right.equivocation_slash_basis_points
            &&& left.validators == right.validators
            &&& left.initial_objects == right.initial_objects
            &&& left.initial_fee_balances == right.initial_fee_balances
        },
{
    let head = parameters_encoding(
        left.format_version,
        left.chain_id,
        left.genesis_unix_ms,
        left.blocks_per_epoch,
    );
    let a = left.state_config;
    let b = right.state_config;
    let x = crate::node::genesis::lists_encoding(lists_in(left));
    let y = crate::node::genesis::lists_encoding(lists_in(right));
    let whole = genesis_encoding(left);
    assert(whole == head + a + x);
    assert(whole == head + b + y);
    if lists_in(left) == lists_in(right) {
        let from = head.len() as int;
        let to = whole.len() - x.len();
        assert(whole.subrange(from, to) =~= a);
        assert(whole.subrange(from, to) =~= b);
    }
    if a == b {
        let from = (head.len() + a.len()) as int;
        assert(whole.skip(from) =~= x);
        assert(whole.skip(from) =~= y);
    }
}

/// Putting a document into normal form moves entries and changes none: every validator
/// stays with its stake and keys, and every parameter stays what it was.
pub proof fn law_normal_form_keeps_everything(
    normal: GenesisModel,
    document: GenesisModel,
    i: int,
)
    requires
        normal_form_of(normal, document),
        0 <= i < document.validators.len(),
    ensures
        normal.validators.contains(document.validators[i]),
        normal.validators.len() == document.validators.len(),
        normal.active_signature_schemes.len() == document.active_signature_schemes.len(),
        normal.initial_objects.len() == document.initial_objects.len(),
        normal.format_version == document.format_version,
        normal.chain_id == document.chain_id,
        normal.genesis_unix_ms == document.genesis_unix_ms,
        normal.blocks_per_epoch == document.blocks_per_epoch,
        normal.state_config == document.state_config,
        normal.equivocation_slash_basis_points == document.equivocation_slash_basis_points,
        normal.initial_fee_balances == document.initial_fee_balances,
{
    document.validators.to_multiset_ensures();
    normal.validators.to_multiset_ensures();
    document.active_signature_schemes.to_multiset_ensures();
    normal.active_signature_schemes.to_multiset_ensures();
    document.initial_objects.to_multiset_ensures();
    normal.initial_objects.to_multiset_ensures();
    assert(document.validators.to_multiset().count(document.validators[i]) > 0);
}

/// A number is read as it is written in tens: a digit more is ten times as much plus that
/// digit, a zero in front counts nothing, a plus sign in front changes nothing, and what
/// is no number or too large is refused.
pub proof fn law_numbers_are_read_in_tens(digits: Seq<u8>, digit: u8, maximum: u64)
    requires
        '0' as u8 <= digit <= '9' as u8,
    ensures
        decimal(digits.push(digit)) == 10 * decimal(digits) + (digit - '0' as u8),
        decimal(seq![digit]) == digit - '0' as u8,
        number_in(seq!['+' as u8, digit], maximum) == number_in(seq![digit], maximum),
        number_in(Seq::empty(), maximum) is None,
        number_in(digits, maximum) matches Some(value) ==> value <= maximum,
        number_in(digits, maximum) is Some ==> digits.len() > 0 && (digits[0] == '+' as u8
            || '0' as u8 <= digits[0] <= '9' as u8),
        (forall|i: int| 0 <= i < digits.len() ==> '0' as u8 <= #[trigger] digits[i] <= '9' as u8)
            && digits.len() > 0 && decimal(digits) <= maximum ==> number_in(digits, maximum)
            == Some(decimal(digits) as u64),
        decimal(seq!['0' as u8] + digits) == decimal(digits),
{
    assert(digits.push(digit).drop_last() =~= digits);
    assert(seq![digit].drop_last() =~= Seq::<u8>::empty());
    reveal_with_fuel(decimal, 2);
    assert(seq!['+' as u8, digit].skip(1) =~= seq![digit]);
    lemma_leading_zero(digits);
}

proof fn lemma_leading_zero(digits: Seq<u8>)
    ensures
        decimal(seq!['0' as u8] + digits) == decimal(digits),
    decreases digits.len(),
{
    let longer = seq!['0' as u8] + digits;
    if digits.len() == 0 {
        assert(longer.drop_last() =~= Seq::<u8>::empty());
        reveal_with_fuel(decimal, 2);
    } else {
        lemma_leading_zero(digits.drop_last());
        assert(longer.drop_last() =~= seq!['0' as u8] + digits.drop_last());
    }
}

/// Each byte of an identifier is written as two hexadecimal digits, the higher one first,
/// in either case; nothing else is a digit.
pub proof fn law_bytes_are_read_in_pairs(text: Seq<u8>, i: int, digit: u8)
    requires
        is_hexadecimal(text),
        0 <= i < text.len() / 2,
    ensures
        hex_bytes(text).len() * 2 == text.len(),
        hex_digit(text[2 * i]) is Some,
        hex_digit(text[2 * i + 1]) is Some,
        hex_bytes(text)[i] / 16 == hex_digit(text[2 * i]).unwrap(),
        hex_bytes(text)[i] % 16 == hex_digit(text[2 * i + 1]).unwrap(),
        digit < 10 ==> hex_digit(('0' as u8 + digit) as u8) == Some(digit),
        10 <= digit < 16 ==> hex_digit(('a' as u8 + digit - 10) as u8) == Some(digit),
        10 <= digit < 16 ==> hex_digit(('A' as u8 + digit - 10) as u8) == Some(digit),
        hex_digit(digit) matches Some(value) ==> value < 16 && {
            ||| digit == '0' as u8 + value
            ||| digit == 'a' as u8 + value - 10
            ||| digit == 'A' as u8 + value - 10
        },
{
}

/// An identifier is thirty-two bytes in hexadecimal, with or without the usual prefix.
pub proof fn law_identifiers_are_thirty_two_bytes(text: Seq<u8>)
    requires
        text.len() < 2 || !(text[0] == '0' as u8 && text[1] == 'x' as u8),
    ensures
        identifier_in(text) matches Ok(bytes) ==> bytes.len() == 32 && bytes == hex_bytes(text),
        identifier_in(text) is Ok <==> is_hexadecimal(text) && text.len() == 64,
        identifier_in(seq!['0' as u8, 'x' as u8] + text) == identifier_in(text),
{
    assert((seq!['0' as u8, 'x' as u8] + text).skip(2) =~= text);
}

/// A list is split at its commas and nowhere else: no part holds one, and the parts with
/// commas between them are the list.
pub proof fn law_lists_are_split_at_commas(text: Seq<u8>, i: int)
    requires
        0 <= i < comma_parts(text).len(),
    ensures
        !comma_parts(text)[i].contains(',' as u8),
        with_commas(comma_parts(text)) == text,
    decreases text.len(),
{
    let parts = comma_parts(text);
    if text.len() == 0 {
        assert(parts.drop_last() =~= Seq::<Seq<u8>>::empty());
        assert(with_commas(parts) =~= text);
    } else {
        let earlier = comma_parts(text.drop_last());
        lemma_some_part(text.drop_last());
        law_lists_are_split_at_commas(text.drop_last(), earlier.len() - 1);
        if i < earlier.len() {
            law_lists_are_split_at_commas(text.drop_last(), i);
        }
        if text.last() == ',' as u8 {
            assert(parts.drop_last() =~= earlier);
            assert(with_commas(parts) =~= text);
        } else {
            assert(parts.drop_last() =~= earlier.drop_last());
            let last = earlier.last().push(text.last());
            assert(parts.last() == last);
            assert(!last.contains(',' as u8)) by {
                if last.contains(',' as u8) {
                    let k = choose|k: int| 0 <= k < last.len() && last[k] == ',' as u8;
                    assert(earlier.last()[k] == ',' as u8);
                }
            }
            assert(with_commas(earlier) == text.drop_last());
            assert(text =~= text.drop_last().push(text.last()));
            if parts.len() == 1 {
                assert(parts[0] == last);
                assert(earlier[0] == earlier.last());
            } else {
                let front = with_commas(parts.drop_last()).push(',' as u8);
                assert(with_commas(parts) == front + last);
                assert(with_commas(earlier) == front + earlier.last());
            }
            assert(with_commas(parts) =~= text);
        }
    }
}

/// Parts with commas between them.
pub open spec fn with_commas(parts: Seq<Seq<u8>>) -> Seq<u8>
    decreases parts.len(),
{
    if parts.len() == 0 {
        Seq::empty()
    } else if parts.len() == 1 {
        parts[0]
    } else {
        with_commas(parts.drop_last()).push(',' as u8) + parts.last()
    }
}

proof fn lemma_some_part(text: Seq<u8>)
    ensures
        comma_parts(text).len() > 0,
    decreases text.len(),
{
    if text.len() > 0 {
        lemma_some_part(text.drop_last());
    }
}

/// A list of identifiers holds exactly those of its parts that are not empty; one part
/// that is no identifier spoils the list.
pub proof fn law_lists_hold_their_identifiers(
    parts: Seq<Seq<u8>>,
    list: Seq<Seq<u8>>,
    bytes: Seq<u8>,
)
    requires
        identifiers_in(parts) == Ok::<Seq<Seq<u8>>, ArgumentError>(list),
    ensures
        list.contains(bytes) <==> exists|i: int|
            0 <= i < parts.len() && (#[trigger] parts[i]).len() > 0 && identifier_in(parts[i]) == Ok::<
                Seq<u8>,
                ArgumentError,
            >(bytes),
        forall|i: int|
            0 <= i < parts.len() && (#[trigger] parts[i]).len() > 0 ==> identifier_in(parts[i]) is Ok,
    decreases parts.len(),
{
    if parts.len() > 0 {
        let shorter = parts.drop_last();
        let earlier = identifiers_in(shorter)->Ok_0;
        law_lists_hold_their_identifiers(shorter, earlier, bytes);
        let last = parts.len() - 1;
        assert forall|i: int| 0 <= i < last implies shorter[i] == #[trigger] parts[i] by {}
        if earlier.contains(bytes) {
            let k = choose|k: int| 0 <= k < earlier.len() && earlier[k] == bytes;
            assert(list[k] == bytes);
            let i = choose|i: int|
                0 <= i < shorter.len() && (#[trigger] shorter[i]).len() > 0 && identifier_in(
                    shorter[i],
                ) == Ok::<Seq<u8>, ArgumentError>(bytes);
            assert(parts[i] == shorter[i]);
        }
        if parts[last].len() > 0 {
            assert(list[earlier.len() as int] == identifier_in(parts[last])->Ok_0);
        }
        if list.contains(bytes) {
            let k = choose|k: int| 0 <= k < list.len() && list[k] == bytes;
            if k < earlier.len() {
                assert(earlier[k] == bytes);
            }
        }
        if exists|i: int|
            0 <= i < parts.len() && (#[trigger] parts[i]).len() > 0 && identifier_in(parts[i]) == Ok::<
                Seq<u8>,
                ArgumentError,
            >(bytes) {
            let i = choose|i: int|
                0 <= i < parts.len() && (#[trigger] parts[i]).len() > 0 && identifier_in(parts[i])
                    == Ok::<Seq<u8>, ArgumentError>(bytes);
            if i < last {
                assert(shorter[i] == parts[i]);
            }
        }
    }
}

/// A link without faults loses nothing, one that loses everything loses everything, and
/// a worse link loses all that a better one loses.
pub proof fn law_links_lose_their_share(
    low: u16,
    high: u16,
    id: Hash256,
    peer: Hash256,
    encoded: Option<Seq<u8>>,
)
    requires
        low <= high,
    ensures
        !is_lost(0, id, peer, encoded),
        high >= 10_000 ==> is_lost(high, id, peer, encoded),
        is_lost(low, id, peer, encoded) ==> is_lost(high, id, peer, encoded),
{
    let digest = hash_of(drop_seed(id, peer, encoded));
    assert(0 <= digest@[0] * 256 + digest@[1]);
}

/// What settles a loss covers the link and the message: who sends, to whom, and what.
pub proof fn law_losses_are_settled_by_link_and_message(
    id: Hash256,
    peer: Hash256,
    encoded: Seq<u8>,
    other_id: Hash256,
    other_peer: Hash256,
    other_encoded: Seq<u8>,
)
    requires
        drop_seed(id, peer, Some(encoded)) == drop_seed(
            other_id,
            other_peer,
            Some(other_encoded),
        ),
    ensures
        id == other_id,
        peer == other_peer,
        encoded == other_encoded,
{
    let domain = text_bytes("kestrel/stage2/drop/v1");
    lemma_concat_injective(
        domain + id@ + peer@,
        encoded,
        domain + other_id@ + other_peer@,
        other_encoded,
    );
    lemma_concat_injective(domain + id@, peer@, domain + other_id@, other_peer@);
    lemma_concat_injective(domain, id@, domain, other_id@);
    assert(id.bytes =~= other_id.bytes);
    assert(peer.bytes =~= other_peer.bytes);
}

} // verus!
