//! How consensus messages are framed, dropped and retained.

use vstd::prelude::*;

use crate::bytes::{append, append_be64, append_text, be64, big_endian, text_bytes};
use crate::network::service::{drop_sample, sample_of_digest};
use crate::node::coordinator::CoordinatorError;
use crate::types::{hash_of, Hash256};

verus! {

/// Finalized heights retained for serving catch-up. A restarted or briefly
/// partitioned validator that fell no further behind than this can rejoin by
/// replaying; one further behind needs full state sync.
pub const CATCHUP_RETENTION: u64 = 1_024;

/// Orders returned in a single catch-up response, bounding its size.
pub const MAXIMUM_CATCHUP_BATCH: usize = 64;

/// Under which key the safety state is stored.
pub fn safety_state_key() -> (key: Vec<u8>)
    ensures
        key@ == text_bytes("consensus/replica-snapshot/v1"),
{
    let mut key: Vec<u8> = Vec::new();
    append_text(&mut key, "consensus/replica-snapshot/v1");
    assert(key@ =~= text_bytes("consensus/replica-snapshot/v1"));
    key
}

/// Under which key the finalized order of a height is retained.
pub open spec fn order_key(height: u64) -> Seq<u8> {
    text_bytes("consensus/catchup/order/v1/") + be64(height)
}

/// Under which key the finalized order of a height is retained.
pub fn catchup_order_key(height: u64) -> (key: Vec<u8>)
    ensures
        key@ == order_key(height),
{
    let mut key: Vec<u8> = Vec::new();
    append_text(&mut key, "consensus/catchup/order/v1/");
    append_be64(&mut key, height);
    assert(key@ =~= order_key(height));
    key
}

/// Different heights are retained under different keys.
pub proof fn law_order_keys_are_distinct(left: u64, right: u64)
    requires
        order_key(left) == order_key(right),
    ensures
        left == right,
{
    let prefix = text_bytes("consensus/catchup/order/v1/");
    crate::bytes::lemma_big_endian_len(left as nat, 8);
    crate::bytes::lemma_big_endian_len(right as nat, 8);
    crate::bytes::lemma_concat_injective(prefix, be64(left), prefix, be64(right));
    crate::bytes::lemma_be64_injective(left, right);
}

/// The height whose order is dropped once an order is retained, if any.
pub fn pruned_height(height: u64) -> (pruned: Option<u64>)
    ensures
        pruned == (if height >= CATCHUP_RETENTION {
            Some((height - CATCHUP_RETENTION) as u64)
        } else {
            None
        }),
{
    height.checked_sub(CATCHUP_RETENTION)
}

/// The height to read next for a catch-up response that starts at `from_height`
/// and holds `loaded` orders; none where the response is full. The response
/// ends before the first height that is not retained, since orders must be
/// applied contiguously.
pub fn next_catchup_height(from_height: u64, loaded: usize) -> (height: Option<u64>)
    ensures
        height == (if loaded < MAXIMUM_CATCHUP_BATCH && from_height + loaded <= u64::MAX {
            Some((from_height + loaded) as u64)
        } else {
            None
        }),
{
    if loaded >= MAXIMUM_CATCHUP_BATCH {
        return None;
    }
    from_height.checked_add(loaded as u64)
}

/// What a frame's header says of its length.
pub open spec fn header_of(length: nat) -> Seq<u8> {
    big_endian(length, 4)
}

/// The length that a frame's header says.
pub open spec fn stated_length(header: Seq<u8>) -> nat {
    (((header[0] * 256 + header[1]) * 256 + header[2]) * 256 + header[3]) as nat
}

/// A frame: the length of an encoded message in four bytes, then the message.
pub open spec fn frame_of(encoded: Seq<u8>) -> Seq<u8> {
    header_of(encoded.len()) + encoded
}

/// Frames an encoded message.
///
/// # Errors
///
/// Rejects messages whose length does not fit its header.
pub fn frame(encoded: &[u8]) -> (result: Result<Vec<u8>, CoordinatorError>)
    ensures
        match result {
            Ok(bytes) => encoded@.len() <= u32::MAX && bytes@ == frame_of(encoded@),
            Err(error) => encoded@.len() > u32::MAX && error == CoordinatorError::MessageTooLarge,
        },
{
    let length: usize = encoded.len();
    if length > u32::MAX as usize {
        return Err(CoordinatorError::MessageTooLarge);
    }
    let mut bytes: Vec<u8> = Vec::new();
    bytes.push((length / 16_777_216 % 256) as u8);
    bytes.push((length / 65_536 % 256) as u8);
    bytes.push((length / 256 % 256) as u8);
    bytes.push((length % 256) as u8);
    proof {
        lemma_header(length as nat);
        assert(bytes@ =~= header_of(length as nat));
    }
    append(&mut bytes, encoded);
    Ok(bytes)
}

/// A header holds the length's four bytes, highest first.
proof fn lemma_header(length: nat)
    requires
        length <= u32::MAX,
    ensures
        header_of(length) == seq![
            (length / 16_777_216 % 256) as u8,
            (length / 65_536 % 256) as u8,
            (length / 256 % 256) as u8,
            (length % 256) as u8,
        ],
{
    reveal_with_fuel(big_endian, 5);
    assert(length / 256 / 256 == length / 65_536);
    assert(length / 65_536 / 256 == length / 16_777_216);
    assert(header_of(length) =~= seq![
        (length / 16_777_216 % 256) as u8,
        (length / 65_536 % 256) as u8,
        (length / 256 % 256) as u8,
        (length % 256) as u8,
    ]);
}

/// The length of the message that follows a frame's header.
///
/// # Errors
///
/// Rejects empty messages and messages above the limit.
pub fn frame_length(header: [u8; 4], maximum_message_bytes: usize) -> (result: Result<
    usize,
    CoordinatorError,
>)
    ensures
        match result {
            Ok(length) => length == stated_length(header@) && 0 < length <= maximum_message_bytes,
            Err(error) => error == CoordinatorError::MessageTooLarge && (stated_length(header@) == 0
                || stated_length(header@) > maximum_message_bytes),
        },
{
    let length: u64 = ((header[0] as u64 * 256 + header[1] as u64) * 256 + header[2] as u64) * 256
        + header[3] as u64;
    if length == 0 || length > maximum_message_bytes as u64 {
        return Err(CoordinatorError::MessageTooLarge);
    }
    Ok(length as usize)
}

/// The reader of a frame learns the length of the message that was framed.
pub proof fn law_frame_states_its_length(encoded: Seq<u8>)
    requires
        encoded.len() <= u32::MAX,
    ensures
        frame_of(encoded).len() == encoded.len() + 4,
        stated_length(frame_of(encoded).take(4)) == encoded.len(),
        frame_of(encoded).skip(4) == encoded,
{
    let length = encoded.len();
    lemma_header(length);
    assert(frame_of(encoded).take(4) =~= header_of(length));
    assert(frame_of(encoded).skip(4) =~= encoded);
    let high = length / 65_536;
    assert(length == high * 65_536 + length % 65_536);
    assert(high == length / 16_777_216 * 256 + high % 256);
    assert(length / 16_777_216 % 256 == length / 16_777_216);
    assert(length % 65_536 == length / 256 % 256 * 256 + length % 256);
}

/// What the drop decision of a message to a peer samples. A message that cannot
/// be encoded adds nothing.
pub open spec fn drop_seed(id: Hash256, peer: Hash256, encoded: Option<Seq<u8>>) -> Seq<u8> {
    text_bytes("kestrel/stage2/drop/v1") + id@ + peer@ + match encoded {
        Some(bytes) => bytes,
        None => Seq::empty(),
    }
}

/// Whether a message to a peer is dropped.
pub open spec fn is_lost(
    basis_points: u16,
    id: Hash256,
    peer: Hash256,
    encoded: Option<Seq<u8>>,
) -> bool {
    basis_points != 0 && drop_sample(hash_of(drop_seed(id, peer, encoded))) < basis_points
}

/// Decides whether a message to a peer is dropped, by a stable hash of the two
/// validators and the encoded message.
pub fn should_drop(basis_points: u16, id: Hash256, peer: Hash256, encoded: Option<&Vec<u8>>) -> (lost:
    bool)
    ensures
        lost == is_lost(
            basis_points,
            id,
            peer,
            match encoded {
                Some(bytes) => Some(bytes@),
                None => None,
            },
        ),
{
    if basis_points == 0 {
        return false;
    }
    let mut bytes: Vec<u8> = Vec::new();
    append_text(&mut bytes, "kestrel/stage2/drop/v1");
    append(&mut bytes, id.as_bytes());
    append(&mut bytes, peer.as_bytes());
    if let Some(message) = encoded {
        append(&mut bytes, message);
    }
    proof {
        let value = match encoded {
            Some(bytes) => Some(bytes@),
            None => None,
        };
        assert(bytes@ =~= drop_seed(id, peer, value));
    }
    let digest = Hash256::digest(&bytes);
    sample_of_digest(&digest) < basis_points
}

/// The milliseconds to wait until the chain starts; none where it has started.
pub fn genesis_delay(now_unix_ms: u128, genesis_unix_ms: u64) -> (delay: Option<u64>)
    ensures
        delay == (if genesis_unix_ms > now_unix_ms {
            Some((genesis_unix_ms - now_unix_ms) as u64)
        } else {
            None
        }),
{
    let target: u128 = genesis_unix_ms as u128;
    if target > now_unix_ms {
        Some((target - now_unix_ms) as u64)
    } else {
        None
    }
}

} // verus!
