//! Big-endian integer encodings and byte-string helpers shared by every
//! canonical message of the protocol.

use vstd::prelude::*;
use vstd::utf8::*;

verus! {

/// The `width` low-order base-256 digits of `value`, most significant first.
pub open spec fn big_endian(value: nat, width: nat) -> Seq<u8>
    decreases width,
{
    if width == 0 {
        Seq::empty()
    } else {
        big_endian(value / 256, (width - 1) as nat).push((value % 256) as u8)
    }
}

/// Big-endian encoding of a 64-bit integer.
pub open spec fn be64(value: u64) -> Seq<u8> {
    big_endian(value as nat, 8)
}

/// Big-endian encoding of a 128-bit integer.
pub open spec fn be128(value: u128) -> Seq<u8> {
    big_endian(value as nat, 16)
}

/// `256` to the power of `width`.
pub open spec fn byte_range(width: nat) -> nat
    decreases width,
{
    if width == 0 {
        1
    } else {
        256 * byte_range((width - 1) as nat)
    }
}

/// An encoding has exactly `width` bytes.
pub proof fn lemma_big_endian_len(value: nat, width: nat)
    ensures
        big_endian(value, width).len() == width,
    decreases width,
{
    if width > 0 {
        lemma_big_endian_len(value / 256, (width - 1) as nat);
    }
}

/// Two integers that fit the width and share their encoding are equal.
pub proof fn lemma_big_endian_injective(left: nat, right: nat, width: nat)
    requires
        left < byte_range(width),
        right < byte_range(width),
        big_endian(left, width) == big_endian(right, width),
    ensures
        left == right,
    decreases width,
{
    if width > 0 {
        let shorter = (width - 1) as nat;
        let left_head = big_endian(left / 256, shorter);
        let right_head = big_endian(right / 256, shorter);
        assert(big_endian(left, width).drop_last() =~= left_head);
        assert(big_endian(right, width).drop_last() =~= right_head);
        assert(big_endian(left, width).last() == (left % 256) as u8);
        assert(big_endian(right, width).last() == (right % 256) as u8);
        lemma_big_endian_injective(left / 256, right / 256, shorter);
    }
}

/// Equal 64-bit encodings come from equal integers.
pub proof fn lemma_be64_injective(left: u64, right: u64)
    requires
        be64(left) == be64(right),
    ensures
        left == right,
{
    reveal_with_fuel(byte_range, 9);
    lemma_big_endian_injective(left as nat, right as nat, 8);
}

/// Equal 128-bit encodings come from equal integers.
pub proof fn lemma_be128_injective(left: u128, right: u128)
    requires
        be128(left) == be128(right),
    ensures
        left == right,
{
    reveal_with_fuel(byte_range, 17);
    lemma_big_endian_injective(left as nat, right as nat, 16);
}

/// Two concatenations with first parts of one length are equal only part by part.
pub proof fn lemma_concat_injective<T>(a: Seq<T>, b: Seq<T>, c: Seq<T>, d: Seq<T>)
    requires
        a + b == c + d,
        a.len() == c.len(),
    ensures
        a == c,
        b == d,
{
    assert(a =~= (a + b).subrange(0, a.len() as int));
    assert(c =~= (c + d).subrange(0, c.len() as int));
    assert(b =~= (a + b).subrange(a.len() as int, (a + b).len() as int));
    assert(d =~= (c + d).subrange(c.len() as int, (c + d).len() as int));
}

/// Appends every byte of `source`.
pub fn append(target: &mut Vec<u8>, source: &[u8])
    ensures
        final(target)@ == old(target)@ + source@,
{
    let ghost before = target@;
    target.extend_from_slice(source);
    assert(target@ =~= before + source@);
}

/// The UTF-8 bytes of a text.
pub open spec fn text_bytes(text: &str) -> Seq<u8> {
    encode_utf8(text@)
}

/// Appends the UTF-8 bytes of a text.
pub fn append_text(target: &mut Vec<u8>, text: &str)
    ensures
        final(target)@ == old(target)@ + text_bytes(text),
{
    append(target, text.as_bytes());
}

fn append_digits(target: &mut Vec<u8>, value: u128, width: usize)
    ensures
        final(target)@ == old(target)@ + big_endian(value as nat, width as nat),
    decreases width,
{
    if width == 0 {
        assert(target@ =~= target@ + big_endian(value as nat, 0));
    } else {
        let ghost before = target@;
        append_digits(target, value / 256, width - 1);
        target.push((value % 256) as u8);
        assert(target@ =~= before + big_endian(value as nat, width as nat));
    }
}

/// Appends the big-endian encoding of a 64-bit integer.
pub fn append_be64(target: &mut Vec<u8>, value: u64)
    ensures
        final(target)@ == old(target)@ + be64(value),
{
    append_digits(target, value as u128, 8);
}

/// Appends the big-endian encoding of a 128-bit integer.
pub fn append_be128(target: &mut Vec<u8>, value: u128)
    ensures
        final(target)@ == old(target)@ + be128(value),
{
    append_digits(target, value, 16);
}

/// Whether two byte strings are identical.
pub fn same_bytes(left: &[u8], right: &[u8]) -> (same: bool)
    ensures
        same == (left@ == right@),
{
    if left.len() != right.len() {
        return false;
    }
    let mut index: usize = 0;
    while index < left.len()
        invariant
            left@.len() == right@.len(),
            index <= left@.len(),
            forall|i: int| 0 <= i < index ==> left@[i] == right@[i],
        decreases left@.len() - index,
    {
        if left[index] != right[index] {
            return false;
        }
        index += 1;
    }
    assert(left@ =~= right@);
    true
}

/// An owned copy of a byte string.
pub fn copy_bytes(source: &[u8]) -> (copy: Vec<u8>)
    ensures
        copy@ == source@,
{
    let mut copy: Vec<u8> = Vec::new();
    append(&mut copy, source);
    assert(copy@ =~= source@);
    copy
}

/// Lexicographic order of byte strings: the first difference decides, and a
/// proper prefix comes first.
pub open spec fn bytes_before(left: Seq<u8>, right: Seq<u8>) -> bool {
    exists|i: int| #[trigger] first_difference(left, right, i) && decides_before(left, right, i)
}

/// `i` is the length of the longest common prefix.
pub open spec fn first_difference(left: Seq<u8>, right: Seq<u8>, i: int) -> bool {
    &&& 0 <= i <= left.len()
    &&& i <= right.len()
    &&& forall|j: int| 0 <= j < i ==> left[j] == right[j]
    &&& (i < left.len() && i < right.len() ==> left[i] != right[i])
}

/// At the end of the common prefix, `left` is exhausted first or holds the smaller byte.
pub open spec fn decides_before(left: Seq<u8>, right: Seq<u8>, i: int) -> bool {
    i < right.len() && (i == left.len() || (i < left.len() && left[i] < right[i]))
}

/// The lexicographic order is transitive.
pub proof fn lemma_bytes_before_transitive(x: Seq<u8>, y: Seq<u8>, z: Seq<u8>)
    requires
        bytes_before(x, y),
        bytes_before(y, z),
    ensures
        bytes_before(x, z),
{
    let i = choose|i: int| #[trigger] first_difference(x, y, i) && decides_before(x, y, i);
    let j = choose|j: int| #[trigger] first_difference(y, z, j) && decides_before(y, z, j);
    let k = if i < j { i } else { j };
    assert(first_difference(x, z, k));
}

/// Any two different byte strings are ordered one way.
pub proof fn lemma_bytes_before_total(x: Seq<u8>, y: Seq<u8>)
    ensures
        bytes_before(x, y) || x == y || bytes_before(y, x),
{
    let i = common_prefix(x, y);
    lemma_common_prefix(x, y);
    assert(first_difference(x, y, i));
    assert(first_difference(y, x, i));
    if i == x.len() && i == y.len() {
        assert(x =~= y);
    }
}

spec fn common_prefix(x: Seq<u8>, y: Seq<u8>) -> int
    decreases x.len(),
{
    if x.len() == 0 || y.len() == 0 || x[0] != y[0] {
        0
    } else {
        1 + common_prefix(x.skip(1), y.skip(1))
    }
}

proof fn lemma_common_prefix(x: Seq<u8>, y: Seq<u8>)
    ensures
        first_difference(x, y, common_prefix(x, y)),
    decreases x.len(),
{
    if !(x.len() == 0 || y.len() == 0 || x[0] != y[0]) {
        lemma_common_prefix(x.skip(1), y.skip(1));
        let n = common_prefix(x.skip(1), y.skip(1));
        assert forall|j: int| 0 <= j < 1 + n implies x[j] == y[j] by {
            if j > 0 {
                assert(x.skip(1)[j - 1] == y.skip(1)[j - 1]);
            }
        }
        if 1 + n < x.len() && 1 + n < y.len() {
            assert(x.skip(1)[n] != y.skip(1)[n]);
        }
    }
}

/// Whether `left` comes before `right` in lexicographic order.
pub fn is_before(left: &[u8], right: &[u8]) -> (before: bool)
    ensures
        before == bytes_before(left@, right@),
{
    let mut index: usize = 0;
    while index < left.len() && index < right.len()
        invariant
            index <= left@.len(),
            index <= right@.len(),
            forall|i: int| 0 <= i < index ==> left@[i] == right@[i],
        decreases left@.len() - index,
    {
        if left[index] != right[index] {
            assert(first_difference(left@, right@, index as int));
            assert(bytes_before(left@, right@) ==> left@[index as int] < right@[index as int]);
            return left[index] < right[index];
        }
        index += 1;
    }
    assert(first_difference(left@, right@, index as int));
    index < right.len()
}

} // verus!
