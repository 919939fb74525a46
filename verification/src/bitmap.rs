//! Bit vectors stored in bytes, least significant bit first.

use bitvec::order::Lsb0;
use bitvec::slice::BitSlice;
use vstd::prelude::*;

verus! {

/// Largest number of bytes that is viewed as bits at once. A bit-slice
/// cannot span more than an eighth of the address space, so longer bitmaps are
/// handled window by window.
pub const WINDOW_BYTES: usize = 0x10_0000;

/// The positions of the clear bits among the first `bits` bits of `bytes`,
/// in ascending order.
pub open spec fn zeros_below(bytes: Seq<u8>, bits: int) -> Seq<usize>
    decreases bits,
{
    if bits <= 0 {
        Seq::empty()
    } else if bit_is_set(bytes, bits - 1) {
        zeros_below(bytes, bits - 1)
    } else {
        zeros_below(bytes, bits - 1).push((bits - 1) as usize)
    }
}

/// `len` zero bytes.
pub open spec fn zero_bytes(len: nat) -> Seq<u8> {
    Seq::new(len, |i: int| 0u8)
}

/// `bytes` with the bytes from `start` up to `end` zero and every other
/// byte as before.
pub open spec fn with_range_cleared(bytes: Seq<u8>, start: int, end: int) -> Seq<u8> {
    bytes.subrange(0, start) + zero_bytes((end - start) as nat) + bytes.subrange(
        end,
        bytes.len() as int,
    )
}

/// `BitSlice::<u8, Lsb0>::from_slice`, of which the first `bits` bits are
/// taken, and `BitSlice::iter_zeros`: the index of every clear bit of the
/// view, lowest first. Bit `i` of the view is bit `i % 8` of byte `i / 8`,
/// counted from the least significant.
#[verifier::external_body]
pub(crate) fn zero_bits(bytes: &[u8], bits: usize) -> (zeros: Vec<usize>)
    requires
        bytes@.len() <= WINDOW_BYTES,
        bits <= 8 * bytes@.len(),
    ensures
        zeros@ == zeros_below(bytes@, bits as int),
{
    BitSlice::<u8, Lsb0>::from_slice(bytes)[..bits].iter_zeros().collect()
}

/// `BitSlice::<u8, Lsb0>::from_slice_mut` over the bytes from `start` up to
/// `end`, and `BitSlice::fill` with `false`: every bit of those bytes is
/// cleared, and no other byte is touched.
#[verifier::external_body]
pub(crate) fn clear_window(bytes: &mut Vec<u8>, start: usize, end: usize)
    requires
        start <= end <= old(bytes)@.len(),
        end - start <= WINDOW_BYTES,
    ensures
        final(bytes)@ == with_range_cleared(old(bytes)@, start as int, end as int),
{
    BitSlice::<u8, Lsb0>::from_slice_mut(&mut bytes[start..end]).fill(false);
}

/// A clear bit found below `bits` lies below `bits`.
pub proof fn lemma_zeros_below(bytes: Seq<u8>, bits: int)
    requires
        bits <= usize::MAX,
    ensures
        forall|i: int|
            0 <= i < zeros_below(bytes, bits).len() ==> (#[trigger] zeros_below(bytes, bits)[i])
                < bits,
    decreases bits,
{
    if bits > 0 {
        lemma_zeros_below(bytes, bits - 1);
        let head = zeros_below(bytes, bits - 1);
        let all = zeros_below(bytes, bits);
        assert forall|i: int| 0 <= i < all.len() implies (#[trigger] all[i]) < bits by {
            if i < head.len() {
                assert(all[i] == head[i]);
            }
        }
    }
}

/// Clears the bytes of `bytes` from `start` up to `end`. No other byte
/// changes.
pub fn clear_range(bytes: &mut Vec<u8>, start: usize, end: usize)
    requires
        start <= end <= old(bytes)@.len(),
    ensures
        final(bytes)@ == with_range_cleared(old(bytes)@, start as int, end as int),
{
    let ghost before = bytes@;
    let mut done = start;
    proof {
        assert(bytes@ =~= with_range_cleared(before, start as int, start as int));
    }
    while done < end
        invariant
            start <= done <= end <= before.len(),
            bytes@ == with_range_cleared(before, start as int, done as int),
        decreases end - done,
    {
        let next = if end - done > WINDOW_BYTES {
            done + WINDOW_BYTES
        } else {
            end
        };
        clear_window(bytes, done, next);
        proof {
            assert(bytes@ =~= with_range_cleared(before, start as int, next as int));
        }
        done = next;
    }
}

/// Number of bytes that hold `bits` bits.
pub open spec fn spec_bytes_for_bits(bits: nat) -> nat {
    ((bits + 7) / 8) as nat
}

/// Number of bytes that hold `bits` bits.
pub fn bytes_for_bits(bits: usize) -> (n: usize)
    ensures
        n == spec_bytes_for_bits(bits as nat),
        bits <= 8 * n,
        8 * n < bits + 8,
{
    if bits % 8 == 0 {
        bits / 8
    } else {
        bits / 8 + 1
    }
}

/// Whether bit `i` of `bytes` is set. Bit `i` lives in byte `i / 8`, at
/// position `i % 8` counted from the least significant bit.
pub open spec fn bit_is_set(bytes: Seq<u8>, i: int) -> bool {
    bytes[i / 8] & (1u8 << ((i % 8) as u8)) != 0
}

/// `bytes` with bit `i` set and every other bit as before.
pub open spec fn with_bit_set(bytes: Seq<u8>, i: int) -> Seq<u8> {
    bytes.update(i / 8, bytes[i / 8] | (1u8 << ((i % 8) as u8)))
}

/// No bit among the first `bits` bits of `bytes` is set.
pub open spec fn all_clear(bytes: Seq<u8>, bits: int) -> bool {
    forall|i: int| 0 <= i < bits ==> !bit_is_set(bytes, i)
}

proof fn lemma_mask_or(b: u8, k: u8, j: u8)
    requires
        k < 8,
        j < 8,
    ensures
        ((b | (1u8 << k)) & (1u8 << j) != 0) == (j == k || (b & (1u8 << j) != 0)),
{
    assert(((b | (1u8 << k)) & (1u8 << j) != 0) == (j == k || (b & (1u8 << j) != 0)))
        by (bit_vector)
        requires
            k < 8,
            j < 8,
    ;
}

proof fn lemma_mask_zero(j: u8)
    requires
        j < 8,
    ensures
        0u8 & (1u8 << j) == 0,
{
    assert(0u8 & (1u8 << j) == 0) by (bit_vector);
}

/// Setting bit `i` sets exactly that bit.
pub proof fn lemma_with_bit_set(bytes: Seq<u8>, i: int)
    requires
        0 <= i < 8 * bytes.len(),
    ensures
        with_bit_set(bytes, i).len() == bytes.len(),
        forall|j: int|
            0 <= j < 8 * bytes.len() ==> #[trigger] bit_is_set(with_bit_set(bytes, i), j) == (j == i
                || bit_is_set(bytes, j)),
{
    let after = with_bit_set(bytes, i);
    assert forall|j: int| 0 <= j < 8 * bytes.len() implies #[trigger] bit_is_set(after, j) == (j
        == i || bit_is_set(bytes, j)) by {
        if j / 8 == i / 8 {
            lemma_mask_or(bytes[i / 8], (i % 8) as u8, (j % 8) as u8);
        }
    }
}

/// A bitmap of zero bytes has no bit set.
pub proof fn lemma_zero_bytes_all_clear(bytes: Seq<u8>)
    requires
        forall|k: int| 0 <= k < bytes.len() ==> bytes[k] == 0,
    ensures
        all_clear(bytes, 8 * (bytes.len() as int)),
{
    assert forall|i: int| 0 <= i < 8 * bytes.len() implies !bit_is_set(bytes, i) by {
        lemma_mask_zero((i % 8) as u8);
    }
}

/// Reads bit `i` of the bitmap that starts at byte `base` of `bytes`.
pub fn get_bit_from(bytes: &Vec<u8>, base: usize, i: usize) -> (set: bool)
    requires
        base + i / 8 < bytes@.len(),
    ensures
        set == bit_is_set(bytes@, 8 * base + i),
{
    let shift: u8 = (i % 8) as u8;
    let len = bytes.len();
    assert(base + i / 8 < len);
    let at = base + i / 8;
    assert((8 * base + i) / 8 == at);
    assert((8 * base + i) % 8 == i % 8);
    bytes[at] & (1u8 << shift) != 0
}

/// Sets bit `i` of the bitmap that starts at byte `base` of `bytes`.
pub fn set_bit_from(bytes: &mut Vec<u8>, base: usize, i: usize)
    requires
        base + i / 8 < old(bytes)@.len(),
    ensures
        final(bytes)@ == with_bit_set(old(bytes)@, 8 * base + i),
{
    let shift: u8 = (i % 8) as u8;
    let len = bytes.len();
    assert(base + i / 8 < len);
    let at = base + i / 8;
    assert((8 * base + i) / 8 == at);
    assert((8 * base + i) % 8 == i % 8);
    let byte = bytes[at] | (1u8 << shift);
    bytes.set(at, byte);
}

/// A bitmap of `len` zero bytes.
pub fn zeroed(len: usize) -> (bytes: Vec<u8>)
    ensures
        bytes@.len() == len,
        forall|k: int| 0 <= k < len ==> bytes@[k] == 0,
        all_clear(bytes@, 8 * (len as int)),
{
    let bytes = vec![0u8; len];
    proof {
        lemma_zero_bytes_all_clear(bytes@);
    }
    bytes
}

} // verus!
