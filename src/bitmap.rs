//! Expansion of Arrow's packed validity bits (1 = valid) into the native
//! protocol's null mask, one byte per row (1 = null).

use crate::column::bit_set;
use vstd::prelude::*;

verus! {

/// Validity bit `i` as a number: 1 for a valid row, 0 for a null one.
pub open spec fn validity_bit(bits: Seq<u8>, i: int) -> int {
    if bit_set(bits, i) {
        1
    } else {
        0
    }
}

/// The mask byte of row `i`: one minus its validity bit.
pub open spec fn mask_byte(bits: Seq<u8>, offset: int, i: int) -> u8 {
    (1 - validity_bit(bits, offset + i)) as u8
}

/// The null mask of `len` rows whose validity bits start at bit `offset`.
pub open spec fn expanded_mask(bits: Seq<u8>, offset: int, len: nat) -> Seq<u8> {
    Seq::new(len, |i: int| mask_byte(bits, offset, i))
}

/// `len` zero bytes.
pub open spec fn zeros(len: nat) -> Seq<u8> {
    Seq::new(len, |i: int| 0u8)
}

proof fn full_byte_bit(k: u8)
    requires
        k < 8,
    ensures
        0xffu8 & (1u8 << k) != 0,
{
    assert(0xffu8 & (1u8 << k) != 0) by (bit_vector)
        requires
            k < 8,
    ;
}

/// Writes the null mask of `len` rows over the last `len` bytes of `out`,
/// which are zero on entry (every row valid): only the bytes of null rows are
/// overwritten, with 1. Validity bit `offset + i` of `bits` belongs to row
/// `i`. A byte of eight valid rows is passed over whole.
pub fn expand_null_bitmap(bits: &[u8], offset: usize, out: &mut Vec<u8>, len: usize)
    requires
        len <= old(out)@.len(),
        old(out)@.skip(old(out)@.len() - len) == zeros(len as nat),
        offset + len <= 8 * bits@.len(),
    ensures
        final(out)@ == old(out)@.take(old(out)@.len() - len) + expanded_mask(
            bits@,
            offset as int,
            len as nat,
        ),
{
    let total = out.len();
    let base = total - len;
    let ghost start = out@;
    assert forall|k: int| base <= k < base + len implies #[trigger] out@[k] == 0 by {
        assert(start.skip(base as int)[k - base] == 0);
    }
    let mut byte: usize = offset / 8;
    let mut bit: u8 = (offset % 8) as u8;
    let mut i: usize = 0;
    while i < len
        invariant
            i <= len,
            bit < 8,
            byte * 8 + bit == offset + i,
            offset + len <= 8 * bits@.len(),
            base + len == total,
            total == start.len(),
            out@.len() == start.len(),
            forall|j: int| 0 <= j < base ==> out@[j] == start[j],
            forall|j: int|
                0 <= j < i ==> out@[base + j] == #[trigger] mask_byte(bits@, offset as int, j),
            forall|k: int| base + i <= k < base + len ==> #[trigger] out@[k] == 0,
        decreases len - i,
    {
        if bit == 0 && len - i >= 8 && bits[byte] == 0xff {
            // A byte whose eight rows are all valid: their mask bytes stay 0.
            proof {
                assert forall|j: int| i <= j < i + 8 implies #[trigger] mask_byte(
                    bits@,
                    offset as int,
                    j,
                ) == 0 by {
                    assert((offset + j) / 8 == byte && (offset + j) % 8 == j - i);
                    full_byte_bit(((offset + j) % 8) as u8);
                }
            }
            i = i + 8;
            byte = byte + 1;
            continue;
        }
        assert((offset + i) / 8 == byte && (offset + i) % 8 == bit as int);
        if bits[byte] & (1u8 << bit) == 0 {
            out.set(base + i, 1);
        }
        assert(out@[base + i] == mask_byte(bits@, offset as int, i as int));
        i = i + 1;
        if bit == 7 {
            bit = 0;
            byte = byte + 1;
        } else {
            bit = bit + 1;
        }
    }
    assert(out@ =~= start.take(base as int) + expanded_mask(bits@, offset as int, len as nat));
}

} // verus!
