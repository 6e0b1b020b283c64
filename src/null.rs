//! The null mask written ahead of a nullable column's values: one byte per
//! row, 1 for a null row and 0 for a valid one.

use crate::bitmap::expand_null_bitmap;
use crate::bitmap::expanded_mask;
use crate::bitmap::zeros;
use crate::column::column_rows;
use crate::column::ArrowColumn;
use crate::pool::SerializerState;
use crate::types::Type;
use vstd::prelude::*;

verus! {

/// The null mask of a column's rows.
pub open spec fn null_mask(rows: Seq<Option<Seq<u8>>>) -> Seq<u8> {
    Seq::new(rows.len(), |i: int| if rows[i] is None { 1u8 } else { 0u8 })
}

/// What the null-mask codec writes for a column of type `t`: nothing for a
/// collection type, `Nullable` or not, as the protocol has no nullable
/// collections; the rows' null mask otherwise.
pub open spec fn null_mask_output(t: Type, rows: Seq<Option<Seq<u8>>>) -> Seq<u8> {
    if t.spec_strip_null().spec_is_collection() {
        Seq::empty()
    } else {
        null_mask(rows)
    }
}

/// A collection column, `Nullable` or not, has no null mask, whatever its
/// rows are.
pub proof fn collections_have_no_null_mask(t: Type, rows: Seq<Option<Seq<u8>>>)
    requires
        t.spec_strip_null().spec_is_collection(),
    ensures
        null_mask_output(t, rows) == Seq::<u8>::empty(),
{
}

/// Appends the null mask of `array` to `writer`, unless `type_hint` is a
/// collection type. The mask is expanded in place: `writer` grows by one zero
/// byte per row, and the bytes of null rows are then set to 1. The state is
/// left as it is.
pub fn serialize_nulls(
    type_hint: &Type,
    writer: &mut Vec<u8>,
    array: &ArrowColumn,
    state: &mut SerializerState,
)
    ensures
        *final(state) == *old(state),
        final(writer)@ == old(writer)@ + null_mask_output(*type_hint, column_rows(*array)),
{
    let ghost rows = column_rows(*array);
    if type_hint.strip_null().is_collection() {
        assert(writer@ =~= writer@ + Seq::<u8>::empty());
        return;
    }
    let len = array.len();
    if len == 0 {
        assert(null_mask(rows) =~= Seq::<u8>::empty());
        assert(writer@ =~= writer@ + Seq::<u8>::empty());
        return;
    }
    let start = writer.len();
    writer.reserve(len);
    let mut k: usize = 0;
    while k < len
        invariant
            k <= len,
            writer@ == old(writer)@ + zeros(k as nat),
            start == old(writer)@.len(),
        decreases len - k,
    {
        writer.push(0u8);
        k = k + 1;
        assert(writer@ =~= old(writer)@ + zeros(k as nat));
    }
    assert(writer@.skip(start as int) =~= zeros(len as nat));
    assert(writer@.take(start as int) =~= old(writer)@);
    match array.validity() {
        Some((bits, offset)) => {
            expand_null_bitmap(bits, offset, writer, len);
            assert(expanded_mask(bits@, offset as int, len as nat) =~= null_mask(rows));
        },
        None => {
            assert(zeros(len as nat) =~= null_mask(rows));
        },
    }
}

} // verus!
