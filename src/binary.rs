//! The byte-column codecs: `String`, `Binary` and `Object` columns as
//! length-prefixed values, `FixedSizedString(n)` and `FixedSizedBinary(n)`
//! columns as values of exactly `n` bytes.

use crate::bitmap::zeros;
use crate::column::column_repr;
use crate::column::column_rows;
use crate::column::ArrayRepr;
use crate::column::ArrowColumn;
use crate::error::Error;
use crate::types::leaf_codec;
use crate::types::spec_leaf_codec;
use crate::types::LeafCodec;
use crate::types::Type;
use crate::null::null_mask_output;
use crate::null::serialize_nulls;
use crate::pool::BufferPool;
use crate::pool::SerializerState;
use crate::varint::put_var_uint;
use crate::varint::var_uint_bytes;
use vstd::prelude::*;

verus! {

/// One row of a length-prefixed column: the length, then the bytes. A null
/// row is an empty value.
pub open spec fn var_row(row: Option<Seq<u8>>) -> Seq<u8> {
    match row {
        Some(v) => var_uint_bytes(v.len()) + v,
        None => var_uint_bytes(0),
    }
}

/// The rows of a length-prefixed column, in order.
pub open spec fn var_payload(rows: Seq<Option<Seq<u8>>>) -> Seq<u8>
    decreases rows.len(),
{
    if rows.len() == 0 {
        Seq::empty()
    } else {
        var_payload(rows.drop_last()) + var_row(rows.last())
    }
}

/// A value cut or zero-padded to exactly `n` bytes.
pub open spec fn fixed_cell(v: Seq<u8>, n: nat) -> Seq<u8> {
    Seq::new(n, |i: int| if i < v.len() { v[i] } else { 0u8 })
}

/// One row of a fixed-width column; a null row is `n` zero bytes.
pub open spec fn fixed_row(row: Option<Seq<u8>>, n: nat) -> Seq<u8> {
    match row {
        Some(v) => fixed_cell(v, n),
        None => zeros(n),
    }
}

/// The rows of a fixed-width column, in order.
pub open spec fn fixed_payload(rows: Seq<Option<Seq<u8>>>, n: nat) -> Seq<u8>
    decreases rows.len(),
{
    if rows.len() == 0 {
        Seq::empty()
    } else {
        fixed_payload(rows.drop_last(), n) + fixed_row(rows.last(), n)
    }
}

/// What a leaf codec writes for the given rows.
pub open spec fn payload(codec: LeafCodec, rows: Seq<Option<Seq<u8>>>) -> Seq<u8> {
    match codec {
        LeafCodec::VarString | LeafCodec::VarBinary => var_payload(rows),
        LeafCodec::FixedString(n) | LeafCodec::FixedBinary(n) => fixed_payload(rows, n as nat),
    }
}

/// The array layouts a codec reads: every byte layout for the fixed-width
/// codecs, all but `FixedSizeBinary` for the length-prefixed ones.
pub open spec fn accepts(codec: LeafCodec, repr: ArrayRepr) -> bool {
    match codec {
        LeafCodec::VarString | LeafCodec::VarBinary => repr != ArrayRepr::Other && repr
            != ArrayRepr::FixedSizeBinary,
        LeafCodec::FixedString(_) | LeafCodec::FixedBinary(_) => repr != ArrayRepr::Other,
    }
}

/// The message of the error for an array layout the codec does not read: the
/// accepted layouts, in the order the codec tries them.
pub open spec fn expected_message(codec: LeafCodec) -> Seq<char> {
    match codec {
        LeafCodec::VarString => "Expected one of: StringArray BinaryArray StringViewArray BinaryViewArray LargeStringArray LargeBinaryArray "@,
        LeafCodec::VarBinary => "Expected one of: BinaryArray StringArray StringViewArray BinaryViewArray LargeBinaryArray LargeStringArray "@,
        LeafCodec::FixedString(_) => "Expected one of: StringArray FixedSizeBinaryArray BinaryArray StringViewArray BinaryViewArray LargeStringArray LargeBinaryArray "@,
        LeafCodec::FixedBinary(_) => "Expected one of: FixedSizeBinaryArray BinaryArray LargeBinaryArray BinaryViewArray StringArray StringViewArray LargeStringArray "@,
    }
}

/// A value no longer than `n` is written as exactly `n` bytes: the value, then
/// zeros.
pub proof fn short_fixed_value_is_padded(v: Seq<u8>, n: nat)
    requires
        v.len() <= n,
    ensures
        fixed_cell(v, n).len() == n,
        fixed_cell(v, n).take(v.len() as int) == v,
        forall|i: int| v.len() <= i < n ==> #[trigger] fixed_cell(v, n)[i] == 0,
{
    assert(fixed_cell(v, n).take(v.len() as int) =~= v);
}

/// A value longer than `n` is written as its first `n` bytes.
pub proof fn long_fixed_value_is_truncated(v: Seq<u8>, n: nat)
    requires
        v.len() > n,
    ensures
        fixed_cell(v, n) == v.take(n as int),
{
    assert(fixed_cell(v, n) =~= v.take(n as int));
}

/// A null row is `n` zero bytes in a fixed-width column, and a zero length
/// with no bytes in a length-prefixed one.
pub proof fn null_rows_are_empty(n: nat)
    ensures
        fixed_row(None, n) == zeros(n),
        var_row(None) == seq![0u8],
{
    reveal_with_fuel(var_uint_bytes, 1);
}

/// Whether the codec reads arrays of the given layout.
pub fn accepts_repr(codec: LeafCodec, repr: ArrayRepr) -> (r: bool)
    ensures
        r == accepts(codec, repr),
{
    match repr {
        ArrayRepr::Other => false,
        ArrayRepr::FixedSizeBinary => matches!(codec, LeafCodec::FixedString(_) | LeafCodec::FixedBinary(_)),
        _ => true,
    }
}

/// The error for an array layout the codec does not read.
pub fn layout_error(codec: LeafCodec) -> (r: Error)
    ensures
        r matches Error::ArrowSerialize(m) && m@ == expected_message(codec),
{
    let m = match codec {
        LeafCodec::VarString => "Expected one of: StringArray BinaryArray StringViewArray BinaryViewArray LargeStringArray LargeBinaryArray ",
        LeafCodec::VarBinary => "Expected one of: BinaryArray StringArray StringViewArray BinaryViewArray LargeBinaryArray LargeStringArray ",
        LeafCodec::FixedString(_) => "Expected one of: StringArray FixedSizeBinaryArray BinaryArray StringViewArray BinaryViewArray LargeStringArray LargeBinaryArray ",
        LeafCodec::FixedBinary(_) => "Expected one of: FixedSizeBinaryArray BinaryArray LargeBinaryArray BinaryViewArray StringArray StringViewArray LargeStringArray ",
    };
    Error::ArrowSerialize(m.to_owned())
}

proof fn extend_payload_var(rows: Seq<Option<Seq<u8>>>, i: int)
    requires
        0 <= i < rows.len(),
    ensures
        var_payload(rows.take(i + 1)) == var_payload(rows.take(i)) + var_row(rows[i]),
{
    assert(rows.take(i + 1).drop_last() =~= rows.take(i));
}

proof fn extend_payload_fixed(rows: Seq<Option<Seq<u8>>>, i: int, n: nat)
    requires
        0 <= i < rows.len(),
    ensures
        fixed_payload(rows.take(i + 1), n) == fixed_payload(rows.take(i), n) + fixed_row(
            rows[i],
            n,
        ),
{
    assert(rows.take(i + 1).drop_last() =~= rows.take(i));
}

/// Appends every row of `column` as its length followed by its bytes; a null
/// row is written as length 0.
pub fn put_var_values(column: &ArrowColumn, writer: &mut Vec<u8>)
    requires
        column_repr(*column) != ArrayRepr::Other,
    ensures
        final(writer)@ == old(writer)@ + var_payload(column_rows(*column)),
{
    let ghost rows = column_rows(*column);
    let len = column.len();
    let mut i: usize = 0;
    assert(rows.take(0) =~= Seq::<Option<Seq<u8>>>::empty());
    assert(old(writer)@ + Seq::<u8>::empty() =~= old(writer)@);
    while i < len
        invariant
            len == rows.len(),
            rows == column_rows(*column),
            column_repr(*column) != ArrayRepr::Other,
            i <= len,
            writer@ == old(writer)@ + var_payload(rows.take(i as int)),
        decreases len - i,
    {
        let ghost before = writer@;
        if column.is_null(i) {
            put_var_uint(writer, 0);
        } else {
            let v = column.value(i);
            put_var_uint(writer, v.len() as u64);
            writer.extend_from_slice(v);
        }
        proof {
            extend_payload_var(rows, i as int);
            assert(writer@ =~= before + var_row(rows[i as int]));
        }
        i = i + 1;
    }
    assert(rows.take(len as int) =~= rows);
}

/// Appends `value` cut or zero-padded to exactly `n` bytes, using `padding`,
/// a scratch buffer of `n` bytes, for a value of another length.
pub fn put_fixed_value(writer: &mut Vec<u8>, value: &[u8], n: usize, padding: &mut Vec<u8>)
    requires
        old(padding)@.len() == n,
    ensures
        final(writer)@ == old(writer)@ + fixed_cell(value@, n as nat),
        final(padding)@.len() == n,
{
    if value.len() == n {
        writer.extend_from_slice(value);
        assert(value@ =~= fixed_cell(value@, n as nat));
    } else {
        let copy_len = if value.len() < n {
            value.len()
        } else {
            n
        };
        let mut j: usize = 0;
        while j < n
            invariant
                j <= n,
                padding@.len() == n,
                copy_len <= value@.len(),
                copy_len == value@.len() || copy_len == n,
                forall|k: int| 0 <= k < j ==> padding@[k] == #[trigger] fixed_cell(value@, n as nat)[k],
            decreases n - j,
        {
            let b = if j < copy_len {
                value[j]
            } else {
                0u8
            };
            padding.set(j, b);
            j = j + 1;
        }
        writer.extend_from_slice(padding.as_slice());
        assert(padding@ =~= fixed_cell(value@, n as nat));
    }
    assert(final(writer)@ =~= old(writer)@ + fixed_cell(value@, n as nat));
}

/// How many buffers a pool holds after a fixed-width column: the two scratch
/// buffers taken from it come back to it.
pub open spec fn spare_after_fixed(spare: nat) -> nat {
    if spare >= 2 {
        spare
    } else {
        2
    }
}

/// Appends every row of `column` as exactly `n` bytes: a value cut or
/// zero-padded to `n` bytes, a null row as `n` zero bytes. The padding buffer
/// and the zero buffer are taken from `pool` and handed back to it.
pub fn put_fixed_values(column: &ArrowColumn, writer: &mut Vec<u8>, n: usize, pool: &mut BufferPool)
    requires
        column_repr(*column) != ArrayRepr::Other,
        old(pool).wf(),
    ensures
        final(writer)@ == old(writer)@ + fixed_payload(column_rows(*column), n as nat),
        final(pool).wf(),
        final(pool).spare() == spare_after_fixed(old(pool).spare()),
{
    let ghost rows = column_rows(*column);
    proof {
        old(pool).spare_bound();
    }
    let mut padding = pool.acquire(n);
    let zero_buf = pool.acquire(n);
    let len = column.len();
    let mut i: usize = 0;
    assert(rows.take(0) =~= Seq::<Option<Seq<u8>>>::empty());
    assert(old(writer)@ + Seq::<u8>::empty() =~= old(writer)@);
    while i < len
        invariant
            len == rows.len(),
            rows == column_rows(*column),
            column_repr(*column) != ArrayRepr::Other,
            i <= len,
            padding@.len() == n,
            zero_buf@ == zeros(n as nat),
            pool.wf(),
            pool.spare() == if old(pool).spare() >= 2 {
                old(pool).spare() - 2
            } else {
                0
            },
            writer@ == old(writer)@ + fixed_payload(rows.take(i as int), n as nat),
        decreases len - i,
    {
        let ghost before = writer@;
        if column.is_null(i) {
            writer.extend_from_slice(zero_buf.as_slice());
        } else {
            let v = column.value(i);
            put_fixed_value(writer, v, n, &mut padding);
        }
        proof {
            extend_payload_fixed(rows, i as int, n as nat);
            assert(writer@ =~= before + fixed_row(rows[i as int], n as nat));
        }
        i = i + 1;
    }
    assert(rows.take(len as int) =~= rows);
    pool.release(zero_buf);
    pool.release(padding);
}

/// Appends the values of `values` in the encoding of `codec`, fixed-width
/// scratch buffers coming from `pool`.
fn put_values(codec: LeafCodec, values: &ArrowColumn, writer: &mut Vec<u8>, pool: &mut BufferPool)
    requires
        accepts(codec, column_repr(*values)),
        old(pool).wf(),
    ensures
        final(writer)@ == old(writer)@ + payload(codec, column_rows(*values)),
        final(pool).wf(),
        final(pool).spare() == if codec is FixedString || codec is FixedBinary {
            spare_after_fixed(old(pool).spare())
        } else {
            old(pool).spare()
        },
{
    match codec {
        LeafCodec::VarString | LeafCodec::VarBinary => put_var_values(values, writer),
        LeafCodec::FixedString(n) | LeafCodec::FixedBinary(n) => put_fixed_values(values, writer, n, pool),
    }
}

/// Appends the values of `values` in the encoding that `type_hint` selects,
/// `Nullable` wrapper removed: length-prefixed for `String`, `Object` and
/// `Binary`, exactly `n` bytes per row for `FixedSizedString(n)` and
/// `FixedSizedBinary(n)`. Any other type is `UnsupportedType`; an array layout
/// the codec does not read is `ArrowSerialize`, with the accepted layouts.
/// Nothing is written on an error. Scratch buffers come from a pool of this
/// call's own.
pub fn serialize(type_hint: &Type, writer: &mut Vec<u8>, values: &ArrowColumn) -> (r: Result<
    (),
    Error,
>)
    ensures
        match spec_leaf_codec(*type_hint) {
            None => r == Err::<(), Error>(Error::UnsupportedType(*type_hint)) && final(writer)@
                == old(writer)@,
            Some(codec) => if accepts(codec, column_repr(*values)) {
                r is Ok && final(writer)@ == old(writer)@ + payload(codec, column_rows(*values))
            } else {
                r matches Err(Error::ArrowSerialize(m)) && m@ == expected_message(codec)
                    && final(writer)@ == old(writer)@
            },
        },
{
    let codec = match leaf_codec(type_hint) {
        Some(c) => c,
        None => {
            return Err(Error::UnsupportedType(type_hint.duplicate()));
        },
    };
    if !accepts_repr(codec, values.repr()) {
        return Err(layout_error(codec));
    }
    let mut pool = BufferPool::new();
    put_values(codec, values, writer, &mut pool);
    Ok(())
}

/// Appends a whole column: for a `Nullable` type its null mask first (none
/// for a collection), then the values as `serialize` writes them, scratch
/// buffers coming from `pool`. Errors are those of `serialize`, found before
/// anything is written. The state is left as it is.
pub fn serialize_column(
    type_hint: &Type,
    writer: &mut Vec<u8>,
    values: &ArrowColumn,
    state: &mut SerializerState,
    pool: &mut BufferPool,
) -> (r: Result<(), Error>)
    requires
        old(pool).wf(),
    ensures
        *final(state) == *old(state),
        final(pool).wf(),
        final(pool).spare() == if r is Ok && (spec_leaf_codec(*type_hint) matches Some(c) && (
        c is FixedString || c is FixedBinary)) {
            spare_after_fixed(old(pool).spare())
        } else {
            old(pool).spare()
        },
        match spec_leaf_codec(*type_hint) {
            None => r == Err::<(), Error>(Error::UnsupportedType(*type_hint)) && final(writer)@
                == old(writer)@,
            Some(codec) => if accepts(codec, column_repr(*values)) {
                r is Ok && final(writer)@ == old(writer)@ + (if *type_hint is Nullable {
                    null_mask_output(*type_hint, column_rows(*values))
                } else {
                    Seq::empty()
                }) + payload(codec, column_rows(*values))
            } else {
                r matches Err(Error::ArrowSerialize(m)) && m@ == expected_message(codec)
                    && final(writer)@ == old(writer)@
            },
        },
{
    let codec = match leaf_codec(type_hint) {
        Some(c) => c,
        None => {
            return Err(Error::UnsupportedType(type_hint.duplicate()));
        },
    };
    if !accepts_repr(codec, values.repr()) {
        return Err(layout_error(codec));
    }
    let ghost start = writer@;
    if matches!(type_hint, Type::Nullable(_)) {
        serialize_nulls(type_hint, writer, values, state);
    } else {
        assert(writer@ =~= start + Seq::<u8>::empty());
    }
    let ghost mid = writer@;
    put_values(codec, values, writer, pool);
    assert(writer@ == mid + payload(codec, column_rows(*values)));
    Ok(())
}

} // verus!
