//! An Arrow array as the codecs see it: a row count, which physical layout
//! holds the values, the validity of each row and the bytes of each valid
//! row. Every fact about the array itself comes from arrow, through the
//! trusted items of this module.

use arrow::array::Array;
use arrow::array::ArrayData;
use arrow::array::ArrayRef;
use arrow::array::AsArray;
use arrow::datatypes::DataType;
use vstd::prelude::*;

verus! {

/// Arrow's `ArrayData`: the type, length, buffers and validity of one array.
/// Opaque here; it only carries an array into `ArrowColumn::from_data`.
#[verifier::external_type_specification]
#[verifier::external_body]
pub struct ExArrayData(ArrayData);

/// The physical layouts of an Arrow array that the byte codecs recognise.
#[derive(Debug, Clone, Copy, PartialEq, Eq)]
pub enum ArrayRepr {
    /// `StringArray`
    Utf8,
    /// `LargeStringArray`
    LargeUtf8,
    /// `StringViewArray`
    Utf8View,
    /// `BinaryArray`
    Binary,
    /// `LargeBinaryArray`
    LargeBinary,
    /// `BinaryViewArray`
    BinaryView,
    /// `FixedSizeBinaryArray`
    FixedSizeBinary,
    /// Any other layout (numbers, lists, ...).
    Other,
}

/// One Arrow array, read only.
///
/// The array's `ArrayData` gives its length, validity and data type. For the
/// byte layouts the typed array is built as well, behind arrow's `ArrayRef`, a
/// trait object that cannot appear in a verified signature. The struct is
/// therefore opaque; what the codecs know of it is stated through
/// `column_rows` and `column_repr`.
#[verifier::external_body]
pub struct ArrowColumn {
    data: ArrayData,
    bytes: Option<ArrayRef>,
}

/// The rows of the array, in order: `None` for a null row, else `Some` of the
/// row's bytes. The bytes are meaningful for the byte layouts only.
pub uninterp spec fn column_rows(c: ArrowColumn) -> Seq<Option<Seq<u8>>>;

/// The physical layout of the array.
pub uninterp spec fn column_repr(c: ArrowColumn) -> ArrayRepr;

/// Bit `i` of an LSB-first packed bitmap, as Arrow lays out validity.
pub open spec fn bit_set(bits: Seq<u8>, i: int) -> bool {
    bits[i / 8] & (1u8 << ((i % 8) as u8)) != 0
}

impl ArrowColumn {
    /// Relies on arrow's `make_array`, called for the seven byte layouts
    /// only: for each it has an arm that builds the typed array from the
    /// data's buffers, whose count arrow's validated constructors fix by
    /// layout. An array of any other type is read through its `ArrayData`
    /// alone, so no type that `make_array` cannot build reaches it.
    #[verifier::external_body]
    pub fn from_data(data: ArrayData) -> (r: ArrowColumn) {
        let bytes = match data.data_type() {
            DataType::Utf8 | DataType::LargeUtf8 | DataType::Utf8View | DataType::Binary
            | DataType::LargeBinary | DataType::BinaryView | DataType::FixedSizeBinary(_) => {
                Some(arrow::array::make_array(data.clone()))
            },
            _ => None,
        };
        ArrowColumn { data, bytes }
    }

    /// Relies on arrow's `ArrayData::len`: the number of rows.
    #[verifier::external_body]
    pub fn len(&self) -> (r: usize)
        ensures
            r == column_rows(*self).len(),
    {
        self.data.len()
    }

    /// Relies on arrow's `ArrayData::data_type`: the layout is read off the
    /// array's data type.
    #[verifier::external_body]
    pub fn repr(&self) -> (r: ArrayRepr)
        ensures
            r == column_repr(*self),
    {
        match self.data.data_type() {
            DataType::Utf8 => ArrayRepr::Utf8,
            DataType::LargeUtf8 => ArrayRepr::LargeUtf8,
            DataType::Utf8View => ArrayRepr::Utf8View,
            DataType::Binary => ArrayRepr::Binary,
            DataType::LargeBinary => ArrayRepr::LargeBinary,
            DataType::BinaryView => ArrayRepr::BinaryView,
            DataType::FixedSizeBinary(_) => ArrayRepr::FixedSizeBinary,
            _ => ArrayRepr::Other,
        }
    }

    /// Relies on arrow's `ArrayData::is_null`: whether row `i` is null in the
    /// array's validity buffer.
    #[verifier::external_body]
    pub fn is_null(&self, i: usize) -> (r: bool)
        requires
            i < column_rows(*self).len(),
        ensures
            r == column_rows(*self)[i as int] is None,
    {
        self.data.is_null(i)
    }

    /// Relies on arrow's `ArrayData::nulls` and `NullBuffer::validity` and
    /// `NullBuffer::offset`: the packed validity bits and the bit at which
    /// row 0 stands; `None` when the array has no validity buffer, so that
    /// every row is valid.
    #[verifier::external_body]
    pub fn validity(&self) -> (r: Option<(&[u8], usize)>)
        ensures
            r is None ==> forall|i: int|
                0 <= i < column_rows(*self).len() ==> #[trigger] column_rows(*self)[i] is Some,
            r matches Some((bits, offset)) ==> {
                &&& offset + column_rows(*self).len() <= 8 * bits@.len()
                &&& forall|i: int|
                    0 <= i < column_rows(*self).len() ==> (#[trigger] column_rows(*self)[i] is None
                        <==> !bit_set(bits@, offset + i))
            },
    {
        self.data.nulls().map(|n| (n.validity(), n.offset()))
    }

    /// Relies on the `value` accessor of arrow's byte arrays
    /// (`GenericByteArray`, `GenericByteViewArray`, `FixedSizeBinaryArray`):
    /// the bytes of row `i`, strings taken as their UTF-8 bytes. The typed
    /// array is the one `from_data` built for a byte layout.
    #[verifier::external_body]
    pub fn value(&self, i: usize) -> (r: &[u8])
        requires
            i < column_rows(*self).len(),
            column_rows(*self)[i as int] is Some,
            column_repr(*self) != ArrayRepr::Other,
        ensures
            column_rows(*self)[i as int] == Some(r@),
    {
        let a = match &self.bytes {
            Some(a) => a,
            None => return &[],
        };
        match a.data_type() {
            DataType::Utf8 => a.as_string::<i32>().value(i).as_bytes(),
            DataType::LargeUtf8 => a.as_string::<i64>().value(i).as_bytes(),
            DataType::Utf8View => a.as_string_view().value(i).as_bytes(),
            DataType::Binary => a.as_binary::<i32>().value(i),
            DataType::LargeBinary => a.as_binary::<i64>().value(i),
            DataType::BinaryView => a.as_binary_view().value(i),
            _ => a.as_fixed_size_binary().value(i),
        }
    }
}

} // verus!
