use arrow::array::{Array, Int32Array, ListArray, StringArray};
use arrow::datatypes::{Int32Type, Int64Type};
use clickhouse_arrow::bitmap::expand_null_bitmap;
use clickhouse_arrow::column::ArrowColumn;
use clickhouse_arrow::null::serialize_nulls;
use clickhouse_arrow::pool::SerializerState;
use clickhouse_arrow::types::Type;

type MockWriter = Vec<u8>;

fn column<A: Array>(array: A) -> ArrowColumn {
    ArrowColumn::from_data(array.into_data())
}

#[test]
fn null_test_write_nullability_with_nulls() {
    let mut state = SerializerState::default();
    let array = column(Int32Array::from(vec![Some(1), None, Some(3)]));
    let mut writer = MockWriter::new();
    serialize_nulls(&Type::Int32, &mut writer, &array, &mut state);
    assert_eq!(writer, vec![0, 1, 0]);
}

#[test]
fn null_test_write_nullability_without_nulls() {
    let mut state = SerializerState::default();
    let array = column(Int32Array::from(vec![1, 2, 3]));
    let mut writer = MockWriter::new();
    serialize_nulls(&Type::Int32, &mut writer, &array, &mut state);
    assert_eq!(writer, vec![0, 0, 0]);
}

#[test]
fn null_test_write_nullability_empty() {
    let mut state = SerializerState::default();
    let array = column(Int32Array::from(Vec::<i32>::new()));
    let mut writer = MockWriter::new();
    serialize_nulls(&Type::Int32, &mut writer, &array, &mut state);
    assert!(writer.is_empty());
}

#[test]
fn null_test_write_nullability_nullable_string() {
    let mut state = SerializerState::default();
    let array = column(StringArray::from(vec![Some("a"), None, Some("c")]));
    let mut writer = MockWriter::new();
    serialize_nulls(&Type::String, &mut writer, &array, &mut state);
    assert_eq!(writer, vec![0, 1, 0]);
}

#[test]
fn null_test_write_nullability_nullable_array() {
    let mut state = SerializerState::default();
    let data = vec![
        Some(vec![Some(0), Some(1), Some(2)]),
        None,
        Some(vec![Some(3), None, Some(5)]),
        Some(vec![Some(6), Some(7)]),
    ];
    let list_array = ListArray::from_iter_primitive::<Int32Type, _, _>(data);
    let array = column(list_array);
    let mut writer = MockWriter::new();
    serialize_nulls(
        &Type::Nullable(Box::new(Type::Array(Box::new(Type::Int32)))),
        &mut writer,
        &array,
        &mut state,
    );
    assert!(writer.is_empty());
}

#[test]
fn test_write_nullability_array_type_variations() {
    let mut state = SerializerState::default();

    let data = vec![
        Some(vec![Some(1i64), None, Some(3)]),
        Some(vec![None, None]),
        Some(vec![Some(10), Some(20), Some(30)]),
    ];
    let list_array = ListArray::from_iter_primitive::<Int64Type, _, _>(data);
    let array = column(list_array);
    let mut writer = MockWriter::new();
    serialize_nulls(
        &Type::Array(Box::new(Type::Nullable(Box::new(Type::Int64)))),
        &mut writer,
        &array,
        &mut state,
    );
    assert!(writer.is_empty(), "Array type should not write null mask");

    let data2 = vec![Some(vec![Some(1i64), Some(2), Some(3)]), None, Some(vec![Some(10), Some(20)])];
    let list_array2 = ListArray::from_iter_primitive::<Int64Type, _, _>(data2);
    let array2 = column(list_array2);
    let mut writer2 = MockWriter::new();
    serialize_nulls(
        &Type::Nullable(Box::new(Type::Array(Box::new(Type::Int64)))),
        &mut writer2,
        &array2,
        &mut state,
    );
    assert!(writer2.is_empty(), "Nullable(Array) should not write null mask");

    let mut writer3 = MockWriter::new();
    serialize_nulls(
        &Type::Nullable(Box::new(Type::Mapping(Box::new(Type::String), Box::new(Type::Int32)))),
        &mut writer3,
        &array,
        &mut state,
    );
    assert!(writer3.is_empty(), "Nullable(Map) should not write null mask");
}

#[test]
fn plain_collection_with_nulls_writes_no_mask() {
    let mut state = SerializerState::default();
    let array = column(Int32Array::from(vec![Some(1), None]));
    let mut writer = MockWriter::new();
    serialize_nulls(
        &Type::Mapping(Box::new(Type::String), Box::new(Type::Int32)),
        &mut writer,
        &array,
        &mut state,
    );
    assert!(writer.is_empty());
}

#[test]
fn int32_without_validity_buffer_is_all_valid() {
    let mut state = SerializerState::default();
    let array = Int32Array::from(vec![1, 2, 3]);
    assert!(array.nulls().is_none());
    let mut writer = MockWriter::new();
    serialize_nulls(&Type::Int32, &mut writer, &column(array), &mut state);
    assert_eq!(writer, vec![0, 0, 0]);
}

#[test]
fn null_mask_of_sliced_array_follows_the_offset() {
    let mut state = SerializerState::default();
    let array = Int32Array::from(vec![Some(1), None, Some(3), None, None, Some(6), None, Some(8), None, Some(10)]);
    let mut writer = MockWriter::new();
    serialize_nulls(&Type::Int32, &mut writer, &column(array.slice(3, 7)), &mut state);
    assert_eq!(writer, vec![1, 1, 0, 1, 0, 1, 0]);
}

#[test]
fn null_mask_appends_and_reuses_state() {
    let mut state = SerializerState::default();
    let mut writer = vec![7];
    for _ in 0..20 {
        let array = column(Int32Array::from(vec![None, Some(2)]));
        serialize_nulls(&Type::Nullable(Box::new(Type::Int32)), &mut writer, &array, &mut state);
    }
    assert_eq!(writer.len(), 41);
    assert_eq!(&writer[..5], &[7, 1, 0, 1, 0]);
    assert_eq!(state, SerializerState::default());
}

#[test]
fn expand_bitmap_inverts_bits() {
    // bits, LSB first: 1,0,1,1,0,0,0,1 | 0,1
    let bits = [0b1000_1101u8, 0b0000_0010u8];
    let mut out = vec![0u8; 10];
    expand_null_bitmap(&bits, 0, &mut out, 10);
    assert_eq!(out, vec![0, 1, 0, 0, 1, 1, 1, 0, 1, 0]);
}

#[test]
fn expand_bitmap_with_offset() {
    let bits = [0b1000_1101u8, 0b0000_0010u8];
    let mut out = vec![0u8; 6];
    expand_null_bitmap(&bits, 3, &mut out, 6);
    assert_eq!(out, vec![0, 1, 1, 1, 0, 1]);
    // only the last `len` bytes are written
    let mut out = vec![9u8, 9, 0, 0, 0, 0, 0, 0];
    expand_null_bitmap(&bits, 3, &mut out, 6);
    assert_eq!(out, vec![9, 9, 0, 1, 1, 1, 0, 1]);
}

#[test]
fn expand_bitmap_all_set_and_all_clear() {
    let mut out = vec![0u8; 16];
    expand_null_bitmap(&[0xff, 0xff], 0, &mut out, 16);
    assert_eq!(out, vec![0; 16]);
    let mut out = vec![0u8; 16];
    expand_null_bitmap(&[0, 0], 0, &mut out, 16);
    assert_eq!(out, vec![1; 16]);
}

#[test]
fn expand_bitmap_mixes_whole_bytes_and_single_bits() {
    let bits = [0xffu8, 0b0000_0101, 0xff];
    let mut out = vec![0u8; 20];
    expand_null_bitmap(&bits, 0, &mut out, 20);
    let mut expected = vec![0u8; 8];
    expected.extend([0, 1, 0, 1, 1, 1, 1, 1]);
    expected.extend([0, 0, 0, 0]);
    assert_eq!(out, expected);

    let bits = [0xffu8, 0xff, 0x00];
    let mut out = vec![0u8; 17];
    expand_null_bitmap(&bits, 5, &mut out, 17);
    let mut expected = vec![0u8; 11];
    expected.extend([1; 6]);
    assert_eq!(out, expected);
}
