use clickhouse_arrow::pool::{BufferPool, MAX_POOLED_BUFFERS};
use clickhouse_arrow::types::{leaf_codec, LeafCodec, Type};
use clickhouse_arrow::varint::{put_var_uint, read_var_uint};

fn encode(v: u64) -> Vec<u8> {
    let mut out = Vec::new();
    put_var_uint(&mut out, v);
    out
}

#[test]
fn varint_boundaries() {
    assert_eq!(encode(0), vec![0]);
    assert_eq!(encode(127), vec![0x7f]);
    assert_eq!(encode(128), vec![0x80, 0x01]);
    assert_eq!(encode(16383), vec![0xff, 0x7f]);
    assert_eq!(encode(16384), vec![0x80, 0x80, 0x01]);
    assert_eq!(encode(300), vec![0xac, 0x02]);
    assert_eq!(encode(u64::MAX), vec![0xff, 0xff, 0xff, 0xff, 0xff, 0xff, 0xff, 0xff, 0xff, 0x01]);
}

#[test]
fn varint_round_trip() {
    for v in [0u64, 1, 127, 128, 255, 16383, 16384, 1 << 35, (1 << 63) - 1, 1 << 63, u64::MAX] {
        let mut bytes = encode(v);
        let n = bytes.len();
        bytes.extend_from_slice(&[0x85, 0x00]);
        assert_eq!(read_var_uint(&bytes), Some((v, n)));
    }
}

#[test]
fn varint_read_rejects_bad_input() {
    assert_eq!(read_var_uint(&[]), None);
    assert_eq!(read_var_uint(&[0x80]), None);
    assert_eq!(read_var_uint(&[0xff, 0xff]), None);
    // the tenth byte may only carry one bit
    assert_eq!(read_var_uint(&[0xff, 0xff, 0xff, 0xff, 0xff, 0xff, 0xff, 0xff, 0xff, 0x02]), None);
    // more than ten bytes
    assert_eq!(read_var_uint(&[0x80, 0x80, 0x80, 0x80, 0x80, 0x80, 0x80, 0x80, 0x80, 0x80, 0x00]), None);
    // an over-long but short enough encoding of zero
    assert_eq!(read_var_uint(&[0x80, 0x00]), Some((0, 2)));
}

#[test]
fn leaf_codec_dispatch() {
    assert_eq!(leaf_codec(&Type::String), Some(LeafCodec::VarString));
    assert_eq!(leaf_codec(&Type::Object), Some(LeafCodec::VarString));
    assert_eq!(leaf_codec(&Type::Binary), Some(LeafCodec::VarBinary));
    assert_eq!(leaf_codec(&Type::Nullable(Box::new(Type::Binary))), Some(LeafCodec::VarBinary));
    assert_eq!(leaf_codec(&Type::FixedSizedString(7)), Some(LeafCodec::FixedString(7)));
    assert_eq!(
        leaf_codec(&Type::Nullable(Box::new(Type::FixedSizedBinary(4)))),
        Some(LeafCodec::FixedBinary(4))
    );
    assert_eq!(leaf_codec(&Type::Int32), None);
    assert_eq!(leaf_codec(&Type::Array(Box::new(Type::String))), None);
}

#[test]
fn type_helpers() {
    let t = Type::Nullable(Box::new(Type::Mapping(Box::new(Type::String), Box::new(Type::Int8))));
    assert_eq!(t.strip_null(), &Type::Mapping(Box::new(Type::String), Box::new(Type::Int8)));
    assert!(t.strip_null().is_collection());
    assert!(!t.is_collection());
    assert_eq!(Type::Int32.strip_null(), &Type::Int32);
    assert_eq!(t.duplicate(), t);
}

#[test]
fn pool_hands_out_zeroed_buffers() {
    let mut pool = BufferPool::new();
    let mut a = pool.acquire(4);
    assert_eq!(a, vec![0; 4]);
    a[1] = 9;
    pool.release(a);
    let b = pool.acquire(6);
    assert_eq!(b, vec![0; 6]);
    let c = pool.acquire(2);
    assert_eq!(c, vec![0; 2]);
    for _ in 0..(MAX_POOLED_BUFFERS + 3) {
        pool.release(vec![1, 2, 3]);
    }
    for _ in 0..(MAX_POOLED_BUFFERS + 3) {
        assert_eq!(pool.acquire(3), vec![0; 3]);
    }
}
