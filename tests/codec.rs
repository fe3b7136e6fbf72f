use dbus_codec::marshal::{calc_size, marshal};
use dbus_codec::signature::{parse_signature, Type};
use dbus_codec::strings;
use dbus_codec::types::Value;
use dbus_codec::unmarshal::{Error, Reader};

fn list(values: Vec<Value<'static>>) -> Value<'static> {
    let mut l = Value::Empty;
    for v in values.into_iter().rev() {
        l = Value::Append(Box::new(v), Box::new(l));
    }
    l
}

fn types(ts: Vec<Type>) -> Type {
    let mut l = Type::Empty;
    for t in ts.into_iter().rev() {
        l = Type::Append(Box::new(t), Box::new(l));
    }
    l
}

fn round_trip(v: &Value, t: &Type) {
    let bytes = marshal(v);
    assert_eq!(bytes.len(), calc_size(v));
    let mut r = Reader::new(&bytes);
    assert_eq!(r.read(t).as_ref(), Ok(v));
    assert_eq!(r.position(), bytes.len());
}

#[test]
fn marshal_test_marshal() {
    assert_eq!(marshal(&Value::Uint16(1)), vec![1, 0]);

    let x = marshal(&Value::Array(Type::Uint64, Box::new(list(vec![Value::Uint64(2)]))));
    assert_eq!(x, vec![
        8, 0, 0, 0,
        0, 0, 0, 0,
        2, 0, 0, 0, 0, 0, 0, 0
    ]);

    let entry = |k: i32, v: u8| Value::DictEntry(Box::new(Value::Int32(k)), Box::new(Value::Byte(v)));
    let entry_type = Type::DictEntry(Box::new(Type::Int32), Box::new(Type::Byte));
    let x = marshal(&Value::Array(entry_type, Box::new(list(vec![entry(2, 23), entry(3, 24)]))));
    assert_eq!(x, vec![
        13, 0, 0, 0,
        0, 0, 0, 0,

        2, 0, 0, 0,
        23, 0, 0, 0,

        3, 0, 0, 0,
        24,
    ]);

    let member = |k: i32, v: u8| Value::Struct(Box::new(list(vec![Value::Int32(k), Value::Byte(v)])));
    let struct_type = Type::Struct(Box::new(types(vec![Type::Int32, Type::Byte])));
    assert_eq!(struct_type.signature(), b"(iy)".to_vec());
    let x = marshal(&Value::Array(struct_type, Box::new(list(vec![member(2, 23), member(3, 24)]))));
    assert_eq!(x, vec![
        13, 0, 0, 0,
        0, 0, 0, 0,

        2, 0, 0, 0,
        23, 0, 0, 0,

        3, 0, 0, 0,
        24,
    ]);
}

#[test]
fn test_signature() {
    let t = Type::Struct(Box::new(types(vec![Type::Byte, Type::Uint32])));
    assert_eq!(t.signature(), b"(yu)".to_vec());
    assert_eq!(t.alignment(), 8);
}

#[test]
fn u16_encodes_and_decodes() {
    let bytes = marshal(&Value::Uint16(0x0001));
    assert_eq!(bytes, vec![0x01, 0x00]);
    let mut r = Reader::new(&bytes);
    assert_eq!(r.read(&Type::Uint16), Ok(Value::Uint16(1)));
}

#[test]
fn dict_entry_array_scenario() {
    let entry = |k: i32, v: u8| Value::DictEntry(Box::new(Value::Int32(k)), Box::new(Value::Byte(v)));
    let t = Type::DictEntry(Box::new(Type::Int32), Box::new(Type::Byte));
    let v = Value::Array(t.duplicate(), Box::new(list(vec![entry(2, 23), entry(3, 24)])));
    assert_eq!(v.type_of().signature(), b"a{iy}".to_vec());
    assert_eq!(
        marshal(&v),
        vec![0x0D, 0, 0, 0, 0, 0, 0, 0, 2, 0, 0, 0, 0x17, 0, 0, 0, 3, 0, 0, 0, 0x18]
    );
    round_trip(&v, &Type::Array(Box::new(t)));
}

#[test]
fn round_trip_of_every_kind() {
    let s = strings::String::from_bytes(b"hello");
    let o = strings::ObjectPath::from_bytes(b"/org/example");
    let g = strings::Signature::from_bytes(b"a{sv}");
    let members = list(vec![
        Value::Byte(7),
        Value::Bool(true),
        Value::Int16(-2),
        Value::Uint16(65535),
        Value::Int32(-70000),
        Value::Uint32(4_000_000_000),
        Value::Int64(-5),
        Value::Uint64(u64::MAX),
        Value::Double(1.5f64.to_bits()),
        Value::String(s),
        Value::ObjectPath(o),
        Value::Signature(g),
        Value::Variant(Box::new(Value::Array(Type::Int16, Box::new(list(vec![Value::Int16(3)]))))),
    ]);
    let v = Value::Struct(Box::new(members));
    let t = v.type_of();
    assert_eq!(t.signature(), b"(ybnqiuxtdsogv)".to_vec());
    round_trip(&v, &t);
}

#[test]
fn padding_bytes_are_zero() {
    let v = Value::Struct(Box::new(list(vec![Value::Byte(0xff), Value::Uint64(u64::MAX)])));
    let bytes = marshal(&v);
    assert_eq!(bytes.len(), 16);
    assert_eq!(&bytes[1..8], &[0u8; 7]);
    let v = Value::Array(Type::Uint64, Box::new(list(vec![Value::Uint64(u64::MAX)])));
    let bytes = marshal(&v);
    assert_eq!(&bytes[4..8], &[0u8; 4]);
}

#[test]
fn empty_array_keeps_its_padding() {
    let v = Value::Array(Type::Uint64, Box::new(Value::Empty));
    assert_eq!(marshal(&v), vec![0, 0, 0, 0, 0, 0, 0, 0]);
    round_trip(&v, &Type::Array(Box::new(Type::Uint64)));
}

#[test]
fn signature_text_reads_back() {
    for text in [&b"y"[..], b"ai", b"a{sv}", b"(ybnqiuxtdsogv)", b"aa{s(iv)}", b"((ai))", b"a(aii)"] {
        let t = parse_signature(text).unwrap();
        assert_eq!(t.signature(), text.to_vec());
    }
}

#[test]
fn signature_errors() {
    assert_eq!(parse_signature(b"z"), Err(Error::SignatureInvalidChar));
    assert_eq!(parse_signature(b"(y"), Err(Error::NestingMismatched));
    assert_eq!(parse_signature(b"y)"), Err(Error::UnexpectedType));
    assert_eq!(parse_signature(b"a{y}"), Err(Error::InvalidEntrySize));
    assert_eq!(parse_signature(b"a{yyy}"), Err(Error::InvalidEntrySize));
    let mut deep = vec![b'a'; 32];
    deep.push(b'y');
    assert!(parse_signature(&deep).is_ok());
    let mut deeper = vec![b'a'; 33];
    deeper.push(b'y');
    assert_eq!(parse_signature(&deeper), Err(Error::NestingDepthExceeded));
}

#[test]
fn short_data_is_not_enough() {
    let mut r = Reader::new(&[1, 2]);
    assert_eq!(r.read(&Type::Uint32), Err(Error::NotEnoughData));
    let mut r = Reader::new(&[5, 0, 0, 0, b'a', b'b']);
    assert_eq!(r.read(&Type::String), Err(Error::NotEnoughData));
}

#[test]
fn variant_with_bad_signature() {
    let mut r = Reader::new(&[1, b'z', 0, 0]);
    assert_eq!(r.read(&Type::Variant), Err(Error::SignatureInvalidChar));
}

#[test]
fn reader_seek_and_align() {
    let data = [1u8, 2, 3, 4, 5, 6, 7, 8, 9];
    let mut r = Reader::new(&data);
    assert_eq!(r.read_byte(), Ok(1));
    assert_eq!(r.align_to(4), Ok(()));
    assert_eq!(r.position(), 4);
    let sub = r.seek(3).unwrap();
    assert_eq!(sub.remaining(), &[5, 6, 7]);
    assert_eq!(r.read_bytes(2), Ok(&[8u8, 9][..]));
    assert_eq!(r.read_byte(), Err(Error::NotEnoughData));
    assert!(r.seek(1).is_err());
}

#[test]
fn array_iter_reads_each_element() {
    let v = Value::Array(Type::Uint16, Box::new(list(vec![Value::Uint16(5), Value::Uint16(6)])));
    let bytes = marshal(&v);
    let mut r = Reader::new(&bytes);
    let mut it = dbus_codec::unmarshal::ArrayIter::new(&mut r, Type::Uint16).unwrap();
    assert_eq!(it.next(), Some(Ok(Value::Uint16(5))));
    assert_eq!(it.next(), Some(Ok(Value::Uint16(6))));
    assert_eq!(it.next(), None);
    assert_eq!(r.position(), bytes.len());
}

#[test]
fn write_fills_the_front_of_a_buffer() {
    let v = Value::Uint32(0x01020304);
    let mut buf = [9u8; 6];
    assert_eq!(dbus_codec::marshal::write(&v, &mut buf), Ok(4));
    assert_eq!(buf, [4, 3, 2, 1, 9, 9]);
    let mut small = [9u8; 3];
    assert_eq!(dbus_codec::marshal::write(&v, &mut small), Err(()));
    assert_eq!(small, [9, 9, 9]);
}

#[test]
fn bytes_are_shown_escaped() {
    assert_eq!(dbus_codec::show_bytes(b"ab\0 \x7f~"), b"ab\\0\\32\\127~".to_vec());
}

#[test]
fn typed_variant_checks_its_signature() {
    let bytes = marshal(&Value::Variant(Box::new(Value::Uint32(9))));
    let mut r = Reader::new(&bytes);
    assert_eq!(r.read_variant_of(&Type::Uint32), Ok(Value::Variant(Box::new(Value::Uint32(9)))));
    let mut r = Reader::new(&bytes);
    assert_eq!(r.read_variant_of(&Type::Int32), Err(Error::UnexpectedType));
}

#[test]
fn end_within_stops_at_the_limit() {
    let v = Value::Struct(Box::new(list(vec![Value::Byte(1), Value::Uint64(2)])));
    assert_eq!(dbus_codec::marshal::end_within(&v, 0, 16), Some(16));
    assert_eq!(dbus_codec::marshal::end_within(&v, 0, 15), None);
    assert_eq!(dbus_codec::marshal::end_within(&v, 1, 100), Some(24));
}

#[test]
fn empty_struct_round_trips() {
    let t = parse_signature(b"()").unwrap();
    assert_eq!(t, Type::Struct(Box::new(Type::Empty)));
    let v = Value::Struct(Box::new(list(vec![Value::Byte(3), Value::Struct(Box::new(Value::Empty)), Value::Byte(4)])));
    assert_eq!(v.type_of().signature(), b"(y()y)".to_vec());
    assert_eq!(marshal(&v), vec![3, 0, 0, 0, 0, 0, 0, 0, 4]);
    round_trip(&v, &v.type_of());
    let empty = Value::Array(Type::Struct(Box::new(Type::Empty)), Box::new(Value::Empty));
    assert_eq!(marshal(&empty), vec![0, 0, 0, 0, 0, 0, 0, 0]);
    round_trip(&empty, &empty.type_of());
}

fn nested_variants(levels: usize) -> Vec<u8> {
    let mut data = Vec::new();
    for _ in 0..levels {
        data.extend_from_slice(&[1, b'v', 0]);
    }
    data.extend_from_slice(&[1, b'y', 0, 7]);
    data
}

#[test]
fn variant_nesting_is_capped() {
    let ok = nested_variants(31);
    let mut r = Reader::new(&ok);
    assert!(r.read(&Type::Variant).is_ok());
    assert_eq!(r.position(), ok.len());
    let deep = nested_variants(32);
    let mut r = Reader::new(&deep);
    assert_eq!(r.read(&Type::Variant), Err(Error::NestingDepthExceeded));
}

#[test]
fn long_signatures_do_not_fit() {
    let long = vec![b'y'; 256];
    let v = Value::Signature(strings::Signature::from_bytes(&long));
    assert!(!v.signatures_fit());
    let short = Value::Signature(strings::Signature::from_bytes(&long[..255]));
    assert!(short.signatures_fit());
}
