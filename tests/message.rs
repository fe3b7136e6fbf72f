use dbus_codec::message::serial::Serial;
use dbus_codec::message::{marshal_message, message_size, Fields, Flags, Header, Message, MessageIterator, MessageType, Proxy};
use dbus_codec::signature::Type;
use dbus_codec::strings;
use dbus_codec::types::Value;
use dbus_codec::unmarshal::Error;

fn test_header() -> Header<'static> {
    Header {
        message_type: MessageType::Signal,
        flags: Flags(1),
        serial: 0xffffffff,
        fields: Fields::empty()
            .sender(strings::String::from_bytes(b"org.freedesktop.DBus"))
            .destination(strings::String::from_bytes(b":1.1758"))
            .path(strings::ObjectPath::from_bytes(b"/org/freedesktop/DBus"))
            .interface(strings::String::from_bytes(b"org.freedesktop.DBus"))
            .member(strings::String::from_bytes(b"NameAcquired"))
            .signature(strings::Signature::from_bytes(b"s")),
    }
}

fn body() -> Value<'static> {
    Value::String(strings::String::from_bytes(b":1.1758"))
}

#[test]
fn header_test_marshal() {
    let header = Header {
        message_type: MessageType::Signal,
        flags: Flags(1),
        serial: 0xffffffff,
        fields: Fields::empty()
            .sender(strings::String::from_bytes(b"org.freedesktop.DBus"))
            .destination(strings::String::from_bytes(b":1.1758"))
            .path(strings::ObjectPath::from_bytes(b"/org/freedesktop/DBus"))
            .interface(strings::String::from_bytes(b"org.freedesktop.DBus"))
            .member(strings::String::from_bytes(b"NameAcquired"))
            .signature(strings::Signature::from_bytes(b"s")),
    };
    let res = marshal_message(&header, &body()).unwrap();
    assert_eq!(&res[0..4], &[b'l', 4, 1, 1]);
    assert_eq!(&res[8..12], &[0xff, 0xff, 0xff, 0xff]);
    assert_eq!(res.len() % 8, 4);
}

#[test]
fn message_test_marshal() {
    let header = test_header();
    let res = marshal_message(&header, &body()).unwrap();
    let body_len = u32::from_le_bytes([res[4], res[5], res[6], res[7]]) as usize;
    assert_eq!(body_len, 4 + 7 + 1);
    let fields_len = u32::from_le_bytes([res[12], res[13], res[14], res[15]]) as usize;
    let body_start = (16 + fields_len + 7) / 8 * 8;
    assert_eq!(res.len(), body_start + body_len);
    assert_eq!(&res[body_start..body_start + 4], &[7, 0, 0, 0]);
    assert_eq!(&res[body_start + 4..], b":1.1758\0");
}

#[test]
fn test_unmarshal() {
    let header = test_header();
    let one = marshal_message(&header, &body()).unwrap();
    let mut buf = one.clone();
    buf.extend_from_slice(&marshal_message(&header, &body()).unwrap());

    let mut iter = MessageIterator::new(&buf);
    let msg = iter.next().unwrap().unwrap();
    assert_eq!(msg.header, header);
    let msg = iter.next().unwrap().unwrap();
    assert_eq!(msg.header, header);
    assert_eq!(iter.next(), None);
}

#[test]
fn signal_header_decodes_and_encodes_again() {
    let header = test_header();
    let bytes = marshal_message(&header, &body()).unwrap();
    let (msg, size) = Message::unmarshal(&bytes).unwrap();
    assert_eq!(size, bytes.len());
    assert_eq!(msg.header, header);
    assert_eq!(msg.parse(&Type::String), Ok(body()));
    assert_eq!(msg.marshal(), Some(bytes));
}

#[test]
fn parse_checks_the_signature() {
    let bytes = marshal_message(&test_header(), &body()).unwrap();
    let (msg, _) = Message::unmarshal(&bytes).unwrap();
    assert_eq!(msg.parse(&Type::Uint32), Err(Error::UnexpectedType));
}

#[test]
fn header_errors() {
    let bytes = marshal_message(&test_header(), &body()).unwrap();
    let mut big = bytes.clone();
    big[0] = b'B';
    assert_eq!(Message::unmarshal(&big), Err(Error::UnsupportedEndian));
    let mut bad = bytes.clone();
    bad[0] = b'x';
    assert_eq!(Message::unmarshal(&bad), Err(Error::InvalidHeader));
    let mut bad = bytes.clone();
    bad[1] = 9;
    assert_eq!(Message::unmarshal(&bad), Err(Error::InvalidHeader));
    let mut bad = bytes.clone();
    bad[8..12].copy_from_slice(&[0, 0, 0, 0]);
    assert_eq!(Message::unmarshal(&bad), Err(Error::InvalidHeader));
    assert_eq!(Message::unmarshal(&bytes[..bytes.len() - 1]), Err(Error::NotEnoughData));
    assert_eq!(Message::unmarshal(&[]), Err(Error::NotEnoughData));
}

#[test]
fn iterator_stops_after_an_error() {
    let bytes = marshal_message(&test_header(), &body()).unwrap();
    let mut buf = bytes.clone();
    buf.push(b'l');
    let mut iter = MessageIterator::new(&buf);
    assert!(iter.next().unwrap().is_ok());
    assert_eq!(iter.next(), Some(Err(Error::NotEnoughData)));
    assert_eq!(iter.next(), None);
}

#[test]
fn unknown_header_field_is_skipped() {
    let header = Header {
        message_type: MessageType::MethodCall,
        flags: Flags::empty(),
        serial: 3,
        fields: Fields::empty().member(strings::String::from_bytes(b"Ping")),
    };
    let bytes = marshal_message(&header, &Value::Empty).unwrap();
    // Append a field with the unknown code 42 holding a variant `ai`.
    let fields_len = u32::from_le_bytes([bytes[12], bytes[13], bytes[14], bytes[15]]) as usize;
    let mut out = bytes[..16 + fields_len].to_vec();
    while out.len() % 8 != 0 {
        out.push(0);
    }
    out.extend_from_slice(&[42, 2, b'a', b'i', 0, 0, 0, 0, 4, 0, 0, 0, 9, 0, 0, 0]);
    let new_len = (out.len() - 16) as u32;
    out[12..16].copy_from_slice(&new_len.to_le_bytes());
    while out.len() % 8 != 0 {
        out.push(0);
    }
    let (msg, size) = Message::unmarshal(&out).unwrap();
    assert_eq!(size, out.len());
    assert_eq!(msg.header, header);
}

#[test]
fn flags_bits() {
    let f = Flags::empty().with_no_reply_expected().with_allow_interactive_authorization();
    assert_eq!(f.0, 5);
    assert!(f.no_reply_expected());
    assert!(!f.no_auto_start());
    assert!(f.allow_interactive_authorization());
    assert!(Flags::empty().with_no_auto_start().no_auto_start());
}

#[test]
fn serial_numbers_skip_zero() {
    let mut s = Serial::new();
    assert_eq!(s.next(), 1);
    assert_eq!(s.next(), 2);
    let mut s = Serial::from_raw(u32::MAX);
    assert_eq!(s.next(), 1);
}

#[test]
fn serial_builds_messages() {
    let mut serial = Serial::new();
    let proxy = Proxy {
        destination: strings::String::from_bytes(b"org.example.Service"),
        path: strings::ObjectPath::from_bytes(b"/org/example"),
        interface: strings::String::from_bytes(b"org.example.Iface"),
    };
    let args = Value::Append(Box::new(Value::Uint32(7)), Box::new(Value::Empty));
    let call = serial.method_call(Flags::empty(), proxy, strings::String::from_bytes(b"Get"), &args).unwrap();
    let (msg, _) = Message::unmarshal(&call).unwrap();
    assert_eq!(msg.header.serial, 1);
    assert_eq!(msg.header.message_type, MessageType::MethodCall);
    assert_eq!(msg.header.fields.member, Some(strings::String::from_bytes(b"Get")));
    assert_eq!(msg.header.fields.destination, Some(strings::String::from_bytes(b"org.example.Service")));
    assert_eq!(msg.header.fields.signature, Some(strings::Signature::from_bytes(b"u")));
    let call_header = msg.header;

    let reply = serial.method_return(&call_header, &Value::Empty).unwrap();
    let (msg, _) = Message::unmarshal(&reply).unwrap();
    assert_eq!(msg.header.serial, 2);
    assert_eq!(msg.header.message_type, MessageType::MethodReturn);
    assert_eq!(msg.header.fields.reply_serial, Some(1));
    assert_eq!(msg.header.fields.signature, None);

    let err = serial.error(strings::String::from_bytes(b"org.example.Error"), &call_header, &Value::Empty).unwrap();
    let (msg, _) = Message::unmarshal(&err).unwrap();
    assert_eq!(msg.header.message_type, MessageType::Error);
    assert_eq!(msg.header.fields.error_name, Some(strings::String::from_bytes(b"org.example.Error")));

    let sig = serial.signal(
        strings::ObjectPath::from_bytes(b"/org/example"),
        strings::String::from_bytes(b"org.example.Iface"),
        strings::String::from_bytes(b"Changed"),
        &args,
    ).unwrap();
    let (msg, _) = Message::unmarshal(&sig).unwrap();
    assert_eq!(msg.header.serial, 4);
    assert_eq!(msg.header.message_type, MessageType::Signal);
    assert_eq!(msg.parse(&Type::Append(Box::new(Type::Uint32), Box::new(Type::Empty))), Ok(args));
}

#[test]
fn test_dict() {
    let entry = |name: &'static [u8], v: Value<'static>| {
        Value::DictEntry(
            Box::new(Value::String(strings::String::from_bytes(name))),
            Box::new(Value::Variant(Box::new(v))),
        )
    };
    let person = Value::Array(
        Type::DictEntry(Box::new(Type::String), Box::new(Type::Variant)),
        Box::new(Value::Append(
            Box::new(entry(b"name", Value::String(strings::String::from_bytes(b"Ann")))),
            Box::new(Value::Append(Box::new(entry(b"age", Value::Byte(30))), Box::new(Value::Empty))),
        )),
    );
    let t = person.type_of();
    assert_eq!(t.signature(), b"a{sv}".to_vec());
    let bytes = dbus_codec::marshal::marshal(&person);
    let mut r = dbus_codec::unmarshal::Reader::new(&bytes);
    assert_eq!(r.read(&t), Ok(person));
}

#[test]
fn owned_copies_keep_the_message() {
    let bytes = marshal_message(&test_header(), &body()).unwrap();
    let (msg, _) = Message::unmarshal(&bytes).unwrap();
    let owned = msg.to_owned();
    assert_eq!(owned.as_ref(), msg);
    assert_eq!(owned.header.as_ref(), test_header());
    assert_eq!(test_header().to_owned().fields.member, Some(b"NameAcquired".to_vec()));
}

#[test]
fn message_size_matches_the_encoding() {
    let bytes = marshal_message(&test_header(), &body()).unwrap();
    assert_eq!(message_size(&test_header(), &body()), Some(bytes.len()));
}

#[test]
fn long_body_signature_is_refused() {
    let long = vec![b'y'; 300];
    let v = Value::Signature(strings::Signature::from_bytes(&long));
    assert_eq!(marshal_message(&test_header(), &v), None);
    let mut header = test_header();
    header.fields.signature = Some(strings::Signature::from_bytes(&long));
    assert_eq!(marshal_message(&header, &body()), None);
}
