use dbus_codec::align_padding;
use dbus_codec::marshal::marshal;
use dbus_codec::signature::Type;
use dbus_codec::stack::Stack;
use dbus_codec::strings;
use dbus_codec::types::Value;
use dbus_codec::unmarshal::iter::{IterErr, Iter, SignatureIter, SignatureToken, Token, TokenKind};
use dbus_codec::unmarshal::Error;

fn sample() -> Vec<u8> {
    let entry = |k: u8, v: Value<'static>| Value::DictEntry(Box::new(Value::Byte(k)), Box::new(Value::Variant(Box::new(v))));
    let v = Value::Array(
        Type::DictEntry(Box::new(Type::Byte), Box::new(Type::Variant)),
        Box::new(Value::Append(
            Box::new(entry(1, Value::Byte(0))),
            Box::new(Value::Append(
                Box::new(entry(2, Value::String(strings::String::from_bytes(b"")))),
                Box::new(Value::Empty),
            )),
        )),
    );
    marshal(&v)
}

#[test]
fn test_iter() {
    let data = [
        34, 0, 0, 0, 0, 0, 0, 0, 1, 1, 121, 0, 1, 0, 0, 0, 2, 1, 115, 0, 0, 0, 0, 0, 0, 0, 0, 0, 0,
        0, 0, 0, 3, 4, 40, 121, 121, 41, 0, 0, 2, 4,
    ];
    let seen = walk_dict(&data);
    let expected = vec![
        format!("{:?}", Token::EntryOpen),
        format!("{:?}", Token::U8(1)),
        format!("{:?}", Token::VariantOpen),
        format!("{:?}", Token::Signature(strings::Signature::from_bytes(b"y"))),
        format!("{:?}", Token::U8(1)),
        format!("{:?}", Token::VariantClose),
        format!("{:?}", Token::EntryClose),
        format!("{:?}", Token::EntryOpen),
        format!("{:?}", Token::U8(2)),
        format!("{:?}", Token::VariantOpen),
        format!("{:?}", Token::Signature(strings::Signature::from_bytes(b"s"))),
        format!("{:?}", Token::String(strings::String::from_bytes(b""))),
        format!("{:?}", Token::VariantClose),
        format!("{:?}", Token::EntryClose),
        format!("{:?}", Token::EntryOpen),
        format!("{:?}", Token::U8(3)),
        format!("{:?}", Token::VariantOpen),
        format!("{:?}", Token::Signature(strings::Signature::from_bytes(b"(yy)"))),
        format!("{:?}", Token::StructOpen),
        format!("{:?}", Token::U8(2)),
        format!("{:?}", Token::U8(4)),
        format!("{:?}", Token::StructClose),
        format!("{:?}", Token::VariantClose),
        format!("{:?}", Token::EntryClose),
    ];
    assert_eq!(seen, expected);
}

/// Walks an `a{yv}` array, entering each element with an iterator of its own.
fn walk_dict(data: &[u8]) -> Vec<String> {
    let mut it = Iter::new(b"a{yv}", data);
    let mut seen = Vec::new();
    while let Some(x) = it.next() {
        match x.unwrap() {
            Token::Array { signature, mut data } => {
                assert_eq!(signature, b"{yv}");
                let mut padding = 0;
                loop {
                    data = &data[padding..];
                    let mut inner = Iter::new(signature, data);
                    while let Some(x) = inner.next() {
                        seen.push(format!("{:?}", x.unwrap()));
                    }
                    data = inner.rest();
                    padding = align_padding(inner.position(), 8);
                    if data.is_empty() {
                        break;
                    }
                }
            }
            x => panic!("unexpected {:?}", x),
        }
    }
    seen
}

#[test]
fn variant_dict_scenario() {
    let data = sample();
    assert_eq!(data, vec![17, 0, 0, 0, 0, 0, 0, 0, 1, 1, 121, 0, 0, 0, 0, 0, 2, 1, 115, 0, 0, 0, 0, 0, 0]);
    let mut it = Iter::new(b"a{yv}", &data);
    assert_eq!(it.next(), Some(Ok(Token::Array { signature: b"{yv}", data: &data[8..25] })));
    assert_eq!(it.next(), None);
    let seen = walk_dict(&data);
    let expected = vec![
        format!("{:?}", Token::EntryOpen),
        format!("{:?}", Token::U8(1)),
        format!("{:?}", Token::VariantOpen),
        format!("{:?}", Token::Signature(strings::Signature::from_bytes(b"y"))),
        format!("{:?}", Token::U8(0)),
        format!("{:?}", Token::VariantClose),
        format!("{:?}", Token::EntryClose),
        format!("{:?}", Token::EntryOpen),
        format!("{:?}", Token::U8(2)),
        format!("{:?}", Token::VariantOpen),
        format!("{:?}", Token::Signature(strings::Signature::from_bytes(b"s"))),
        format!("{:?}", Token::String(strings::String::from_bytes(b""))),
        format!("{:?}", Token::VariantClose),
        format!("{:?}", Token::EntryClose),
    ];
    assert_eq!(seen, expected);
}

#[test]
fn array_padding_follows_the_element_alignment() {
    let data = [7u8, 0, 0, 0, 8, 0, 0, 0, 2, 0, 0, 0, 0, 0, 0, 0];
    let mut it = Iter::new(b"uat", &data);
    assert_eq!(it.next(), Some(Ok(Token::U32(7))));
    assert_eq!(it.next(), Some(Ok(Token::Array { signature: b"t", data: &data[8..16] })));
    assert_eq!(it.next(), None);
}

#[test]
fn empty_struct_elements_walk() {
    let data = [0u8, 0, 0, 0, 0, 0, 0, 0];
    let mut it = Iter::new(b"a()", &data);
    assert_eq!(it.next(), Some(Ok(Token::Array { signature: b"()", data: &data[8..8] })));
    assert_eq!(it.next(), None);
    let mut it = Iter::new(b"()", &[]);
    assert_eq!(it.next(), Some(Ok(Token::StructOpen)));
    assert_eq!(it.next(), Some(Ok(Token::StructClose)));
    assert_eq!(it.next(), None);
}

#[test]
fn malformed_signatures_fail() {
    let mut it = Iter::new(b"(", &[]);
    assert_eq!(it.next(), Some(Ok(Token::StructOpen)));
    assert_eq!(it.next(), Some(Err(Error::NestingMismatched)));
    let mut it = Iter::new(b"z", &[]);
    assert_eq!(it.next(), Some(Err(Error::SignatureInvalidChar)));
    let mut it = Iter::new(b"{y}", &[5]);
    assert_eq!(it.next(), Some(Ok(Token::EntryOpen)));
    assert_eq!(it.next(), Some(Ok(Token::U8(5))));
    assert_eq!(it.next(), Some(Err(Error::InvalidEntrySize)));
}

#[test]
fn test_signatre_parse() {
    let mut iter = SignatureIter::new(b"aii");
    let mut stack = Stack::new();
    assert_eq!(
        iter.next(&mut stack),
        Ok(SignatureToken {
            kind: TokenKind::Array,
            payload: b"i"
        })
    );
    assert_eq!(
        iter.next(&mut stack),
        Ok(SignatureToken {
            kind: TokenKind::I32,
            payload: &[],
        })
    );
    assert_eq!(
        iter.next(&mut stack),
        Err(IterErr::EndOfIteration)
    );
    assert!(stack.is_empty());

    let mut iter = SignatureIter::new(b"((ai))");
    assert_eq!(
        iter.next(&mut stack),
        Ok(SignatureToken {
            kind: TokenKind::StructOpen,
            payload: &[],
        })
    );
    assert_eq!(
        iter.next(&mut stack),
        Ok(SignatureToken {
            kind: TokenKind::StructOpen,
            payload: &[],
        })
    );
    assert_eq!(
        iter.next(&mut stack),
        Ok(SignatureToken {
            kind: TokenKind::Array,
            payload: b"i"
        })
    );
    assert_eq!(
        iter.next(&mut stack),
        Ok(SignatureToken {
            kind: TokenKind::StructClose,
            payload: &[],
        })
    );
    assert_eq!(
        iter.next(&mut stack),
        Ok(SignatureToken {
            kind: TokenKind::StructClose,
            payload: &[],
        })
    );
    assert_eq!(
        iter.next(&mut stack),
        Err(IterErr::EndOfIteration)
    );

    let mut iter = SignatureIter::new(b"a(aii)");
    assert_eq!(
        iter.next(&mut stack),
        Ok(SignatureToken {
            kind: TokenKind::Array,
            payload: b"(aii)"
        })
    );
    assert_eq!(
        iter.next(&mut stack),
        Err(IterErr::EndOfIteration)
    );
    assert!(stack.is_empty());

    let mut iter = SignatureIter::new(b"aai");
    assert_eq!(
        iter.next(&mut stack),
        Ok(SignatureToken {
            kind: TokenKind::Array,
            payload: b"ai"
        })
    );
    assert_eq!(
        iter.next(&mut stack),
        Err(IterErr::EndOfIteration)
    );
    assert!(stack.is_empty());

    let mut iter = SignatureIter::new(b"(a{ai(ai)}ai)");
    loop {
        match iter.next(&mut stack) {
            Ok(_) => {}
            Err(e) => {
                if e != IterErr::EndOfIteration {
                    panic!()
                }
                break;
            }
        }
    }
    assert!(stack.is_empty());
}

#[test]
fn tokens_follow_the_shape_of_a_struct() {
    let v = Value::Struct(Box::new(Value::Append(
        Box::new(Value::Int32(2)),
        Box::new(Value::Append(Box::new(Value::Byte(23)), Box::new(Value::Empty))),
    )));
    let data = marshal(&v);
    let mut it = Iter::new(b"(iy)", &data);
    assert_eq!(it.next(), Some(Ok(Token::StructOpen)));
    assert_eq!(it.next(), Some(Ok(Token::I32(2))));
    assert_eq!(it.next(), Some(Ok(Token::U8(23))));
    assert_eq!(it.next(), Some(Ok(Token::StructClose)));
    assert_eq!(it.next(), None);
    assert_eq!(it.position(), data.len());
}

#[test]
fn iterator_stays_within_the_data() {
    let data = [5u8, 0, 0, 0, b'a'];
    let mut it = Iter::new(b"s", &data);
    assert_eq!(it.next(), Some(Err(Error::NotEnoughData)));
    assert!(it.position() <= data.len());
    assert_eq!(it.next(), None);
}

#[test]
fn iterator_reports_signature_errors() {
    let data = [0u8; 8];
    let mut it = Iter::new(b"y)", &data);
    assert_eq!(it.next(), Some(Ok(Token::U8(0))));
    assert_eq!(it.next(), Some(Err(Error::NestingMismatched)));
    let mut it = Iter::new(b"{yyy}", &data);
    assert_eq!(it.next(), Some(Ok(Token::EntryOpen)));
    assert_eq!(it.next(), Some(Ok(Token::U8(0))));
    assert_eq!(it.next(), Some(Ok(Token::U8(0))));
    assert_eq!(it.next(), Some(Err(Error::InvalidEntrySize)));
}
