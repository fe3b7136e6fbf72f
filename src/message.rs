//! The message envelope: a fixed prefix, the header fields and the body.
use vstd::prelude::*;

use crate::marshal::{enc, marshal_value, Span, Write};
use crate::signature::Type;
use crate::strings;
use crate::types::{Val, Value};
use crate::types::{elements_of, lemma_valid_fits, signatures_fit, type_of, valid_value, value_nesting};
use crate::unmarshal::{dec, lemma_dec_enc, u32_at, Error, Reader};
use crate::{align_up, pad};
use vstd::bytes::spec_u32_to_le_bytes;

pub mod serial;

verus! {

/// The largest message, in bytes, that is read.
pub const MAX_MESSAGE_SIZE: usize = 0x800_0000;

/// The byte order that a message declares. This library writes and reads
/// little-endian messages (`l`); one marked big-endian (`B`) is refused.
#[derive(Clone, Copy, Debug, PartialEq, Eq)]
pub enum Endian {
    Little,
    Big,
}

impl Endian {
    pub open spec fn spec_from_u8(x: u8) -> Result<Endian, Error> {
        if x == 108 {
            Ok(Endian::Little)
        } else if x == 66 {
            Ok(Endian::Big)
        } else {
            Err(Error::InvalidHeader)
        }
    }

    /// Reads an endian marker: `l` or `B`.
    pub fn from_u8(x: u8) -> (r: Result<Endian, Error>)
        ensures
            r == Self::spec_from_u8(x),
    {
        if x == 108u8 {
            Ok(Endian::Little)
        } else if x == 66u8 {
            Ok(Endian::Big)
        } else {
            Err(Error::InvalidHeader)
        }
    }
}

/// The protocol version of a message; only version 1 exists.
#[derive(Clone, Copy, Debug, PartialEq, Eq)]
pub enum Version {
    V1,
}

impl Version {
    /// Reads a protocol version byte.
    pub fn from_u8(x: u8) -> (r: Result<Version, Error>)
        ensures
            x == 1 ==> r == Ok::<Version, Error>(Version::V1),
            x != 1 ==> r == Err::<Version, Error>(Error::InvalidHeader),
    {
        if x == 1 {
            Ok(Version::V1)
        } else {
            Err(Error::InvalidHeader)
        }
    }
}

#[derive(Clone, Copy, Debug, PartialEq, Eq)]
pub enum MessageType {
    MethodCall,
    MethodReturn,
    Error,
    Signal,
}

impl MessageType {
    pub open spec fn spec_code(self) -> u8 {
        match self {
            MessageType::MethodCall => 1,
            MessageType::MethodReturn => 2,
            MessageType::Error => 3,
            MessageType::Signal => 4,
        }
    }

    pub open spec fn spec_from_u8(x: u8) -> Result<MessageType, Error> {
        if x == 1 {
            Ok(MessageType::MethodCall)
        } else if x == 2 {
            Ok(MessageType::MethodReturn)
        } else if x == 3 {
            Ok(MessageType::Error)
        } else if x == 4 {
            Ok(MessageType::Signal)
        } else {
            Err(Error::InvalidHeader)
        }
    }

    /// The code written for this message type.
    pub fn code(self) -> (r: u8)
        ensures
            r == self.spec_code(),
    {
        match self {
            MessageType::MethodCall => 1,
            MessageType::MethodReturn => 2,
            MessageType::Error => 3,
            MessageType::Signal => 4,
        }
    }

    /// Reads a message type code: 1 to 4.
    pub fn from_u8(x: u8) -> (r: Result<MessageType, Error>)
        ensures
            r == Self::spec_from_u8(x),
    {
        if x == 1 {
            Ok(MessageType::MethodCall)
        } else if x == 2 {
            Ok(MessageType::MethodReturn)
        } else if x == 3 {
            Ok(MessageType::Error)
        } else if x == 4 {
            Ok(MessageType::Signal)
        } else {
            Err(Error::InvalidHeader)
        }
    }
}

/// The flags byte of a message.
#[derive(Clone, Copy, Debug, PartialEq, Eq)]
pub struct Flags(pub u8);

impl Flags {
    pub fn empty() -> (r: Self)
        ensures
            r.0 == 0,
    {
        Flags(0)
    }

    pub fn with_no_reply_expected(self) -> (r: Self)
        ensures
            r.0 == self.0 | 1,
    {
        Flags(self.0 | 1)
    }

    pub fn no_reply_expected(self) -> (r: bool)
        ensures
            r == (self.0 & 1 != 0),
    {
        self.0 & 1 != 0
    }

    pub fn with_no_auto_start(self) -> (r: Self)
        ensures
            r.0 == self.0 | 2,
    {
        Flags(self.0 | 2)
    }

    pub fn no_auto_start(self) -> (r: bool)
        ensures
            r == (self.0 & 2 != 0),
    {
        self.0 & 2 != 0
    }

    pub fn with_allow_interactive_authorization(self) -> (r: Self)
        ensures
            r.0 == self.0 | 4,
    {
        Flags(self.0 | 4)
    }

    pub fn allow_interactive_authorization(self) -> (r: bool)
        ensures
            r == (self.0 & 4 != 0),
    {
        self.0 & 4 != 0
    }
}

/// The header fields of a message, each one optional.
#[derive(Clone, Copy, Debug, PartialEq, Eq)]
pub struct Fields<'a> {
    pub path: Option<strings::ObjectPath<'a>>,
    pub interface: Option<strings::String<'a>>,
    pub member: Option<strings::String<'a>>,
    pub error_name: Option<strings::String<'a>>,
    pub reply_serial: Option<u32>,
    pub destination: Option<strings::String<'a>>,
    pub sender: Option<strings::String<'a>>,
    pub signature: Option<strings::Signature<'a>>,
    pub unix_fds: Option<u32>,
}

/// The model of [`Fields`].
pub struct FieldsModel {
    pub path: Option<Seq<u8>>,
    pub interface: Option<Seq<u8>>,
    pub member: Option<Seq<u8>>,
    pub error_name: Option<Seq<u8>>,
    pub reply_serial: Option<u32>,
    pub destination: Option<Seq<u8>>,
    pub sender: Option<Seq<u8>>,
    pub signature: Option<Seq<u8>>,
    pub unix_fds: Option<u32>,
}

pub open spec fn string_view(o: Option<strings::String<'_>>) -> Option<Seq<u8>> {
    match o {
        Some(s) => Some(s@),
        None => None,
    }
}

pub open spec fn path_view(o: Option<strings::ObjectPath<'_>>) -> Option<Seq<u8>> {
    match o {
        Some(s) => Some(s@),
        None => None,
    }
}

pub open spec fn signature_view(o: Option<strings::Signature<'_>>) -> Option<Seq<u8>> {
    match o {
        Some(s) => Some(s@),
        None => None,
    }
}

impl<'a> View for Fields<'a> {
    type V = FieldsModel;

    open spec fn view(&self) -> FieldsModel {
        FieldsModel {
            path: path_view(self.path),
            interface: string_view(self.interface),
            member: string_view(self.member),
            error_name: string_view(self.error_name),
            reply_serial: self.reply_serial,
            destination: string_view(self.destination),
            sender: string_view(self.sender),
            signature: signature_view(self.signature),
            unix_fds: self.unix_fds,
        }
    }
}

pub open spec fn empty_fields() -> FieldsModel {
    FieldsModel {
        path: None,
        interface: None,
        member: None,
        error_name: None,
        reply_serial: None,
        destination: None,
        sender: None,
        signature: None,
        unix_fds: None,
    }
}

/// The type of one header field: a code and a variant.
pub open spec fn field_type() -> Type {
    Type::DictEntry(Box::new(Type::Byte), Box::new(Type::Variant))
}

pub open spec fn field_entry(code: u8, v: Val) -> Val {
    Val::DictEntry(Box::new(Val::Byte(code)), Box::new(Val::Variant(Box::new(v))))
}

/// `rest` with the field `code` in front of it, where the field is present.
pub open spec fn cons_field(code: u8, v: Option<Val>, rest: Val) -> Val {
    match v {
        Some(v) => Val::Append(Box::new(field_entry(code, v)), Box::new(rest)),
        None => rest,
    }
}

pub open spec fn string_val(o: Option<Seq<u8>>) -> Option<Val> {
    match o {
        Some(s) => Some(Val::String(s)),
        None => None,
    }
}

pub open spec fn u32_val(o: Option<u32>) -> Option<Val> {
    match o {
        Some(x) => Some(Val::Uint32(x)),
        None => None,
    }
}

/// The present fields in code order.
pub open spec fn field_list(f: FieldsModel) -> Val {
    cons_field(
        1,
        match f.path {
            Some(s) => Some(Val::ObjectPath(s)),
            None => None,
        },
        cons_field(
            2,
            string_val(f.interface),
            cons_field(
                3,
                string_val(f.member),
                cons_field(
                    4,
                    string_val(f.error_name),
                    cons_field(
                        5,
                        u32_val(f.reply_serial),
                        cons_field(
                            6,
                            string_val(f.destination),
                            cons_field(
                                7,
                                string_val(f.sender),
                                cons_field(
                                    8,
                                    match f.signature {
                                        Some(s) => Some(Val::Signature(s)),
                                        None => None,
                                    },
                                    cons_field(9, u32_val(f.unix_fds), Val::Empty),
                                ),
                            ),
                        ),
                    ),
                ),
            ),
        ),
    )
}

/// The header fields array as a value.
pub open spec fn fields_val(f: FieldsModel) -> Val {
    Val::Array(field_type(), Box::new(field_list(f)))
}

/// `acc` with the field `code` set to `v`. A known code with a value of
/// another type is an error; an unknown code is passed over.
pub open spec fn set_field(acc: FieldsModel, code: u8, v: Val) -> Result<FieldsModel, Error> {
    if code == 1 {
        match v {
            Val::ObjectPath(s) => Ok(FieldsModel { path: Some(s), ..acc }),
            _ => Err(Error::UnexpectedType),
        }
    } else if code == 2 {
        match v {
            Val::String(s) => Ok(FieldsModel { interface: Some(s), ..acc }),
            _ => Err(Error::UnexpectedType),
        }
    } else if code == 3 {
        match v {
            Val::String(s) => Ok(FieldsModel { member: Some(s), ..acc }),
            _ => Err(Error::UnexpectedType),
        }
    } else if code == 4 {
        match v {
            Val::String(s) => Ok(FieldsModel { error_name: Some(s), ..acc }),
            _ => Err(Error::UnexpectedType),
        }
    } else if code == 5 {
        match v {
            Val::Uint32(x) => Ok(FieldsModel { reply_serial: Some(x), ..acc }),
            _ => Err(Error::UnexpectedType),
        }
    } else if code == 6 {
        match v {
            Val::String(s) => Ok(FieldsModel { destination: Some(s), ..acc }),
            _ => Err(Error::UnexpectedType),
        }
    } else if code == 7 {
        match v {
            Val::String(s) => Ok(FieldsModel { sender: Some(s), ..acc }),
            _ => Err(Error::UnexpectedType),
        }
    } else if code == 8 {
        match v {
            Val::Signature(s) => Ok(FieldsModel { signature: Some(s), ..acc }),
            _ => Err(Error::UnexpectedType),
        }
    } else if code == 9 {
        match v {
            Val::Uint32(x) => Ok(FieldsModel { unix_fds: Some(x), ..acc }),
            _ => Err(Error::UnexpectedType),
        }
    } else {
        Ok(acc)
    }
}

/// The fields that a list of read header field entries sets, in order.
pub open spec fn fields_from(l: Val, acc: FieldsModel) -> Result<FieldsModel, Error>
    decreases l,
{
    match l {
        Val::Append(x, xs) => match *x {
            Val::DictEntry(k, v) => match (*k, *v) {
                (Val::Byte(code), Val::Variant(inner)) => match set_field(acc, code, *inner) {
                    Ok(next) => fields_from(*xs, next),
                    Err(e) => Err(e),
                },
                _ => Err(Error::InvalidHeader),
            },
            _ => Err(Error::InvalidHeader),
        },
        _ => Ok(acc),
    }
}


/// The fixed part of a message header and its fields.
#[derive(Clone, Copy, Debug, PartialEq, Eq)]
pub struct Header<'a> {
    pub message_type: MessageType,
    pub flags: Flags,
    /// Never zero in a message that is read.
    pub serial: u32,
    pub fields: Fields<'a>,
}

/// The model of [`Header`].
pub struct HeaderModel {
    pub message_type: MessageType,
    pub flags: u8,
    pub serial: u32,
    pub fields: FieldsModel,
}

impl<'a> View for Header<'a> {
    type V = HeaderModel;

    open spec fn view(&self) -> HeaderModel {
        HeaderModel {
            message_type: self.message_type,
            flags: self.flags.0,
            serial: self.serial,
            fields: self.fields@,
        }
    }
}

/// A message that was read: its header and the bytes of its body.
#[derive(Clone, Copy, Debug, PartialEq, Eq)]
pub struct Message<'a> {
    pub header: Header<'a>,
    pub arguments: &'a [u8],
}

/// The encoded header fields array, which starts at offset 12.
pub open spec fn enc_fields(f: FieldsModel) -> Seq<u8> {
    enc(fields_val(f), 12)
}

/// Where the body of a message with header `h` starts.
pub open spec fn body_start(h: HeaderModel) -> nat {
    align_up(12 + enc_fields(h.fields).len(), 8)
}

/// A message with header `h` whose body is the bytes `body`.
pub open spec fn enc_message_raw(h: HeaderModel, body: Seq<u8>) -> Seq<u8> {
    let fields = enc_fields(h.fields);
    seq![108u8, h.message_type.spec_code(), h.flags, 1u8] + spec_u32_to_le_bytes(body.len() as u32)
        + spec_u32_to_le_bytes(h.serial) + fields + pad(12 + fields.len(), 8) + body
}

/// A message with header `h` whose body is the value `body`.
pub open spec fn enc_message(h: HeaderModel, body: Val) -> Seq<u8> {
    enc_message_raw(h, enc(body, body_start(h)))
}

fn push_field<'a>(code: u8, v: Value<'a>, rest: Value<'a>) -> (r: Value<'a>)
    ensures
        r@ == Val::Append(Box::new(field_entry(code, v@)), Box::new(rest@)),
{
    let var = Value::Variant(Box::new(v));
    assert(var@ == Val::Variant(Box::new(v@)));
    let b = Value::Byte(code);
    assert(b@ == Val::Byte(code));
    let e = Value::DictEntry(Box::new(b), Box::new(var));
    assert(e@ == field_entry(code, v@));
    Value::Append(Box::new(e), Box::new(rest))
}

/// The header fields array as a value.
fn fields_value<'a>(f: &Fields<'a>) -> (r: Value<'a>)
    ensures
        r@ == fields_val(f@),
{
    let mut l = Value::Empty;
    if let Some(x) = f.unix_fds {
        l = push_field(9, Value::Uint32(x), l);
    }
    if let Some(x) = f.signature {
        l = push_field(8, Value::Signature(x), l);
    }
    if let Some(x) = f.sender {
        l = push_field(7, Value::String(x), l);
    }
    if let Some(x) = f.destination {
        l = push_field(6, Value::String(x), l);
    }
    if let Some(x) = f.reply_serial {
        l = push_field(5, Value::Uint32(x), l);
    }
    if let Some(x) = f.error_name {
        l = push_field(4, Value::String(x), l);
    }
    if let Some(x) = f.member {
        l = push_field(3, Value::String(x), l);
    }
    if let Some(x) = f.interface {
        l = push_field(2, Value::String(x), l);
    }
    if let Some(x) = f.path {
        l = push_field(1, Value::ObjectPath(x), l);
    }
    let ft = Type::DictEntry(Box::new(Type::Byte), Box::new(Type::Variant));
    Value::Array(ft, Box::new(l))
}

/// Writes the header up to the start of the body, with zero for the body
/// length.
#[verifier::rlimit(40)]
fn write_header(w: &mut Span, header: &Header)
    requires
        old(w).pos() == 0,
        valid_fields(header@.fields),
        body_start(header@) <= MAX_MESSAGE_SIZE,
    ensures
        final(w).pos() == body_start(header@),
        final(w).bytes() == seq![108u8, header@.message_type.spec_code(), header@.flags, 1u8]
            + spec_u32_to_le_bytes(0) + spec_u32_to_le_bytes(header@.serial) + enc_fields(
            header@.fields,
        ) + pad(12 + enc_fields(header@.fields).len(), 8),
{
    proof {
        w.lemma_len();
        vstd::bytes::lemma_auto_spec_u32_to_from_le_bytes();
        crate::lemma_align_up(12 + enc_fields(header@.fields).len(), 8);
    }
    w.write_byte(108u8);
    w.write_byte(header.message_type.code());
    w.write_byte(header.flags.0);
    w.write_byte(1u8);
    let zero = vstd::bytes::u32_to_le_bytes(0);
    w.write_bytes(zero.as_slice());
    let serial = vstd::bytes::u32_to_le_bytes(header.serial);
    w.write_bytes(serial.as_slice());
    let fv = fields_value(&header.fields);
    proof {
        lemma_fields_valid(header@.fields);
        lemma_valid_fits(fv@);
    }
    marshal_value(&fv, w);
    w.align_to(8);
    assert(w.bytes() =~= seq![108u8, header@.message_type.spec_code(), header@.flags, 1u8]
        + spec_u32_to_le_bytes(0) + spec_u32_to_le_bytes(header@.serial) + enc_fields(
        header@.fields,
    ) + pad(12 + enc_fields(header@.fields).len(), 8));
}

/// Encodes a message with header `header` and the value `body` as its body.
#[verifier::rlimit(40)]
fn write_message(header: &Header, body: &Value) -> (r: Vec<u8>)
    requires
        message_fits(header@, body@),
    ensures
        r@ == enc_message(header@, body@),
{
    let mut w = Span::new();
    proof {
        vstd::bytes::lemma_auto_spec_u32_to_from_le_bytes();
        assert(enc_message(header@, body@).len() == body_start(header@) + enc(body@, body_start(header@)).len());
    }

    write_header(&mut w, header);
    let begin = w.position();
    marshal_value(body, &mut w);
    let len = w.position() - begin;
    w.insert(len as u32, 4);
    w.into_bytes()
}

/// A message that can be written: it fits the size limit, and every
/// signature in its fields and body fits its one-byte length.
pub open spec fn message_fits(h: HeaderModel, body: Val) -> bool {
    &&& enc_message(h, body).len() <= MAX_MESSAGE_SIZE
    &&& valid_fields(h.fields)
    &&& signatures_fit(body)
}

fn fields_fit(f: &Fields) -> (r: bool)
    ensures
        r == valid_fields(f@),
{
    match f.signature {
        Some(s) => s.as_bytes().len() < 256,
        None => true,
    }
}

/// Where the body of a message with header `header` starts, if that is
/// within the size limit.
fn body_start_within(header: &Header) -> (r: Option<usize>)
    ensures
        body_start(header@) <= MAX_MESSAGE_SIZE ==> r == Some(body_start(header@) as usize),
        body_start(header@) > MAX_MESSAGE_SIZE ==> r is None,
{
    let fv = fields_value(&header.fields);
    let fields_end = match crate::marshal::end_within(&fv, 12, MAX_MESSAGE_SIZE) {
        Some(e) => e,
        None => {
            proof {
                crate::lemma_align_up(12 + enc_fields(header@.fields).len(), 8);
            }
            return None;
        },
    };
    let start = crate::aligned(fields_end, 8);
    if start > MAX_MESSAGE_SIZE {
        return None;
    }
    Some(start)
}

/// The size of the message with header `header` and body `body`, if it is
/// within the size limit.
pub fn message_size(header: &Header, body: &Value) -> (r: Option<usize>)
    ensures
        enc_message(header@, body@).len() <= MAX_MESSAGE_SIZE ==> r == Some(
            enc_message(header@, body@).len() as usize,
        ),
        enc_message(header@, body@).len() > MAX_MESSAGE_SIZE ==> r is None,
{
    proof {
        vstd::bytes::lemma_auto_spec_u32_to_from_le_bytes();
        assert(enc_message(header@, body@).len() == body_start(header@) + enc(body@, body_start(header@)).len());
    }
    let start = match body_start_within(header) {
        Some(s) => s,
        None => return None,
    };
    crate::marshal::end_within(body, start, MAX_MESSAGE_SIZE)
}

/// Encodes a message with header `header` and the value `body` as its body;
/// none where it would exceed the size limit or a signature its length byte.
pub fn marshal_message(header: &Header, body: &Value) -> (r: Option<Vec<u8>>)
    requires
        header.serial != 0,
    ensures
        message_fits(header@, body@) ==> r is Some && r->Some_0@ == enc_message(header@, body@),
        !message_fits(header@, body@) ==> r is None,
{
    if !fields_fit(&header.fields) || !body.signatures_fit() {
        return None;
    }
    match message_size(header, body) {
        Some(_) => Some(write_message(header, body)),
        None => None,
    }
}

/// The fields that a read header fields array sets.
pub open spec fn fields_of(fv: Val) -> Result<FieldsModel, Error> {
    match fv {
        Val::Array(_, es) => fields_from(*es, empty_fields()),
        _ => Err(Error::InvalidHeader),
    }
}

/// Reads the message at the start of `d`: its header, where its body starts
/// and how long the body is.
pub open spec fn dec_message(d: Seq<u8>) -> Result<(HeaderModel, nat, nat), Error> {
    if d.len() < 1 {
        Err(Error::NotEnoughData)
    } else if Endian::spec_from_u8(d[0]) is Err {
        Err(Error::InvalidHeader)
    } else if d[0] != 108 {
        Err(Error::UnsupportedEndian)
    } else if d.len() < 2 {
        Err(Error::NotEnoughData)
    } else if MessageType::spec_from_u8(d[1]) is Err {
        Err(Error::InvalidHeader)
    } else if d.len() < 4 {
        Err(Error::NotEnoughData)
    } else if d[3] != 1 {
        Err(Error::InvalidHeader)
    } else if d.len() < 12 {
        Err(Error::NotEnoughData)
    } else if u32_at(d, 8) == 0 {
        Err(Error::InvalidHeader)
    } else {
        match dec(Type::Array(Box::new(field_type())), d, 12, d.len()) {
            Err(e) => Err(e),
            Ok((fv, n)) => match fields_of(fv) {
                Err(e) => Err(e),
                Ok(f) => {
                    let start = align_up(12 + n, 8);
                    let blen = u32_at(d, 4) as nat;
                    if start + blen > MAX_MESSAGE_SIZE {
                        Err(Error::InvalidHeader)
                    } else if start + blen > d.len() {
                        Err(Error::NotEnoughData)
                    } else {
                        Ok(
                            (
                                HeaderModel {
                                    message_type: MessageType::spec_from_u8(d[1])->Ok_0,
                                    flags: d[2],
                                    serial: u32_at(d, 8),
                                    fields: f,
                                },
                                start,
                                blen,
                            ),
                        )
                    }
                },
            },
        }
    }
}

fn apply_field<'a>(acc: Fields<'a>, code: u8, v: &Value<'a>) -> (r: Result<Fields<'a>, Error>)
    ensures
        match set_field(acc@, code, v@) {
            Ok(f) => r is Ok && r->Ok_0@ == f,
            Err(e) => r == Err::<Fields<'a>, Error>(e),
        },
{
    if code == 1 {
        match v {
            Value::ObjectPath(s) => Ok(Fields { path: Some(*s), ..acc }),
            _ => Err(Error::UnexpectedType),
        }
    } else if code == 2 {
        match v {
            Value::String(s) => Ok(Fields { interface: Some(*s), ..acc }),
            _ => Err(Error::UnexpectedType),
        }
    } else if code == 3 {
        match v {
            Value::String(s) => Ok(Fields { member: Some(*s), ..acc }),
            _ => Err(Error::UnexpectedType),
        }
    } else if code == 4 {
        match v {
            Value::String(s) => Ok(Fields { error_name: Some(*s), ..acc }),
            _ => Err(Error::UnexpectedType),
        }
    } else if code == 5 {
        match v {
            Value::Uint32(x) => Ok(Fields { reply_serial: Some(*x), ..acc }),
            _ => Err(Error::UnexpectedType),
        }
    } else if code == 6 {
        match v {
            Value::String(s) => Ok(Fields { destination: Some(*s), ..acc }),
            _ => Err(Error::UnexpectedType),
        }
    } else if code == 7 {
        match v {
            Value::String(s) => Ok(Fields { sender: Some(*s), ..acc }),
            _ => Err(Error::UnexpectedType),
        }
    } else if code == 8 {
        match v {
            Value::Signature(s) => Ok(Fields { signature: Some(*s), ..acc }),
            _ => Err(Error::UnexpectedType),
        }
    } else if code == 9 {
        match v {
            Value::Uint32(x) => Ok(Fields { unix_fds: Some(*x), ..acc }),
            _ => Err(Error::UnexpectedType),
        }
    } else {
        Ok(acc)
    }
}

fn read_fields<'a>(l: &Value<'a>, acc: Fields<'a>) -> (r: Result<Fields<'a>, Error>)
    ensures
        match fields_from(l@, acc@) {
            Ok(f) => r is Ok && r->Ok_0@ == f,
            Err(e) => r == Err::<Fields<'a>, Error>(e),
        },
    decreases l,
{
    proof {
        crate::types::lemma_model_kind(*l);
    }
    match l {
        Value::Append(x, xs) => {
            proof {
                crate::types::lemma_model_kind(**x);
            }
            match &**x {
                Value::DictEntry(k, v) => {
                    proof {
                        crate::types::lemma_model_kind(**k);
                        crate::types::lemma_model_kind(**v);
                    }
                    match (&**k, &**v) {
                        (Value::Byte(code), Value::Variant(inner)) => match apply_field(acc, *code, inner) {
                            Ok(next) => read_fields(xs, next),
                            Err(e) => Err(e),
                        },
                        _ => Err(Error::InvalidHeader),
                    }
                },
                _ => Err(Error::InvalidHeader),
            }
        },
        _ => Ok(acc),
    }
}

impl<'a> Fields<'a> {
    /// No field set.
    pub fn empty() -> (r: Self)
        ensures
            r@ == empty_fields(),
    {
        Fields {
            path: None,
            interface: None,
            member: None,
            error_name: None,
            reply_serial: None,
            destination: None,
            sender: None,
            signature: None,
            unix_fds: None,
        }
    }

    /// These fields with `path` set to `value`.
    pub fn path(self, value: strings::ObjectPath<'a>) -> (r: Self)
        ensures
            r@ == (FieldsModel { path: Some(value@), ..self@ }),
    {
        Fields { path: Some(value), ..self }
    }

    /// These fields with `interface` set to `value`.
    pub fn interface(self, value: strings::String<'a>) -> (r: Self)
        ensures
            r@ == (FieldsModel { interface: Some(value@), ..self@ }),
    {
        Fields { interface: Some(value), ..self }
    }

    /// These fields with `member` set to `value`.
    pub fn member(self, value: strings::String<'a>) -> (r: Self)
        ensures
            r@ == (FieldsModel { member: Some(value@), ..self@ }),
    {
        Fields { member: Some(value), ..self }
    }

    /// These fields with `error_name` set to `value`.
    pub fn error_name(self, value: strings::String<'a>) -> (r: Self)
        ensures
            r@ == (FieldsModel { error_name: Some(value@), ..self@ }),
    {
        Fields { error_name: Some(value), ..self }
    }

    /// These fields with `reply_serial` set to `value`.
    pub fn reply_serial(self, value: u32) -> (r: Self)
        ensures
            r@ == (FieldsModel { reply_serial: Some(value), ..self@ }),
    {
        Fields { reply_serial: Some(value), ..self }
    }

    /// These fields with `destination` set to `value`.
    pub fn destination(self, value: strings::String<'a>) -> (r: Self)
        ensures
            r@ == (FieldsModel { destination: Some(value@), ..self@ }),
    {
        Fields { destination: Some(value), ..self }
    }

    /// These fields with `sender` set to `value`.
    pub fn sender(self, value: strings::String<'a>) -> (r: Self)
        ensures
            r@ == (FieldsModel { sender: Some(value@), ..self@ }),
    {
        Fields { sender: Some(value), ..self }
    }

    /// These fields with `signature` set to `value`.
    pub fn signature(self, value: strings::Signature<'a>) -> (r: Self)
        ensures
            r@ == (FieldsModel { signature: Some(value@), ..self@ }),
    {
        Fields { signature: Some(value), ..self }
    }

    /// These fields with `unix_fds` set to `value`.
    pub fn unix_fds(self, value: u32) -> (r: Self)
        ensures
            r@ == (FieldsModel { unix_fds: Some(value), ..self@ }),
    {
        Fields { unix_fds: Some(value), ..self }
    }
}

impl<'a> Message<'a> {
    /// Reads the message at the start of `data`; gives it and the number of
    /// bytes it takes.
    #[verifier::rlimit(40)]
    pub fn unmarshal(data: &'a [u8]) -> (r: Result<(Message<'a>, usize), Error>)
        ensures
            match dec_message(data@) {
                Ok((h, start, len)) => r is Ok && r->Ok_0.0.header@ == h && r->Ok_0.0.arguments@
                    == data@.subrange(start as int, start + len as int) && r->Ok_0.1 == start + len,
                Err(e) => r == Err::<(Message<'a>, usize), Error>(e),
            },
    {
        let mut r = Reader::new(data);
        let e = match r.read_byte() {
            Ok(b) => b,
            Err(e) => return Err(e),
        };
        match Endian::from_u8(e) {
            Ok(Endian::Little) => {},
            Ok(Endian::Big) => return Err(Error::UnsupportedEndian),
            Err(e) => return Err(e),
        }
        let t = match r.read_byte() {
            Ok(b) => b,
            Err(e) => return Err(e),
        };
        let message_type = match MessageType::from_u8(t) {
            Ok(m) => m,
            Err(e) => return Err(e),
        };
        let flags = match r.read_byte() {
            Ok(b) => b,
            Err(e) => return Err(e),
        };
        let version = match r.read_byte() {
            Ok(b) => b,
            Err(e) => return Err(e),
        };
        match Version::from_u8(version) {
            Ok(Version::V1) => {},
            Err(e) => return Err(e),
        }
        let fixed = match r.read_bytes(8) {
            Ok(b) => b,
            Err(e) => return Err(e),
        };
        let body_len = vstd::bytes::u32_from_le_bytes(vstd::slice::slice_subrange(fixed, 0, 4));
        let serial = vstd::bytes::u32_from_le_bytes(vstd::slice::slice_subrange(fixed, 4, 8));
        assert(fixed@.subrange(0, 4) =~= data@.subrange(4, 8));
        assert(fixed@.subrange(4, 8) =~= data@.subrange(8, 12));
        if serial == 0 {
            return Err(Error::InvalidHeader);
        }
        let ft = Type::Array(Box::new(Type::DictEntry(Box::new(Type::Byte), Box::new(Type::Variant))));
        let fv = match r.read(&ft) {
            Ok(v) => v,
            Err(e) => return Err(e),
        };
        let fields = match &fv {
            Value::Array(_, es) => match read_fields(es, Fields::empty()) {
                Ok(f) => f,
                Err(e) => return Err(e),
            },
            _ => return Err(Error::InvalidHeader),
        };
        proof {
            r.lemma_wf();
        }
        let header_end = r.position();
        if header_end > MAX_MESSAGE_SIZE {
            return Err(Error::InvalidHeader);
        }
        let rem = header_end % 8;
        let start = if rem == 0 {
            header_end
        } else {
            header_end + (8 - rem)
        };
        let blen = body_len as usize;
        if blen > MAX_MESSAGE_SIZE || start > MAX_MESSAGE_SIZE - blen {
            return Err(Error::InvalidHeader);
        }
        if start + blen > data.len() {
            return Err(Error::NotEnoughData);
        }
        let arguments = vstd::slice::slice_subrange(data, start, start + blen);
        let header = Header { message_type, flags: Flags(flags), serial, fields };
        Ok((Message { header, arguments }, start + blen))
    }
}


/// Whether two byte slices hold the same bytes.
fn bytes_equal(a: &[u8], b: &[u8]) -> (r: bool)
    ensures
        r == (a@ == b@),
{
    if a.len() != b.len() {
        return false;
    }
    let mut i: usize = 0;
    while i < a.len()
        invariant
            i <= a@.len(),
            a@.len() == b@.len(),
            forall|j: int| 0 <= j < i ==> a@[j] == b@[j],
        decreases a@.len() - i,
    {
        if a[i] != b[i] {
            return false;
        }
        i = i + 1;
    }
    assert(a@ =~= b@);
    true
}

/// The signature that the fields declare for the body; none means empty.
pub open spec fn declared_signature(f: FieldsModel) -> Seq<u8> {
    match f.signature {
        Some(s) => s,
        None => Seq::empty(),
    }
}

impl<'a> Message<'a> {
    /// Reads the body as a value of type `t`, which the header's signature
    /// field must name.
    pub fn parse(&self, t: &Type) -> (r: Result<Value<'a>, Error>)
        ensures
            declared_signature(self.header.fields@) != crate::signature::sig_text(*t) ==> r
                == Err::<Value<'a>, Error>(Error::UnexpectedType),
            declared_signature(self.header.fields@) == crate::signature::sig_text(*t)
                ==> crate::unmarshal::decoded_value(r, dec(*t, self.arguments@, 0, self.arguments@.len())),
    {
        let empty: [u8; 0] = [];
        let declared: &[u8] = match self.header.fields.signature {
            Some(s) => s.as_bytes(),
            None => empty.as_slice(),
        };
        assert(declared@ == declared_signature(self.header.fields@)) by {
            if self.header.fields.signature is None {
                assert(declared@ =~= Seq::<u8>::empty());
            }
        }
        let expected = t.signature();
        if !bytes_equal(declared, expected.as_slice()) {
            return Err(Error::UnexpectedType);
        }
        let mut reader = Reader::new(self.arguments);
        reader.read(t)
    }

    /// Encodes this message again, with its body bytes as they are; none
    /// where it would exceed the size limit or its signature field its
    /// length byte.
    pub fn marshal(&self) -> (r: Option<Vec<u8>>)
        requires
            self.header.serial != 0,
        ensures
            enc_message_raw(self.header@, self.arguments@).len() <= MAX_MESSAGE_SIZE && valid_fields(
                self.header@.fields,
            ) ==> r is Some && r->Some_0@ == enc_message_raw(self.header@, self.arguments@),
            !(enc_message_raw(self.header@, self.arguments@).len() <= MAX_MESSAGE_SIZE && valid_fields(
                self.header@.fields,
            )) ==> r is None,
    {
        if !fields_fit(&self.header.fields) {
            return None;
        }
        proof {
            vstd::bytes::lemma_auto_spec_u32_to_from_le_bytes();
            assert(enc_message_raw(self.header@, self.arguments@).len() == body_start(self.header@)
                + self.arguments@.len());
        }
        let start = match body_start_within(&self.header) {
            Some(s) => s,
            None => return None,
        };
        if self.arguments.len() > MAX_MESSAGE_SIZE - start {
            return None;
        }
        let mut w = Span::new();
        write_header(&mut w, &self.header);
        w.write_bytes(self.arguments);
        let len = self.arguments.len();
        w.insert(len as u32, 4);
        assert(w.bytes() =~= enc_message_raw(self.header@, self.arguments@));
        Some(w.into_bytes())
    }
}

/// Reads the messages of a buffer one after the other.
pub struct MessageIterator<'a> {
    data: &'a [u8],
    pos: usize,
    failed: bool,
}

impl<'a> MessageIterator<'a> {
    /// The bytes not read yet.
    pub closed spec fn rest(&self) -> Seq<u8> {
        self.data@.subrange(self.pos as int, self.data@.len() as int)
    }

    /// Whether a read has failed, which ends the iteration.
    pub closed spec fn failed(&self) -> bool {
        self.failed
    }

    pub closed spec fn wf(&self) -> bool {
        self.pos <= self.data@.len()
    }

    pub fn new(data: &'a [u8]) -> (r: Self)
        ensures
            r.wf(),
            r.rest() == data@,
            !r.failed(),
    {
        let r = MessageIterator { data, pos: 0, failed: false };
        assert(r.rest() =~= data@);
        r
    }

    /// The next message. The iteration ends when the buffer is used up, or
    /// after the first message that cannot be read, whose error it gives.
    pub fn next(&mut self) -> (r: Option<Result<Message<'a>, Error>>)
        requires
            old(self).wf(),
        ensures
            final(self).wf(),
            old(self).failed() || old(self).rest().len() == 0 ==> r is None && final(self).rest()
                == old(self).rest() && final(self).failed() == old(self).failed(),
            !old(self).failed() && old(self).rest().len() > 0 ==> match dec_message(old(self).rest()) {
                Ok((h, start, len)) => r is Some && r->Some_0 is Ok && r->Some_0->Ok_0.header@ == h
                    && r->Some_0->Ok_0.arguments@ == old(self).rest().subrange(start as int, start + len as int)
                    && final(self).rest() == old(self).rest().subrange(start + len as int, old(self).rest().len() as int)
                    && !final(self).failed(),
                Err(e) => r == Some(Err::<Message<'a>, Error>(e)) && final(self).failed(),
            },
    {
        if self.failed || self.pos >= self.data.len() {
            return None;
        }
        let rest = vstd::slice::slice_subrange(self.data, self.pos, self.data.len());
        match Message::unmarshal(rest) {
            Ok((m, n)) => {
                self.pos = self.pos + n;
                assert(self.rest() =~= old(self).rest().subrange(n as int, old(self).rest().len() as int));
                Some(Ok(m))
            },
            Err(e) => {
                self.failed = true;
                Some(Err(e))
            },
        }
    }
}

/// The destination, object and interface that method calls go to.
#[derive(Clone, Copy, Debug)]
pub struct Proxy<'a> {
    pub destination: strings::String<'a>,
    pub path: strings::ObjectPath<'a>,
    pub interface: strings::String<'a>,
}

impl<'a> Proxy<'a> {
    /// The fields that name the proxy's destination, path and interface.
    pub fn fields(&self) -> (r: Fields<'a>)
        ensures
            r@ == (FieldsModel {
                destination: Some(self.destination@),
                path: Some(self.path@),
                interface: Some(self.interface@),
                ..empty_fields()
            }),
    {
        Fields {
            destination: Some(self.destination),
            path: Some(self.path),
            interface: Some(self.interface),
            ..Fields::empty()
        }
    }
}


pub open spec fn vec_view(o: Option<Vec<u8>>) -> Option<Seq<u8>> {
    match o {
        Some(v) => Some(v@),
        None => None,
    }
}

fn own_string(o: Option<strings::String<'_>>) -> (r: Option<Vec<u8>>)
    ensures
        vec_view(r) == string_view(o),
{
    match o {
        Some(s) => Some(vstd::slice::slice_to_vec(s.as_bytes())),
        None => None,
    }
}

fn own_objectpath(o: Option<strings::ObjectPath<'_>>) -> (r: Option<Vec<u8>>)
    ensures
        vec_view(r) == path_view(o),
{
    match o {
        Some(s) => Some(vstd::slice::slice_to_vec(s.as_bytes())),
        None => None,
    }
}

fn own_signature(o: Option<strings::Signature<'_>>) -> (r: Option<Vec<u8>>)
    ensures
        vec_view(r) == signature_view(o),
{
    match o {
        Some(s) => Some(vstd::slice::slice_to_vec(s.as_bytes())),
        None => None,
    }
}

/// Header fields that own their bytes.
#[derive(Clone, Debug, PartialEq, Eq)]
pub struct OwnedFields {
    pub path: Option<Vec<u8>>,
    pub interface: Option<Vec<u8>>,
    pub member: Option<Vec<u8>>,
    pub error_name: Option<Vec<u8>>,
    pub reply_serial: Option<u32>,
    pub destination: Option<Vec<u8>>,
    pub sender: Option<Vec<u8>>,
    pub signature: Option<Vec<u8>>,
    pub unix_fds: Option<u32>,
}

impl View for OwnedFields {
    type V = FieldsModel;

    open spec fn view(&self) -> FieldsModel {
        FieldsModel {
            path: vec_view(self.path),
            interface: vec_view(self.interface),
            member: vec_view(self.member),
            error_name: vec_view(self.error_name),
            destination: vec_view(self.destination),
            sender: vec_view(self.sender),
            signature: vec_view(self.signature),
            reply_serial: self.reply_serial,
            unix_fds: self.unix_fds,
        }
    }
}

impl<'a> Fields<'a> {
    /// A copy that owns its bytes.
    pub fn to_owned(&self) -> (r: OwnedFields)
        ensures
            r@ == self@,
    {
        OwnedFields {
            path: own_objectpath(self.path),
            interface: own_string(self.interface),
            member: own_string(self.member),
            error_name: own_string(self.error_name),
            destination: own_string(self.destination),
            sender: own_string(self.sender),
            signature: own_signature(self.signature),
            reply_serial: self.reply_serial,
            unix_fds: self.unix_fds,
        }
    }
}

impl OwnedFields {
    /// The fields, borrowed.
    pub fn as_ref(&self) -> (r: Fields<'_>)
        ensures
            r@ == self@,
    {
        Fields {
            path: match &self.path {
                Some(b) => Some(strings::ObjectPath::from_bytes(b.as_slice())),
                None => None,
            },
            interface: match &self.interface {
                Some(b) => Some(strings::String::from_bytes(b.as_slice())),
                None => None,
            },
            member: match &self.member {
                Some(b) => Some(strings::String::from_bytes(b.as_slice())),
                None => None,
            },
            error_name: match &self.error_name {
                Some(b) => Some(strings::String::from_bytes(b.as_slice())),
                None => None,
            },
            destination: match &self.destination {
                Some(b) => Some(strings::String::from_bytes(b.as_slice())),
                None => None,
            },
            sender: match &self.sender {
                Some(b) => Some(strings::String::from_bytes(b.as_slice())),
                None => None,
            },
            signature: match &self.signature {
                Some(b) => Some(strings::Signature::from_bytes(b.as_slice())),
                None => None,
            },
            reply_serial: self.reply_serial,
            unix_fds: self.unix_fds,
        }
    }
}

/// A header that owns its bytes.
#[derive(Clone, Debug, PartialEq, Eq)]
pub struct OwnedHeader {
    pub message_type: MessageType,
    pub flags: Flags,
    pub serial: u32,
    pub fields: OwnedFields,
}

impl View for OwnedHeader {
    type V = HeaderModel;

    open spec fn view(&self) -> HeaderModel {
        HeaderModel {
            message_type: self.message_type,
            flags: self.flags.0,
            serial: self.serial,
            fields: self.fields@,
        }
    }
}

impl<'a> Header<'a> {
    /// A copy that owns its bytes.
    pub fn to_owned(&self) -> (r: OwnedHeader)
        ensures
            r@ == self@,
    {
        OwnedHeader {
            message_type: self.message_type,
            flags: self.flags,
            serial: self.serial,
            fields: self.fields.to_owned(),
        }
    }
}

impl OwnedHeader {
    /// The header, borrowed.
    pub fn as_ref(&self) -> (r: Header<'_>)
        ensures
            r@ == self@,
    {
        Header {
            message_type: self.message_type,
            flags: self.flags,
            serial: self.serial,
            fields: self.fields.as_ref(),
        }
    }
}

/// A message that owns its header and body bytes.
#[derive(Clone, Debug, PartialEq, Eq)]
pub struct OwnedMessage {
    pub header: OwnedHeader,
    pub arguments: Vec<u8>,
}

impl<'a> Message<'a> {
    /// A copy that owns its bytes.
    pub fn to_owned(&self) -> (r: OwnedMessage)
        ensures
            r.header@ == self.header@,
            r.arguments@ == self.arguments@,
    {
        OwnedMessage {
            header: self.header.to_owned(),
            arguments: vstd::slice::slice_to_vec(self.arguments),
        }
    }
}

impl OwnedMessage {
    /// The message, borrowed.
    pub fn as_ref(&self) -> (r: Message<'_>)
        ensures
            r.header@ == self.header@,
            r.arguments@ == self.arguments@,
    {
        Message { header: self.header.as_ref(), arguments: self.arguments.as_slice() }
    }
}


/// Header fields that can be written and read back: a signature field fits
/// its one-byte length.
pub open spec fn valid_fields(f: FieldsModel) -> bool {
    match f.signature {
        Some(s) => s.len() < 256,
        None => true,
    }
}

proof fn lemma_cons_field_valid(code: u8, o: Option<Val>, rest: Val)
    requires
        elements_of(rest, field_type()),
        o matches Some(v) ==> valid_value(v) && !(v is Variant || v is Array || v is DictEntry
            || v is Struct || v is Empty || v is Append),
        value_nesting(rest) <= 2,
    ensures
        elements_of(cons_field(code, o, rest), field_type()),
        value_nesting(cons_field(code, o, rest)) <= 2,
{
    if let Some(v) = o {
        assert(value_nesting(v) == 0);
        assert(value_nesting(Val::Byte(code)) == 0);
        assert(value_nesting(Val::Variant(Box::new(v))) == 1);
        assert(value_nesting(field_entry(code, v)) == 2);
        assert(crate::signature::sig_text(type_of(v)).len() == 1);
        assert(valid_value(Val::Variant(Box::new(v))));
        assert(valid_value(Val::Byte(code)));
        assert(type_of(Val::Byte(code)) == Type::Byte);
        assert(type_of(Val::Variant(Box::new(v))) == Type::Variant);
        assert(valid_value(field_entry(code, v)));
        assert(type_of(field_entry(code, v)) == field_type());
    }
}

proof fn lemma_fields_valid(f: FieldsModel)
    requires
        valid_fields(f),
    ensures
        valid_value(fields_val(f)),
        value_nesting(fields_val(f)) <= 3,
{
    let sig = match f.signature {
        Some(s) => Some(Val::Signature(s)),
        None => None,
    };
    let path = match f.path {
        Some(s) => Some(Val::ObjectPath(s)),
        None => None,
    };
    let l9 = cons_field(9, u32_val(f.unix_fds), Val::Empty);
    lemma_cons_field_valid(9, u32_val(f.unix_fds), Val::Empty);
    let l8 = cons_field(8, sig, l9);
    lemma_cons_field_valid(8, sig, l9);
    let l7 = cons_field(7, string_val(f.sender), l8);
    lemma_cons_field_valid(7, string_val(f.sender), l8);
    let l6 = cons_field(6, string_val(f.destination), l7);
    lemma_cons_field_valid(6, string_val(f.destination), l7);
    let l5 = cons_field(5, u32_val(f.reply_serial), l6);
    lemma_cons_field_valid(5, u32_val(f.reply_serial), l6);
    let l4 = cons_field(4, string_val(f.error_name), l5);
    lemma_cons_field_valid(4, string_val(f.error_name), l5);
    let l3 = cons_field(3, string_val(f.member), l4);
    lemma_cons_field_valid(3, string_val(f.member), l4);
    let l2 = cons_field(2, string_val(f.interface), l3);
    lemma_cons_field_valid(2, string_val(f.interface), l3);
    lemma_cons_field_valid(1, path, l2);
    assert(field_list(f) == cons_field(1, path, l2));
    assert(crate::signature::valid_single(Type::Byte));
    assert(crate::signature::valid_single(Type::Variant));
    assert(crate::signature::valid_single(field_type()));
    assert(!crate::signature::empty_shape(Type::Byte));
    assert(!crate::signature::empty_shape(field_type()));
    assert(crate::signature::nesting(Type::Byte) == 0);
    assert(crate::signature::nesting(Type::Variant) == 0);
    assert(crate::signature::nesting(field_type()) == 1);
}

/// Reading a list of fields in front of which one present field stands.
proof fn lemma_fields_from_cons(code: u8, o: Option<Val>, rest: Val, acc: FieldsModel)
    requires
        o is Some ==> set_field(acc, code, o.unwrap()) is Ok,
    ensures
        fields_from(cons_field(code, o, rest), acc) == fields_from(
            rest,
            if o is Some {
                set_field(acc, code, o.unwrap())->Ok_0
            } else {
                acc
            },
        ),
{
}

proof fn lemma_fields_read_back(f: FieldsModel)
    ensures
        fields_of(fields_val(f)) == Ok::<FieldsModel, Error>(f),
{
    let sig = match f.signature {
        Some(s) => Some(Val::Signature(s)),
        None => None,
    };
    let path = match f.path {
        Some(s) => Some(Val::ObjectPath(s)),
        None => None,
    };
    let l9 = cons_field(9, u32_val(f.unix_fds), Val::Empty);
    let l8 = cons_field(8, sig, l9);
    let l7 = cons_field(7, string_val(f.sender), l8);
    let l6 = cons_field(6, string_val(f.destination), l7);
    let l5 = cons_field(5, u32_val(f.reply_serial), l6);
    let l4 = cons_field(4, string_val(f.error_name), l5);
    let l3 = cons_field(3, string_val(f.member), l4);
    let l2 = cons_field(2, string_val(f.interface), l3);
    let a0 = empty_fields();
    let a1 = FieldsModel { path: f.path, ..a0 };
    let a2 = FieldsModel { interface: f.interface, ..a1 };
    let a3 = FieldsModel { member: f.member, ..a2 };
    let a4 = FieldsModel { error_name: f.error_name, ..a3 };
    let a5 = FieldsModel { reply_serial: f.reply_serial, ..a4 };
    let a6 = FieldsModel { destination: f.destination, ..a5 };
    let a7 = FieldsModel { sender: f.sender, ..a6 };
    let a8 = FieldsModel { signature: f.signature, ..a7 };
    let a9 = FieldsModel { unix_fds: f.unix_fds, ..a8 };
    lemma_fields_from_cons(1, path, l2, a0);
    lemma_fields_from_cons(2, string_val(f.interface), l3, a1);
    lemma_fields_from_cons(3, string_val(f.member), l4, a2);
    lemma_fields_from_cons(4, string_val(f.error_name), l5, a3);
    lemma_fields_from_cons(5, u32_val(f.reply_serial), l6, a4);
    lemma_fields_from_cons(6, string_val(f.destination), l7, a5);
    lemma_fields_from_cons(7, string_val(f.sender), l8, a6);
    lemma_fields_from_cons(8, sig, l9, a7);
    lemma_fields_from_cons(9, u32_val(f.unix_fds), Val::Empty, a8);
    assert(a9 == f);
    assert(field_list(f) == cons_field(1, path, l2));
}

/// A message read back: its header, where its body starts and how long it
/// is, for every header whose fields can be written and whose serial is not
/// zero, and every body, where the message fits the size limit.
pub proof fn lemma_message_round_trip(h: HeaderModel, body: Val)
    requires
        valid_fields(h.fields),
        h.serial != 0,
        enc_message(h, body).len() <= MAX_MESSAGE_SIZE,
    ensures
        dec_message(enc_message(h, body)) == Ok::<(HeaderModel, nat, nat), Error>(
            (h, body_start(h), enc(body, body_start(h)).len()),
        ),
{
    vstd::bytes::lemma_auto_spec_u32_to_from_le_bytes();
    let d = enc_message(h, body);
    let f = enc_fields(h.fields);
    let b = enc(body, body_start(h));
    let head = seq![108u8, h.message_type.spec_code(), h.flags, 1u8];
    let l1 = spec_u32_to_le_bytes(b.len() as u32);
    let l2 = spec_u32_to_le_bytes(h.serial);
    let p = pad(12 + f.len(), 8);
    assert(d == head + l1 + l2 + f + p + b);
    assert(d =~= head + (l1 + (l2 + (f + (p + b)))));
    assert(d.subrange(0, d.len() as int) =~= d);
    crate::lemma_split(d, 0, head, l1 + (l2 + (f + (p + b))));
    crate::lemma_split(d, 4, l1, l2 + (f + (p + b)));
    crate::lemma_split(d, 8, l2, f + (p + b));
    crate::lemma_split(d, 12, f, p + b);
    assert(d[0] == head[0] && d[1] == head[1] && d[2] == head[2] && d[3] == head[3]) by {
        assert(d.subrange(0, 4)[0] == d[0]);
        assert(d.subrange(0, 4)[1] == d[1]);
        assert(d.subrange(0, 4)[2] == d[2]);
        assert(d.subrange(0, 4)[3] == d[3]);
    }
    assert(u32_at(d, 4) == b.len() as u32);
    assert(u32_at(d, 8) == h.serial);
    lemma_fields_valid(h.fields);
    lemma_dec_enc(fields_val(h.fields), d, 12, d.len(), 0);
    lemma_fields_read_back(h.fields);
    assert(MessageType::spec_from_u8(h.message_type.spec_code()) == Ok::<MessageType, Error>(
        h.message_type,
    ));
}

} // verus!
