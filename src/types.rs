//! Values of the wire format: the executable tree and its spec model.
use vstd::prelude::*;

use crate::signature::{empty_shape, nesting, sig_text, valid_multi, valid_single, Type};
use crate::strings;

verus! {

/// A value that can be written to, or has been read from, a message.
/// `Empty` and `Append` build a list of values: the members of a struct, the
/// elements of an array, or the arguments of a message body.
#[derive(Debug, PartialEq)]
pub enum Value<'a> {
    Byte(u8),
    Bool(bool),
    Int16(i16),
    Uint16(u16),
    Int32(i32),
    Uint32(u32),
    Int64(i64),
    Uint64(u64),
    /// A double, held as its IEEE 754 bit pattern.
    Double(u64),
    String(strings::String<'a>),
    ObjectPath(strings::ObjectPath<'a>),
    Signature(strings::Signature<'a>),
    Variant(Box<Value<'a>>),
    /// The element type and the list of elements.
    Array(Type, Box<Value<'a>>),
    DictEntry(Box<Value<'a>>, Box<Value<'a>>),
    /// The list of members.
    Struct(Box<Value<'a>>),
    Empty,
    Append(Box<Value<'a>>, Box<Value<'a>>),
}

/// The mathematical model of a [`Value`]: strings become byte sequences.
pub enum Val {
    Byte(u8),
    Bool(bool),
    Int16(i16),
    Uint16(u16),
    Int32(i32),
    Uint32(u32),
    Int64(i64),
    Uint64(u64),
    Double(u64),
    String(Seq<u8>),
    ObjectPath(Seq<u8>),
    Signature(Seq<u8>),
    Variant(Box<Val>),
    Array(Type, Box<Val>),
    DictEntry(Box<Val>, Box<Val>),
    Struct(Box<Val>),
    Empty,
    Append(Box<Val>, Box<Val>),
}

pub open spec fn model(v: Value<'_>) -> Val
    decreases v,
{
    match v {
        Value::Byte(x) => Val::Byte(x),
        Value::Bool(x) => Val::Bool(x),
        Value::Int16(x) => Val::Int16(x),
        Value::Uint16(x) => Val::Uint16(x),
        Value::Int32(x) => Val::Int32(x),
        Value::Uint32(x) => Val::Uint32(x),
        Value::Int64(x) => Val::Int64(x),
        Value::Uint64(x) => Val::Uint64(x),
        Value::Double(x) => Val::Double(x),
        Value::String(s) => Val::String(s@),
        Value::ObjectPath(s) => Val::ObjectPath(s@),
        Value::Signature(s) => Val::Signature(s@),
        Value::Variant(i) => Val::Variant(Box::new(model(*i))),
        Value::Array(t, es) => Val::Array(t, Box::new(model(*es))),
        Value::DictEntry(k, x) => Val::DictEntry(Box::new(model(*k)), Box::new(model(*x))),
        Value::Struct(m) => Val::Struct(Box::new(model(*m))),
        Value::Empty => Val::Empty,
        Value::Append(x, xs) => Val::Append(Box::new(model(*x)), Box::new(model(*xs))),
    }
}

impl<'a> View for Value<'a> {
    type V = Val;

    open spec fn view(&self) -> Val {
        model(*self)
    }
}

/// The type of a value; of a list, the list of its element types.
pub open spec fn type_of(v: Val) -> Type
    decreases v,
{
    match v {
        Val::Byte(_) => Type::Byte,
        Val::Bool(_) => Type::Bool,
        Val::Int16(_) => Type::Int16,
        Val::Uint16(_) => Type::Uint16,
        Val::Int32(_) => Type::Int32,
        Val::Uint32(_) => Type::Uint32,
        Val::Int64(_) => Type::Int64,
        Val::Uint64(_) => Type::Uint64,
        Val::Double(_) => Type::Double,
        Val::String(_) => Type::String,
        Val::ObjectPath(_) => Type::ObjectPath,
        Val::Signature(_) => Type::Signature,
        Val::Variant(_) => Type::Variant,
        Val::Array(t, _) => Type::Array(Box::new(t)),
        Val::DictEntry(k, x) => Type::DictEntry(Box::new(type_of(*k)), Box::new(type_of(*x))),
        Val::Struct(m) => Type::Struct(Box::new(type_of(*m))),
        Val::Empty => Type::Empty,
        Val::Append(x, xs) => Type::Append(Box::new(type_of(*x)), Box::new(type_of(*xs))),
    }
}

/// One well-formed value: its type is complete, every array holds elements
/// of its element type (none, where the elements would take no bytes), every signature (held or implied by a variant) fits
/// its one-byte length and nests at most 32 composites.
pub open spec fn valid_value(v: Val) -> bool
    decreases v,
{
    match v {
        Val::Signature(s) => s.len() < 256,
        Val::Variant(i) => valid_value(*i) && sig_text(type_of(*i)).len() < 256 && nesting(
            type_of(*i),
        ) <= 32,
        Val::Array(t, es) => valid_single(t) && elements_of(*es, t) && (empty_shape(t) ==> *es is Empty),
        Val::DictEntry(k, x) => valid_value(*k) && valid_value(*x),
        Val::Struct(m) => valid_list(*m),
        Val::Empty | Val::Append(_, _) => false,
        _ => true,
    }
}

/// A list of well-formed values.
pub open spec fn valid_list(l: Val) -> bool
    decreases l,
{
    match l {
        Val::Empty => true,
        Val::Append(x, xs) => valid_value(*x) && valid_list(*xs),
        _ => false,
    }
}

/// A list of well-formed values of type `t`.
pub open spec fn elements_of(l: Val, t: Type) -> bool
    decreases l,
{
    match l {
        Val::Empty => true,
        Val::Append(x, xs) => valid_value(*x) && type_of(*x) == t && elements_of(*xs, t),
        _ => false,
    }
}

/// The model of a value has the value's own variant.
pub proof fn lemma_model_kind(v: Value<'_>)
    ensures
        model(v) is Byte <==> v is Byte,
        model(v) is Variant <==> v is Variant,
        model(v) is DictEntry <==> v is DictEntry,
        model(v) is Append <==> v is Append,
        model(v) is Array <==> v is Array,
        model(v) is Signature <==> v is Signature,
        model(v) is Uint32 <==> v is Uint32,
{
}

/// Every length field of the encoding that is one byte wide fits: each
/// signature held, and each signature a variant implies, is shorter than 256.
pub open spec fn signatures_fit(v: Val) -> bool
    decreases v,
{
    match v {
        Val::Signature(s) => s.len() < 256,
        Val::Variant(i) => sig_text(type_of(*i)).len() < 256 && signatures_fit(*i),
        Val::Array(_, es) => signatures_fit(*es),
        Val::DictEntry(k, x) => signatures_fit(*k) && signatures_fit(*x),
        Val::Struct(m) => signatures_fit(*m),
        Val::Append(x, xs) => signatures_fit(*x) && signatures_fit(*xs),
        _ => true,
    }
}

/// Well-formed values keep their signatures short.
pub proof fn lemma_valid_fits(v: Val)
    ensures
        valid_value(v) ==> signatures_fit(v),
        valid_list(v) ==> signatures_fit(v),
    decreases v, 1nat,
{
    match v {
        Val::Variant(i) => lemma_valid_fits(*i),
        Val::Array(t, es) => {
            if valid_value(v) {
                lemma_elements_fit(*es, t);
            }
        },
        Val::DictEntry(k, x) => {
            lemma_valid_fits(*k);
            lemma_valid_fits(*x);
        },
        Val::Struct(m) => lemma_valid_fits(*m),
        Val::Append(x, xs) => {
            lemma_valid_fits(*x);
            lemma_valid_fits(*xs);
        },
        _ => {},
    }
}

proof fn lemma_elements_fit(l: Val, t: Type)
    requires
        elements_of(l, t),
    ensures
        signatures_fit(l),
    decreases l, 0nat,
{
    if let Val::Append(x, xs) = l {
        lemma_valid_fits(*x);
        lemma_elements_fit(*xs, t);
    }
}

/// How many composites (arrays, structs, dict entries, variants) a value
/// nests, itself included; an array counts its element type's nesting too.
pub open spec fn value_nesting(v: Val) -> nat
    decreases v,
{
    match v {
        Val::Variant(i) => 1 + value_nesting(*i),
        Val::Array(t, es) => 1 + if nesting(t) >= value_nesting(*es) {
            nesting(t)
        } else {
            value_nesting(*es)
        },
        Val::DictEntry(k, x) => 1 + if value_nesting(*k) >= value_nesting(*x) {
            value_nesting(*k)
        } else {
            value_nesting(*x)
        },
        Val::Struct(m) => 1 + value_nesting(*m),
        Val::Append(x, xs) => if value_nesting(*x) >= value_nesting(*xs) {
            value_nesting(*x)
        } else {
            value_nesting(*xs)
        },
        _ => 0,
    }
}

/// A value nests at least as many composites as its type.
pub proof fn lemma_type_nesting(v: Val)
    ensures
        nesting(type_of(v)) <= value_nesting(v),
    decreases v,
{
    match v {
        Val::DictEntry(k, x) => {
            lemma_type_nesting(*k);
            lemma_type_nesting(*x);
        },
        Val::Struct(m) => lemma_type_nesting(*m),
        Val::Append(x, xs) => {
            lemma_type_nesting(*x);
            lemma_type_nesting(*xs);
        },
        _ => {},
    }
}

pub proof fn lemma_valid_type(v: Val)
    ensures
        valid_value(v) ==> valid_single(type_of(v)),
        valid_list(v) ==> valid_multi(type_of(v)),
    decreases v,
{
    match v {
        Val::Variant(i) => lemma_valid_type(*i),
        Val::DictEntry(k, x) => {
            lemma_valid_type(*k);
            lemma_valid_type(*x);
        },
        Val::Struct(m) => lemma_valid_type(*m),
        Val::Append(x, xs) => {
            lemma_valid_type(*x);
            lemma_valid_type(*xs);
        },
        _ => {},
    }
}

impl<'a> Value<'a> {
    /// Whether every signature held or implied by a variant is shorter than
    /// 256 bytes, so that its one-byte length field holds it.
    pub fn signatures_fit(&self) -> (r: bool)
        ensures
            r == signatures_fit(self@),
        decreases self,
    {
        match self {
            Value::Signature(s) => s.as_bytes().len() < 256,
            Value::Variant(i) => i.type_of().signature().len() < 256 && i.signatures_fit(),
            Value::Array(_, es) => es.signatures_fit(),
            Value::DictEntry(k, x) => k.signatures_fit() && x.signatures_fit(),
            Value::Struct(m) => m.signatures_fit(),
            Value::Append(x, xs) => x.signatures_fit() && xs.signatures_fit(),
            _ => true,
        }
    }

    /// Whether this is a value of a one-character type other than a variant.
    pub fn is_basic(&self) -> (r: bool)
        ensures
            r == (self is Byte || self is Bool || self is Int16 || self is Uint16 || self is Int32
                || self is Uint32 || self is Int64 || self is Uint64 || self is Double || self is String
                || self is ObjectPath || self is Signature),
    {
        match self {
            Value::Byte(_) | Value::Bool(_) | Value::Int16(_) | Value::Uint16(_) | Value::Int32(_)
            | Value::Uint32(_) | Value::Int64(_) | Value::Uint64(_) | Value::Double(_) | Value::String(_)
            | Value::ObjectPath(_) | Value::Signature(_) => true,
            _ => false,
        }
    }

    /// The type of this value.
    pub fn type_of(&self) -> (r: Type)
        ensures
            r == type_of(self@),
        decreases self,
    {
        match self {
            Value::Byte(_) => Type::Byte,
            Value::Bool(_) => Type::Bool,
            Value::Int16(_) => Type::Int16,
            Value::Uint16(_) => Type::Uint16,
            Value::Int32(_) => Type::Int32,
            Value::Uint32(_) => Type::Uint32,
            Value::Int64(_) => Type::Int64,
            Value::Uint64(_) => Type::Uint64,
            Value::Double(_) => Type::Double,
            Value::String(_) => Type::String,
            Value::ObjectPath(_) => Type::ObjectPath,
            Value::Signature(_) => Type::Signature,
            Value::Variant(_) => Type::Variant,
            Value::Array(t, _) => Type::Array(Box::new(t.duplicate())),
            Value::DictEntry(k, x) => Type::DictEntry(Box::new(k.type_of()), Box::new(x.type_of())),
            Value::Struct(m) => Type::Struct(Box::new(m.type_of())),
            Value::Empty => Type::Empty,
            Value::Append(x, xs) => Type::Append(Box::new(x.type_of()), Box::new(xs.type_of())),
        }
    }
}

} // verus!
