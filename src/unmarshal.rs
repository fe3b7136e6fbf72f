//! The unmarshaller: a cursor over a byte slice that reads values of a given
//! type, and the token iterator in [`iter`].
use vstd::prelude::*;

use crate::align_up;
use crate::signature::{alignment, parse_single_at, Type, MAX_NESTING};
use crate::strings;
use crate::marshal::{enc, enc_signature, enc_string};
use crate::signature::{empty_members, empty_shape, lemma_parse_single_at, sig_text};
use crate::types::{
    elements_of, lemma_type_nesting, lemma_valid_type, type_of, valid_list, valid_value, value_nesting, Val,
    Value,
};
use crate::{lemma_split, pad};
use vstd::bytes::{spec_u16_from_le_bytes, spec_u32_from_le_bytes, spec_u64_from_le_bytes};
use vstd::slice::slice_subrange;

pub mod iter;

verus! {

/// Why a byte sequence could not be read as the expected data.
#[derive(Clone, Copy, Debug, PartialEq, Eq)]
pub enum Error {
    SignatureInvalidChar,
    UnexpectedType,
    InvalidEntrySize,
    NestingMismatched,
    NotEnoughData,
    InvalidHeader,
    UnsupportedEndian,
    NestingDepthExceeded,
}

pub type Result<T> = core::result::Result<T, Error>;


/// The start of a fixed-width field of `width` bytes aligned to `align`,
/// read at `pos`, if it ends by `end`.
pub open spec fn fixed_at(pos: nat, end: nat, align: nat, width: nat) -> Option<nat> {
    if align_up(pos, align) + width <= end {
        Some(align_up(pos, align))
    } else {
        None
    }
}

pub open spec fn u16_at(d: Seq<u8>, p: nat) -> u16 {
    spec_u16_from_le_bytes(d.subrange(p as int, p + 2int))
}

pub open spec fn u32_at(d: Seq<u8>, p: nat) -> u32 {
    spec_u32_from_le_bytes(d.subrange(p as int, p + 4int))
}

pub open spec fn u64_at(d: Seq<u8>, p: nat) -> u64 {
    spec_u64_from_le_bytes(d.subrange(p as int, p + 8int))
}

/// A string or object path at `pos`: its bytes and the bytes it takes.
pub open spec fn dec_string(d: Seq<u8>, pos: nat, end: nat) -> Result<(Seq<u8>, nat)> {
    match fixed_at(pos, end, 4, 4) {
        Some(p) => {
            let n = u32_at(d, p) as nat;
            if p + 4 + n + 1 <= end {
                Ok((d.subrange(p + 4int, p + 4 + n as int), (p + 4 + n + 1 - pos) as nat))
            } else {
                Err(Error::NotEnoughData)
            }
        },
        None => Err(Error::NotEnoughData),
    }
}

/// A signature blob at `pos`: its bytes and the bytes it takes.
pub open spec fn dec_signature(d: Seq<u8>, pos: nat, end: nat) -> Result<(Seq<u8>, nat)> {
    if pos + 1 <= end && pos + 1 + d[pos as int] + 1 <= end {
        let n = d[pos as int] as nat;
        Ok((d.subrange(pos + 1int, pos + 1 + n as int), n + 2))
    } else {
        Err(Error::NotEnoughData)
    }
}

/// Reads a value of type `t` from the bytes `d[pos..end]`, with no
/// composite open around it: the value and the number of bytes it takes,
/// alignment padding included.
pub open spec fn dec(t: Type, d: Seq<u8>, pos: nat, end: nat) -> Result<(Val, nat)> {
    dec_at(t, d, pos, end, 0)
}

/// Reads a value of type `t` from the bytes `d[pos..end]` with `depth`
/// composites (arrays, structs, dict entries, variants) open around it; a
/// composite that would be the 33rd open one is an error.
pub open spec fn dec_at(t: Type, d: Seq<u8>, pos: nat, end: nat, depth: nat) -> Result<(Val, nat)>
    decreases end - pos, t,
{
    if pos > end || end > d.len() {
        Err(Error::NotEnoughData)
    } else {
        match t {
            Type::Byte => if pos + 1 <= end {
                Ok((Val::Byte(d[pos as int]), 1))
            } else {
                Err(Error::NotEnoughData)
            },
            Type::Bool => match fixed_at(pos, end, 4, 4) {
                Some(p) => Ok((Val::Bool(u32_at(d, p) != 0), (p + 4 - pos) as nat)),
                None => Err(Error::NotEnoughData),
            },
            Type::Int16 => match fixed_at(pos, end, 2, 2) {
                Some(p) => Ok((Val::Int16(u16_at(d, p) as i16), (p + 2 - pos) as nat)),
                None => Err(Error::NotEnoughData),
            },
            Type::Uint16 => match fixed_at(pos, end, 2, 2) {
                Some(p) => Ok((Val::Uint16(u16_at(d, p)), (p + 2 - pos) as nat)),
                None => Err(Error::NotEnoughData),
            },
            Type::Int32 => match fixed_at(pos, end, 4, 4) {
                Some(p) => Ok((Val::Int32(u32_at(d, p) as i32), (p + 4 - pos) as nat)),
                None => Err(Error::NotEnoughData),
            },
            Type::Uint32 => match fixed_at(pos, end, 4, 4) {
                Some(p) => Ok((Val::Uint32(u32_at(d, p)), (p + 4 - pos) as nat)),
                None => Err(Error::NotEnoughData),
            },
            Type::Int64 => match fixed_at(pos, end, 8, 8) {
                Some(p) => Ok((Val::Int64(u64_at(d, p) as i64), (p + 8 - pos) as nat)),
                None => Err(Error::NotEnoughData),
            },
            Type::Uint64 => match fixed_at(pos, end, 8, 8) {
                Some(p) => Ok((Val::Uint64(u64_at(d, p)), (p + 8 - pos) as nat)),
                None => Err(Error::NotEnoughData),
            },
            Type::Double => match fixed_at(pos, end, 8, 8) {
                Some(p) => Ok((Val::Double(u64_at(d, p)), (p + 8 - pos) as nat)),
                None => Err(Error::NotEnoughData),
            },
            Type::String => match dec_string(d, pos, end) {
                Ok((s, n)) => Ok((Val::String(s), n)),
                Err(e) => Err(e),
            },
            Type::ObjectPath => match dec_string(d, pos, end) {
                Ok((s, n)) => Ok((Val::ObjectPath(s), n)),
                Err(e) => Err(e),
            },
            Type::Signature => match dec_signature(d, pos, end) {
                Ok((s, n)) => Ok((Val::Signature(s), n)),
                Err(e) => Err(e),
            },
            Type::Variant => if depth >= MAX_NESTING {
                Err(Error::NestingDepthExceeded)
            } else {
                match dec_signature(d, pos, end) {
                Ok((s, n)) => match parse_single_at(s, depth + 1) {
                    Ok(it) => match dec_at(it, d, pos + n, end, depth + 1) {
                        Ok((v, m)) => Ok((Val::Variant(Box::new(v)), n + m)),
                        Err(e) => Err(e),
                    },
                    Err(e) => Err(e),
                },
                Err(e) => Err(e),
                }
            },
            Type::Array(et) => if depth >= MAX_NESTING {
                Err(Error::NestingDepthExceeded)
            } else {
                match fixed_at(pos, end, 4, 4) {
                Some(p) => {
                    let n = u32_at(d, p) as nat;
                    let start = align_up(p + 4, alignment(*et));
                    if start + n <= end {
                        match dec_elements(t, d, start, start + n, depth + 1) {
                            Ok((es, _)) => Ok((Val::Array(*et, Box::new(es)), (start + n - pos) as nat)),
                            Err(e) => Err(e),
                        }
                    } else {
                        Err(Error::NotEnoughData)
                    }
                },
                None => Err(Error::NotEnoughData),
                }
            },
            Type::DictEntry(k, x) => {
                let q = align_up(pos, 8);
                if depth >= MAX_NESTING {
                    Err(Error::NestingDepthExceeded)
                } else if q > end {
                    Err(Error::NotEnoughData)
                } else {
                    match dec_at(*k, d, q, end, depth + 1) {
                        Ok((kv, nk)) => if q + nk > end {
                            Err(Error::NotEnoughData)
                        } else {
                            match dec_at(*x, d, q + nk, end, depth + 1) {
                                Ok((xv, nx)) => Ok(
                                    (
                                        Val::DictEntry(Box::new(kv), Box::new(xv)),
                                        (q + nk + nx - pos) as nat,
                                    ),
                                ),
                                Err(e) => Err(e),
                            }
                        },
                        Err(e) => Err(e),
                    }
                }
            },
            Type::Struct(m) => {
                let q = align_up(pos, 8);
                if depth >= MAX_NESTING {
                    Err(Error::NestingDepthExceeded)
                } else if q > end {
                    Err(Error::NotEnoughData)
                } else {
                    match dec_at(*m, d, q, end, depth + 1) {
                        Ok((mv, n)) => Ok((Val::Struct(Box::new(mv)), (q + n - pos) as nat)),
                        Err(e) => Err(e),
                    }
                }
            },
            Type::Empty => Ok((Val::Empty, 0)),
            Type::Append(x, xs) => match dec_at(*x, d, pos, end, depth) {
                Ok((xv, n1)) => if pos + n1 > end {
                    Err(Error::NotEnoughData)
                } else {
                    match dec_at(*xs, d, pos + n1, end, depth) {
                        Ok((xsv, n2)) => Ok((Val::Append(Box::new(xv), Box::new(xsv)), n1 + n2)),
                        Err(e) => Err(e),
                    }
                },
                Err(e) => Err(e),
            },
        }
    }
}

/// Reads a variant, with no composite open around it, that must hold a value
/// of type `t`: its signature is compared byte for byte with the text of `t`.
pub open spec fn dec_variant_of(t: Type, d: Seq<u8>, pos: nat, end: nat) -> Result<(Val, nat)> {
    match dec_signature(d, pos, end) {
        Ok((s, n)) => if s != sig_text(t) {
            Err(Error::UnexpectedType)
        } else {
            match dec_at(t, d, pos + n, end, 1) {
                Ok((v, m)) => Ok((Val::Variant(Box::new(v)), n + m)),
                Err(e) => Err(e),
            }
        },
        Err(e) => Err(e),
    }
}

/// Reads the elements of an array of type `at` that fill `d[pos..end]`,
/// each with `depth` composites open around it.
pub open spec fn dec_elements(at: Type, d: Seq<u8>, pos: nat, end: nat, depth: nat) -> Result<(Val, nat)>
    decreases end - pos, at,
{
    match at {
        Type::Array(et) => if pos >= end {
            Ok((Val::Empty, 0))
        } else {
            match dec_at(*et, d, pos, end, depth) {
                Ok((x, n)) => if n == 0 || pos + n > end {
                    Err(Error::UnexpectedType)
                } else {
                    match dec_elements(at, d, pos + n, end, depth) {
                        Ok((xs, m)) => Ok((Val::Append(Box::new(x), Box::new(xs)), n + m)),
                        Err(e) => Err(e),
                    }
                },
                Err(e) => Err(e),
            }
        },
        _ => Err(Error::UnexpectedType),
    }
}


proof fn lemma_fixed(d: Seq<u8>, pos: nat, end: nat, align: nat, bytes: Seq<u8>)
    requires
        align > 0,
        pos + pad(pos, align).len() + bytes.len() <= end <= d.len(),
        d.subrange(pos as int, (pos + pad(pos, align).len() + bytes.len()) as int) == pad(pos, align) + bytes,
    ensures
        fixed_at(pos, end, align, bytes.len()) == Some(pos + pad(pos, align).len()),
        d.subrange((pos + pad(pos, align).len()) as int, (pos + pad(pos, align).len() + bytes.len()) as int) == bytes,
{
    lemma_split(d, pos as int, pad(pos, align), bytes);
}

proof fn lemma_dec_string(s: Seq<u8>, d: Seq<u8>, pos: nat, end: nat)
    requires
        pos + enc_string(s, pos).len() <= end <= d.len(),
        enc_string(s, pos).len() < 0x1_0000_0000,
        d.subrange(pos as int, (pos + enc_string(s, pos).len()) as int) == enc_string(s, pos),
    ensures
        dec_string(d, pos, end) == Ok::<(Seq<u8>, nat), Error>((s, enc_string(s, pos).len())),
{
    vstd::bytes::lemma_auto_spec_u32_to_from_le_bytes();
    let pd = pad(pos, 4);
    let le = vstd::bytes::spec_u32_to_le_bytes(s.len() as u32);
    assert(enc_string(s, pos) == pd + le + s + seq![0u8]);
    assert(pd + le + s + seq![0u8] =~= pd + (le + (s + seq![0u8])));
    lemma_split(d, pos as int, pd, le + (s + seq![0u8]));
    lemma_split(d, (pos + pd.len()) as int, le, s + seq![0u8]);
    lemma_split(d, (pos + pd.len() + 4) as int, s, seq![0u8]);
    assert(u32_at(d, pos + pd.len()) == s.len() as u32);
}

proof fn lemma_dec_signature(s: Seq<u8>, d: Seq<u8>, pos: nat, end: nat)
    requires
        s.len() < 256,
        pos + enc_signature(s).len() <= end <= d.len(),
        d.subrange(pos as int, (pos + enc_signature(s).len()) as int) == enc_signature(s),
    ensures
        dec_signature(d, pos, end) == Ok::<(Seq<u8>, nat), Error>((s, enc_signature(s).len())),
{
    let l = seq![s.len() as u8];
    assert(enc_signature(s) =~= l + (s + seq![0u8]));
    lemma_split(d, pos as int, l, s + seq![0u8]);
    lemma_split(d, (pos + 1) as int, s, seq![0u8]);
    assert(d[pos as int] == d.subrange(pos as int, (pos + 1) as int)[0]);
}

/// Every well-formed value, but one that takes no bytes once aligned,
/// encodes to at least one byte.
proof fn lemma_enc_nonempty(v: Val, pos: nat)
    requires
        valid_value(v),
        !empty_shape(type_of(v)),
    ensures
        enc(v, pos).len() >= 1,
    decreases v,
{
    vstd::bytes::lemma_auto_spec_u16_to_from_le_bytes();
    vstd::bytes::lemma_auto_spec_u32_to_from_le_bytes();
    vstd::bytes::lemma_auto_spec_u64_to_from_le_bytes();
    match v {
        Val::DictEntry(k, x) => {
            let q = align_up(pos, 8);
            if empty_shape(type_of(*k)) {
                lemma_enc_nonempty(*x, q + enc(*k, q).len());
            } else {
                lemma_enc_nonempty(*k, q);
            }
            assert(enc(v, pos) == pad(pos, 8) + enc(*k, align_up(pos, 8)) + enc(
                *x,
                align_up(pos, 8) + enc(*k, align_up(pos, 8)).len(),
            ));
        },
        Val::Struct(m) => {
            assert(valid_list(*m));
            lemma_enc_list_nonempty(*m, align_up(pos, 8));
        },
        Val::Variant(i) => {
            assert(enc_signature(sig_text(type_of(*i))).len() >= 2);
        },
        _ => {},
    }
}

proof fn lemma_enc_list_nonempty(l: Val, pos: nat)
    requires
        valid_list(l),
        !empty_members(type_of(l)),
    ensures
        enc(l, pos).len() >= 1,
    decreases l,
{
    if let Val::Append(x, xs) = l {
        let xe = enc(*x, pos);
        if empty_shape(type_of(*x)) {
            lemma_enc_list_nonempty(*xs, pos + xe.len());
        } else {
            lemma_enc_nonempty(*x, pos);
        }
        assert(enc(l, pos) == xe + enc(*xs, pos + xe.len()));
    }
}

/// Reading the encoding of a well-formed value, with the type of the value,
/// gives the value back and takes exactly the bytes of the encoding.
#[verifier::rlimit(40)]
pub proof fn lemma_dec_enc(v: Val, d: Seq<u8>, pos: nat, end: nat, depth: nat)
    requires
        depth + value_nesting(v) <= MAX_NESTING,
        valid_value(v),
        pos + enc(v, pos).len() <= end <= d.len(),
        enc(v, pos).len() < 0x1_0000_0000,
        d.subrange(pos as int, (pos + enc(v, pos).len()) as int) == enc(v, pos),
    ensures
        dec_at(type_of(v), d, pos, end, depth) == Ok::<(Val, nat), Error>((v, enc(v, pos).len())),
    decreases v, 1nat,
{
    vstd::bytes::lemma_auto_spec_u16_to_from_le_bytes();
    vstd::bytes::lemma_auto_spec_u32_to_from_le_bytes();
    vstd::bytes::lemma_auto_spec_u64_to_from_le_bytes();
    let e = enc(v, pos);
    match v {
        Val::Variant(_) => lemma_dec_enc_variant(v, d, pos, end, depth),
        Val::Array(_, _) => lemma_dec_enc_array(v, d, pos, end, depth),
        Val::DictEntry(_, _) => lemma_dec_enc_entry(v, d, pos, end, depth),
        Val::Struct(_) => lemma_dec_enc_struct(v, d, pos, end, depth),
        _ => lemma_dec_enc_basic(v, d, pos, end, depth),
    }
}

#[verifier::rlimit(40)]
proof fn lemma_dec_enc_variant(v: Val, d: Seq<u8>, pos: nat, end: nat, depth: nat)
    requires
        depth + value_nesting(v) <= MAX_NESTING,
        v is Variant,
        valid_value(v),
        pos + enc(v, pos).len() <= end <= d.len(),
        enc(v, pos).len() < 0x1_0000_0000,
        d.subrange(pos as int, pos + enc(v, pos).len() as int) == enc(v, pos),
    ensures
        dec_at(type_of(v), d, pos, end, depth) == Ok::<(Val, nat), Error>((v, enc(v, pos).len())),
    decreases v, 0nat,
{
    vstd::bytes::lemma_auto_spec_u32_to_from_le_bytes();
    let e = enc(v, pos);
    match v {
        Val::Variant(i) => {
            let sig = sig_text(type_of(*i));
            let blob = enc_signature(sig);
            lemma_split(d, pos as int, blob, enc(*i, pos + blob.len()));
            lemma_dec_signature(sig, d, pos, end);
            lemma_valid_type(*i);
            lemma_type_nesting(*i);
            lemma_parse_single_at(type_of(*i), depth + 1);
            lemma_dec_enc(*i, d, pos + blob.len(), end, depth + 1);
        },
        _ => {},
    }
}

#[verifier::rlimit(40)]
proof fn lemma_dec_enc_entry(v: Val, d: Seq<u8>, pos: nat, end: nat, depth: nat)
    requires
        depth + value_nesting(v) <= MAX_NESTING,
        v is DictEntry,
        valid_value(v),
        pos + enc(v, pos).len() <= end <= d.len(),
        enc(v, pos).len() < 0x1_0000_0000,
        d.subrange(pos as int, pos + enc(v, pos).len() as int) == enc(v, pos),
    ensures
        dec_at(type_of(v), d, pos, end, depth) == Ok::<(Val, nat), Error>((v, enc(v, pos).len())),
    decreases v, 0nat,
{
    vstd::bytes::lemma_auto_spec_u32_to_from_le_bytes();
    let e = enc(v, pos);
    match v {
        Val::DictEntry(k, x) => {
            let q = align_up(pos, 8);
            let ke = enc(*k, q);
            let xe = enc(*x, q + ke.len());
            assert(e == pad(pos, 8) + ke + xe);
            assert(pad(pos, 8) + ke + xe =~= pad(pos, 8) + (ke + xe));
            lemma_split(d, pos as int, pad(pos, 8), ke + xe);
            lemma_split(d, q as int, ke, xe);
            lemma_dec_enc(*k, d, q, end, depth + 1);
            lemma_dec_enc(*x, d, q + ke.len(), end, depth + 1);
            assert(Val::DictEntry(Box::new(*k), Box::new(*x)) == v);
        },
        _ => {},
    }
}

#[verifier::rlimit(40)]
proof fn lemma_dec_enc_struct(v: Val, d: Seq<u8>, pos: nat, end: nat, depth: nat)
    requires
        depth + value_nesting(v) <= MAX_NESTING,
        v is Struct,
        valid_value(v),
        pos + enc(v, pos).len() <= end <= d.len(),
        enc(v, pos).len() < 0x1_0000_0000,
        d.subrange(pos as int, pos + enc(v, pos).len() as int) == enc(v, pos),
    ensures
        dec_at(type_of(v), d, pos, end, depth) == Ok::<(Val, nat), Error>((v, enc(v, pos).len())),
    decreases v, 0nat,
{
    vstd::bytes::lemma_auto_spec_u32_to_from_le_bytes();
    let e = enc(v, pos);
    match v {
        Val::Struct(m) => {
            let q = align_up(pos, 8);
            lemma_split(d, pos as int, pad(pos, 8), enc(*m, q));
            lemma_dec_enc_list(*m, d, q, end, depth + 1);
            assert(Val::Struct(Box::new(*m)) == v);
        },
        _ => {},
    }
}

#[verifier::rlimit(40)]
proof fn lemma_dec_enc_basic(v: Val, d: Seq<u8>, pos: nat, end: nat, depth: nat)
    requires
        depth + value_nesting(v) <= MAX_NESTING,
        !(v is Variant || v is Array || v is DictEntry || v is Struct || v is Empty || v is Append),
        valid_value(v),
        pos + enc(v, pos).len() <= end <= d.len(),
        enc(v, pos).len() < 0x1_0000_0000,
        d.subrange(pos as int, pos + enc(v, pos).len() as int) == enc(v, pos),
    ensures
        dec_at(type_of(v), d, pos, end, depth) == Ok::<(Val, nat), Error>((v, enc(v, pos).len())),
{
    vstd::bytes::lemma_auto_spec_u16_to_from_le_bytes();
    vstd::bytes::lemma_auto_spec_u32_to_from_le_bytes();
    vstd::bytes::lemma_auto_spec_u64_to_from_le_bytes();
    match v {
        Val::Byte(b) => {
            assert(d[pos as int] == d.subrange(pos as int, (pos + 1) as int)[0]);
        },
        Val::Bool(b) => {
            lemma_fixed(d, pos, end, 4, vstd::bytes::spec_u32_to_le_bytes(if b { 1u32 } else { 0u32 }));
        },
        Val::Int16(x) => {
            lemma_fixed(d, pos, end, 2, vstd::bytes::spec_u16_to_le_bytes(x as u16));
            assert(((x as u16) as i16) == x) by (bit_vector);
        },
        Val::Uint16(x) => {
            lemma_fixed(d, pos, end, 2, vstd::bytes::spec_u16_to_le_bytes(x));
        },
        Val::Int32(x) => {
            lemma_fixed(d, pos, end, 4, vstd::bytes::spec_u32_to_le_bytes(x as u32));
            assert(((x as u32) as i32) == x) by (bit_vector);
        },
        Val::Uint32(x) => {
            lemma_fixed(d, pos, end, 4, vstd::bytes::spec_u32_to_le_bytes(x));
        },
        Val::Int64(x) => {
            lemma_fixed(d, pos, end, 8, vstd::bytes::spec_u64_to_le_bytes(x as u64));
            assert(((x as u64) as i64) == x) by (bit_vector);
        },
        Val::Uint64(x) => {
            lemma_fixed(d, pos, end, 8, vstd::bytes::spec_u64_to_le_bytes(x));
        },
        Val::Double(x) => {
            lemma_fixed(d, pos, end, 8, vstd::bytes::spec_u64_to_le_bytes(x));
        },
        Val::String(s) => lemma_dec_string(s, d, pos, end),
        Val::ObjectPath(s) => lemma_dec_string(s, d, pos, end),
        Val::Signature(s) => lemma_dec_signature(s, d, pos, end),
        _ => {},
    }
}

#[verifier::rlimit(40)]
proof fn lemma_dec_enc_array(v: Val, d: Seq<u8>, pos: nat, end: nat, depth: nat)
    requires
        depth + value_nesting(v) <= MAX_NESTING,
        v is Array,
        valid_value(v),
        pos + enc(v, pos).len() <= end <= d.len(),
        enc(v, pos).len() < 0x1_0000_0000,
        d.subrange(pos as int, (pos + enc(v, pos).len()) as int) == enc(v, pos),
    ensures
        dec_at(type_of(v), d, pos, end, depth) == Ok::<(Val, nat), Error>((v, enc(v, pos).len())),
    decreases v, 0nat,
{
    vstd::bytes::lemma_auto_spec_u32_to_from_le_bytes();
    let e = enc(v, pos);
    if let Val::Array(t, es) = v {
            let len_at = align_up(pos, 4);
            let start = align_up(len_at + 4, alignment(t));
            let body = enc(*es, start);
            let pd = pad(pos, 4);
            let le = vstd::bytes::spec_u32_to_le_bytes(body.len() as u32);
            let pd2 = pad(len_at + 4, alignment(t));
            assert(e == pd + le + pd2 + body);
            assert(pd + le + pd2 + body =~= pd + (le + (pd2 + body)));
            lemma_split(d, pos as int, pd, le + (pd2 + body));
            lemma_split(d, len_at as int, le, pd2 + body);
            lemma_split(d, (len_at + 4) as int, pd2, body);
            assert(u32_at(d, len_at) == body.len() as u32);
            lemma_dec_elements(*es, t, d, start, depth + 1);
            assert(Val::Array(t, Box::new(*es)) == v);
        
    }
}

proof fn lemma_dec_enc_list(l: Val, d: Seq<u8>, pos: nat, end: nat, depth: nat)
    requires
        depth + value_nesting(l) <= MAX_NESTING,
        valid_list(l),
        pos + enc(l, pos).len() <= end <= d.len(),
        enc(l, pos).len() < 0x1_0000_0000,
        d.subrange(pos as int, (pos + enc(l, pos).len()) as int) == enc(l, pos),
    ensures
        dec_at(type_of(l), d, pos, end, depth) == Ok::<(Val, nat), Error>((l, enc(l, pos).len())),
    decreases l, 1nat,
{
    if let Val::Append(x, xs) = l {
        let xe = enc(*x, pos);
        lemma_split(d, pos as int, xe, enc(*xs, pos + xe.len()));
        lemma_dec_enc(*x, d, pos, end, depth);
        lemma_dec_enc_list(*xs, d, pos + xe.len(), end, depth);
        assert(Val::Append(Box::new(*x), Box::new(*xs)) == l);
    }
}

proof fn lemma_dec_elements(l: Val, t: Type, d: Seq<u8>, pos: nat, depth: nat)
    requires
        depth + value_nesting(l) <= MAX_NESTING,
        elements_of(l, t),
        empty_shape(t) ==> l is Empty,
        pos + enc(l, pos).len() <= d.len(),
        enc(l, pos).len() < 0x1_0000_0000,
        d.subrange(pos as int, (pos + enc(l, pos).len()) as int) == enc(l, pos),
    ensures
        dec_elements(Type::Array(Box::new(t)), d, pos, pos + enc(l, pos).len(), depth) == Ok::<
            (Val, nat),
            Error,
        >((l, enc(l, pos).len())),
    decreases l, 1nat,
{
    if let Val::Append(x, xs) = l {
        let end = pos + enc(l, pos).len();
        let xe = enc(*x, pos);
        lemma_split(d, pos as int, xe, enc(*xs, pos + xe.len()));
        lemma_enc_nonempty(*x, pos);
        lemma_dec_enc(*x, d, pos, end, depth);
        lemma_dec_elements(*xs, t, d, pos + xe.len(), depth);
        assert(Val::Append(Box::new(*x), Box::new(*xs)) == l);
    }
}

/// Round trip: a well-formed value that nests at most 32 composites and
/// whose encoding fits a 32-bit length reads back, with its own type, as
/// itself, and the read takes every byte.
pub proof fn lemma_round_trip(v: Val)
    requires
        valid_value(v),
        value_nesting(v) <= MAX_NESTING,
        enc(v, 0).len() < 0x1_0000_0000,
    ensures
        dec(type_of(v), enc(v, 0), 0, enc(v, 0).len()) == Ok::<(Val, nat), Error>((v, enc(v, 0).len())),
{
    assert(enc(v, 0).subrange((0) as int, enc(v, 0).len() as int) =~= enc(v, 0));
    lemma_dec_enc(v, enc(v, 0), 0, enc(v, 0).len(), 0);
}

/// `r` is what the spec decoder gives, read from `start` up to `after`.
pub open spec fn decoded<'a>(r: Result<Value<'a>>, s: Result<(Val, nat)>, start: nat, after: nat) -> bool {
    match s {
        Ok((v, n)) => r is Ok && r->Ok_0@ == v && after == start + n,
        Err(e) => r == Err::<Value<'a>, Error>(e),
    }
}

/// `r` is the value, or the error, that the spec decoder gives.
pub open spec fn decoded_value<'a>(r: Result<Value<'a>>, s: Result<(Val, nat)>) -> bool {
    match s {
        Ok((v, _)) => r is Ok && r->Ok_0@ == v,
        Err(e) => r == Err::<Value<'a>, Error>(e),
    }
}

/// A cursor over `data[count..len]`. Positions count from the start of
/// `data`, so that alignment is kept when a reader is narrowed.
#[derive(Clone, Copy)]
pub struct Reader<'a> {
    data: &'a [u8],
    count: usize,
    len: usize,
}

impl<'a> Reader<'a> {
    /// The whole buffer that the reader reads from.
    pub closed spec fn data(&self) -> Seq<u8> {
        self.data@
    }

    /// The position of the cursor.
    pub closed spec fn count(&self) -> nat {
        self.count as nat
    }

    /// The position where the readable bytes end.
    pub closed spec fn end(&self) -> nat {
        self.len as nat
    }

    pub closed spec fn wf(&self) -> bool {
        self.count <= self.len <= self.data@.len()
    }

    pub proof fn lemma_wf(&self)
        requires
            self.wf(),
        ensures
            self.count() <= self.end() <= self.data().len(),
    {
    }

    pub fn new(data: &'a [u8]) -> (r: Self)
        ensures
            r.wf(),
            r.data() == data@,
            r.count() == 0,
            r.end() == data@.len(),
    {
        Reader { data, count: 0, len: data.len() }
    }

    /// The position of the cursor.
    pub fn position(&self) -> (r: usize)
        ensures
            r == self.count(),
    {
        self.count
    }

    /// The bytes between the cursor and the end.
    pub fn remaining(&self) -> (r: &'a [u8])
        requires
            self.wf(),
        ensures
            r@ == self.data().subrange(self.count() as int, self.end() as int),
    {
        slice_subrange(self.data, self.count, self.len)
    }

    /// Moves the cursor `n` bytes on and gives a reader of the bytes passed.
    pub fn seek(&mut self, n: usize) -> (r: Result<Reader<'a>>)
        requires
            old(self).wf(),
        ensures
            final(self).wf(),
            final(self).data() == old(self).data(),
            final(self).end() == old(self).end(),
            old(self).count() + n <= old(self).end() ==> {
                &&& r is Ok
                &&& r->Ok_0.wf()
                &&& r->Ok_0.data() == old(self).data()
                &&& r->Ok_0.count() == old(self).count()
                &&& r->Ok_0.end() == old(self).count() + n
                &&& final(self).count() == old(self).count() + n
            },
            old(self).count() + n > old(self).end() ==> r == Err::<Reader<'a>, Error>(
                Error::NotEnoughData,
            ) && final(self).count() == old(self).count(),
    {
        if n > self.len - self.count {
            return Err(Error::NotEnoughData);
        }
        let res = Reader { data: self.data, count: self.count, len: self.count + n };
        self.count = self.count + n;
        Ok(res)
    }

    /// The cursor moved to the next multiple of `align`, if that is in range.
    fn aligned(&self, align: usize) -> (r: Result<usize>)
        requires
            self.wf(),
            0 < align <= 8,
        ensures
            align_up(self.count(), align as nat) <= self.end() ==> r == Ok::<usize, Error>(
                align_up(self.count(), align as nat) as usize,
            ),
            align_up(self.count(), align as nat) > self.end() ==> r == Err::<usize, Error>(
                Error::NotEnoughData,
            ),
    {
        let rem = self.count % align;
        let pad = if rem == 0 {
            0
        } else {
            align - rem
        };
        if pad > self.len - self.count {
            Err(Error::NotEnoughData)
        } else {
            Ok(self.count + pad)
        }
    }

    /// Moves the cursor to the next multiple of `align`.
    pub fn align_to(&mut self, align: usize) -> (r: Result<()>)
        requires
            old(self).wf(),
            0 < align <= 8,
        ensures
            final(self).wf(),
            final(self).data() == old(self).data(),
            final(self).end() == old(self).end(),
            align_up(old(self).count(), align as nat) <= old(self).end() ==> r is Ok
                && final(self).count() == align_up(old(self).count(), align as nat),
            align_up(old(self).count(), align as nat) > old(self).end() ==> r == Err::<(), Error>(
                Error::NotEnoughData,
            ),
    {
        match self.aligned(align) {
            Ok(p) => {
                self.count = p;
                Ok(())
            },
            Err(e) => Err(e),
        }
    }

    pub fn read_byte(&mut self) -> (r: Result<u8>)
        requires
            old(self).wf(),
        ensures
            final(self).wf(),
            final(self).data() == old(self).data(),
            final(self).end() == old(self).end(),
            old(self).count() < old(self).end() ==> r == Ok::<u8, Error>(
                old(self).data()[old(self).count() as int],
            ) && final(self).count() == old(self).count() + 1,
            old(self).count() >= old(self).end() ==> r == Err::<u8, Error>(Error::NotEnoughData),
    {
        if self.count >= self.len {
            return Err(Error::NotEnoughData);
        }
        let b = self.data[self.count];
        self.count = self.count + 1;
        Ok(b)
    }

    pub fn read_bytes(&mut self, n: usize) -> (r: Result<&'a [u8]>)
        requires
            old(self).wf(),
        ensures
            final(self).wf(),
            final(self).data() == old(self).data(),
            final(self).end() == old(self).end(),
            old(self).count() + n <= old(self).end() ==> r is Ok && r->Ok_0@ == old(self).data().subrange(
                old(self).count() as int,
                old(self).count() + n,
            ) && final(self).count() == old(self).count() + n,
            old(self).count() + n > old(self).end() ==> r == Err::<&'a [u8], Error>(
                Error::NotEnoughData,
            ),
    {
        if n > self.len - self.count {
            return Err(Error::NotEnoughData);
        }
        let res = slice_subrange(self.data, self.count, self.count + n);
        self.count = self.count + n;
        Ok(res)
    }

    /// Aligns to `align` and passes `width` bytes; gives where they start.
    fn read_fixed(&mut self, align: usize, width: usize) -> (r: Result<usize>)
        requires
            old(self).wf(),
            0 < align <= 8,
            width <= 8,
        ensures
            final(self).wf(),
            final(self).data() == old(self).data(),
            final(self).end() == old(self).end(),
            match fixed_at(old(self).count(), old(self).end(), align as nat, width as nat) {
                Some(p) => r == Ok::<usize, Error>(p as usize) && p == r->Ok_0 && final(self).count() == p
                    + width,
                None => r == Err::<usize, Error>(Error::NotEnoughData),
            },
    {
        match self.aligned(align) {
            Ok(p) => {
                if width > self.len - p {
                    return Err(Error::NotEnoughData);
                }
                self.count = p + width;
                Ok(p)
            },
            Err(e) => Err(e),
        }
    }

    fn u16_at(&self, p: usize) -> (r: u16)
        requires
            self.wf(),
            p + 2 <= self.end(),
        ensures
            r == u16_at(self.data(), p as nat),
    {
        vstd::bytes::u16_from_le_bytes(slice_subrange(self.data, p, p + 2))
    }

    fn u32_at(&self, p: usize) -> (r: u32)
        requires
            self.wf(),
            p + 4 <= self.end(),
        ensures
            r == u32_at(self.data(), p as nat),
    {
        vstd::bytes::u32_from_le_bytes(slice_subrange(self.data, p, p + 4))
    }

    fn u64_at(&self, p: usize) -> (r: u64)
        requires
            self.wf(),
            p + 8 <= self.end(),
        ensures
            r == u64_at(self.data(), p as nat),
    {
        vstd::bytes::u64_from_le_bytes(slice_subrange(self.data, p, p + 8))
    }

    /// Reads a string or object path and gives its bytes.
    fn next_string_like(&mut self) -> (r: Result<&'a [u8]>)
        requires
            old(self).wf(),
        ensures
            final(self).wf(),
            final(self).data() == old(self).data(),
            final(self).end() == old(self).end(),
            match dec_string(old(self).data(), old(self).count(), old(self).end()) {
                Ok((s, n)) => r is Ok && r->Ok_0@ == s && final(self).count() == old(self).count()
                    + n,
                Err(e) => r == Err::<&'a [u8], Error>(e),
            },
    {
        let p = match self.read_fixed(4, 4) {
            Ok(p) => p,
            Err(e) => return Err(e),
        };
        let n = self.u32_at(p) as usize;
        if n >= self.len - self.count {
            return Err(Error::NotEnoughData);
        }
        let res = slice_subrange(self.data, self.count, self.count + n);
        self.count = self.count + n + 1;
        Ok(res)
    }

    /// Reads a signature blob and gives its bytes.
    fn next_signature(&mut self) -> (r: Result<&'a [u8]>)
        requires
            old(self).wf(),
        ensures
            final(self).wf(),
            final(self).data() == old(self).data(),
            final(self).end() == old(self).end(),
            match dec_signature(old(self).data(), old(self).count(), old(self).end()) {
                Ok((s, n)) => r is Ok && r->Ok_0@ == s && final(self).count() == old(self).count()
                    + n,
                Err(e) => r == Err::<&'a [u8], Error>(e),
            },
    {
        let n = match self.read_byte() {
            Ok(b) => b as usize,
            Err(e) => return Err(e),
        };
        if n >= self.len - self.count {
            return Err(Error::NotEnoughData);
        }
        let res = slice_subrange(self.data, self.count, self.count + n);
        self.count = self.count + n + 1;
        Ok(res)
    }

    /// Reads a value of type `t`, with no composite open around it.
    pub fn read(&mut self, t: &Type) -> (r: Result<Value<'a>>)
        requires
            old(self).wf(),
        ensures
            final(self).wf(),
            final(self).data() == old(self).data(),
            final(self).end() == old(self).end(),
            decoded(r, dec(*t, old(self).data(), old(self).count(), old(self).end()), old(self).count(), final(self).count()),
    {
        self.read_at(t, 0)
    }

    /// Reads a value of type `t` with `depth` composites open around it.
    #[verifier::rlimit(40)]
    pub fn read_at(&mut self, t: &Type, depth: usize) -> (r: Result<Value<'a>>)
        requires
            old(self).wf(),
            depth <= MAX_NESTING,
        ensures
            final(self).wf(),
            final(self).data() == old(self).data(),
            final(self).end() == old(self).end(),
            decoded(r, dec_at(*t, old(self).data(), old(self).count(), old(self).end(), depth as nat), old(self).count(), final(self).count()),
        decreases old(self).end() - old(self).count(), t, 1nat,
    {
        match t {
            Type::Variant => self.read_variant(t, depth),
            Type::Array(_) => self.read_array(t, depth),
            Type::DictEntry(_, _) | Type::Struct(_) => self.read_nested(t, depth),
            Type::Empty | Type::Append(_, _) => self.read_list(t, depth),
            _ => self.read_fixed_width(t, depth),
        }
    }

    /// Reads a variant that must hold a value of type `t`; a variant of
    /// another signature is an `UnexpectedType` error.
    #[verifier::rlimit(40)]
    pub fn read_variant_of(&mut self, t: &Type) -> (r: Result<Value<'a>>)
        requires
            old(self).wf(),
        ensures
            final(self).wf(),
            final(self).data() == old(self).data(),
            final(self).end() == old(self).end(),
            decoded(r, dec_variant_of(*t, old(self).data(), old(self).count(), old(self).end()), old(self).count(), final(self).count()),
    {
        let sig = match self.next_signature() {
            Ok(s) => s,
            Err(e) => return Err(e),
        };
        let expected = t.signature();
        let mut same = sig.len() == expected.len();
        let mut i: usize = 0;
        while same && i < sig.len()
            invariant
                i <= sig@.len(),
                same ==> sig@.len() == expected@.len(),
                same ==> forall|j: int| 0 <= j < i ==> sig@[j] == expected@[j],
                !same ==> sig@ != expected@,
            decreases sig@.len() - i,
        {
            if sig[i] != expected[i] {
                same = false;
                assert(sig@[i as int] != expected@[i as int]);
            }
            i = i + 1;
        }
        if !same {
            return Err(Error::UnexpectedType);
        }
        assert(sig@ =~= expected@);
        match self.read_at(t, 1) {
            Ok(v) => Ok(Value::Variant(Box::new(v))),
            Err(e) => Err(e),
        }
    }

    #[verifier::rlimit(40)]
    fn read_fixed_width(&mut self, t: &Type, depth: usize) -> (r: Result<Value<'a>>)
        requires
            old(self).wf(),
            !(*t is Variant || *t is Array || *t is DictEntry || *t is Struct || *t is Empty || *t is Append),
        ensures
            final(self).wf(),
            final(self).data() == old(self).data(),
            final(self).end() == old(self).end(),
            decoded(r, dec_at(*t, old(self).data(), old(self).count(), old(self).end(), depth as nat), old(self).count(), final(self).count()),
    {
        let ghost d = self.data();
        let ghost pos = self.count();
        let ghost end = self.end();
        match t {
            Type::Byte => match self.read_byte() {
                Ok(b) => Ok(Value::Byte(b)),
                Err(e) => Err(e),
            },
            Type::Bool => match self.read_fixed(4, 4) {
                Ok(p) => Ok(Value::Bool(self.u32_at(p) != 0)),
                Err(e) => Err(e),
            },
            Type::Int16 => match self.read_fixed(2, 2) {
                Ok(p) => Ok(Value::Int16(self.u16_at(p) as i16)),
                Err(e) => Err(e),
            },
            Type::Uint16 => match self.read_fixed(2, 2) {
                Ok(p) => Ok(Value::Uint16(self.u16_at(p))),
                Err(e) => Err(e),
            },
            Type::Int32 => match self.read_fixed(4, 4) {
                Ok(p) => Ok(Value::Int32(self.u32_at(p) as i32)),
                Err(e) => Err(e),
            },
            Type::Uint32 => match self.read_fixed(4, 4) {
                Ok(p) => Ok(Value::Uint32(self.u32_at(p))),
                Err(e) => Err(e),
            },
            Type::Int64 => match self.read_fixed(8, 8) {
                Ok(p) => Ok(Value::Int64(self.u64_at(p) as i64)),
                Err(e) => Err(e),
            },
            Type::Uint64 => match self.read_fixed(8, 8) {
                Ok(p) => Ok(Value::Uint64(self.u64_at(p))),
                Err(e) => Err(e),
            },
            Type::Double => match self.read_fixed(8, 8) {
                Ok(p) => Ok(Value::Double(self.u64_at(p))),
                Err(e) => Err(e),
            },
            Type::String => match self.next_string_like() {
                Ok(s) => Ok(Value::String(strings::String::from_bytes(s))),
                Err(e) => Err(e),
            },
            Type::ObjectPath => match self.next_string_like() {
                Ok(s) => Ok(Value::ObjectPath(strings::ObjectPath::from_bytes(s))),
                Err(e) => Err(e),
            },
            Type::Signature => match self.next_signature() {
                Ok(s) => Ok(Value::Signature(strings::Signature::from_bytes(s))),
                Err(e) => Err(e),
            },
            _ => Err(Error::UnexpectedType),
        }
    }

    #[verifier::rlimit(40)]
    fn read_variant(&mut self, t: &Type, depth: usize) -> (r: Result<Value<'a>>)
        requires
            old(self).wf(),
            depth <= MAX_NESTING,
            *t is Variant,
        ensures
            final(self).wf(),
            final(self).data() == old(self).data(),
            final(self).end() == old(self).end(),
            decoded(r, dec_at(*t, old(self).data(), old(self).count(), old(self).end(), depth as nat), old(self).count(), final(self).count()),
        decreases old(self).end() - old(self).count(), t, 0nat,
    {
        let ghost d = self.data();
        let ghost pos = self.count();
        let ghost end = self.end();
        match t {
            Type::Variant => {
                if depth >= MAX_NESTING {
                    return Err(Error::NestingDepthExceeded);
                }
                let sig = match self.next_signature() {
                    Ok(s) => s,
                    Err(e) => return Err(e),
                };
                let it = match crate::signature::parse_signature_at(sig, depth + 1) {
                    Ok(it) => it,
                    Err(e) => return Err(e),
                };
                match self.read_at(&it, depth + 1) {
                    Ok(v) => Ok(Value::Variant(Box::new(v))),
                    Err(e) => Err(e),
                }
            },
            _ => Err(Error::UnexpectedType),
        }
    }

    #[verifier::rlimit(40)]
    fn read_array(&mut self, t: &Type, depth: usize) -> (r: Result<Value<'a>>)
        requires
            old(self).wf(),
            depth <= MAX_NESTING,
            *t is Array,
        ensures
            final(self).wf(),
            final(self).data() == old(self).data(),
            final(self).end() == old(self).end(),
            decoded(r, dec_at(*t, old(self).data(), old(self).count(), old(self).end(), depth as nat), old(self).count(), final(self).count()),
        decreases old(self).end() - old(self).count(), t, 0nat,
    {
        let ghost d = self.data();
        let ghost pos = self.count();
        let ghost end = self.end();
        match t {
            Type::Array(et) => {
                if depth >= MAX_NESTING {
                    return Err(Error::NestingDepthExceeded);
                }
                let p = match self.read_fixed(4, 4) {
                    Ok(p) => p,
                    Err(e) => return Err(e),
                };
                let n = self.u32_at(p) as usize;
                let a = et.alignment();
                match self.align_to(a) {
                    Ok(()) => {},
                    Err(e) => return Err(e),
                }
                proof {
                    crate::lemma_align_up((p + 4) as nat, a as nat);
                }
                let mut sub = match self.seek(n) {
                    Ok(sub) => sub,
                    Err(e) => return Err(e),
                };
                match read_elements(&mut sub, t, et, depth + 1) {
                    Ok(es) => Ok(Value::Array(et.duplicate(), Box::new(es))),
                    Err(e) => Err(e),
                }
            },
            _ => Err(Error::UnexpectedType),
        }
    }

    #[verifier::rlimit(40)]
    fn read_nested(&mut self, t: &Type, depth: usize) -> (r: Result<Value<'a>>)
        requires
            old(self).wf(),
            depth <= MAX_NESTING,
            *t is DictEntry || *t is Struct,
        ensures
            final(self).wf(),
            final(self).data() == old(self).data(),
            final(self).end() == old(self).end(),
            decoded(r, dec_at(*t, old(self).data(), old(self).count(), old(self).end(), depth as nat), old(self).count(), final(self).count()),
        decreases old(self).end() - old(self).count(), t, 0nat,
    {
        let ghost d = self.data();
        let ghost pos = self.count();
        let ghost end = self.end();
        match t {
            Type::DictEntry(k, x) => {
                if depth >= MAX_NESTING {
                    return Err(Error::NestingDepthExceeded);
                }
                match self.align_to(8) {
                    Ok(()) => {},
                    Err(e) => return Err(e),
                }
                proof {
                    crate::lemma_align_up(pos, 8);
                }
                let kv = match self.read_at(k, depth + 1) {
                    Ok(v) => v,
                    Err(e) => return Err(e),
                };
                match self.read_at(x, depth + 1) {
                    Ok(xv) => Ok(Value::DictEntry(Box::new(kv), Box::new(xv))),
                    Err(e) => Err(e),
                }
            },
            Type::Struct(m) => {
                if depth >= MAX_NESTING {
                    return Err(Error::NestingDepthExceeded);
                }
                match self.align_to(8) {
                    Ok(()) => {},
                    Err(e) => return Err(e),
                }
                proof {
                    crate::lemma_align_up(pos, 8);
                }
                match self.read_at(m, depth + 1) {
                    Ok(mv) => Ok(Value::Struct(Box::new(mv))),
                    Err(e) => Err(e),
                }
            },
            _ => Err(Error::UnexpectedType),
        }
    }

    #[verifier::rlimit(40)]
    fn read_list(&mut self, t: &Type, depth: usize) -> (r: Result<Value<'a>>)
        requires
            old(self).wf(),
            depth <= MAX_NESTING,
            *t is Empty || *t is Append,
        ensures
            final(self).wf(),
            final(self).data() == old(self).data(),
            final(self).end() == old(self).end(),
            decoded(r, dec_at(*t, old(self).data(), old(self).count(), old(self).end(), depth as nat), old(self).count(), final(self).count()),
        decreases old(self).end() - old(self).count(), t, 0nat,
    {
        let ghost d = self.data();
        let ghost pos = self.count();
        let ghost end = self.end();
        match t {
            Type::Empty => Ok(Value::Empty),
            Type::Append(x, xs) => {
                let xv = match self.read_at(x, depth) {
                    Ok(v) => v,
                    Err(e) => return Err(e),
                };
                match self.read_at(xs, depth) {
                    Ok(xsv) => Ok(Value::Append(Box::new(xv), Box::new(xsv))),
                    Err(e) => Err(e),
                }
            },
            _ => Err(Error::UnexpectedType),
        }
    }
}

/// The elements of an array, read one at a time.
pub struct ArrayIter<'a> {
    reader: Reader<'a>,
    element: Type,
}

impl<'a> ArrayIter<'a> {
    /// The reader over the array's elements.
    pub closed spec fn reader(&self) -> Reader<'a> {
        self.reader
    }

    /// The element type.
    pub closed spec fn element(&self) -> Type {
        self.element
    }

    /// Reads the length of an array of `element` values at the cursor of
    /// `r`, and passes the array's bytes, which the iterator then reads.
    pub fn new(r: &mut Reader<'a>, element: Type) -> (res: Result<ArrayIter<'a>>)
        requires
            old(r).wf(),
        ensures
            final(r).wf(),
            final(r).data() == old(r).data(),
            final(r).end() == old(r).end(),
            match fixed_at(old(r).count(), old(r).end(), 4, 4) {
                Some(p) => {
                    let n = u32_at(old(r).data(), p) as nat;
                    let start = align_up(p + 4, alignment(element));
                    if start + n <= old(r).end() {
                        &&& res is Ok
                        &&& res->Ok_0.reader().wf()
                        &&& res->Ok_0.reader().data() == old(r).data()
                        &&& res->Ok_0.reader().count() == start
                        &&& res->Ok_0.reader().end() == start + n
                        &&& res->Ok_0.element() == element
                        &&& final(r).count() == start + n
                    } else {
                        res == Err::<ArrayIter<'a>, Error>(Error::NotEnoughData)
                    }
                },
                None => res == Err::<ArrayIter<'a>, Error>(Error::NotEnoughData),
            },
    {
        let p = match r.read_fixed(4, 4) {
            Ok(p) => p,
            Err(e) => return Err(e),
        };
        let n = r.u32_at(p) as usize;
        let a = element.alignment();
        match r.align_to(a) {
            Ok(()) => {},
            Err(e) => return Err(e),
        }
        proof {
            crate::lemma_align_up((p + 4) as nat, a as nat);
        }
        match r.seek(n) {
            Ok(reader) => Ok(ArrayIter { reader, element }),
            Err(e) => Err(e),
        }
    }

    /// The next element, read inside the array; `None` once the array's
    /// bytes are used up.
    pub fn next(&mut self) -> (res: Option<Result<Value<'a>>>)
        requires
            old(self).reader().wf(),
        ensures
            final(self).reader().wf(),
            final(self).reader().data() == old(self).reader().data(),
            final(self).reader().end() == old(self).reader().end(),
            final(self).element() == old(self).element(),
            old(self).reader().count() == old(self).reader().end() ==> res is None,
            old(self).reader().count() < old(self).reader().end() ==> res is Some && decoded(
                res->Some_0,
                dec_at(
                    old(self).element(),
                    old(self).reader().data(),
                    old(self).reader().count(),
                    old(self).reader().end(),
                    1,
                ),
                old(self).reader().count(),
                final(self).reader().count(),
            ),
    {
        if self.reader.count >= self.reader.len {
            return None;
        }
        Some(self.reader.read_at(&self.element, 1))
    }
}

/// Reads the elements of an array of type `at`, whose element type is `et`,
/// each with `depth` composites open around it, until the reader is
/// exhausted.
#[verifier::rlimit(40)]
fn read_elements<'a>(r: &mut Reader<'a>, at: &Type, et: &Type, depth: usize) -> (res: Result<Value<'a>>)
    requires
        old(r).wf(),
        depth <= MAX_NESTING,
        *at == Type::Array(Box::new(*et)),
    ensures
        final(r).wf(),
        final(r).data() == old(r).data(),
        final(r).end() == old(r).end(),
        decoded(res, dec_elements(*at, old(r).data(), old(r).count(), old(r).end(), depth as nat), old(r).count(), final(r).count()),
    decreases old(r).end() - old(r).count(), at, 1nat,
{
    if r.position() >= r.len {
        return Ok(Value::Empty);
    }
    let start = r.position();
    let x = match r.read_at(et, depth) {
        Ok(x) => x,
        Err(e) => return Err(e),
    };
    if r.position() == start {
        return Err(Error::UnexpectedType);
    }
    match read_elements(r, at, et, depth) {
        Ok(xs) => Ok(Value::Append(Box::new(x), Box::new(xs))),
        Err(e) => Err(e),
    }
}

} // verus!
