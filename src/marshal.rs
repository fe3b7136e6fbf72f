//! The marshaller: writes values to a [`Write`] sink.
use vstd::prelude::*;

pub mod writer;

use crate::signature::{alignment, sig_text};
use crate::types::{signatures_fit, type_of, Val, Value};
use crate::{align_up, pad};
use vstd::bytes::{spec_u16_to_le_bytes, spec_u32_to_le_bytes, spec_u64_to_le_bytes};
pub use writer::{Span, Write};

verus! {

/// A string or object path: its length as four bytes, aligned to 4, then its
/// bytes and a zero byte.
pub open spec fn enc_string(s: Seq<u8>, pos: nat) -> Seq<u8> {
    pad(pos, 4) + spec_u32_to_le_bytes(s.len() as u32) + s + seq![0u8]
}

/// A signature blob: its length as one byte, its bytes and a zero byte.
pub open spec fn enc_signature(s: Seq<u8>) -> Seq<u8> {
    seq![s.len() as u8] + s + seq![0u8]
}

/// The bytes that encode `v` when it is written at offset `pos` of a message.
pub open spec fn enc(v: Val, pos: nat) -> Seq<u8>
    decreases v,
{
    match v {
        Val::Byte(b) => seq![b],
        Val::Bool(b) => pad(pos, 4) + spec_u32_to_le_bytes(
            if b {
                1u32
            } else {
                0u32
            },
        ),
        Val::Int16(x) => pad(pos, 2) + spec_u16_to_le_bytes(x as u16),
        Val::Uint16(x) => pad(pos, 2) + spec_u16_to_le_bytes(x),
        Val::Int32(x) => pad(pos, 4) + spec_u32_to_le_bytes(x as u32),
        Val::Uint32(x) => pad(pos, 4) + spec_u32_to_le_bytes(x),
        Val::Int64(x) => pad(pos, 8) + spec_u64_to_le_bytes(x as u64),
        Val::Uint64(x) => pad(pos, 8) + spec_u64_to_le_bytes(x),
        Val::Double(x) => pad(pos, 8) + spec_u64_to_le_bytes(x),
        Val::String(s) => enc_string(s, pos),
        Val::ObjectPath(s) => enc_string(s, pos),
        Val::Signature(s) => enc_signature(s),
        Val::Variant(i) => {
            let sig = enc_signature(sig_text(type_of(*i)));
            sig + enc(*i, pos + sig.len())
        },
        Val::Array(t, es) => {
            let len_at = align_up(pos, 4);
            let start = align_up(len_at + 4, alignment(t));
            let body = enc(*es, start);
            pad(pos, 4) + spec_u32_to_le_bytes(body.len() as u32) + pad(len_at + 4, alignment(t))
                + body
        },
        Val::DictEntry(k, x) => {
            let start = align_up(pos, 8);
            let key = enc(*k, start);
            pad(pos, 8) + key + enc(*x, start + key.len())
        },
        Val::Struct(m) => pad(pos, 8) + enc(*m, align_up(pos, 8)),
        Val::Empty => Seq::empty(),
        Val::Append(x, xs) => {
            let first = enc(*x, pos);
            first + enc(*xs, pos + first.len())
        },
    }
}


fn write_string_like<W: Write>(w: &mut W, s: &[u8])
    requires
        old(w).pos() + enc_string(s@, old(w).pos()).len() + 8 <= usize::MAX,
    ensures
        final(w).pos() == old(w).pos() + enc_string(s@, old(w).pos()).len(),
        W::keeps_bytes() ==> final(w).bytes() == old(w).bytes() + enc_string(s@, old(w).pos()),
{
    w.align_to(4);
    let len = vstd::bytes::u32_to_le_bytes(s.len() as u32);
    w.write_bytes(len.as_slice());
    w.write_bytes(s);
    w.write_byte(0u8);
    assert(W::keeps_bytes() ==> final(w).bytes() =~= old(w).bytes() + enc_string(s@, old(w).pos()));
}

fn write_signature_blob<W: Write>(w: &mut W, s: &[u8])
    requires
        old(w).pos() + s@.len() + 2 <= usize::MAX,
    ensures
        final(w).pos() == old(w).pos() + enc_signature(s@).len(),
        W::keeps_bytes() ==> final(w).bytes() == old(w).bytes() + enc_signature(s@),
{
    w.write_byte(s.len() as u8);
    w.write_bytes(s);
    w.write_byte(0u8);
    assert(W::keeps_bytes() ==> final(w).bytes() =~= old(w).bytes() + enc_signature(s@));
}


#[verifier::rlimit(40)]
fn marshal_array<W: Write>(v: &Value, w: &mut W)
    requires
        v is Array,
        signatures_fit(v@),
        enc(v@, old(w).pos()).len() < 0x1_0000_0000,
        old(w).pos() + enc(v@, old(w).pos()).len() + 8 <= usize::MAX,
    ensures
        final(w).pos() == old(w).pos() + enc(v@, old(w).pos()).len(),
        W::keeps_bytes() ==> final(w).bytes() == old(w).bytes() + enc(v@, old(w).pos()),
    decreases v, 0nat,
{
    let ghost p0 = w.pos();
    let ghost e = enc(v@, p0);
    if let Value::Array(t, es) = v {
            proof {
                crate::lemma_align_up(p0, 4);
                crate::lemma_align_up(align_up(p0, 4) + 4, alignment(*t));
                vstd::bytes::lemma_auto_spec_u32_to_from_le_bytes();
                let len_at = align_up(p0, 4);
                let start = align_up(len_at + 4, alignment(*t));
                assert(e == pad(p0, 4) + spec_u32_to_le_bytes(enc(es@, start).len() as u32) + pad(
                    len_at + 4,
                    alignment(*t),
                ) + enc(es@, start));
            }
            let at = w.skip_aligned(4);
            let ghost b1 = w.bytes();
            let a = t.alignment();
            w.align_to(a);
            let begin = w.position();
            marshal_value(es, w);
            let len = w.position() - begin;
            let ghost b2 = w.bytes();
            proof {
                if W::keeps_bytes() {
                    w.lemma_len();
                }
            }
            w.insert(len as u32, at);
            }
    assert(W::keeps_bytes() ==> w.bytes() =~= old(w).bytes() + e);
}

/// Writes `v` at the sink's position; every length field holds its length.
#[verifier::rlimit(40)]
pub fn marshal_value<W: Write>(v: &Value, w: &mut W)
    requires
        signatures_fit(v@),
        enc(v@, old(w).pos()).len() < 0x1_0000_0000,
        old(w).pos() + enc(v@, old(w).pos()).len() + 8 <= usize::MAX,
    ensures
        final(w).pos() == old(w).pos() + enc(v@, old(w).pos()).len(),
        W::keeps_bytes() ==> final(w).bytes() == old(w).bytes() + enc(v@, old(w).pos()),
    decreases v, 1nat,
{
    let ghost p0 = w.pos();
    let ghost e = enc(v@, p0);
    match v {
        Value::Byte(b) => {
            w.write_byte(*b);
        },
        Value::Bool(b) => {
            w.align_to(4);
            let x: u32 = if *b { 1 } else { 0 };
            let bytes = vstd::bytes::u32_to_le_bytes(x);
            w.write_bytes(bytes.as_slice());
        },
        Value::Int16(x) => {
            w.align_to(2);
            let bytes = vstd::bytes::u16_to_le_bytes(*x as u16);
            w.write_bytes(bytes.as_slice());
        },
        Value::Uint16(x) => {
            w.align_to(2);
            let bytes = vstd::bytes::u16_to_le_bytes(*x);
            w.write_bytes(bytes.as_slice());
        },
        Value::Int32(x) => {
            w.align_to(4);
            let bytes = vstd::bytes::u32_to_le_bytes(*x as u32);
            w.write_bytes(bytes.as_slice());
        },
        Value::Uint32(x) => {
            w.align_to(4);
            let bytes = vstd::bytes::u32_to_le_bytes(*x);
            w.write_bytes(bytes.as_slice());
        },
        Value::Int64(x) => {
            w.align_to(8);
            let bytes = vstd::bytes::u64_to_le_bytes(*x as u64);
            w.write_bytes(bytes.as_slice());
        },
        Value::Uint64(x) | Value::Double(x) => {
            w.align_to(8);
            let bytes = vstd::bytes::u64_to_le_bytes(*x);
            w.write_bytes(bytes.as_slice());
        },
        Value::String(s) => {
            write_string_like(w, s.as_bytes());
        },
        Value::ObjectPath(s) => {
            write_string_like(w, s.as_bytes());
        },
        Value::Signature(s) => {
            write_signature_blob(w, s.as_bytes());
        },
        Value::Variant(i) => {
            let t = i.type_of();
            let sig = t.signature();
            write_signature_blob(w, sig.as_slice());
            marshal_value(i, w);
        },
        Value::Array(_, _) => marshal_array(v, w),
        Value::DictEntry(k, x) => {
            w.align_to(8);
            marshal_value(k, w);
            marshal_value(x, w);
        },
        Value::Struct(m) => {
            w.align_to(8);
            marshal_value(m, w);
        },
        Value::Empty => {},
        Value::Append(x, xs) => {
            marshal_value(x, w);
            marshal_value(xs, w);
        },
    }
    assert(W::keeps_bytes() ==> w.bytes() =~= old(w).bytes() + e);
}


/// Whether byte `i` of the encoding of `v` at `pos` is alignment padding.
pub open spec fn is_gap(v: Val, pos: nat, i: int) -> bool
    decreases v,
{
    match v {
        Val::Byte(_) | Val::Signature(_) | Val::Empty => false,
        Val::Bool(_) | Val::Int32(_) | Val::Uint32(_) | Val::String(_) | Val::ObjectPath(_) => 0 <= i
            < pad(pos, 4).len(),
        Val::Int16(_) | Val::Uint16(_) => 0 <= i < pad(pos, 2).len(),
        Val::Int64(_) | Val::Uint64(_) | Val::Double(_) => 0 <= i < pad(pos, 8).len(),
        Val::Variant(inner) => {
            let b = enc_signature(sig_text(type_of(*inner))).len();
            i >= b && is_gap(*inner, pos + b, i - b)
        },
        Val::Array(t, es) => {
            let lead = pad(pos, 4).len();
            let len_at = align_up(pos, 4);
            let inner = pad(len_at + 4, alignment(t)).len();
            let start = align_up(len_at + 4, alignment(t));
            (0 <= i < lead) || (lead + 4 <= i < lead + 4 + inner) || (i >= start - pos && is_gap(
                *es,
                start,
                i - (start - pos),
            ))
        },
        Val::DictEntry(k, x) => {
            let lead = pad(pos, 8).len();
            let q = align_up(pos, 8);
            let kl = enc(*k, q).len();
            (0 <= i < lead) || (lead <= i < lead + kl && is_gap(*k, q, i - lead)) || (i >= lead + kl
                && is_gap(*x, q + kl, i - lead - kl))
        },
        Val::Struct(m) => {
            let lead = pad(pos, 8).len();
            (0 <= i < lead) || (i >= lead && is_gap(*m, align_up(pos, 8), i - lead))
        },
        Val::Append(x, xs) => {
            let xl = enc(*x, pos).len();
            (0 <= i < xl && is_gap(*x, pos, i)) || (i >= xl && is_gap(*xs, pos + xl, i - xl))
        },
    }
}

#[verifier::rlimit(40)]
proof fn lemma_gap_zero(v: Val, pos: nat, i: int)
    requires
        0 <= i < enc(v, pos).len(),
        is_gap(v, pos, i),
    ensures
        enc(v, pos)[i] == 0,
    decreases v,
{
    match v {
        Val::Variant(inner) => {
            let b = enc_signature(sig_text(type_of(*inner))).len();
            lemma_gap_zero(*inner, pos + b, i - b);
        },
        Val::Array(t, es) => {
            let lead = pad(pos, 4).len();
            let len_at = align_up(pos, 4);
            let start = align_up(len_at + 4, alignment(t));
            let le = spec_u32_to_le_bytes(enc(*es, start).len() as u32);
            vstd::bytes::lemma_auto_spec_u32_to_from_le_bytes();
            if i >= start - pos && is_gap(*es, start, i - (start - pos)) {
                crate::lemma_align_up(pos, 4);
                crate::lemma_align_up(len_at + 4, alignment(t));
                lemma_gap_zero(*es, start, i - (start - pos));
            }
        },
        Val::DictEntry(k, x) => {
            let lead = pad(pos, 8).len();
            let q = align_up(pos, 8);
            let kl = enc(*k, q).len();
            if lead <= i < lead + kl && is_gap(*k, q, i - lead) {
                lemma_gap_zero(*k, q, i - lead);
            } else if i >= lead + kl && is_gap(*x, q + kl, i - lead - kl) {
                lemma_gap_zero(*x, q + kl, i - lead - kl);
            }
        },
        Val::Struct(m) => {
            let lead = pad(pos, 8).len();
            if i >= lead && is_gap(*m, align_up(pos, 8), i - lead) {
                lemma_gap_zero(*m, align_up(pos, 8), i - lead);
            }
        },
        Val::Append(x, xs) => {
            let xl = enc(*x, pos).len();
            if 0 <= i < xl && is_gap(*x, pos, i) {
                lemma_gap_zero(*x, pos, i);
            } else if i >= xl && is_gap(*xs, pos + xl, i - xl) {
                lemma_gap_zero(*xs, pos + xl, i - xl);
            }
        },
        _ => {},
    }
}

/// The marshaller writes only zero bytes into alignment padding, for every
/// value at every position.
pub proof fn lemma_padding_is_zero(v: Val, pos: nat)
    ensures
        forall|i: int| 0 <= i < enc(v, pos).len() && #[trigger] is_gap(v, pos, i) ==> enc(v, pos)[i] == 0,
{
    assert forall|i: int| 0 <= i < enc(v, pos).len() && #[trigger] is_gap(v, pos, i) implies enc(v, pos)[i]
        == 0 by {
        lemma_gap_zero(v, pos, i);
    }
}

/// Where the encoding of `v` written at `pos` ends, if that is at most
/// `limit`.
pub fn end_within(v: &Value, pos: usize, limit: usize) -> (r: Option<usize>)
    requires
        pos <= limit,
        limit + 16 <= usize::MAX,
    ensures
        pos + enc(v@, pos as nat).len() <= limit ==> r == Some((pos + enc(v@, pos as nat).len()) as usize),
        pos + enc(v@, pos as nat).len() > limit ==> r is None,
    decreases v,
{
    proof {
        vstd::bytes::lemma_auto_spec_u16_to_from_le_bytes();
        vstd::bytes::lemma_auto_spec_u32_to_from_le_bytes();
        vstd::bytes::lemma_auto_spec_u64_to_from_le_bytes();
    }
    match v {
        Value::Byte(_) => if pos < limit {
            Some(pos + 1)
        } else {
            None
        },
        Value::Bool(_) | Value::Int32(_) | Value::Uint32(_) => fixed_end(pos, 4, 4, limit),
        Value::Int16(_) | Value::Uint16(_) => fixed_end(pos, 2, 2, limit),
        Value::Int64(_) | Value::Uint64(_) | Value::Double(_) => fixed_end(pos, 8, 8, limit),
        Value::String(s) => string_end(pos, s.as_bytes().len(), limit),
        Value::ObjectPath(s) => string_end(pos, s.as_bytes().len(), limit),
        Value::Signature(s) => blob_end(pos, s.as_bytes().len(), limit),
        Value::Variant(i) => {
            let sig = i.type_of().signature();
            match blob_end(pos, sig.len(), limit) {
                Some(b) => end_within(i, b, limit),
                None => None,
            }
        },
        Value::Array(t, es) => {
            let p = crate::aligned(pos, 4);
            proof {
                crate::lemma_align_up(pos as nat, 4);
            }
            if p + 4 > limit {
                return None;
            }
            let start = crate::aligned(p + 4, t.alignment());
            proof {
                crate::lemma_align_up((p + 4) as nat, alignment(*t));
            }
            if start > limit {
                return None;
            }
            end_within(es, start, limit)
        },
        Value::DictEntry(k, x) => {
            let q = crate::aligned(pos, 8);
            if q > limit {
                return None;
            }
            match end_within(k, q, limit) {
                Some(e) => end_within(x, e, limit),
                None => None,
            }
        },
        Value::Struct(m) => {
            let q = crate::aligned(pos, 8);
            if q > limit {
                return None;
            }
            end_within(m, q, limit)
        },
        Value::Empty => Some(pos),
        Value::Append(x, xs) => match end_within(x, pos, limit) {
            Some(e) => end_within(xs, e, limit),
            None => None,
        },
    }
}

fn fixed_end(pos: usize, align: usize, width: usize, limit: usize) -> (r: Option<usize>)
    requires
        pos <= limit,
        limit + 16 <= usize::MAX,
        0 < align <= 8,
        width <= 8,
    ensures
        pos + pad(pos as nat, align as nat).len() + width <= limit ==> r == Some(
            (pos + pad(pos as nat, align as nat).len() + width) as usize,
        ),
        pos + pad(pos as nat, align as nat).len() + width > limit ==> r is None,
{
    let p = crate::aligned(pos, align);
    if p + width <= limit {
        Some(p + width)
    } else {
        None
    }
}

fn string_end(pos: usize, n: usize, limit: usize) -> (r: Option<usize>)
    requires
        pos <= limit,
        limit + 16 <= usize::MAX,
    ensures
        pos + pad(pos as nat, 4).len() + 4 + n + 1 <= limit ==> r == Some(
            (pos + pad(pos as nat, 4).len() + 4 + n + 1) as usize,
        ),
        pos + pad(pos as nat, 4).len() + 4 + n + 1 > limit ==> r is None,
{
    let p = crate::aligned(pos, 4);
    if p + 4 > limit {
        return None;
    }
    let room = limit - (p + 4);
    if n < room {
        Some(p + 4 + n + 1)
    } else {
        None
    }
}

fn blob_end(pos: usize, n: usize, limit: usize) -> (r: Option<usize>)
    requires
        pos <= limit,
    ensures
        pos + n + 2 <= limit ==> r == Some((pos + n + 2) as usize),
        pos + n + 2 > limit ==> r is None,
{
    let room = limit - pos;
    if n < room && room - n >= 2 {
        Some(pos + n + 2)
    } else {
        None
    }
}

/// The size of the encoding of `v` written at offset 0.
pub fn calc_size(v: &Value) -> (r: usize)
    requires
        signatures_fit(v@),
        enc(v@, 0).len() < 0x1_0000_0000,
        enc(v@, 0).len() + 8 <= usize::MAX,
    ensures
        r == enc(v@, 0).len(),
{
    let mut count: usize = 0;
    marshal_value(v, &mut count);
    count
}

/// The encoding of `v` written at offset 0.
pub fn marshal(v: &Value) -> (r: Vec<u8>)
    requires
        signatures_fit(v@),
        enc(v@, 0).len() < 0x1_0000_0000,
        enc(v@, 0).len() + 8 <= usize::MAX,
    ensures
        r@ == enc(v@, 0),
{
    let mut span = Span::new();
    marshal_value(v, &mut span);
    assert(span.bytes() =~= enc(v@, 0));
    span.into_bytes()
}


/// Writes the encoding of `v` at the start of `buf`, where it fits, and
/// gives its size; the rest of `buf` is left as it is.
pub fn write(v: &Value, buf: &mut [u8]) -> (r: Result<usize, ()>)
    requires
        signatures_fit(v@),
        enc(v@, 0).len() < 0x1_0000_0000,
        enc(v@, 0).len() + 8 <= usize::MAX,
    ensures
        enc(v@, 0).len() <= old(buf)@.len() ==> r == Ok::<usize, ()>(enc(v@, 0).len() as usize)
            && final(buf)@ == enc(v@, 0) + old(buf)@.subrange(enc(v@, 0).len() as int, old(buf)@.len() as int),
        enc(v@, 0).len() > old(buf)@.len() ==> r == Err::<usize, ()>(()) && final(buf)@ == old(buf)@,
{
    let size = calc_size(v);
    if size > buf.len() {
        return Err(());
    }
    let bytes = marshal(v);
    let mut i: usize = 0;
    while i < size
        invariant
            i <= size,
            size == bytes@.len(),
            size <= buf@.len(),
            buf@.len() == old(buf)@.len(),
            forall|j: int| 0 <= j < i ==> buf@[j] == bytes@[j],
            forall|j: int| size <= j < buf@.len() ==> buf@[j] == old(buf)@[j],
        decreases size - i,
    {
        buf[i] = bytes[i];
        i = i + 1;
    }
    assert(buf@ =~= enc(v@, 0) + old(buf)@.subrange(size as int, old(buf)@.len() as int));
    Ok(size)
}

} // verus!
