//! The type tree that a signature describes, its text, its alignment, and the
//! parser that reads a signature text back into a tree.
use vstd::prelude::*;

use crate::unmarshal::Error;

verus! {

/// The most composites (arrays, structs, dict entries) that may be open at once.
pub const MAX_NESTING: usize = 32;

/// A type of the wire format. `Empty` and `Append` build a multi-signature,
/// a list of zero or more complete types (the members of a struct or the
/// arguments of a message body); every other variant is one complete type.
#[derive(Debug, PartialEq, Eq)]
pub enum Type {
    Byte,
    Bool,
    Int16,
    Uint16,
    Int32,
    Uint32,
    Int64,
    Uint64,
    Double,
    String,
    ObjectPath,
    Signature,
    Variant,
    Array(Box<Type>),
    DictEntry(Box<Type>, Box<Type>),
    Struct(Box<Type>),
    Empty,
    Append(Box<Type>, Box<Type>),
}

/// The signature character of a type that is written with one character.
pub open spec fn basic_char(t: Type) -> Option<u8> {
    match t {
        Type::Byte => Some(121u8),
        Type::Bool => Some(98u8),
        Type::Int16 => Some(110u8),
        Type::Uint16 => Some(113u8),
        Type::Int32 => Some(105u8),
        Type::Uint32 => Some(117u8),
        Type::Int64 => Some(120u8),
        Type::Uint64 => Some(116u8),
        Type::Double => Some(100u8),
        Type::String => Some(115u8),
        Type::ObjectPath => Some(111u8),
        Type::Signature => Some(103u8),
        Type::Variant => Some(118u8),
        _ => None,
    }
}

/// The type written with the single character `c`, if there is one.
pub open spec fn basic_of_char(c: u8) -> Option<Type> {
    if c == 121 {
        Some(Type::Byte)
    } else if c == 98 {
        Some(Type::Bool)
    } else if c == 110 {
        Some(Type::Int16)
    } else if c == 113 {
        Some(Type::Uint16)
    } else if c == 105 {
        Some(Type::Int32)
    } else if c == 117 {
        Some(Type::Uint32)
    } else if c == 120 {
        Some(Type::Int64)
    } else if c == 116 {
        Some(Type::Uint64)
    } else if c == 100 {
        Some(Type::Double)
    } else if c == 115 {
        Some(Type::String)
    } else if c == 111 {
        Some(Type::ObjectPath)
    } else if c == 103 {
        Some(Type::Signature)
    } else if c == 118 {
        Some(Type::Variant)
    } else {
        None
    }
}

/// The signature text of a type: its byte image.
pub open spec fn sig_text(t: Type) -> Seq<u8>
    decreases t,
{
    match t {
        Type::Array(e) => seq![97u8] + sig_text(*e),
        Type::DictEntry(k, v) => seq![123u8] + sig_text(*k) + sig_text(*v) + seq![125u8],
        Type::Struct(m) => seq![40u8] + sig_text(*m) + seq![41u8],
        Type::Empty => Seq::empty(),
        Type::Append(x, xs) => sig_text(*x) + sig_text(*xs),
        _ => seq![basic_char(t).unwrap()],
    }
}

/// The alignment of one value of a complete type.
pub open spec fn alignment(t: Type) -> nat {
    match t {
        Type::Byte | Type::Signature | Type::Variant => 1,
        Type::Int16 | Type::Uint16 => 2,
        Type::Bool | Type::Int32 | Type::Uint32 | Type::String | Type::ObjectPath | Type::Array(_) => 4,
        Type::Int64 | Type::Uint64 | Type::Double | Type::DictEntry(_, _) | Type::Struct(_) => 8,
        Type::Empty | Type::Append(_, _) => 1,
    }
}

/// How many composites are nested in a type, itself included.
pub open spec fn nesting(t: Type) -> nat
    decreases t,
{
    match t {
        Type::Array(e) => 1 + nesting(*e),
        Type::DictEntry(k, v) => 1 + if nesting(*k) >= nesting(*v) {
            nesting(*k)
        } else {
            nesting(*v)
        },
        Type::Struct(m) => 1 + nesting(*m),
        Type::Append(x, xs) => if nesting(*x) >= nesting(*xs) {
            nesting(*x)
        } else {
            nesting(*xs)
        },
        _ => 0,
    }
}

/// A complete type: one value of it is written with one signature.
pub open spec fn valid_single(t: Type) -> bool
    decreases t,
{
    match t {
        Type::Array(e) => valid_single(*e),
        Type::DictEntry(k, v) => valid_single(*k) && valid_single(*v),
        Type::Struct(m) => valid_multi(*m),
        Type::Empty | Type::Append(_, _) => false,
        _ => true,
    }
}

/// A list of complete types.
pub open spec fn valid_multi(t: Type) -> bool
    decreases t,
{
    match t {
        Type::Empty => true,
        Type::Append(x, xs) => valid_single(*x) && valid_multi(*xs),
        _ => false,
    }
}

/// Reads one complete type from `s` at `i`, with `depth` composites open
/// around it. Gives the type and the index after its text.
pub open spec fn parse_type(s: Seq<u8>, i: nat, depth: nat) -> Result<(Type, nat), Error>
    decreases s.len() - i, 0nat,
{
    if i >= s.len() {
        Err(Error::NestingMismatched)
    } else {
        let c = s[i as int];
        if basic_of_char(c) is Some {
            Ok((basic_of_char(c).unwrap(), i + 1))
        } else if c == 97 || c == 40 || c == 123 {
            if depth >= MAX_NESTING {
                Err(Error::NestingDepthExceeded)
            } else if c == 97 {
                match parse_type(s, i + 1, depth + 1) {
                    Ok((e, j)) => Ok((Type::Array(Box::new(e)), j)),
                    Err(err) => Err(err),
                }
            } else if c == 40 {
                match parse_members(s, i + 1, depth + 1) {
                    Ok((m, j)) => Ok((Type::Struct(Box::new(m)), j)),
                    Err(err) => Err(err),
                }
            } else {
                parse_entry(s, i + 1, depth + 1)
            }
        } else if c == 41 || c == 125 {
            Err(Error::NestingMismatched)
        } else {
            Err(Error::SignatureInvalidChar)
        }
    }
}

/// Reads the members of a struct up to and including its `)`.
pub open spec fn parse_members(s: Seq<u8>, i: nat, depth: nat) -> Result<(Type, nat), Error>
    decreases s.len() - i, 1nat,
{
    if i >= s.len() {
        Err(Error::NestingMismatched)
    } else if s[i as int] == 41 {
        Ok((Type::Empty, i + 1))
    } else {
        match parse_type(s, i, depth) {
            Ok((x, j)) => if j <= i || j > s.len() {
                Err(Error::NestingMismatched)
            } else {
                match parse_members(s, j, depth) {
                    Ok((xs, k)) => Ok((Type::Append(Box::new(x), Box::new(xs)), k)),
                    Err(err) => Err(err),
                }
            },
            Err(err) => Err(err),
        }
    }
}

/// Reads the key, the value and the `}` of a dict entry.
pub open spec fn parse_entry(s: Seq<u8>, i: nat, depth: nat) -> Result<(Type, nat), Error>
    decreases s.len() - i, 1nat,
{
    if i < s.len() && s[i as int] == 125 {
        Err(Error::InvalidEntrySize)
    } else {
        match parse_type(s, i, depth) {
        Ok((k, j)) => if j <= i || j >= s.len() {
            Err(Error::NestingMismatched)
        } else if s[j as int] == 125 {
            Err(Error::InvalidEntrySize)
        } else {
            match parse_type(s, j, depth) {
                Ok((v, l)) => if l >= s.len() {
                    Err(Error::NestingMismatched)
                } else if s[l as int] != 125 {
                    Err(Error::InvalidEntrySize)
                } else {
                    Ok((Type::DictEntry(Box::new(k), Box::new(v)), l + 1))
                },
                Err(err) => Err(err),
            }
        },
        Err(err) => Err(err),
    }
    }
}

/// Reads a signature that holds exactly one complete type.
pub open spec fn parse_single(s: Seq<u8>) -> Result<Type, Error> {
    parse_single_at(s, 0)
}

/// Reads a signature that holds exactly one complete type, with `depth`
/// composites open around it.
pub open spec fn parse_single_at(s: Seq<u8>, depth: nat) -> Result<Type, Error> {
    match parse_type(s, 0, depth) {
        Ok((t, j)) => if j == s.len() {
            Ok(t)
        } else {
            Err(Error::UnexpectedType)
        },
        Err(e) => Err(e),
    }
}


fn basic_from_byte(c: u8) -> (r: Option<Type>)
    ensures
        r == basic_of_char(c),
{
    match c {
        121u8 => Some(Type::Byte),
        98u8 => Some(Type::Bool),
        110u8 => Some(Type::Int16),
        113u8 => Some(Type::Uint16),
        105u8 => Some(Type::Int32),
        117u8 => Some(Type::Uint32),
        120u8 => Some(Type::Int64),
        116u8 => Some(Type::Uint64),
        100u8 => Some(Type::Double),
        115u8 => Some(Type::String),
        111u8 => Some(Type::ObjectPath),
        103u8 => Some(Type::Signature),
        118u8 => Some(Type::Variant),
        _ => None,
    }
}

/// The exec form of a spec parse result, with the index as `usize`.
pub open spec fn parsed(r: Result<(Type, usize), Error>, spec_r: Result<(Type, nat), Error>) -> bool {
    match r {
        Ok((t, j)) => spec_r == Ok::<(Type, nat), Error>((t, j as nat)),
        Err(e) => spec_r == Err::<(Type, nat), Error>(e),
    }
}

impl Type {
    /// A copy of the tree.
    pub fn duplicate(&self) -> (r: Type)
        ensures
            r == *self,
        decreases self,
    {
        match self {
            Type::Byte => Type::Byte,
            Type::Bool => Type::Bool,
            Type::Int16 => Type::Int16,
            Type::Uint16 => Type::Uint16,
            Type::Int32 => Type::Int32,
            Type::Uint32 => Type::Uint32,
            Type::Int64 => Type::Int64,
            Type::Uint64 => Type::Uint64,
            Type::Double => Type::Double,
            Type::String => Type::String,
            Type::ObjectPath => Type::ObjectPath,
            Type::Signature => Type::Signature,
            Type::Variant => Type::Variant,
            Type::Array(e) => Type::Array(Box::new(e.duplicate())),
            Type::DictEntry(k, v) => Type::DictEntry(Box::new(k.duplicate()), Box::new(v.duplicate())),
            Type::Struct(m) => Type::Struct(Box::new(m.duplicate())),
            Type::Empty => Type::Empty,
            Type::Append(x, xs) => Type::Append(Box::new(x.duplicate()), Box::new(xs.duplicate())),
        }
    }

    /// The alignment of one value of this type.
    pub fn alignment(&self) -> (r: usize)
        ensures
            r == alignment(*self),
    {
        match self {
            Type::Byte | Type::Signature | Type::Variant => 1,
            Type::Int16 | Type::Uint16 => 2,
            Type::Bool | Type::Int32 | Type::Uint32 | Type::String | Type::ObjectPath | Type::Array(_) => 4,
            Type::Int64 | Type::Uint64 | Type::Double | Type::DictEntry(_, _) | Type::Struct(_) => 8,
            Type::Empty | Type::Append(_, _) => 1,
        }
    }

    /// Appends the signature text of this type to `out`.
    pub fn write_signature(&self, out: &mut Vec<u8>)
        ensures
            final(out)@ == old(out)@ + sig_text(*self),
        decreases self,
    {
        match self {
            Type::Array(e) => {
                out.push(97u8);
                e.write_signature(out);
            },
            Type::DictEntry(k, v) => {
                out.push(123u8);
                k.write_signature(out);
                v.write_signature(out);
                out.push(125u8);
            },
            Type::Struct(m) => {
                out.push(40u8);
                m.write_signature(out);
                out.push(41u8);
            },
            Type::Empty => {},
            Type::Append(x, xs) => {
                x.write_signature(out);
                xs.write_signature(out);
            },
            Type::Byte => out.push(121u8),
            Type::Bool => out.push(98u8),
            Type::Int16 => out.push(110u8),
            Type::Uint16 => out.push(113u8),
            Type::Int32 => out.push(105u8),
            Type::Uint32 => out.push(117u8),
            Type::Int64 => out.push(120u8),
            Type::Uint64 => out.push(116u8),
            Type::Double => out.push(100u8),
            Type::String => out.push(115u8),
            Type::ObjectPath => out.push(111u8),
            Type::Signature => out.push(103u8),
            Type::Variant => out.push(118u8),
        }
        assert(final(out)@ =~= old(out)@ + sig_text(*self));
    }

    /// The signature text of this type.
    pub fn signature(&self) -> (r: Vec<u8>)
        ensures
            r@ == sig_text(*self),
    {
        let mut out: Vec<u8> = Vec::new();
        self.write_signature(&mut out);
        assert(out@ =~= sig_text(*self));
        out
    }
}

pub fn parse_type_at(s: &[u8], i: usize, depth: usize) -> (r: Result<(Type, usize), Error>)
    ensures
        parsed(r, parse_type(s@, i as nat, depth as nat)),
    decreases s@.len() - i, 0nat,
{
    if i >= s.len() {
        return Err(Error::NestingMismatched);
    }
    let c = s[i];
    match basic_from_byte(c) {
        Some(t) => return Ok((t, i + 1)),
        None => {},
    }
    if c == 97u8 || c == 40u8 || c == 123u8 {
        if depth >= MAX_NESTING {
            Err(Error::NestingDepthExceeded)
        } else if c == 97u8 {
            match parse_type_at(s, i + 1, depth + 1) {
                Ok((e, j)) => Ok((Type::Array(Box::new(e)), j)),
                Err(err) => Err(err),
            }
        } else if c == 40u8 {
            match parse_members_at(s, i + 1, depth + 1) {
                Ok((m, j)) => Ok((Type::Struct(Box::new(m)), j)),
                Err(err) => Err(err),
            }
        } else {
            parse_entry_at(s, i + 1, depth + 1)
        }
    } else if c == 41u8 || c == 125u8 {
        Err(Error::NestingMismatched)
    } else {
        Err(Error::SignatureInvalidChar)
    }
}

fn parse_members_at(s: &[u8], i: usize, depth: usize) -> (r: Result<(Type, usize), Error>)
    ensures
        parsed(r, parse_members(s@, i as nat, depth as nat)),
    decreases s@.len() - i, 1nat,
{
    if i >= s.len() {
        Err(Error::NestingMismatched)
    } else if s[i] == 41u8 {
        Ok((Type::Empty, i + 1))
    } else {
        match parse_type_at(s, i, depth) {
            Ok((x, j)) => if j <= i || j > s.len() {
                Err(Error::NestingMismatched)
            } else {
                match parse_members_at(s, j, depth) {
                    Ok((xs, k)) => Ok((Type::Append(Box::new(x), Box::new(xs)), k)),
                    Err(err) => Err(err),
                }
            },
            Err(err) => Err(err),
        }
    }
}

fn parse_entry_at(s: &[u8], i: usize, depth: usize) -> (r: Result<(Type, usize), Error>)
    ensures
        parsed(r, parse_entry(s@, i as nat, depth as nat)),
    decreases s@.len() - i, 1nat,
{
    if i < s.len() && s[i] == 125u8 {
        return Err(Error::InvalidEntrySize);
    }
    match parse_type_at(s, i, depth) {
        Ok((k, j)) => if j <= i || j >= s.len() {
            Err(Error::NestingMismatched)
        } else if s[j] == 125u8 {
            Err(Error::InvalidEntrySize)
        } else {
            match parse_type_at(s, j, depth) {
                Ok((v, l)) => if l >= s.len() {
                    Err(Error::NestingMismatched)
                } else if s[l] != 125u8 {
                    Err(Error::InvalidEntrySize)
                } else {
                    Ok((Type::DictEntry(Box::new(k), Box::new(v)), l + 1))
                },
                Err(err) => Err(err),
            }
        },
        Err(err) => Err(err),
    }
}

/// A successful read ends after its start and within the text.
pub proof fn lemma_parse_bounds(s: Seq<u8>, i: nat, depth: nat)
    ensures
        parse_type(s, i, depth) is Ok ==> i < parse_type(s, i, depth)->Ok_0.1 <= s.len(),
    decreases s.len() - i, 0nat,
{
    if i < s.len() {
        lemma_parse_bounds(s, i + 1, depth + 1);
        lemma_members_bounds(s, i + 1, depth + 1);
        lemma_entry_bounds(s, i + 1, depth + 1);
    }
}

proof fn lemma_members_bounds(s: Seq<u8>, i: nat, depth: nat)
    ensures
        parse_members(s, i, depth) is Ok ==> i < parse_members(s, i, depth)->Ok_0.1 <= s.len(),
    decreases s.len() - i, 1nat,
{
    if i < s.len() {
        lemma_parse_bounds(s, i, depth);
        if let Ok((_, j)) = parse_type(s, i, depth) {
            if i < j <= s.len() {
                lemma_members_bounds(s, j, depth);
            }
        }
    }
}

proof fn lemma_entry_bounds(s: Seq<u8>, i: nat, depth: nat)
    ensures
        parse_entry(s, i, depth) is Ok ==> i < parse_entry(s, i, depth)->Ok_0.1 <= s.len(),
    decreases s.len() - i, 1nat,
{
    if i < s.len() {
        lemma_parse_bounds(s, i, depth);
        if let Ok((_, j)) = parse_type(s, i, depth) {
            if i < j < s.len() {
                lemma_parse_bounds(s, j, depth);
            }
        }
    }
}

/// Reads a signature that holds exactly one complete type.
pub fn parse_signature(s: &[u8]) -> (r: Result<Type, Error>)
    ensures
        r == parse_single(s@),
{
    parse_signature_at(s, 0)
}

/// Reads a signature that holds exactly one complete type, with `depth`
/// composites open around it.
pub fn parse_signature_at(s: &[u8], depth: usize) -> (r: Result<Type, Error>)
    ensures
        r == parse_single_at(s@, depth as nat),
{
    match parse_type_at(s, 0, depth) {
        Ok((t, j)) => if j == s.len() {
            Ok(t)
        } else {
            Err(Error::UnexpectedType)
        },
        Err(e) => Err(e),
    }
}


/// The first character of the text of a complete type.
pub proof fn lemma_text_start(t: Type)
    requires
        valid_single(t),
    ensures
        sig_text(t).len() >= 1,
        basic_char(t) is Some ==> sig_text(t)[0] == basic_char(t).unwrap() && basic_of_char(
            sig_text(t)[0],
        ) == Some(t),
        basic_char(t) is None ==> basic_of_char(sig_text(t)[0]) is None,
        t is Array ==> sig_text(t)[0] == 97,
        t is Struct ==> sig_text(t)[0] == 40,
        t is DictEntry ==> sig_text(t)[0] == 123,
        sig_text(t)[0] != 41 && sig_text(t)[0] != 125,
{
}

/// Reading the text of a complete type gives the type back, where no more
/// than 32 composites are open at once.
#[verifier::rlimit(40)]
pub proof fn lemma_parse_text(t: Type, s: Seq<u8>, i: nat, depth: nat)
    requires
        valid_single(t),
        depth + nesting(t) <= MAX_NESTING,
        i + sig_text(t).len() <= s.len(),
        s.subrange(i as int, i + sig_text(t).len() as int) == sig_text(t),
    ensures
        parse_type(s, i, depth) == Ok::<(Type, nat), Error>((t, i + sig_text(t).len())),
    decreases t, 1nat,
{
    lemma_text_start(t);
    let text = sig_text(t);
    assert(s[i as int] == s.subrange(i as int, i + text.len() as int)[0]);
    match t {
        Type::Array(e) => {
            crate::lemma_split(s, i as int, seq![97u8], sig_text(*e));
            lemma_parse_text(*e, s, i + 1, depth + 1);
            assert(t == Type::Array(Box::new(*e)));
            assert(parse_type(s, i, depth) == Ok::<(Type, nat), Error>((Type::Array(Box::new(*e)), i + 1 + sig_text(*e).len())));
        },
        Type::Struct(m) => {
            assert(text =~= seq![40u8] + (sig_text(*m) + seq![41u8]));
            crate::lemma_split(s, i as int, seq![40u8], sig_text(*m) + seq![41u8]);
            lemma_parse_members(*m, s, i + 1, depth + 1);
            assert(t == Type::Struct(Box::new(*m)));
            assert(parse_type(s, i, depth) == Ok::<(Type, nat), Error>((t, i + sig_text(t).len())));
        },
        Type::DictEntry(k, v) => {
            assert(text =~= seq![123u8] + (sig_text(*k) + sig_text(*v) + seq![125u8]));
            crate::lemma_split(s, i as int, seq![123u8], sig_text(*k) + sig_text(*v) + seq![125u8]);
            assert(sig_text(*k) + sig_text(*v) + seq![125u8] =~= sig_text(*k) + (sig_text(*v) + seq![125u8]));
            crate::lemma_split(s, i + 1int, sig_text(*k), sig_text(*v) + seq![125u8]);
            crate::lemma_split(s, i + 1int + sig_text(*k).len(), sig_text(*v), seq![125u8]);
            lemma_text_start(*k);
            lemma_text_start(*v);
            let j = i + 1 + sig_text(*k).len();
            let l = j + sig_text(*v).len();
            assert(s[j as int] == s.subrange(j as int, j + sig_text(*v).len() as int)[0]);
            assert(s[l as int] == s.subrange(l as int, l + 1int)[0]);
            assert(s[(i + 1) as int] == s.subrange(i + 1int, i + 1 + sig_text(*k).len() as int)[0]);
            lemma_parse_text(*k, s, i + 1, depth + 1);
            lemma_parse_text(*v, s, j, depth + 1);
            assert(t == Type::DictEntry(Box::new(*k), Box::new(*v)));
            assert(parse_entry(s, i + 1, depth + 1) == Ok::<(Type, nat), Error>((t, i + sig_text(t).len())));
            assert(parse_type(s, i, depth) == Ok::<(Type, nat), Error>((t, i + sig_text(t).len())));
        },
        _ => {
            assert(basic_of_char(s[i as int]) == Some(t));
            assert(sig_text(t).len() == 1);
        },
    }
}

proof fn lemma_parse_members(m: Type, s: Seq<u8>, i: nat, depth: nat)
    requires
        valid_multi(m),
        depth + nesting(m) <= MAX_NESTING,
        i + sig_text(m).len() + 1 <= s.len(),
        s.subrange(i as int, i + sig_text(m).len() + 1int) == sig_text(m) + seq![41u8],
    ensures
        parse_members(s, i, depth) == Ok::<(Type, nat), Error>((m, i + sig_text(m).len() + 1)),
    decreases m, 1nat,
{
    match m {
        Type::Empty => {
            assert(s[i as int] == s.subrange(i as int, i + 1int)[0]);
        },
        Type::Append(x, xs) => {
            lemma_text_start(*x);
            assert(sig_text(m) + seq![41u8] =~= sig_text(*x) + (sig_text(*xs) + seq![41u8]));
            crate::lemma_split(s, i as int, sig_text(*x), sig_text(*xs) + seq![41u8]);
            assert(s[i as int] == s.subrange(i as int, i + sig_text(*x).len() as int)[0]);
            lemma_parse_text(*x, s, i, depth);
            lemma_parse_members(*xs, s, i + sig_text(*x).len(), depth);
        },
        _ => {},
    }
}

/// A type whose values take no bytes once aligned: a struct whose members
/// are all such types, the empty struct among them, or a dict entry of two.
pub open spec fn empty_shape(t: Type) -> bool
    decreases t,
{
    match t {
        Type::Struct(m) => empty_members(*m),
        Type::DictEntry(k, v) => empty_shape(*k) && empty_shape(*v),
        _ => false,
    }
}

/// A list of types whose values take no bytes once aligned.
pub open spec fn empty_members(m: Type) -> bool
    decreases m,
{
    match m {
        Type::Empty => true,
        Type::Append(x, xs) => empty_shape(*x) && empty_members(*xs),
        _ => false,
    }
}

/// The text of every complete type that nests at most 32 composites reads
/// back as that type.
pub proof fn lemma_parse_single(t: Type)
    requires
        valid_single(t),
        nesting(t) <= MAX_NESTING,
    ensures
        parse_single(sig_text(t)) == Ok::<Type, Error>(t),
{
    lemma_parse_single_at(t, 0);
}

/// The text of a complete type reads back as that type where, with `depth`
/// composites open around it, no more than 32 are open at once.
pub proof fn lemma_parse_single_at(t: Type, depth: nat)
    requires
        valid_single(t),
        depth + nesting(t) <= MAX_NESTING,
    ensures
        parse_single_at(sig_text(t), depth) == Ok::<Type, Error>(t),
{
    assert(sig_text(t).subrange(0, sig_text(t).len() as int) =~= sig_text(t));
    lemma_parse_text(t, sig_text(t), 0, depth);
}

} // verus!
