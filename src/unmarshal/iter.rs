//! The token iterator: a signature-driven walk over encoded data that yields
//! one token per value, and an open and a close token per composite.
use vstd::prelude::*;

use crate::signature::{
    alignment, parse_entry,
    basic_of_char, lemma_parse_text, nesting, parse_type, sig_text, valid_multi, valid_single, Type,
    MAX_NESTING,
};
use crate::stack::Stack;
use crate::strings;
use crate::types::{Val, Value};
use crate::unmarshal::{dec, dec_signature, fixed_at, u32_at, Error, Reader};
use crate::align_up;

verus! {

/// What one signature character stands for.
#[derive(Clone, Copy, Debug, PartialEq, Eq)]
pub enum TokenKind {
    U8,
    Bool,
    I16,
    U16,
    I32,
    U32,
    I64,
    U64,
    F64,
    String,
    Object,
    Signature,
    Variant,
    Array,
    StructOpen,
    StructClose,
    EntryOpen,
    EntryClose,
}

pub open spec fn kind_of_basic(t: Type) -> TokenKind {
    match t {
        Type::Byte => TokenKind::U8,
        Type::Bool => TokenKind::Bool,
        Type::Int16 => TokenKind::I16,
        Type::Uint16 => TokenKind::U16,
        Type::Int32 => TokenKind::I32,
        Type::Uint32 => TokenKind::U32,
        Type::Int64 => TokenKind::I64,
        Type::Uint64 => TokenKind::U64,
        Type::Double => TokenKind::F64,
        Type::String => TokenKind::String,
        Type::ObjectPath => TokenKind::Object,
        Type::Signature => TokenKind::Signature,
        _ => TokenKind::Variant,
    }
}

/// The type of the value that a token kind reads, for the kinds that read one.
pub open spec fn type_of_kind(k: TokenKind) -> Option<Type> {
    match k {
        TokenKind::U8 => Some(Type::Byte),
        TokenKind::Bool => Some(Type::Bool),
        TokenKind::I16 => Some(Type::Int16),
        TokenKind::U16 => Some(Type::Uint16),
        TokenKind::I32 => Some(Type::Int32),
        TokenKind::U32 => Some(Type::Uint32),
        TokenKind::I64 => Some(Type::Int64),
        TokenKind::U64 => Some(Type::Uint64),
        TokenKind::F64 => Some(Type::Double),
        TokenKind::String => Some(Type::String),
        TokenKind::Object => Some(Type::ObjectPath),
        TokenKind::Signature => Some(Type::Signature),
        _ => None,
    }
}

impl TokenKind {
    /// The alignment of a value that starts with this kind.
    pub fn alignment(self) -> (r: usize)
        ensures
            type_of_kind(self) is Some ==> r == alignment(type_of_kind(self).unwrap()),
            self is Array ==> r == 4,
            self is StructOpen || self is EntryOpen ==> r == 8,
            self is Variant || self is StructClose || self is EntryClose ==> r == 1,
    {
        match self {
            TokenKind::U8 | TokenKind::Signature | TokenKind::Variant => 1,
            TokenKind::I16 | TokenKind::U16 => 2,
            TokenKind::I32 | TokenKind::U32 | TokenKind::Bool | TokenKind::String
            | TokenKind::Object | TokenKind::Array => 4,
            TokenKind::I64 | TokenKind::U64 | TokenKind::F64 | TokenKind::StructOpen
            | TokenKind::EntryOpen => 8,
            TokenKind::StructClose | TokenKind::EntryClose => 1,
        }
    }
}

/// Why a step of the signature walk yields no token.
#[derive(Clone, Copy, Debug, PartialEq, Eq)]
pub enum IterErr {
    EndOfIteration,
    Error(Error),
}

/// A composite that is open during the walk.
pub enum Nesting<'a> {
    Struct,
    /// A dict entry and how many of its two children have been seen.
    Entry(u8),
    /// A variant, with the walk of the signature around it.
    Variant(SignatureIter<'a>),
}

/// The model of a [`Nesting`] frame.
pub enum Frame {
    Struct,
    Entry(u8),
    Variant,
}

pub open spec fn frame_of(n: Nesting<'_>) -> Frame {
    match n {
        Nesting::Struct => Frame::Struct,
        Nesting::Entry(c) => Frame::Entry(c),
        Nesting::Variant(_) => Frame::Variant,
    }
}

pub type NestingStack<'a> = Stack<Nesting<'a>, MAX_NESTING>;

pub open spec fn frames(s: Seq<Nesting<'_>>) -> Seq<Frame> {
    s.map_values(|n: Nesting<'_>| frame_of(n))
}

/// A walk over a signature text.
pub struct SignatureIter<'a> {
    data: &'a [u8],
    pos: usize,
}

/// One step of the signature walk: the kind and the signature bytes that
/// come with it (the element type, for an array).
#[derive(Clone, Copy, Debug, PartialEq, Eq)]
pub struct SignatureToken<'a> {
    pub kind: TokenKind,
    pub payload: &'a [u8],
}

/// The stack after a complete child of the innermost composite: a dict
/// entry counts its children and refuses a third.
pub open spec fn count_child(st: Seq<Frame>) -> Result<Seq<Frame>, Error> {
    if st.len() > 0 && st.last() is Entry {
        if st.last()->Entry_0 >= 2 {
            Err(Error::InvalidEntrySize)
        } else {
            Ok(st.update(st.len() - 1, Frame::Entry((st.last()->Entry_0 + 1) as u8)))
        }
    } else {
        Ok(st)
    }
}

/// What one step of the signature walk does at `pos` of `s`: the token (its
/// kind and payload range) or why there is none, the next position and the
/// next stack.
pub open spec fn sig_step(s: Seq<u8>, pos: nat, st: Seq<Frame>) -> (
    Result<(TokenKind, nat, nat), IterErr>,
    nat,
    Seq<Frame>,
) {
    if pos >= s.len() {
        if st.len() == 0 || st.last() is Variant {
            (Err(IterErr::EndOfIteration), pos, st)
        } else {
            (Err(IterErr::Error(Error::NestingMismatched)), pos, st)
        }
    } else {
        let c = s[pos as int];
        if basic_of_char(c) is Some {
            match count_child(st) {
                Ok(st2) => (Ok((kind_of_basic(basic_of_char(c).unwrap()), pos + 1, pos + 1)), pos + 1, st2),
                Err(e) => (Err(IterErr::Error(e)), pos, st),
            }
        } else if c == 97 {
            if st.len() >= MAX_NESTING {
                (Err(IterErr::Error(Error::NestingDepthExceeded)), pos, st)
            } else {
                match parse_type(s, pos + 1, st.len() + 1) {
                    Ok((_, j)) => match count_child(st) {
                        Ok(st2) => (Ok((TokenKind::Array, pos + 1, j)), j, st2),
                        Err(e) => (Err(IterErr::Error(e)), pos, st),
                    },
                    Err(e) => (Err(IterErr::Error(e)), pos, st),
                }
            }
        } else if c == 40 || c == 123 {
            if st.len() >= MAX_NESTING {
                (Err(IterErr::Error(Error::NestingDepthExceeded)), pos, st)
            } else if c == 40 {
                (Ok((TokenKind::StructOpen, pos + 1, pos + 1)), pos + 1, st.push(Frame::Struct))
            } else {
                (Ok((TokenKind::EntryOpen, pos + 1, pos + 1)), pos + 1, st.push(Frame::Entry(0)))
            }
        } else if c == 41 {
            if st.len() > 0 && st.last() is Struct {
                match count_child(st.drop_last()) {
                    Ok(st2) => (Ok((TokenKind::StructClose, pos + 1, pos + 1)), pos + 1, st2),
                    Err(e) => (Err(IterErr::Error(e)), pos, st),
                }
            } else {
                (Err(IterErr::Error(Error::NestingMismatched)), pos, st)
            }
        } else if c == 125 {
            if st.len() > 0 && st.last() is Entry {
                if st.last()->Entry_0 == 2 {
                    match count_child(st.drop_last()) {
                        Ok(st2) => (Ok((TokenKind::EntryClose, pos + 1, pos + 1)), pos + 1, st2),
                        Err(e) => (Err(IterErr::Error(e)), pos, st),
                    }
                } else {
                    (Err(IterErr::Error(Error::InvalidEntrySize)), pos, st)
                }
            } else {
                (Err(IterErr::Error(Error::NestingMismatched)), pos, st)
            }
        } else {
            (Err(IterErr::Error(Error::SignatureInvalidChar)), pos, st)
        }
    }
}


/// The kind of a one-character type, if `c` is one.
fn basic_kind(c: u8) -> (r: Option<TokenKind>)
    ensures
        basic_of_char(c) is Some ==> r == Some(kind_of_basic(basic_of_char(c).unwrap())),
        basic_of_char(c) is None ==> r is None,
{
    match c {
        121u8 => Some(TokenKind::U8),
        98u8 => Some(TokenKind::Bool),
        110u8 => Some(TokenKind::I16),
        113u8 => Some(TokenKind::U16),
        105u8 => Some(TokenKind::I32),
        117u8 => Some(TokenKind::U32),
        120u8 => Some(TokenKind::I64),
        116u8 => Some(TokenKind::U64),
        100u8 => Some(TokenKind::F64),
        115u8 => Some(TokenKind::String),
        111u8 => Some(TokenKind::Object),
        103u8 => Some(TokenKind::Signature),
        118u8 => Some(TokenKind::Variant),
        _ => None,
    }
}

/// Counts a complete child of the innermost composite.
fn count_child_in<'a>(stack: &mut NestingStack<'a>) -> (r: Result<(), Error>)
    requires
        old(stack).wf(),
    ensures
        final(stack).wf(),
        match count_child(frames(old(stack)@)) {
            Ok(st) => r is Ok && frames(final(stack)@) == st,
            Err(e) => r == Err::<(), Error>(e) && final(stack)@ == old(stack)@,
        },
{
    let n = match stack.last() {
        Some(Nesting::Entry(n)) => *n,
        _ => return Ok(()),
    };
    if n >= 2 {
        return Err(Error::InvalidEntrySize);
    }
    stack.set_last(Nesting::Entry(n + 1));
    assert(frames(stack@) =~= frames(old(stack)@).update(
        frames(old(stack)@).len() - 1,
        Frame::Entry((n + 1) as u8),
    ));
    Ok(())
}

impl<'a> SignatureIter<'a> {
    /// The signature text.
    pub closed spec fn sig(&self) -> Seq<u8> {
        self.data@
    }

    /// The position of the walk in the text.
    pub closed spec fn pos(&self) -> nat {
        self.pos as nat
    }

    pub fn new(data: &'a [u8]) -> (r: Self)
        ensures
            r.sig() == data@,
            r.pos() == 0,
    {
        SignatureIter { data, pos: 0 }
    }

    /// The next step of the walk. An array's element type is read whole in
    /// the step of its `a`, which gives it as the payload.
    #[verifier::rlimit(40)]
    pub fn next(&mut self, stack: &mut NestingStack<'a>) -> (r: Result<
        SignatureToken<'a>,
        IterErr,
    >)
        requires
            old(stack).wf(),
        ensures
            final(stack).wf(),
            final(self).sig() == old(self).sig(),
            ({
                let (res, p, st) = sig_step(old(self).sig(), old(self).pos(), frames(old(stack)@));
                &&& final(self).pos() == p
                &&& frames(final(stack)@) == st
                &&& match res {
                    Ok((k, a, b)) => r is Ok && r->Ok_0.kind == k && r->Ok_0.payload@
                        == old(self).sig().subrange(a as int, b as int),
                    Err(e) => r == Err::<SignatureToken<'a>, IterErr>(e),
                }
            }),
    {
        proof {
            assert(frames(stack@).len() == stack@.len());
            if stack@.len() > 0 {
                assert(frames(stack@).last() == frame_of(stack@.last()));
            }
        }
        if self.pos >= self.data.len() {
            return match stack.last() {
                None | Some(Nesting::Variant(_)) => Err(IterErr::EndOfIteration),
                _ => Err(IterErr::Error(Error::NestingMismatched)),
            };
        }
        let c = self.data[self.pos];
        let here = vstd::slice::slice_subrange(self.data, self.pos + 1, self.pos + 1);
        if let Some(kind) = basic_kind(c) {
            return match count_child_in(stack) {
                Ok(()) => {
                    self.pos = self.pos + 1;
                    Ok(SignatureToken { kind, payload: here })
                },
                Err(e) => Err(IterErr::Error(e)),
            };
        }
        if c == 97u8 {
            if stack.len() >= MAX_NESTING {
                return Err(IterErr::Error(Error::NestingDepthExceeded));
            }
            let depth = stack.len() + 1;
            match crate::signature::parse_type_at(self.data, self.pos + 1, depth) {
                Ok((_, j)) => {
                    proof {
                        crate::signature::lemma_parse_bounds(self.data@, (self.pos + 1) as nat, depth as nat);
                    }
                    match count_child_in(stack) {
                        Ok(()) => {
                            let payload = vstd::slice::slice_subrange(self.data, self.pos + 1, j);
                            self.pos = j;
                            Ok(SignatureToken { kind: TokenKind::Array, payload })
                        },
                        Err(e) => Err(IterErr::Error(e)),
                    }
                },
                Err(e) => Err(IterErr::Error(e)),
            }
        } else if c == 40u8 || c == 123u8 {
            if stack.len() >= MAX_NESTING {
                return Err(IterErr::Error(Error::NestingDepthExceeded));
            }
            let (frame, kind) = if c == 40u8 {
                (Nesting::Struct, TokenKind::StructOpen)
            } else {
                (Nesting::Entry(0), TokenKind::EntryOpen)
            };
            let _ = stack.try_push(frame);
            assert(frames(stack@) =~= frames(old(stack)@).push(frame_of(frame)));
            self.pos = self.pos + 1;
            Ok(SignatureToken { kind, payload: here })
        } else if c == 41u8 || c == 125u8 {
            let matched = match stack.last() {
                Some(Nesting::Struct) => c == 41u8,
                Some(Nesting::Entry(n)) => {
                    if c == 125u8 && *n != 2 {
                        return Err(IterErr::Error(Error::InvalidEntrySize));
                    }
                    c == 125u8
                },
                _ => false,
            };
            if !matched {
                return Err(IterErr::Error(Error::NestingMismatched));
            }
            let saved = stack.pop();
            assert(frames(stack@) =~= frames(old(stack)@).drop_last());
            match count_child_in(stack) {
                Ok(()) => {
                    self.pos = self.pos + 1;
                    let kind = if c == 41u8 {
                        TokenKind::StructClose
                    } else {
                        TokenKind::EntryClose
                    };
                    Ok(SignatureToken { kind, payload: here })
                },
                Err(e) => {
                    assert(saved == Some(old(stack)@.last()));
                    proof {
                        old(stack).lemma_wf();
                    }
                    if let Some(frame) = saved {
                        let _ = stack.try_push(frame);
                    }
                    assert(old(stack)@.drop_last().push(old(stack)@.last()) =~= old(stack)@);
                    assert(stack@ =~= old(stack)@);
                    Err(IterErr::Error(e))
                },
            }
        } else {
            Err(IterErr::Error(Error::SignatureInvalidChar))
        }
    }
}


/// The token kinds of the signature walk over a complete type: arrays are
/// one token, composites open and close around their children.
pub open spec fn shape(t: Type) -> Seq<TokenKind>
    decreases t,
{
    match t {
        Type::Array(_) => seq![TokenKind::Array],
        Type::Struct(m) => seq![TokenKind::StructOpen] + shape(*m) + seq![TokenKind::StructClose],
        Type::DictEntry(k, v) => seq![TokenKind::EntryOpen] + shape(*k) + shape(*v) + seq![
            TokenKind::EntryClose,
        ],
        Type::Empty => Seq::empty(),
        Type::Append(x, xs) => shape(*x) + shape(*xs),
        _ => seq![kind_of_basic(t)],
    }
}

/// `n` steps of the signature walk: the kinds of the tokens, the position
/// and the stack after them; the walk stops early at a step without token.
pub open spec fn walk(s: Seq<u8>, pos: nat, st: Seq<Frame>, n: nat) -> (Seq<TokenKind>, nat, Seq<Frame>)
    decreases n,
{
    if n == 0 {
        (Seq::empty(), pos, st)
    } else {
        let (res, p2, st2) = sig_step(s, pos, st);
        match res {
            Ok((k, _, _)) => {
                let (ks, p3, st3) = walk(s, p2, st2, (n - 1) as nat);
                (seq![k] + ks, p3, st3)
            },
            Err(_) => (Seq::empty(), pos, st),
        }
    }
}

proof fn lemma_walk_concat(s: Seq<u8>, pos: nat, st: Seq<Frame>, a: nat, b: nat)
    requires
        walk(s, pos, st, a).0.len() == a,
    ensures
        walk(s, pos, st, a + b) == ({
            let (ks1, p1, st1) = walk(s, pos, st, a);
            let (ks2, p2, st2) = walk(s, p1, st1, b);
            (ks1 + ks2, p2, st2)
        }),
    decreases a,
{
    if a > 0 {
        let (res, p2, st2) = sig_step(s, pos, st);
        lemma_walk_concat(s, p2, st2, (a - 1) as nat, b);
        assert((a + b - 1) as nat == ((a - 1) as nat + b) as nat);
        let (ks1, p1, st1) = walk(s, p2, st2, (a - 1) as nat);
        let (ks2, q2, sq2) = walk(s, p1, st1, b);
        if let Ok((k, _, _)) = res {
            assert(seq![k] + (ks1 + ks2) =~= (seq![k] + ks1) + ks2);
        }
    } else {
        assert(Seq::<TokenKind>::empty() + walk(s, pos, st, b).0 =~= walk(s, pos, st, b).0);
    }
}

/// Walking the text of a complete type gives the token kinds of its shape,
/// passes exactly its text, and counts it once as a child of the innermost
/// open composite.
#[verifier::rlimit(40)]
pub proof fn lemma_walk_type(t: Type, s: Seq<u8>, pos: nat, st: Seq<Frame>)
    requires
        valid_single(t),
        st.len() + nesting(t) <= MAX_NESTING,
        count_child(st) is Ok,
        pos + sig_text(t).len() <= s.len(),
        s.subrange(pos as int, (pos + sig_text(t).len()) as int) == sig_text(t),
    ensures
        walk(s, pos, st, shape(t).len()) == (shape(t), pos + sig_text(t).len(), count_child(st)->Ok_0),
    decreases t,
{
    crate::signature::lemma_text_start(t);
    assert(s[pos as int] == s.subrange(pos as int, (pos + sig_text(t).len()) as int)[0]);
    match t {
        Type::Array(e) => {
            crate::lemma_split(s, pos as int, seq![97u8], sig_text(*e));
            lemma_parse_text(*e, s, pos + 1, st.len() + 1);
            reveal_with_fuel(walk, 2);
        },
        Type::Struct(m) => {
            let inner = st.push(Frame::Struct);
            assert(sig_text(t) =~= seq![40u8] + (sig_text(*m) + seq![41u8]));
            crate::lemma_split(s, pos as int, seq![40u8], sig_text(*m) + seq![41u8]);
            crate::lemma_split(s, pos + 1int, sig_text(*m), seq![41u8]);
            assert(count_child(inner) == Ok::<Seq<Frame>, Error>(inner));
            lemma_walk_list(*m, s, pos + 1, inner);
            let end = pos + 1 + sig_text(*m).len();
            assert(s[end as int] == s.subrange(end as int, (end + 1) as int)[0]);
            assert(inner.drop_last() =~= st);
            reveal_with_fuel(walk, 2);
            lemma_walk_concat(s, pos, st, 1, shape(*m).len());
            lemma_walk_concat(s, pos, st, 1 + shape(*m).len(), 1);
            assert(shape(t) =~= seq![TokenKind::StructOpen] + shape(*m) + seq![TokenKind::StructClose]);
        },
        Type::DictEntry(k, v) => {
            let e0 = st.push(Frame::Entry(0));
            let e1 = st.push(Frame::Entry(1));
            let e2 = st.push(Frame::Entry(2));
            assert(sig_text(t) =~= seq![123u8] + (sig_text(*k) + (sig_text(*v) + seq![125u8])));
            crate::lemma_split(s, pos as int, seq![123u8], sig_text(*k) + (sig_text(*v) + seq![125u8]));
            crate::lemma_split(s, pos + 1int, sig_text(*k), sig_text(*v) + seq![125u8]);
            let j = pos + 1 + sig_text(*k).len();
            crate::lemma_split(s, j as int, sig_text(*v), seq![125u8]);
            assert(count_child(e0) == Ok::<Seq<Frame>, Error>(e1)) by {
                assert(e0.update(e0.len() - 1, Frame::Entry(1)) =~= e1);
            }
            assert(count_child(e1) == Ok::<Seq<Frame>, Error>(e2)) by {
                assert(e1.update(e1.len() - 1, Frame::Entry(2)) =~= e2);
            }
            lemma_walk_type(*k, s, pos + 1, e0);
            lemma_walk_type(*v, s, j, e1);
            let end = j + sig_text(*v).len();
            assert(s[end as int] == s.subrange(end as int, (end + 1) as int)[0]);
            assert(e2.drop_last() =~= st);
            reveal_with_fuel(walk, 2);
            lemma_walk_concat(s, pos, st, 1, shape(*k).len());
            lemma_walk_concat(s, pos, st, 1 + shape(*k).len(), shape(*v).len());
            lemma_walk_concat(s, pos, st, 1 + shape(*k).len() + shape(*v).len(), 1);
            assert(shape(t) =~= seq![TokenKind::EntryOpen] + shape(*k) + shape(*v) + seq![TokenKind::EntryClose]);
        },
        _ => {
            reveal_with_fuel(walk, 2);
        },
    }
}

proof fn lemma_walk_list(m: Type, s: Seq<u8>, pos: nat, st: Seq<Frame>)
    requires
        valid_multi(m),
        st.len() + nesting(m) <= MAX_NESTING,
        count_child(st) == Ok::<Seq<Frame>, Error>(st),
        pos + sig_text(m).len() <= s.len(),
        s.subrange(pos as int, (pos + sig_text(m).len()) as int) == sig_text(m),
    ensures
        walk(s, pos, st, shape(m).len()) == (shape(m), pos + sig_text(m).len(), st),
    decreases m,
{
    if let Type::Append(x, xs) = m {
        crate::lemma_split(s, pos as int, sig_text(*x), sig_text(*xs));
        lemma_walk_type(*x, s, pos, st);
        lemma_walk_list(*xs, s, pos + sig_text(*x).len(), st);
        lemma_walk_concat(s, pos, st, shape(*x).len(), shape(*xs).len());
    }
}

proof fn lemma_walk_stopped(s: Seq<u8>, pos: nat, st: Seq<Frame>, n: nat, m: nat)
    requires
        walk(s, pos, st, n).0.len() < n,
        n <= m,
    ensures
        walk(s, pos, st, m) == walk(s, pos, st, n),
    decreases n,
{
    let (res, p2, st2) = sig_step(s, pos, st);
    if res is Ok {
        lemma_walk_stopped(s, p2, st2, (n - 1) as nat, (m - 1) as nat);
    }
}

/// The signature walk is total: from any position of any text and any
/// stack it meets an end or an error within one step more than the bytes
/// left, since every step that gives a token moves on in the text.
pub proof fn lemma_walk_ends(s: Seq<u8>, pos: nat, st: Seq<Frame>)
    requires
        pos <= s.len(),
    ensures
        walk(s, pos, st, (s.len() - pos + 1) as nat).0.len() <= s.len() - pos,
    decreases s.len() - pos,
{
    let n = (s.len() - pos + 1) as nat;
    let (res, p2, st2) = sig_step(s, pos, st);
    if res is Ok {
        if pos < s.len() && s[pos as int] == 97 {
            crate::signature::lemma_parse_bounds(s, pos + 1, st.len() + 1);
        }
        assert(pos < p2 <= s.len());
        lemma_walk_ends(s, p2, st2);
        let n2 = (s.len() - p2 + 1) as nat;
        lemma_walk_stopped(s, p2, st2, n2, (n - 1) as nat);
    }
}

/// The signature walk over the text of a complete type, from an empty
/// stack, yields the kinds of the type's shape, one per value and an open
/// and a close per struct or dict entry, and then ends.
pub proof fn lemma_signature_shape(t: Type)
    requires
        valid_single(t),
        nesting(t) <= MAX_NESTING,
    ensures
        walk(sig_text(t), 0, Seq::empty(), shape(t).len()) == (
            shape(t),
            sig_text(t).len(),
            Seq::<Frame>::empty(),
        ),
        sig_step(sig_text(t), sig_text(t).len(), Seq::empty()).0 == Err::<(TokenKind, nat, nat), IterErr>(
            IterErr::EndOfIteration,
        ),
{
    assert(sig_text(t).subrange((0) as int, sig_text(t).len() as int) =~= sig_text(t));
    lemma_walk_type(t, sig_text(t), 0, Seq::empty());
}

/// One item of the token stream.
#[derive(Clone, Copy, Debug, PartialEq, Eq)]
pub enum Token<'a> {
    U8(u8),
    Bool(bool),
    I16(i16),
    U16(u16),
    I32(i32),
    U32(u32),
    I64(i64),
    U64(u64),
    /// A double, as its IEEE 754 bit pattern.
    F64(u64),
    String(strings::String<'a>),
    Object(strings::ObjectPath<'a>),
    Signature(strings::Signature<'a>),
    /// An array: the signature of its element type, and its elements' bytes
    /// from the first element on, after the length and its padding.
    Array { signature: &'a [u8], data: &'a [u8] },
    VariantOpen,
    VariantClose,
    StructOpen,
    StructClose,
    EntryOpen,
    EntryClose,
}

/// The value that a token carries, for the tokens of one-character types.
pub open spec fn token_value(t: Token<'_>) -> Option<Val> {
    match t {
        Token::U8(x) => Some(Val::Byte(x)),
        Token::Bool(x) => Some(Val::Bool(x)),
        Token::I16(x) => Some(Val::Int16(x)),
        Token::U16(x) => Some(Val::Uint16(x)),
        Token::I32(x) => Some(Val::Int32(x)),
        Token::U32(x) => Some(Val::Uint32(x)),
        Token::I64(x) => Some(Val::Int64(x)),
        Token::U64(x) => Some(Val::Uint64(x)),
        Token::F64(x) => Some(Val::Double(x)),
        Token::String(s) => Some(Val::String(s@)),
        Token::Object(s) => Some(Val::ObjectPath(s@)),
        Token::Signature(s) => Some(Val::Signature(s@)),
        _ => None,
    }
}

/// The signature kind that a token comes from.
pub open spec fn token_kind(t: Token<'_>) -> TokenKind {
    match t {
        Token::U8(_) => TokenKind::U8,
        Token::Bool(_) => TokenKind::Bool,
        Token::I16(_) => TokenKind::I16,
        Token::U16(_) => TokenKind::U16,
        Token::I32(_) => TokenKind::I32,
        Token::U32(_) => TokenKind::U32,
        Token::I64(_) => TokenKind::I64,
        Token::U64(_) => TokenKind::U64,
        Token::F64(_) => TokenKind::F64,
        Token::String(_) => TokenKind::String,
        Token::Object(_) => TokenKind::Object,
        Token::Signature(_) => TokenKind::Signature,
        Token::Array { .. } => TokenKind::Array,
        Token::VariantOpen | Token::VariantClose => TokenKind::Variant,
        Token::StructOpen => TokenKind::StructOpen,
        Token::StructClose => TokenKind::StructClose,
        Token::EntryOpen => TokenKind::EntryOpen,
        Token::EntryClose => TokenKind::EntryClose,
    }
}

/// The type of the value that a token carries.
pub open spec fn token_type(t: Token<'_>) -> Type {
    match t {
        Token::U8(_) => Type::Byte,
        Token::Bool(_) => Type::Bool,
        Token::I16(_) => Type::Int16,
        Token::U16(_) => Type::Uint16,
        Token::I32(_) => Type::Int32,
        Token::U32(_) => Type::Uint32,
        Token::I64(_) => Type::Int64,
        Token::U64(_) => Type::Uint64,
        Token::F64(_) => Type::Double,
        Token::String(_) => Type::String,
        Token::Object(_) => Type::ObjectPath,
        _ => Type::Signature,
    }
}

/// A value read with a one-character type has that type.
proof fn lemma_dec_basic_type(t: Type, d: Seq<u8>, pos: nat, end: nat)
    requires
        !(t is Variant || t is Array || t is DictEntry || t is Struct || t is Empty || t is Append),
    ensures
        dec(t, d, pos, end) is Ok ==> crate::types::type_of(dec(t, d, pos, end)->Ok_0.0) == t,
        dec(t, d, pos, end) is Ok ==> {
            let v = dec(t, d, pos, end)->Ok_0.0;
            v is Byte || v is Bool || v is Int16 || v is Uint16 || v is Int32 || v is Uint32
                || v is Int64 || v is Uint64 || v is Double || v is String || v is ObjectPath
                || v is Signature
        },
{
}

/// What a step that reads a value of the one-character type `t` gives: the
/// value read at the cursor, or the reader's error.
pub open spec fn value_step<'a>(
    t: Type,
    d: Seq<u8>,
    count: nat,
    r: Option<Result<Token<'a>, Error>>,
    after: nat,
) -> bool {
    match dec(t, d, count, d.len()) {
        Ok((v, n)) => r matches Some(Ok(tok)) && token_value(tok) == Some(v) && token_type(tok) == t
            && after == count + n,
        Err(e) => r == Some(Err::<Token<'a>, Error>(e)),
    }
}

/// What an array step gives: the length at the next multiple of 4, the
/// padding up to the alignment of the element type (not counted in the
/// length), then exactly that many bytes of elements.
pub open spec fn array_step<'a>(
    payload: Seq<u8>,
    d: Seq<u8>,
    count: nat,
    r: Option<Result<Token<'a>, Error>>,
    after: nat,
) -> bool {
    match fixed_at(count, d.len(), 4, 4) {
        Some(p) => {
            let n = u32_at(d, p) as nat;
            let s = align_up(p + 4, payload_alignment(payload));
            if s + n <= d.len() {
                r matches Some(Ok(Token::Array { signature, data })) && signature@ == payload && data@
                    == d.subrange(s as int, (s + n) as int) && after == s + n
            } else {
                r == Some(Err::<Token<'a>, Error>(Error::NotEnoughData))
            }
        },
        None => r == Some(Err::<Token<'a>, Error>(Error::NotEnoughData)),
    }
}

/// What a struct or dict entry opening gives: the cursor moves to the next
/// multiple of 8.
pub open spec fn open_step<'a>(
    open: Token<'a>,
    d: Seq<u8>,
    count: nat,
    r: Option<Result<Token<'a>, Error>>,
    after: nat,
) -> bool {
    if align_up(count, 8) <= d.len() {
        r == Some(Ok::<Token<'a>, Error>(open)) && after == align_up(count, 8)
    } else {
        r == Some(Err::<Token<'a>, Error>(Error::NotEnoughData))
    }
}

/// What a variant opening gives with `open` composites around it: the
/// signature blob at the cursor becomes the pending signature token.
pub open spec fn variant_step<'a>(
    open: nat,
    d: Seq<u8>,
    count: nat,
    r: Option<Result<Token<'a>, Error>>,
    after: nat,
    pending: Option<strings::Signature<'a>>,
) -> bool {
    match dec_signature(d, count, d.len()) {
        Ok((s, n)) => if open < MAX_NESTING {
            r == Some(Ok::<Token<'a>, Error>(Token::VariantOpen)) && pending is Some && pending.unwrap()@
                == s && after == count + n
        } else {
            r == Some(Err::<Token<'a>, Error>(Error::NestingDepthExceeded))
        },
        Err(e) => r == Some(Err::<Token<'a>, Error>(e)),
    }
}

/// The token of a value of a one-character type.
fn token_of<'a>(v: Value<'a>) -> (r: Token<'a>)
    requires
        v is Byte || v is Bool || v is Int16 || v is Uint16 || v is Int32 || v is Uint32 || v is Int64
            || v is Uint64 || v is Double || v is String || v is ObjectPath || v is Signature,
    ensures
        token_value(r) == Some(v@),
        token_type(r) == crate::types::type_of(v@),
{
    match v {
        Value::Byte(x) => Token::U8(x),
        Value::Bool(x) => Token::Bool(x),
        Value::Int16(x) => Token::I16(x),
        Value::Uint16(x) => Token::U16(x),
        Value::Int32(x) => Token::I32(x),
        Value::Uint32(x) => Token::U32(x),
        Value::Int64(x) => Token::I64(x),
        Value::Uint64(x) => Token::U64(x),
        Value::Double(x) => Token::F64(x),
        Value::String(s) => Token::String(s),
        Value::ObjectPath(s) => Token::Object(s),
        Value::Signature(s) => Token::Signature(s),
        _ => Token::VariantOpen,
    }
}

/// The type read for a kind of one-character type.
fn basic_type(k: TokenKind) -> (r: Type)
    ensures
        type_of_kind(k) is Some ==> r == type_of_kind(k).unwrap(),
        !(r is Variant || r is Array || r is DictEntry || r is Struct || r is Empty || r is Append),
{
    match k {
        TokenKind::U8 => Type::Byte,
        TokenKind::Bool => Type::Bool,
        TokenKind::I16 => Type::Int16,
        TokenKind::U16 => Type::Uint16,
        TokenKind::I32 => Type::Int32,
        TokenKind::U32 => Type::Uint32,
        TokenKind::I64 => Type::Int64,
        TokenKind::U64 => Type::Uint64,
        TokenKind::F64 => Type::Double,
        TokenKind::String => Type::String,
        TokenKind::Object => Type::ObjectPath,
        _ => Type::Signature,
    }
}

/// The alignment of a value whose signature starts with `c`.
pub open spec fn char_alignment(c: u8) -> nat {
    if basic_of_char(c) is Some {
        alignment(basic_of_char(c).unwrap())
    } else if c == 97 {
        4
    } else {
        8
    }
}

/// The alignment of the elements of an array whose element signature is `s`.
pub open spec fn payload_alignment(s: Seq<u8>) -> nat {
    if s.len() == 0 {
        1
    } else {
        char_alignment(s[0])
    }
}

/// The element signature that a step of the walk gives for an array holds
/// the text of one complete type, whose alignment its first byte tells.
pub proof fn lemma_payload_alignment(s: Seq<u8>, i: nat, depth: nat)
    requires
        parse_type(s, i, depth) is Ok,
    ensures
        payload_alignment(s.subrange(i as int, parse_type(s, i, depth)->Ok_0.1 as int)) == alignment(
            parse_type(s, i, depth)->Ok_0.0,
        ),
{
    crate::signature::lemma_parse_bounds(s, i, depth);
    let j = parse_type(s, i, depth)->Ok_0.1;
    assert(s.subrange(i as int, j as int)[0] == s[i as int]);
    let c = s[i as int];
    if basic_of_char(c) is None && c != 97 && c != 40 && c == 123 {
        assert(parse_entry(s, i + 1, depth + 1) is Ok);
    }
}

/// The alignment of the elements of an array whose element signature is `sig`.
fn element_alignment(sig: &[u8]) -> (r: usize)
    ensures
        r == payload_alignment(sig@),
        1 <= r <= 8,
{
    if sig.len() == 0 {
        return 1;
    }
    let c = sig[0];
    match basic_kind(c) {
        Some(k) => k.alignment(),
        None => if c == 97u8 {
            4
        } else {
            8
        },
    }
}

/// Walks encoded data along a signature and yields its tokens.
pub struct Iter<'a> {
    reader: Reader<'a>,
    signature: SignatureIter<'a>,
    nesting_stack: NestingStack<'a>,
    pending: Option<strings::Signature<'a>>,
    done: bool,
}

impl<'a> Iter<'a> {
    /// The data walked over.
    pub closed spec fn data(&self) -> Seq<u8> {
        self.reader.data()
    }

    /// How many bytes of the data have been read.
    pub closed spec fn count(&self) -> nat {
        self.reader.count()
    }

    /// The signature token that follows a `VariantOpen`, if one is due.
    pub closed spec fn pending(&self) -> Option<strings::Signature<'a>> {
        self.pending
    }

    /// Whether the walk has ended.
    pub closed spec fn done(&self) -> bool {
        self.done
    }

    /// The signature being walked.
    pub closed spec fn sig_text(&self) -> Seq<u8> {
        self.signature.sig()
    }

    /// The position of the walk in the signature.
    pub closed spec fn sig_pos(&self) -> nat {
        self.signature.pos()
    }

    /// The composites open in the walk, innermost last.
    pub closed spec fn frames(&self) -> Seq<Frame> {
        frames(self.nesting_stack@)
    }

    pub closed spec fn wf(&self) -> bool {
        &&& self.reader.wf()
        &&& self.reader.end() == self.reader.data().len()
        &&& self.nesting_stack.wf()
    }

    pub fn new(signature: &'a [u8], data: &'a [u8]) -> (r: Self)
        ensures
            r.wf(),
            r.data() == data@,
            r.count() == 0,
            r.pending() is None,
            !r.done(),
            r.sig_text() == signature@,
            r.sig_pos() == 0,
            r.frames() == Seq::<Frame>::empty(),
    {
        let r = Iter {
            reader: Reader::new(data),
            signature: SignatureIter::new(signature),
            nesting_stack: Stack::new(),
            pending: None,
            done: false,
        };
        assert(frames(r.nesting_stack@) =~= Seq::<Frame>::empty());
        r
    }

    /// How many bytes of the data have been read.
    pub fn position(&self) -> (r: usize)
        ensures
            r == self.count(),
    {
        self.reader.position()
    }

    /// The data not read yet.
    pub fn rest(&self) -> (r: &'a [u8])
        requires
            self.wf(),
        ensures
            r@ == self.data().subrange(self.count() as int, self.data().len() as int),
    {
        self.reader.remaining()
    }

    /// The next token, an error that ends the walk, or `None` at the end.
    /// The walk never reads past the data: every value token holds what
    /// the bytes at the cursor encode, and an array token's data is the
    /// bytes just passed.
    #[verifier::rlimit(40)]
    pub fn next(&mut self) -> (r: Option<Result<Token<'a>, Error>>)
        requires
            old(self).wf(),
        ensures
            final(self).wf(),
            final(self).data() == old(self).data(),
            r is Some && r->Some_0 is Ok ==> old(self).count() <= final(self).count(),
            old(self).done() ==> r is None,
            !old(self).done() && old(self).pending() is Some ==> r == Some(
                Ok::<Token<'a>, Error>(Token::Signature(old(self).pending().unwrap())),
            ),
            r is Some && r->Some_0 is Err ==> final(self).done(),
            r is Some && r->Some_0 is Ok && token_value(r->Some_0->Ok_0) is Some && old(self).pending() is None
                ==> dec(
                token_type(r->Some_0->Ok_0),
                old(self).data(),
                old(self).count(),
                old(self).data().len(),
            ) == Ok::<(Val, nat), Error>(
                (token_value(r->Some_0->Ok_0).unwrap(), (final(self).count() - old(self).count()) as nat),
            ),
            r matches Some(Ok(Token::Array { signature, data })) ==> data@ == final(self).data().subrange(
                final(self).count() - data@.len(),
                final(self).count() as int,
            ),
            !old(self).done() && old(self).pending() is None ==> ({
                let (res, p, st) = sig_step(old(self).sig_text(), old(self).sig_pos(), old(self).frames());
                match res {
                    Ok((k, a, b)) => (type_of_kind(k) is Some ==> value_step(
                        type_of_kind(k).unwrap(),
                        old(self).data(),
                        old(self).count(),
                        r,
                        final(self).count(),
                    )) && (k is Array ==> array_step(
                        old(self).sig_text().subrange(a as int, b as int),
                        old(self).data(),
                        old(self).count(),
                        r,
                        final(self).count(),
                    )) && (k is StructOpen ==> open_step(
                        Token::StructOpen,
                        old(self).data(),
                        old(self).count(),
                        r,
                        final(self).count(),
                    )) && (k is EntryOpen ==> open_step(
                        Token::EntryOpen,
                        old(self).data(),
                        old(self).count(),
                        r,
                        final(self).count(),
                    )) && (k is StructClose ==> r == Some(Ok::<Token<'a>, Error>(Token::StructClose))
                        && final(self).count() == old(self).count()) && (k is EntryClose ==> r == Some(
                        Ok::<Token<'a>, Error>(Token::EntryClose),
                    ) && final(self).count() == old(self).count()) && (k is Variant ==> variant_step(
                        old(self).frames().len(),
                        old(self).data(),
                        old(self).count(),
                        r,
                        final(self).count(),
                        final(self).pending(),
                    )) && (r matches Some(Ok(tok)) ==> token_kind(tok) == k) && (r matches Some(
                        Ok(Token::Array { signature, data }),
                    ) ==> signature@ == old(self).sig_text().subrange(a as int, b as int)) && (r is Some
                        && r->Some_0 is Ok && k != TokenKind::Variant ==> final(self).sig_text()
                        == old(self).sig_text() && final(self).sig_pos() == p && final(self).frames()
                        == st && final(self).pending() is None && !final(self).done()) && (r is Some
                        && r->Some_0 is Ok && k == TokenKind::Variant ==> final(self).pending() is Some
                        && final(self).sig_text() == final(self).pending().unwrap()@ && final(self).sig_pos()
                        == 0 && final(self).frames() == st.push(Frame::Variant) && !final(self).done()),
                    Err(IterErr::Error(e)) => r == Some(Err::<Token<'a>, Error>(e)),
                    Err(IterErr::EndOfIteration) => (old(self).frames().len() == 0 ==> r is None
                        && final(self).done()) && (old(self).frames().len() > 0 ==> r == Some(
                        Ok::<Token<'a>, Error>(Token::VariantClose),
                    ) && final(self).frames() == old(self).frames().drop_last() && !final(self).done()),
                }
            }),
    {
        proof {
            assert(frames(self.nesting_stack@).len() == self.nesting_stack@.len());
            if self.nesting_stack@.len() > 0 {
                assert(frames(self.nesting_stack@).last() == frame_of(self.nesting_stack@.last()));
            }
        }
        if self.done {
            return None;
        }
        if let Some(s) = self.pending {
            self.pending = None;
            return Some(Ok(Token::Signature(s)));
        }
        let step = self.signature.next(&mut self.nesting_stack);
        let tok = match step {
            Ok(t) => t,
            Err(IterErr::EndOfIteration) => {
                return match self.nesting_stack.pop() {
                    Some(Nesting::Variant(saved)) => {
                        self.signature = saved;
                        Some(Ok(Token::VariantClose))
                    },
                    Some(other) => {
                        let _ = self.nesting_stack.try_push(other);
                        self.done = true;
                        Some(Err(Error::NestingMismatched))
                    },
                    None => {
                        self.done = true;
                        None
                    },
                };
            },
            Err(IterErr::Error(e)) => {
                self.done = true;
                return Some(Err(e));
            },
        };
        match tok.kind {
            TokenKind::Variant => self.open_variant(),
            TokenKind::Array => self.array_token(tok.payload),
            TokenKind::StructOpen => self.open_composite(Token::StructOpen),
            TokenKind::EntryOpen => self.open_composite(Token::EntryOpen),
            TokenKind::StructClose => Some(Ok(Token::StructClose)),
            TokenKind::EntryClose => Some(Ok(Token::EntryClose)),
            _ => self.value_token(tok.kind),
        }
    }

    #[verifier::rlimit(40)]
    fn open_variant(&mut self) -> (r: Option<Result<Token<'a>, Error>>)
        requires
            old(self).wf(),
            !old(self).done(),
        ensures
            final(self).wf(),
            final(self).data() == old(self).data(),
            r is Some && r->Some_0 is Ok ==> old(self).count() <= final(self).count(),
            r is Some && r->Some_0 is Err ==> final(self).done(),
            r is Some,
            r is Some && r->Some_0 is Ok ==> r->Some_0->Ok_0 == Token::<'a>::VariantOpen,
            variant_step(old(self).frames().len(), old(self).data(), old(self).count(), r, final(self).count(), final(self).pending()),
            r is Some && r->Some_0 is Ok ==> {
                &&& !final(self).done()
                &&& final(self).pending() is Some
                &&& final(self).sig_text() == final(self).pending().unwrap()@
                &&& final(self).sig_pos() == 0
                &&& final(self).frames() == old(self).frames().push(Frame::Variant)
            },
    {
        proof {
            self.reader.lemma_wf();
            assert(frames(self.nesting_stack@).len() == self.nesting_stack@.len());
            self.nesting_stack.lemma_wf();
        }
        let sig = match self.reader.read(&Type::Signature) {
            Ok(Value::Signature(s)) => s,
            Ok(v) => {
                proof {
                    crate::types::lemma_model_kind(v);
                }
                self.done = true;
                return Some(Err(Error::UnexpectedType));
            },
            Err(e) => {
                self.done = true;
                return Some(Err(e));
            },
        };
        let saved = SignatureIter { data: self.signature.data, pos: self.signature.pos };
        match self.nesting_stack.try_push(Nesting::Variant(saved)) {
            Ok(()) => {},
            Err(_) => {
                self.done = true;
                return Some(Err(Error::NestingDepthExceeded));
            },
        }
        assert(frames(self.nesting_stack@) =~= frames(old(self).nesting_stack@).push(Frame::Variant));
        self.signature = SignatureIter::new(sig.as_bytes());
        self.pending = Some(sig);
        Some(Ok(Token::VariantOpen))
    }

    #[verifier::rlimit(40)]
    fn array_token(&mut self, payload: &'a [u8]) -> (r: Option<Result<Token<'a>, Error>>)
        requires
            old(self).wf(),
            !old(self).done(),
        ensures
            final(self).wf(),
            final(self).data() == old(self).data(),
            r is Some && r->Some_0 is Ok ==> old(self).count() <= final(self).count(),
            r is Some && r->Some_0 is Err ==> final(self).done(),
            r is Some,
            r matches Some(Ok(Token::Array { signature, data })) ==> data@ == final(self).data().subrange(
                final(self).count() - data@.len(),
                final(self).count() as int,
            ),
            r is Some && r->Some_0 is Ok ==> r->Some_0->Ok_0 is Array,
            r matches Some(Ok(Token::Array { signature, data })) ==> signature == payload,
            array_step(payload@, old(self).data(), old(self).count(), r, final(self).count()),
            final(self).sig_text() == old(self).sig_text(),
            final(self).sig_pos() == old(self).sig_pos(),
            final(self).frames() == old(self).frames(),
            final(self).pending() == old(self).pending(),
            r is Some && r->Some_0 is Ok ==> !final(self).done(),
    {
        proof {
            self.reader.lemma_wf();
        }
        let len = match self.reader.read(&Type::Uint32) {
            Ok(Value::Uint32(n)) => n as usize,
            Ok(v) => {
                proof {
                    crate::types::lemma_model_kind(v);
                }
                self.done = true;
                return Some(Err(Error::UnexpectedType));
            },
            Err(e) => {
                self.done = true;
                return Some(Err(e));
            },
        };
        let align = element_alignment(payload);
        match self.reader.align_to(align) {
            Ok(()) => {},
            Err(e) => {
                self.done = true;
                return Some(Err(e));
            },
        }
        match self.reader.read_bytes(len) {
            Ok(data) => Some(Ok(Token::Array { signature: payload, data })),
            Err(e) => {
                self.done = true;
                Some(Err(e))
            },
        }
    }

    fn open_composite(&mut self, open: Token<'a>) -> (r: Option<Result<Token<'a>, Error>>)
        requires
            old(self).wf(),
            !old(self).done(),
        ensures
            final(self).wf(),
            final(self).data() == old(self).data(),
            r is Some && r->Some_0 is Ok ==> old(self).count() <= final(self).count(),
            r is Some && r->Some_0 is Err ==> final(self).done(),
            r is Some,
            r is Some && r->Some_0 is Ok ==> r->Some_0->Ok_0 == open,
            open_step(open, old(self).data(), old(self).count(), r, final(self).count()),
            final(self).sig_text() == old(self).sig_text(),
            final(self).sig_pos() == old(self).sig_pos(),
            final(self).frames() == old(self).frames(),
            final(self).pending() == old(self).pending(),
            r is Some && r->Some_0 is Ok ==> !final(self).done(),
    {
        proof {
            self.reader.lemma_wf();
        }
        match self.reader.align_to(8) {
            Ok(()) => Some(Ok(open)),
            Err(e) => {
                self.done = true;
                Some(Err(e))
            },
        }
    }

    #[verifier::rlimit(40)]
    fn value_token(&mut self, kind: TokenKind) -> (r: Option<Result<Token<'a>, Error>>)
        requires
            old(self).wf(),
            !old(self).done(),
            type_of_kind(kind) is Some,
        ensures
            final(self).wf(),
            final(self).data() == old(self).data(),
            r is Some && r->Some_0 is Ok ==> old(self).count() <= final(self).count(),
            r is Some && r->Some_0 is Err ==> final(self).done(),
            r is Some,
            r is Some && r->Some_0 is Ok ==> token_value(r->Some_0->Ok_0) is Some && dec(
                token_type(r->Some_0->Ok_0),
                old(self).data(),
                old(self).count(),
                old(self).data().len(),
            ) == Ok::<(Val, nat), Error>(
                (token_value(r->Some_0->Ok_0).unwrap(), (final(self).count() - old(self).count()) as nat),
            ),
            r matches Some(Ok(tok)) ==> token_kind(tok) == kind,
            value_step(type_of_kind(kind).unwrap(), old(self).data(), old(self).count(), r, final(self).count()),
            final(self).sig_text() == old(self).sig_text(),
            final(self).sig_pos() == old(self).sig_pos(),
            final(self).frames() == old(self).frames(),
            final(self).pending() == old(self).pending(),
            r is Some && r->Some_0 is Ok ==> !final(self).done(),
    {
        let t = basic_type(kind);
        let ghost d = self.reader.data();
        let ghost pos = self.reader.count();
        proof {
            self.reader.lemma_wf();
            lemma_dec_basic_type(t, d, pos, d.len());
        }
        match self.reader.read(&t) {
            Ok(v) => {
                proof {
                    crate::types::lemma_model_kind(v);
                }
                if v.is_basic() {
                    Some(Ok(token_of(v)))
                } else {
                    self.done = true;
                    Some(Err(Error::UnexpectedType))
                }
            },
            Err(e) => {
                self.done = true;
                Some(Err(e))
            },
        }
    }
}

} // verus!
