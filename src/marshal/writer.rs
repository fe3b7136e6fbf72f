//! The sinks that the marshaller writes to: a counter that only tracks the
//! position, and a span that holds the bytes.
use vstd::prelude::*;

verus! {

/// `n` zero bytes.
pub open spec fn zeros(n: nat) -> Seq<u8> {
    Seq::new(n, |i: int| 0u8)
}

/// `bytes` with the four bytes at `at` replaced by `v` in little-endian order.
pub open spec fn patch_u32(bytes: Seq<u8>, at: nat, v: u32) -> Seq<u8> {
    bytes.subrange(0, at as int) + vstd::bytes::spec_u32_to_le_bytes(v) + bytes.subrange(
        at + 4int,
        bytes.len() as int,
    )
}

/// A sink of bytes with a position. Skipped bytes read as zero; a length can
/// be written back into four bytes that were skipped earlier.
pub trait Write {
    /// The number of bytes written so far.
    spec fn pos(&self) -> nat;

    /// The bytes written so far, where the sink keeps them.
    spec fn bytes(&self) -> Seq<u8>;

    /// Whether the sink keeps the bytes, or only counts them.
    spec fn keeps_bytes() -> bool;

    proof fn lemma_len(&self)
        ensures
            Self::keeps_bytes() ==> self.bytes().len() == self.pos(),
    ;

    fn position(&self) -> (r: usize)
        ensures
            r == self.pos(),
    ;

    /// Skips `n` bytes, which read as zero.
    fn seek(&mut self, n: usize)
        requires
            old(self).pos() + n <= usize::MAX,
        ensures
            final(self).pos() == old(self).pos() + n,
            Self::keeps_bytes() ==> final(self).bytes() == old(self).bytes() + zeros(n as nat),
    ;

    fn write_bytes(&mut self, bytes: &[u8])
        requires
            old(self).pos() + bytes@.len() <= usize::MAX,
        ensures
            final(self).pos() == old(self).pos() + bytes@.len(),
            Self::keeps_bytes() ==> final(self).bytes() == old(self).bytes() + bytes@,
    ;

    fn write_byte(&mut self, byte: u8)
        requires
            old(self).pos() + 1 <= usize::MAX,
        ensures
            final(self).pos() == old(self).pos() + 1,
            Self::keeps_bytes() ==> final(self).bytes() == old(self).bytes().push(byte),
    ;

    /// Writes `v` at the earlier position `at` and leaves the position as it is.
    fn insert(&mut self, v: u32, at: usize)
        requires
            at + 4 <= old(self).pos(),
        ensures
            final(self).pos() == old(self).pos(),
            Self::keeps_bytes() ==> final(self).bytes() == patch_u32(old(self).bytes(), at as nat, v),
    ;

    /// Skips zero bytes up to the next multiple of `n`.
    fn align_to(&mut self, n: usize)
        requires
            n > 0,
            old(self).pos() + n <= usize::MAX,
        ensures
            final(self).pos() == crate::align_up(old(self).pos(), n as nat),
            Self::keeps_bytes() ==> final(self).bytes() == old(self).bytes() + crate::pad(
                old(self).pos(),
                n as nat,
            ),
    {
        let p = self.position();
        let padding = crate::align_padding(p, n);
        self.seek(padding);
        assert(zeros(padding as nat) =~= crate::pad(old(self).pos(), n as nat));
    }

    /// Aligns to `n`, then skips `n` bytes; gives the position between the two.
    fn skip_aligned(&mut self, n: usize) -> (r: usize)
        requires
            n > 0,
            old(self).pos() + 2 * n <= usize::MAX,
        ensures
            r == crate::align_up(old(self).pos(), n as nat),
            final(self).pos() == r + n,
            Self::keeps_bytes() ==> final(self).bytes() == old(self).bytes() + crate::pad(
                old(self).pos(),
                n as nat,
            ) + zeros(n as nat),
    {
        self.align_to(n);
        let r = self.position();
        proof {
            crate::lemma_align_up(old(self).pos(), n as nat);
        }
        self.seek(n);
        r
    }
}

/// The size counter: it tracks the position only.
impl Write for usize {
    open spec fn pos(&self) -> nat {
        *self as nat
    }

    open spec fn bytes(&self) -> Seq<u8> {
        Seq::empty()
    }

    open spec fn keeps_bytes() -> bool {
        false
    }

    proof fn lemma_len(&self) {
    }

    fn position(&self) -> (r: usize) {
        *self
    }

    fn seek(&mut self, n: usize) {
        *self = *self + n;
    }

    fn write_bytes(&mut self, bytes: &[u8]) {
        *self = *self + bytes.len();
    }

    fn write_byte(&mut self, byte: u8) {
        *self = *self + 1;
    }

    fn insert(&mut self, v: u32, at: usize) {
    }
}

/// A sink that keeps the bytes written.
pub struct Span {
    buf: Vec<u8>,
}

impl Span {
    pub fn new() -> (r: Span)
        ensures
            r.pos() == 0,
            r.bytes() == Seq::<u8>::empty(),
    {
        Span { buf: Vec::new() }
    }

    /// The bytes written.
    pub fn into_bytes(self) -> (r: Vec<u8>)
        ensures
            r@ == self.bytes(),
    {
        self.buf
    }
}

impl Write for Span {
    closed spec fn pos(&self) -> nat {
        self.buf@.len()
    }

    closed spec fn bytes(&self) -> Seq<u8> {
        self.buf@
    }

    open spec fn keeps_bytes() -> bool {
        true
    }

    proof fn lemma_len(&self) {
    }

    fn position(&self) -> (r: usize) {
        self.buf.len()
    }

    fn seek(&mut self, n: usize) {
        let mut i: usize = 0;
        while i < n
            invariant
                i <= n,
                self.buf@ == old(self).buf@ + zeros(i as nat),
            decreases n - i,
        {
            self.buf.push(0u8);
            i = i + 1;
            assert(self.buf@ =~= old(self).buf@ + zeros(i as nat));
        }
    }

    fn write_bytes(&mut self, bytes: &[u8]) {
        let mut i: usize = 0;
        while i < bytes.len()
            invariant
                i <= bytes@.len(),
                self.buf@ == old(self).buf@ + bytes@.subrange(0, i as int),
            decreases bytes@.len() - i,
        {
            self.buf.push(bytes[i]);
            i = i + 1;
            assert(self.buf@ =~= old(self).buf@ + bytes@.subrange(0, i as int));
        }
        assert(bytes@.subrange(0, i as int) =~= bytes@);
    }

    fn write_byte(&mut self, byte: u8) {
        self.buf.push(byte);
    }

    fn insert(&mut self, v: u32, at: usize) {
        let le = vstd::bytes::u32_to_le_bytes(v);
        let n = self.buf.len();
        assert(at + 4 <= n);
        let (b0, b1, b2, b3) = (le[0], le[1], le[2], le[3]);
        let (a1, a2, a3) = (at + 1, at + 2, at + 3);
        self.buf.set(at, b0);
        self.buf.set(a1, b1);
        self.buf.set(a2, b2);
        self.buf.set(a3, b3);
        assert(self.buf@ =~= patch_u32(old(self).buf@, at as nat, v));
    }
}

} // verus!
