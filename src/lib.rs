//! Marshalling and unmarshalling of messages in the desktop bus wire format.
//!
//! Values are described by a [`Type`](signature::Type) tree whose text is the
//! protocol's signature, encoded by the marshaller in [`marshal`] and read back
//! by the [`Reader`](unmarshal::Reader) in [`unmarshal`]. The meaning of every
//! operation is stated over the spec functions `enc` and `dec`.
use vstd::prelude::*;

pub mod authentication;
pub mod marshal;
pub mod message;
pub mod signature;
pub mod stack;
pub mod strings;
pub mod types;
pub mod unmarshal;

verus! {

/// The smallest multiple of `align` that is at least `size`.
pub open spec fn align_up(size: nat, align: nat) -> nat {
    if align == 0 || size % align == 0 {
        size
    } else {
        size + ((align - size % align) as nat)
    }
}

/// Zero bytes that lead from `pos` up to the next multiple of `align`.
pub open spec fn pad(pos: nat, align: nat) -> Seq<u8> {
    Seq::new((align_up(pos, align) - pos) as nat, |i: int| 0u8)
}

pub proof fn lemma_align_up(size: nat, align: nat)
    requires
        align > 0,
    ensures
        size <= align_up(size, align) < size + align,
        align_up(size, align) % align == 0,
{
    if size % align != 0 {
        let q = size / align;
        let r = size % align;
        vstd::arithmetic::div_mod::lemma_fundamental_div_mod(size as int, align as int);
        assert(size + (align - r) == (q + 1) * align) by (nonlinear_arith)
            requires
                size == align * q + r,
        ;
        vstd::arithmetic::div_mod::lemma_mod_multiples_basic((q + 1) as int, align as int);
    }
}

/// A part of a concatenation read back from a larger sequence: where `s`
/// holds `a + b` at `i`, it holds `a` at `i` and `b` right after it.
pub proof fn lemma_split(s: Seq<u8>, i: int, a: Seq<u8>, b: Seq<u8>)
    requires
        0 <= i,
        i + a.len() + b.len() <= s.len(),
        s.subrange(i, i + a.len() + b.len()) == a + b,
    ensures
        s.subrange(i, i + a.len()) == a,
        s.subrange(i + a.len(), i + a.len() + b.len()) == b,
{
    assert(s.subrange(i, i + a.len()) =~= (a + b).subrange(0, a.len() as int));
    assert(s.subrange(i + a.len(), i + a.len() + b.len()) =~= (a + b).subrange(
        a.len() as int,
        a.len() + b.len() as int,
    ));
    assert((a + b).subrange(0, a.len() as int) =~= a);
    assert((a + b).subrange(a.len() as int, a.len() + b.len() as int) =~= b);
}

/// Rounds `size` up to a multiple of `align`.
pub fn aligned(size: usize, align: usize) -> (r: usize)
    requires
        align > 0,
        size + align <= usize::MAX,
    ensures
        r == align_up(size as nat, align as nat),
{
    let rem = size % align;
    if rem == 0 {
        size
    } else {
        size + (align - rem)
    }
}

/// The number of zero bytes between `size` and the next multiple of `align`.
pub fn align_padding(size: usize, align: usize) -> (r: usize)
    requires
        align > 0,
        size + align <= usize::MAX,
    ensures
        r == align_up(size as nat, align as nat) - size,
        r < align,
{
    proof {
        lemma_align_up(size as nat, align as nat);
    }
    aligned(size, align) - size
}


/// How one byte is shown: itself where it is a visible ASCII character,
/// else a backslash and its decimal value.
pub open spec fn show_byte(x: u8) -> Seq<u8> {
    if 33 <= x <= 126 {
        seq![x]
    } else if x < 10 {
        seq![92u8, (48 + x) as u8]
    } else if x < 100 {
        seq![92u8, (48 + x / 10) as u8, (48 + x % 10) as u8]
    } else {
        seq![92u8, (48 + x / 100) as u8, (48 + (x / 10) % 10) as u8, (48 + x % 10) as u8]
    }
}

/// How a byte sequence is shown, byte by byte.
pub open spec fn show(xs: Seq<u8>) -> Seq<u8>
    decreases xs.len(),
{
    if xs.len() == 0 {
        Seq::empty()
    } else {
        show(xs.drop_last()) + show_byte(xs.last())
    }
}

/// Shows bytes for a reader: visible ASCII as it is, the rest escaped.
pub fn show_bytes(xs: &[u8]) -> (r: Vec<u8>)
    ensures
        r@ == show(xs@),
{
    let mut out: Vec<u8> = Vec::new();
    let mut i: usize = 0;
    while i < xs.len()
        invariant
            i <= xs@.len(),
            out@ == show(xs@.subrange(0, i as int)),
        decreases xs@.len() - i,
    {
        let x = xs[i];
        if 33 <= x && x <= 126 {
            out.push(x);
        } else {
            out.push(92u8);
            if x >= 100 {
                out.push(48 + x / 100);
            }
            if x >= 10 {
                out.push(48 + (x / 10) % 10);
            }
            out.push(48 + x % 10);
        }
        assert(xs@.subrange(0, i + 1).drop_last() =~= xs@.subrange(0, i as int));
        assert(out@ =~= show(xs@.subrange(0, i + 1)));
        i = i + 1;
    }
    assert(xs@.subrange(0, i as int) =~= xs@);
    out
}

} // verus!
