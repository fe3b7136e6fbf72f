//! The lines of the authentication handshake that precedes the codec: the
//! request that names the user, and the checks of the server's replies.
//! The exchange itself runs where the transport is.
use vstd::prelude::*;

verus! {

/// Why the handshake failed.
#[derive(Debug)]
pub enum Error<IoError> {
    AuthenticationFailed,
    NegotiationFailed,
    Io(IoError),
}

impl<IoError> From<IoError> for Error<IoError> {
    fn from(value: IoError) -> (r: Self)
        ensures
            r == Error::<IoError>::Io(value),
    {
        Error::Io(value)
    }
}

impl<IoError> vstd::std_specs::convert::FromSpecImpl<IoError> for Error<IoError> {
    open spec fn obeys_from_spec() -> bool {
        true
    }

    open spec fn from_spec(v: IoError) -> Self {
        Error::Io(v)
    }
}

#[verifier::external_type_specification]
#[verifier::external_body]
#[verifier::reject_recursive_types(T)]
pub struct ExArrayVec<T, const CAP: usize>(arrayvec::ArrayVec<T, CAP>);

/// The bytes held by a line buffer.
pub uninterp spec fn line_contents(v: arrayvec::ArrayVec<u8, 128>) -> Seq<u8>;

/// Relies on `arrayvec::ArrayVec::new`: a vector with no element.
#[verifier::external_body]
fn line_new() -> (r: arrayvec::ArrayVec<u8, 128>)
    ensures
        line_contents(r) == Seq::<u8>::empty(),
{
    arrayvec::ArrayVec::new()
}

/// Relies on `arrayvec::ArrayVec::try_extend_from_slice`: where the capacity
/// left holds `s`, the elements of `s` are appended; else it fails and the
/// vector is left as it is.
#[verifier::external_body]
fn line_extend(v: &mut arrayvec::ArrayVec<u8, 128>, s: &[u8]) -> (r: bool)
    ensures
        line_contents(*old(v)).len() + s@.len() <= 128 ==> r && line_contents(*final(v)) == line_contents(
            *old(v),
        ) + s@,
        line_contents(*old(v)).len() + s@.len() > 128 ==> !r && line_contents(*final(v))
            == line_contents(*old(v)),
{
    v.try_extend_from_slice(s).is_ok()
}

/// Relies on `arrayvec::ArrayVec::as_slice`: the elements in order.
#[verifier::external_body]
fn line_bytes(v: &arrayvec::ArrayVec<u8, 128>) -> (r: &[u8])
    ensures
        r@ == line_contents(*v),
{
    v.as_slice()
}

/// The number of decimal digits of `x`; none for zero.
pub open spec fn num_digits(x: nat) -> nat
    decreases x,
{
    if x == 0 {
        0
    } else {
        1 + num_digits(x / 10)
    }
}

/// The largest power of ten that is at most `x`, and 1 below ten.
pub open spec fn top_power(x: nat) -> nat
    decreases x,
{
    if x < 10 {
        1
    } else {
        10 * top_power(x / 10)
    }
}

/// The digits of `n` read with the place values `base`, `base / 10`, ... 1.
pub open spec fn digits_from(n: nat, base: nat) -> Seq<u32>
    decreases base,
{
    if base == 0 {
        Seq::empty()
    } else {
        seq![(n / base) as u32] + digits_from(n % base, base / 10)
    }
}

/// The decimal digits of `n`, most significant first; `0` has one digit.
pub open spec fn decimal(n: nat) -> Seq<u32> {
    digits_from(n, top_power(n))
}

proof fn lemma_num_digits_le(x: nat)
    ensures
        num_digits(x) <= x,
    decreases x,
{
    if x > 0 {
        lemma_num_digits_le(x / 10);
    }
}

/// The number of decimal digits of `x`; none for zero.
pub fn digits(x: u32) -> (r: u32)
    ensures
        r == num_digits(x as nat),
{
    let mut n = x;
    let mut res: u32 = 0;
    proof {
        lemma_num_digits_le(x as nat);
    }
    while n != 0
        invariant
            res + num_digits(n as nat) == num_digits(x as nat),
            num_digits(x as nat) <= x,
        decreases n,
    {
        n = n / 10;
        res = res + 1;
    }
    res
}


/// `b` is a power of ten.
pub open spec fn is_pow10(b: nat) -> bool
    decreases b,
{
    if b <= 1 {
        b == 1
    } else {
        b % 10 == 0 && is_pow10(b / 10)
    }
}

proof fn lemma_top_power(n: nat)
    ensures
        is_pow10(top_power(n)),
        n < 10 * top_power(n),
        1 <= top_power(n),
        n >= 1 ==> top_power(n) <= n,
    decreases n,
{
    if n >= 10 {
        lemma_top_power(n / 10);
        let t = top_power(n / 10);
        assert((10 * t) % 10 == 0 && (10 * t) / 10 == t) by (nonlinear_arith);
        assert(n < 10 * (10 * t)) by (nonlinear_arith)
            requires
                n / 10 < 10 * t,
        ;
        assert(10 * t <= n) by (nonlinear_arith)
            requires
                t <= n / 10,
                n >= 10,
        ;
    }
}

/// The number of digits read with the place values `base` down to 1.
proof fn lemma_digits_len(n: nat, base: nat)
    ensures
        digits_from(n, base).len() == num_digits(base),
    decreases base,
{
    if base > 0 {
        lemma_digits_len(n % base, base / 10);
    }
}

proof fn lemma_num_digits_mono(x: nat, y: nat)
    requires
        x <= y,
    ensures
        num_digits(x) <= num_digits(y),
    decreases y,
{
    if x > 0 {
        lemma_num_digits_mono(x / 10, y / 10);
    }
}

/// A 32-bit number has at most ten decimal digits.
proof fn lemma_decimal_len(n: u32)
    ensures
        decimal(n as nat).len() <= 10,
{
    lemma_top_power(n as nat);
    lemma_digits_len(n as nat, top_power(n as nat));
    lemma_num_digits_mono(top_power(n as nat), 4294967295);
    reveal_with_fuel(num_digits, 11);
}

/// The digits of a number, most significant first.
pub struct DigitIter {
    n: u32,
    base: u32,
}

impl DigitIter {
    pub closed spec fn wf(&self) -> bool {
        self.base == 0 || (self.n < 10 * self.base && is_pow10(self.base as nat))
    }

    /// The digits not given yet.
    pub closed spec fn rest(&self) -> Seq<u32> {
        digits_from(self.n as nat, self.base as nat)
    }

    pub fn new(n: u32) -> (r: Self)
        ensures
            r.wf(),
            r.rest() == decimal(n as nat),
    {
        let mut base: u32 = 1;
        let mut m = n;
        while m >= 10
            invariant
                base * top_power(m as nat) == top_power(n as nat),
                base * m <= n,
                base >= 1,
            decreases m,
        {
            let m2 = m / 10;
            assert(top_power(m as nat) == 10 * top_power(m2 as nat));
            assert(base * 10 <= base * m) by (nonlinear_arith)
                requires
                    m >= 10,
                    base >= 1,
            ;
            assert((base * 10) * m2 <= base * m) by (nonlinear_arith)
                requires
                    m2 == m / 10,
                    base >= 1,
            ;
            assert(base * top_power(m as nat) == (base * 10) * top_power(m2 as nat)) by (nonlinear_arith)
                requires
                    top_power(m as nat) == 10 * top_power(m2 as nat),
            ;
            m = m2;
            base = base * 10;
        }
        assert(top_power(m as nat) == 1);
        assert(base == top_power(n as nat)) by (nonlinear_arith)
            requires
                base * top_power(m as nat) == top_power(n as nat),
                top_power(m as nat) == 1,
        ;
        let r = DigitIter { n, base };
        proof {
            lemma_top_power(n as nat);
        }
        assert(r.rest() == decimal(n as nat));
        r
    }

    /// The next digit.
    pub fn next(&mut self) -> (r: Option<u32>)
        requires
            old(self).wf(),
        ensures
            final(self).wf(),
            r matches Some(d) ==> d < 10,
            old(self).rest().len() == 0 ==> r is None && final(self).rest() == old(self).rest(),
            old(self).rest().len() > 0 ==> r == Some(old(self).rest()[0]) && final(self).rest()
                == old(self).rest().drop_first(),
    {
        if self.base == 0 {
            return None;
        }
        let res = self.n / self.base;
        proof {
            vstd::arithmetic::div_mod::lemma_fundamental_div_mod(self.n as int, self.base as int);
            assert(res * self.base <= self.n) by (nonlinear_arith)
                requires
                    self.n == self.base * (self.n / self.base) + self.n % self.base,
                    res == self.n / self.base,
                    self.n % self.base >= 0,
            ;
            assert(self.n - res * self.base == self.n % self.base) by (nonlinear_arith)
                requires
                    self.n == self.base * (self.n / self.base) + self.n % self.base,
                    res == self.n / self.base,
            ;
        }
        proof {
            assert(res < 10) by (nonlinear_arith)
                requires
                    self.n < 10 * self.base,
                    res == self.n / self.base,
                    self.base > 0,
            ;
            if self.base > 1 {
                assert(self.n % self.base < self.base);
                assert(self.base == 10 * (self.base / 10)) by (nonlinear_arith)
                    requires
                        self.base % 10 == 0,
                ;
            }
        }
        self.n = self.n - res * self.base;
        self.base = self.base / 10;
        assert(digits_from(old(self).n as nat, old(self).base as nat).drop_first() =~= digits_from(
            self.n as nat,
            self.base as nat,
        ));
        Some(res)
    }
}

/// The ASCII character of a hexadecimal digit.
pub open spec fn hex_char(x: nat) -> u8 {
    if x < 10 {
        (48 + x) as u8
    } else {
        (97 + x - 10) as u8
    }
}

/// The ASCII character of the hexadecimal digit `hex`.
pub fn hex_to_ascii(hex: u8) -> (r: u8)
    requires
        hex < 16,
    ensures
        r == hex_char(hex as nat),
{
    if hex < 10 {
        48 + hex
    } else {
        97 + hex - 10
    }
}

/// The two hexadecimal characters of the ASCII code of a decimal digit.
pub open spec fn digit_hex(d: nat) -> Seq<u8> {
    seq![hex_char((d + 48) / 16), hex_char((d + 48) % 16)]
}

/// The ASCII code of the decimal digit `digit`, written as two hexadecimal
/// characters.
pub fn to_ascii(digit: u8) -> (r: [u8; 2])
    requires
        digit < 10,
    ensures
        r@ == digit_hex(digit as nat),
{
    let ascii = digit + 48;
    let r = [hex_to_ascii(ascii / 16), hex_to_ascii(ascii % 16)];
    assert(r@ =~= digit_hex(digit as nat));
    r
}


/// `NUL`, then `AUTH EXTERNAL ` and a space.
pub open spec fn auth_prefix() -> Seq<u8> {
    seq![0u8, 65, 85, 84, 72, 32, 69, 88, 84, 69, 82, 78, 65, 76, 32]
}

/// `\r\n`.
pub open spec fn crlf() -> Seq<u8> {
    seq![13u8, 10u8]
}

/// The hexadecimal ASCII codes of the digits `ds`.
pub open spec fn hex_line(ds: Seq<u32>) -> Seq<u8>
    decreases ds.len(),
{
    if ds.len() == 0 {
        Seq::empty()
    } else {
        hex_line(ds.drop_last()) + digit_hex(ds.last() as nat)
    }
}

/// The request that names the user `uid`: the ASCII codes of its decimal
/// digits, each as two hexadecimal characters.
pub open spec fn auth_line(uid: u32) -> Seq<u8> {
    auth_prefix() + hex_line(decimal(uid as nat)) + crlf()
}

/// The first line of the handshake, which names the user `uid`.
pub fn auth_request(uid: u32) -> (r: Vec<u8>)
    ensures
        r@ == auth_line(uid),
{
    let mut buf = line_new();
    let prefix: [u8; 15] = [0u8, 65, 85, 84, 72, 32, 69, 88, 84, 69, 82, 78, 65, 76, 32];
    assert(prefix@ =~= auth_prefix());
    line_extend(&mut buf, prefix.as_slice());
    let mut it = DigitIter::new(uid);
    let ghost all = decimal(uid as nat);
    let ghost mut done: Seq<u32> = Seq::empty();
    proof {
        lemma_decimal_len(uid);
        assert(all =~= done + it.rest());
        assert(hex_line(done) =~= Seq::<u8>::empty());
        assert(line_contents(buf) =~= auth_prefix() + hex_line(done));
    }
    loop
        invariant
            it.wf(),
            all == done + it.rest(),
            all.len() <= 10,
            line_contents(buf) == auth_prefix() + hex_line(done),
            forall|i: int| 0 <= i < done.len() ==> done[i] < 10,
        ensures
            all == done,
            line_contents(buf) == auth_prefix() + hex_line(done),
        decreases it.rest().len(),
    {
        match it.next() {
            Some(d) => {
                let pair = to_ascii(d as u8);
                proof {
                    assert(hex_line(done).len() == 2 * done.len()) by {
                        lemma_hex_line_len(done);
                    }
                }
                line_extend(&mut buf, pair.as_slice());
                proof {
                    let next = done.push(d);
                    assert(next.drop_last() =~= done);
                    assert(all =~= next + it.rest());
                    done = next;
                }
            },
            None => {
                assert(all =~= done);
                break;
            },
        }
    }
    proof {
        lemma_hex_line_len(done);
    }
    let end: [u8; 2] = [13u8, 10u8];
    line_extend(&mut buf, end.as_slice());
    assert(line_contents(buf) =~= auth_line(uid));
    vstd::slice::slice_to_vec(line_bytes(&buf))
}

proof fn lemma_hex_line_len(ds: Seq<u32>)
    ensures
        hex_line(ds).len() == 2 * ds.len(),
    decreases ds.len(),
{
    if ds.len() > 0 {
        lemma_hex_line_len(ds.drop_last());
    }
}

/// Whether `s` starts with `p`.
pub open spec fn starts_with(s: Seq<u8>, p: Seq<u8>) -> bool {
    p.len() <= s.len() && s.subrange(0, p.len() as int) == p
}

fn has_prefix(s: &[u8], p: &[u8]) -> (r: bool)
    ensures
        r == starts_with(s@, p@),
{
    if p.len() > s.len() {
        return false;
    }
    let mut i: usize = 0;
    while i < p.len()
        invariant
            i <= p@.len() <= s@.len(),
            forall|j: int| 0 <= j < i ==> s@[j] == p@[j],
        decreases p@.len() - i,
    {
        if s[i] != p[i] {
            assert(s@.subrange(0, p@.len() as int)[i as int] != p@[i as int]);
            return false;
        }
        i = i + 1;
    }
    assert(s@.subrange(0, p@.len() as int) =~= p@);
    true
}

/// `OK`.
pub open spec fn ok_reply() -> Seq<u8> {
    seq![79u8, 75u8]
}

/// `AGREE_UNIX_FD\r\n`.
pub open spec fn agree_reply() -> Seq<u8> {
    seq![65, 71, 82, 69, 69, 95, 85, 78, 73, 88, 95, 70, 68, 13u8, 10u8]
}

/// `NEGOTIATE_UNIX_FD\r\nBEGIN\r\n`.
pub open spec fn negotiate_line() -> Seq<u8> {
    seq![78, 69, 71, 79, 84, 73, 65, 84, 69, 95, 85, 78, 73, 88, 95, 70, 68, 13u8, 10u8, 66, 69, 71, 73, 78, 13u8, 10u8]
}

/// Checks the server's reply to the request that names the user.
pub fn check_auth_reply<E>(reply: &[u8]) -> (r: Result<(), Error<E>>)
    ensures
        starts_with(reply@, ok_reply()) ==> r is Ok,
        !starts_with(reply@, ok_reply()) ==> r matches Err(Error::AuthenticationFailed),
{
    let ok: [u8; 2] = [79u8, 75u8];
    assert(ok@ =~= ok_reply());
    if has_prefix(reply, ok.as_slice()) {
        Ok(())
    } else {
        Err(Error::AuthenticationFailed)
    }
}

/// The second line of the handshake: asks to pass file descriptors, then
/// begins the message stream.
pub fn negotiate_request() -> (r: Vec<u8>)
    ensures
        r@ == negotiate_line(),
{
    let line: [u8; 26] = [78, 69, 71, 79, 84, 73, 65, 84, 69, 95, 85, 78, 73, 88, 95, 70, 68, 13u8, 10u8, 66, 69, 71, 73, 78, 13u8, 10u8];
    assert(line@ =~= negotiate_line());
    vstd::slice::slice_to_vec(line.as_slice())
}

/// Checks the server's reply to the negotiation.
pub fn check_agree_reply<E>(reply: &[u8]) -> (r: Result<(), Error<E>>)
    ensures
        starts_with(reply@, agree_reply()) ==> r is Ok,
        !starts_with(reply@, agree_reply()) ==> r matches Err(Error::NegotiationFailed),
{
    let agree: [u8; 15] = [65, 71, 82, 69, 69, 95, 85, 78, 73, 88, 95, 70, 68, 13u8, 10u8];
    assert(agree@ =~= agree_reply());
    if has_prefix(reply, agree.as_slice()) {
        Ok(())
    } else {
        Err(Error::NegotiationFailed)
    }
}

} // verus!
