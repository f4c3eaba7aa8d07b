//! Length-prefixed framing of request/response messages: an unsigned
//! LEB128 varint length, then the message bytes, with configurable limits.

use vstd::prelude::*;

verus! {

/// Default limit on a request or response message: 16 MiB.
pub const DEFAULT_MAX_MESSAGE_SIZE: usize = 16777216;

/// Most bytes a length prefix may take.
pub const MAX_VARINT_BYTES: usize = 10;

/// The unsigned LEB128 encoding of `n`: seven bits per byte, least
/// significant first, the high bit set on every byte but the last.
pub open spec fn varint(n: nat) -> Seq<u8>
    decreases n,
{
    if n < 128 {
        seq![n as u8]
    } else {
        seq![(n % 128 + 128) as u8] + varint(n / 128)
    }
}

/// The number that LEB128 bytes `bytes` stand for (high bits ignored).
pub open spec fn leb_value(bytes: Seq<u8>) -> nat
    decreases bytes.len(),
{
    if bytes.len() == 0 {
        0
    } else {
        (bytes[0] % 128) as nat + 128 * leb_value(bytes.drop_first())
    }
}

/// `128` to the power `k`.
pub open spec fn pow128(k: nat) -> nat
    decreases k,
{
    if k == 0 { 1 } else { 128 * pow128((k - 1) as nat) }
}

/// Two to the sixty-fourth.
pub open spec fn two_pow_64() -> nat {
    0x1_0000_0000_0000_0000
}

/// Why a frame was refused.
#[derive(Clone, Copy, Debug, PartialEq, Eq, Structural)]
pub enum FrameError {
    MessageTooLarge,
    VarintTooLong,
}

/// What feeding one byte to a length-prefix reader gives.
#[derive(Clone, Copy, Debug, PartialEq, Eq, Structural)]
pub enum VarintStep {
    NeedMore,
    Complete(u64),
    TooLong,
}

proof fn lemma_leb_push(s: Seq<u8>, b: u8)
    ensures
        leb_value(s.push(b)) == leb_value(s) + (b % 128) as nat * pow128(s.len()),
    decreases s.len(),
{
    if s.len() == 0 {
        assert(s.push(b).drop_first() =~= Seq::<u8>::empty());
        assert(pow128(0) == 1);
        assert(leb_value(s.push(b)) == (b % 128) as nat + 128 * leb_value(Seq::<u8>::empty()));
    } else {
        assert(s.push(b).drop_first() =~= s.drop_first().push(b));
        assert(s.push(b)[0] == s[0]);
        assert(pow128(s.len()) == 128 * pow128((s.len() - 1) as nat));
        lemma_leb_push(s.drop_first(), b);
        let p = pow128((s.len() - 1) as nat);
        let x = leb_value(s.drop_first());
        let d = (b % 128) as nat;
        assert(128 * (x + d * p) == 128 * x + d * (128 * p)) by (nonlinear_arith);
    }
}

proof fn lemma_mod_add(v: int, d: int, m: int)
    requires
        m > 0,
    ensures
        ((v % m) + d) % m == (v + d) % m,
{
    vstd::arithmetic::div_mod::lemma_add_mod_noop(v, d, m);
    vstd::arithmetic::div_mod::lemma_mod_twice(v, m);
    vstd::arithmetic::div_mod::lemma_add_mod_noop(v % m, d, m);
}

/// Law: the varint of `n` stands for `n`, every byte but the last has its
/// high bit set, the last does not, and a 64-bit number takes at most ten bytes.
pub proof fn lemma_varint_roundtrip(n: nat)
    ensures
        leb_value(varint(n)) == n,
        varint(n).len() >= 1,
        forall|i: int| 0 <= i < varint(n).len() - 1 ==> #[trigger] varint(n)[i] >= 128,
        varint(n).last() < 128,
        varint(n).len() >= 2 ==> n >= pow128((varint(n).len() - 1) as nat),
        n < two_pow_64() ==> varint(n).len() <= 10,
    decreases n,
{
    if n < 128 {
        assert(varint(n).drop_first() =~= Seq::<u8>::empty());
        assert(leb_value(Seq::<u8>::empty()) == 0);
        assert(varint(n)[0] == n as u8);
        assert(leb_value(varint(n)) == (varint(n)[0] % 128) as nat + 128 * leb_value(varint(n).drop_first()));
    } else {
        lemma_varint_roundtrip(n / 128);
        let rest = varint(n / 128);
        let v = varint(n);
        assert(v.drop_first() =~= rest);
        assert(v[0] == (n % 128 + 128) as u8);
        assert(v[0] % 128 == n % 128);
        assert(n == n % 128 + 128 * (n / 128));
        assert(leb_value(v) == (v[0] % 128) as nat + 128 * leb_value(v.drop_first()));
        assert(v.last() == rest.last());
        assert forall|i: int| 0 <= i < v.len() - 1 implies #[trigger] v[i] >= 128 by {
            if i > 0 {
                assert(v[i] == rest[i - 1]);
            }
        }
        assert(n >= 128 * (n / 128)) by (nonlinear_arith);
        if rest.len() >= 2 {
            let p = pow128((rest.len() - 1) as nat);
            assert(pow128(rest.len()) == 128 * p);
            assert(n >= 128 * p) by (nonlinear_arith)
                requires
                    n >= 128 * (n / 128),
                    n / 128 >= p,
            ;
        } else {
            assert(pow128(0) == 1);
            assert(pow128(1) == 128);
        }
        if n < two_pow_64() && rest.len() >= 10 {
            lemma_pow128_grows(rest.len());
            lemma_pow128_nine();
            assert(false) by (nonlinear_arith)
                requires
                    n >= 128 * (n / 128),
                    n / 128 >= pow128((rest.len() - 1) as nat),
                    pow128((rest.len() - 1) as nat) >= pow128(9),
                    pow128(9) == 0x8000_0000_0000_0000,
                    n < 0x1_0000_0000_0000_0000,
            ;
        }
    }
}

proof fn lemma_pow128_nine()
    ensures
        pow128(9) == 0x8000_0000_0000_0000,
{
    assert(pow128(0) == 1);
    assert(pow128(1) == 0x80);
    assert(pow128(2) == 0x4000);
    assert(pow128(3) == 0x20_0000);
    assert(pow128(4) == 0x1000_0000);
    assert(pow128(5) == 0x8_0000_0000);
    assert(pow128(6) == 0x400_0000_0000);
    assert(pow128(7) == 0x2_0000_0000_0000);
    assert(pow128(8) == 0x100_0000_0000_0000);
}

proof fn lemma_pow128_grows(k: nat)
    requires
        k >= 10,
    ensures
        pow128((k - 1) as nat) >= pow128(9),
    decreases k,
{
    if k > 10 {
        lemma_pow128_grows((k - 1) as nat);
        assert(pow128((k - 1) as nat) == 128 * pow128((k - 2) as nat));
    }
}


/// The varint of `n`.
pub fn encode_varint(n: u64) -> (out: Vec<u8>)
    ensures
        out@ == varint(n as nat),
{
    let mut out: Vec<u8> = Vec::new();
    let mut rest = n;
    loop
        invariant
            out@ + varint(rest as nat) == varint(n as nat),
        decreases rest,
    {
        if rest < 128 {
            out.push(rest as u8);
            assert(varint(rest as nat) =~= seq![rest as u8]);
            return out;
        }
        let ghost before = out@;
        out.push((rest % 128 + 128) as u8);
        assert(varint(rest as nat) == seq![(rest % 128 + 128) as u8] + varint((rest / 128) as nat));
        assert(out@ + varint((rest / 128) as nat) =~= before + varint(rest as nat));
        rest = rest / 128;
    }
}

/// A frame: the varint of the message length, then the message; refused
/// when the message is over `max_size` bytes.
pub fn frame_message(data: &[u8], max_size: usize) -> (res: Result<Vec<u8>, FrameError>)
    ensures
        data@.len() > max_size ==> res == Err::<Vec<u8>, FrameError>(FrameError::MessageTooLarge),
        data@.len() <= max_size ==> (res matches Ok(v) && v@ == varint(data@.len()) + data@),
{
    if data.len() > max_size {
        return Err(FrameError::MessageTooLarge);
    }
    let mut out = encode_varint(data.len() as u64);
    let ghost prefix = out@;
    let mut j: usize = 0;
    while j < data.len()
        invariant
            j <= data@.len(),
            out@ == prefix + data@.take(j as int),
        decreases data@.len() - j,
    {
        out.push(data[j]);
        j = j + 1;
        assert(out@ =~= prefix + data@.take(j as int));
    }
    assert(data@.take(data@.len() as int) =~= data@);
    Ok(out)
}

/// Reads a varint length prefix one byte at a time.
pub struct VarintReader {
    value: u64,
    scale: u128,
    count: usize,
    consumed: Ghost<Seq<u8>>,
}

impl VarintReader {
    /// The bytes read so far.
    pub closed spec fn consumed(&self) -> Seq<u8> {
        self.consumed@
    }

    /// The reader is ready for another byte: fewer than ten bytes read,
    /// each with its high bit set.
    pub closed spec fn ready(&self) -> bool {
        &&& self.consumed@.len() < 10
        &&& self.count == self.consumed@.len()
        &&& self.scale == pow128(self.count as nat)
        &&& self.value == leb_value(self.consumed@) % two_pow_64()
        &&& forall|i: int| 0 <= i < self.consumed@.len() ==> #[trigger] self.consumed@[i] >= 128
    }

    /// A reader that has read nothing.
    pub fn new() -> (r: Self)
        ensures
            r.ready(),
            r.consumed() == Seq::<u8>::empty(),
    {
        VarintReader { value: 0, scale: 1, count: 0, consumed: Ghost(Seq::empty()) }
    }

    /// Takes the next byte: a byte without the high bit ends the prefix with
    /// the number read (modulo 2^64); ten bytes with it are too many.
    pub fn push_byte(&mut self, byte: u8) -> (step: VarintStep)
        requires
            old(self).ready(),
        ensures
            final(self).consumed() == old(self).consumed().push(byte),
            byte < 128 ==> step == VarintStep::Complete(
                (leb_value(old(self).consumed().push(byte)) % two_pow_64()) as u64,
            ),
            byte >= 128 && old(self).consumed().len() + 1 >= 10 ==> step == VarintStep::TooLong,
            byte >= 128 && old(self).consumed().len() + 1 < 10 ==> step == VarintStep::NeedMore
                && final(self).ready(),
    {
        let ghost before = self.consumed@;
        proof {
            lemma_leb_push(before, byte);
            lemma_pow128_bound(self.count as nat);
        }
        let digit = (byte % 128) as u128;
        assert(digit * self.scale <= 127 * 0x8000_0000_0000_0000) by (nonlinear_arith)
            requires
                digit < 128,
                self.scale <= 0x8000_0000_0000_0000,
        ;
        let acc: u128 = self.value as u128 + digit * self.scale;
        proof {
            lemma_mod_add(
                leb_value(before) as int,
                (digit * self.scale) as int,
                two_pow_64() as int,
            );
        }
        let next = (acc % 0x1_0000_0000_0000_0000u128) as u64;
        self.value = next;
        self.consumed = Ghost(before.push(byte));
        if byte < 128 {
            return VarintStep::Complete(next);
        }
        if self.count + 1 >= MAX_VARINT_BYTES {
            return VarintStep::TooLong;
        }
        self.count = self.count + 1;
        self.scale = self.scale * 128;
        proof {
            assert(self.scale == pow128(self.count as nat));
            assert forall|i: int| 0 <= i < self.consumed@.len() implies #[trigger] self.consumed@[i]
                >= 128 by {
                if i < before.len() {
                    assert(self.consumed@[i] == before[i]);
                }
            }
        }
        VarintStep::NeedMore
    }
}

proof fn lemma_pow128_bound(k: nat)
    requires
        k < 10,
    ensures
        pow128(k) <= 0x8000_0000_0000_0000,
        pow128(k) > 0,
    decreases k,
{
    lemma_pow128_nine();
    if k < 9 {
        lemma_pow128_mono(k, 9);
    }
}

proof fn lemma_pow128_mono(a: nat, b: nat)
    requires
        a <= b,
    ensures
        0 < pow128(a) <= pow128(b),
    decreases b,
{
    if b > a {
        lemma_pow128_mono(a, (b - 1) as nat);
    } else if a > 0 {
        lemma_pow128_mono((a - 1) as nat, (a - 1) as nat);
    }
}

/// Accepts a read message length of at most `max_size` bytes.
pub fn check_frame_length(len: u64, max_size: usize) -> (res: Result<usize, FrameError>)
    ensures
        len > max_size ==> res == Err::<usize, FrameError>(FrameError::MessageTooLarge),
        len <= max_size ==> res == Ok::<usize, FrameError>(len as usize),
{
    if len > max_size as u64 {
        Err(FrameError::MessageTooLarge)
    } else {
        Ok(len as usize)
    }
}

/// Limits of a request/response codec.
pub struct CborCodec {
    pub max_request_size: usize,
    pub max_response_size: usize,
}

impl CborCodec {
    /// A codec with the given request and response limits.
    pub fn new(max_request_size: usize, max_response_size: usize) -> (c: Self)
        ensures
            c.max_request_size == max_request_size,
            c.max_response_size == max_response_size,
    {
        CborCodec { max_request_size, max_response_size }
    }

    /// Frames a serialized request.
    pub fn frame_request(&self, data: &[u8]) -> (res: Result<Vec<u8>, FrameError>)
        ensures
            data@.len() > self.max_request_size ==> res == Err::<Vec<u8>, FrameError>(
                FrameError::MessageTooLarge,
            ),
            data@.len() <= self.max_request_size ==> (res matches Ok(v) && v@ == varint(
                data@.len(),
            ) + data@),
    {
        frame_message(data, self.max_request_size)
    }

    /// Frames a serialized response.
    pub fn frame_response(&self, data: &[u8]) -> (res: Result<Vec<u8>, FrameError>)
        ensures
            data@.len() > self.max_response_size ==> res == Err::<Vec<u8>, FrameError>(
                FrameError::MessageTooLarge,
            ),
            data@.len() <= self.max_response_size ==> (res matches Ok(v) && v@ == varint(
                data@.len(),
            ) + data@),
    {
        frame_message(data, self.max_response_size)
    }
}

impl Default for CborCodec {
    fn default() -> (c: Self)
        ensures
            c.max_request_size == DEFAULT_MAX_MESSAGE_SIZE,
            c.max_response_size == DEFAULT_MAX_MESSAGE_SIZE,
    {
        CborCodec::new(DEFAULT_MAX_MESSAGE_SIZE, DEFAULT_MAX_MESSAGE_SIZE)
    }
}

} // verus!
