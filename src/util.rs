use vstd::prelude::*;

use crate::xml::XMLError;

verus! {

/// The four bytes of `x`, most significant first.
pub open spec fn be_u32_bytes(x: u32) -> Seq<u8> {
    seq![
        (x / 0x100_0000) as u8,
        ((x / 0x1_0000) % 0x100) as u8,
        ((x / 0x100) % 0x100) as u8,
        (x % 0x100) as u8,
    ]
}

/// The eight bytes of `x`, most significant first.
pub open spec fn be_u64_bytes(x: u64) -> Seq<u8> {
    be_u32_bytes((x / 0x1_0000_0000) as u32) + be_u32_bytes((x % 0x1_0000_0000) as u32)
}

/// The sixteen bytes of `x`, most significant first.
pub open spec fn be_u128_bytes(x: u128) -> Seq<u8> {
    be_u64_bytes((x / 0x1_0000_0000_0000_0000) as u64) + be_u64_bytes(
        (x % 0x1_0000_0000_0000_0000) as u64,
    )
}

/// The integer whose big-endian bytes are the first four of `s`.
#[verifier::opaque]
pub open spec fn u32_from_be(s: Seq<u8>) -> u32 {
    (s[0] * 0x100_0000 + s[1] * 0x1_0000 + s[2] * 0x100 + s[3]) as u32
}

/// The integer whose big-endian bytes are the first eight of `s`.
#[verifier::opaque]
pub open spec fn u64_from_be(s: Seq<u8>) -> u64 {
    (u32_from_be(s) * 0x1_0000_0000 + u32_from_be(s.subrange(4, 8))) as u64
}

/// The integer whose big-endian bytes are the first sixteen of `s`.
#[verifier::opaque]
pub open spec fn u128_from_be(s: Seq<u8>) -> u128 {
    (u64_from_be(s) * 0x1_0000_0000_0000_0000 + u64_from_be(s.subrange(8, 16))) as u128
}

/// Reading back the bytes written for a `u32` gives the same integer.
pub proof fn lemma_u32_round_trip(x: u32)
    ensures
        be_u32_bytes(x).len() == 4,
        u32_from_be(be_u32_bytes(x)) == x,
{
    reveal(u32_from_be);
}

/// Reading back the bytes written for a `u64` gives the same integer.
pub proof fn lemma_u64_round_trip(x: u64)
    ensures
        be_u64_bytes(x).len() == 8,
        u64_from_be(be_u64_bytes(x)) == x,
{
    reveal(u64_from_be);
    reveal(u32_from_be);
    let s = be_u64_bytes(x);
    let hi = (x / 0x1_0000_0000) as u32;
    let lo = (x % 0x1_0000_0000) as u32;
    lemma_u32_round_trip(hi);
    lemma_u32_round_trip(lo);
    assert(s.subrange(4, 8) =~= be_u32_bytes(lo));
    assert(u32_from_be(s) == u32_from_be(be_u32_bytes(hi)));
}

/// Reading back the bytes written for a `u128` gives the same integer.
pub proof fn lemma_u128_round_trip(x: u128)
    ensures
        be_u128_bytes(x).len() == 16,
        u128_from_be(be_u128_bytes(x)) == x,
{
    reveal(u128_from_be);
    let s = be_u128_bytes(x);
    let hi = (x / 0x1_0000_0000_0000_0000) as u64;
    let lo = (x % 0x1_0000_0000_0000_0000) as u64;
    assert(u64_from_be(s) == hi) by {
        lemma_u64_round_trip(hi);
        assert(s.subrange(0, 8) =~= be_u64_bytes(hi));
        assert(be_u64_bytes(hi).subrange(0, 8) =~= be_u64_bytes(hi));
        lemma_u64_prefix(s, be_u64_bytes(hi));
    }
    assert(u64_from_be(s.subrange(8, 16)) == lo) by {
        lemma_u64_round_trip(lo);
        assert(s.subrange(8, 16) =~= be_u64_bytes(lo));
    }
    assert(x == hi * 0x1_0000_0000_0000_0000 + lo);
}

/// `u32_from_be` reads only the first four bytes.
pub proof fn lemma_u32_prefix(s: Seq<u8>, t: Seq<u8>)
    requires
        s.len() >= 4,
        t.len() >= 4,
        s.subrange(0, 4) == t.subrange(0, 4),
    ensures
        u32_from_be(s) == u32_from_be(t),
{
    reveal(u32_from_be);
    assert(s[0] == s.subrange(0, 4)[0]);
    assert(s[1] == s.subrange(0, 4)[1]);
    assert(s[2] == s.subrange(0, 4)[2]);
    assert(s[3] == s.subrange(0, 4)[3]);
    assert(t[0] == t.subrange(0, 4)[0]);
    assert(t[1] == t.subrange(0, 4)[1]);
    assert(t[2] == t.subrange(0, 4)[2]);
    assert(t[3] == t.subrange(0, 4)[3]);
}

/// `u64_from_be` reads only the first eight bytes.
pub proof fn lemma_u64_prefix(s: Seq<u8>, t: Seq<u8>)
    requires
        s.len() >= 8,
        t.len() >= 8,
        s.subrange(0, 8) == t.subrange(0, 8),
    ensures
        u64_from_be(s) == u64_from_be(t),
{
    reveal(u64_from_be);
    reveal(u32_from_be);
    assert(s[0] == s.subrange(0, 8)[0]);
    assert(s[1] == s.subrange(0, 8)[1]);
    assert(s[2] == s.subrange(0, 8)[2]);
    assert(s[3] == s.subrange(0, 8)[3]);
    assert(t[0] == t.subrange(0, 8)[0]);
    assert(t[1] == t.subrange(0, 8)[1]);
    assert(t[2] == t.subrange(0, 8)[2]);
    assert(t[3] == t.subrange(0, 8)[3]);
    assert(s.subrange(4, 8) =~= s.subrange(0, 8).subrange(4, 8));
    assert(t.subrange(4, 8) =~= t.subrange(0, 8).subrange(4, 8));
}

/// Reading a `u32` at offset `k` of `s` sees only the four bytes there.
pub proof fn lemma_u32_window(s: Seq<u8>, k: int)
    requires
        0 <= k,
        k + 4 <= s.len(),
    ensures
        u32_from_be(s.subrange(k, s.len() as int)) == u32_from_be(s.subrange(k, k + 4)),
{
    assert(s.subrange(k, s.len() as int).subrange(0, 4) =~= s.subrange(k, k + 4).subrange(0, 4));
    lemma_u32_prefix(s.subrange(k, s.len() as int), s.subrange(k, k + 4));
}

/// Reading a `u64` at offset `k` of `s` sees only the eight bytes there.
pub proof fn lemma_u64_window(s: Seq<u8>, k: int)
    requires
        0 <= k,
        k + 8 <= s.len(),
    ensures
        u64_from_be(s.subrange(k, s.len() as int)) == u64_from_be(s.subrange(k, k + 8)),
{
    assert(s.subrange(k, s.len() as int).subrange(0, 8) =~= s.subrange(k, k + 8).subrange(0, 8));
    lemma_u64_prefix(s.subrange(k, s.len() as int), s.subrange(k, k + 8));
}

/// Reading a `u128` at offset `k` of `s` sees only the sixteen bytes there.
pub proof fn lemma_u128_window(s: Seq<u8>, k: int)
    requires
        0 <= k,
        k + 16 <= s.len(),
    ensures
        u128_from_be(s.subrange(k, s.len() as int)) == u128_from_be(s.subrange(k, k + 16)),
{
    let a = s.subrange(k, s.len() as int);
    let b = s.subrange(k, k + 16);
    assert(a.subrange(0, 8) =~= b.subrange(0, 8));
    lemma_u64_prefix(a, b);
    assert(a.subrange(8, 16) =~= b.subrange(8, 16));
    reveal(u128_from_be);
}

/// Appends the big-endian bytes of `x`.
pub fn push_be_u32(buf: &mut Vec<u8>, x: u32)
    ensures
        final(buf)@ == old(buf)@ + be_u32_bytes(x),
{
    buf.push((x / 0x100_0000) as u8);
    buf.push(((x / 0x1_0000) % 0x100) as u8);
    buf.push(((x / 0x100) % 0x100) as u8);
    buf.push((x % 0x100) as u8);
    assert(buf@ =~= old(buf)@ + be_u32_bytes(x));
}

/// Appends the big-endian bytes of `x`.
pub fn push_be_u64(buf: &mut Vec<u8>, x: u64)
    ensures
        final(buf)@ == old(buf)@ + be_u64_bytes(x),
{
    push_be_u32(buf, (x / 0x1_0000_0000) as u32);
    push_be_u32(buf, (x % 0x1_0000_0000) as u32);
    assert(buf@ =~= old(buf)@ + be_u64_bytes(x));
}

/// Appends the big-endian bytes of `x`.
pub fn push_be_u128(buf: &mut Vec<u8>, x: u128)
    ensures
        final(buf)@ == old(buf)@ + be_u128_bytes(x),
{
    push_be_u64(buf, (x / 0x1_0000_0000_0000_0000) as u64);
    push_be_u64(buf, (x % 0x1_0000_0000_0000_0000) as u64);
    assert(buf@ =~= old(buf)@ + be_u128_bytes(x));
}

/// Appends `n` zero bytes.
pub fn push_zeros(buf: &mut Vec<u8>, n: usize)
    ensures
        final(buf)@ == old(buf)@ + Seq::new(n as nat, |i: int| 0u8),
{
    let mut i: usize = 0;
    while i < n
        invariant
            i <= n,
            buf@ == old(buf)@ + Seq::new(i as nat, |j: int| 0u8),
        decreases n - i,
    {
        buf.push(0u8);
        i = i + 1;
        assert(buf@ =~= old(buf)@ + Seq::new(i as nat, |j: int| 0u8));
    }
}

/// Appends all of `bytes`.
pub fn push_bytes(buf: &mut Vec<u8>, bytes: &[u8])
    ensures
        final(buf)@ == old(buf)@ + bytes@,
{
    let mut i: usize = 0;
    while i < bytes.len()
        invariant
            i <= bytes@.len(),
            buf@ == old(buf)@ + bytes@.subrange(0, i as int),
        decreases bytes@.len() - i,
    {
        buf.push(bytes[i]);
        i = i + 1;
        assert(buf@ =~= old(buf)@ + bytes@.subrange(0, i as int));
    }
    assert(bytes@.subrange(0, i as int) =~= bytes@);
}

/// Takes a u32 from big-endian ordered bytes that are known to be there.
pub(crate) fn take_be_u32(input: &mut &[u8]) -> (r: u32)
    requires
        old(input)@.len() >= 4,
    ensures
        r == u32_from_be(old(input)@),
        final(input)@ == old(input)@.subrange(4, old(input)@.len() as int),
{
    proof {
        reveal(u32_from_be);
    }
    let (head, rest) = input.split_at(4);
    *input = rest;
    (head[0] as u32) * 0x100_0000 + (head[1] as u32) * 0x1_0000 + (head[2] as u32) * 0x100
        + head[3] as u32
}

/// Takes a u64 from big-endian ordered bytes that are known to be there.
pub(crate) fn take_be_u64(input: &mut &[u8]) -> (r: u64)
    requires
        old(input)@.len() >= 8,
    ensures
        r == u64_from_be(old(input)@),
        final(input)@ == old(input)@.subrange(8, old(input)@.len() as int),
{
    let ghost s = input@;
    let hi = take_be_u32(input);
    let lo = take_be_u32(input);
    assert(input@ =~= s.subrange(8, s.len() as int));
    proof {
        lemma_u32_window(s, 4);
        reveal(u64_from_be);
    }
    (hi as u64) * 0x1_0000_0000 + lo as u64
}

/// Takes a u128 from big-endian ordered bytes that are known to be there.
pub(crate) fn take_be_u128(input: &mut &[u8]) -> (r: u128)
    requires
        old(input)@.len() >= 16,
    ensures
        r == u128_from_be(old(input)@),
        final(input)@ == old(input)@.subrange(16, old(input)@.len() as int),
{
    let ghost s = input@;
    let hi = take_be_u64(input);
    let lo = take_be_u64(input);
    assert(input@ =~= s.subrange(16, s.len() as int));
    proof {
        lemma_u64_window(s, 8);
        reveal(u128_from_be);
    }
    (hi as u128) * 0x1_0000_0000_0000_0000 + lo as u128
}

/// Create a u32 from big-endian ordered bytes, advancing the cursor past them; fails
/// with `ShortBuffer(4, remaining)`, leaving the cursor where it was, where fewer than 4
/// bytes remain.
pub fn read_be_u32(input: &mut &[u8]) -> (r: Result<u32, XMLError>)
    ensures
        old(input)@.len() < 4 ==> r == Err::<u32, XMLError>(
            XMLError::ShortBuffer(4, old(input)@.len() as u64),
        ) && final(input)@ == old(input)@,
        old(input)@.len() >= 4 ==> r == Ok::<u32, XMLError>(u32_from_be(old(input)@))
            && final(input)@ == old(input)@.subrange(4, old(input)@.len() as int),
{
    if input.len() < 4 {
        return Err(XMLError::ShortBuffer(4, input.len() as u64));
    }
    Ok(take_be_u32(input))
}

/// Create a u64 from big-endian ordered bytes, advancing the cursor past them; fails
/// with `ShortBuffer(8, remaining)`, leaving the cursor where it was, where fewer than 8
/// bytes remain.
pub fn read_be_u64(input: &mut &[u8]) -> (r: Result<u64, XMLError>)
    ensures
        old(input)@.len() < 8 ==> r == Err::<u64, XMLError>(
            XMLError::ShortBuffer(8, old(input)@.len() as u64),
        ) && final(input)@ == old(input)@,
        old(input)@.len() >= 8 ==> r == Ok::<u64, XMLError>(u64_from_be(old(input)@))
            && final(input)@ == old(input)@.subrange(8, old(input)@.len() as int),
{
    if input.len() < 8 {
        return Err(XMLError::ShortBuffer(8, input.len() as u64));
    }
    Ok(take_be_u64(input))
}

/// Create a u128 from big-endian ordered bytes, advancing the cursor past them; fails
/// with `ShortBuffer(16, remaining)`, leaving the cursor where it was, where fewer than 16
/// bytes remain.
pub fn read_be_u128(input: &mut &[u8]) -> (r: Result<u128, XMLError>)
    ensures
        old(input)@.len() < 16 ==> r == Err::<u128, XMLError>(
            XMLError::ShortBuffer(16, old(input)@.len() as u64),
        ) && final(input)@ == old(input)@,
        old(input)@.len() >= 16 ==> r == Ok::<u128, XMLError>(u128_from_be(old(input)@))
            && final(input)@ == old(input)@.subrange(16, old(input)@.len() as int),
{
    if input.len() < 16 {
        return Err(XMLError::ShortBuffer(16, input.len() as u64));
    }
    Ok(take_be_u128(input))
}

/// Copies `n` bytes from the cursor, advancing it past them.
pub fn read_bytes(input: &mut &[u8], n: usize) -> (r: Vec<u8>)
    requires
        old(input)@.len() >= n,
    ensures
        r@ == old(input)@.subrange(0, n as int),
        final(input)@ == old(input)@.subrange(n as int, old(input)@.len() as int),
{
    let (head, rest) = input.split_at(n);
    *input = rest;
    let mut r: Vec<u8> = Vec::new();
    push_bytes(&mut r, head);
    r
}

/// Represents a Universal Disk Image Format (UDIF) checksum
/// structure.
#[derive(Debug, PartialEq, Eq)]
pub struct UDIFChecksum {
    /// Data fork
    pub fork_type: u32,
    /// Checksum information
    pub size: u32,
    /// Up to 128-bytes ( 32 * 4 ) of checksum
    pub data: Vec<u8>,
}

/// The value a checksum carrier holds.
pub struct ChecksumModel {
    pub fork_type: u32,
    pub size: u32,
    pub data: Seq<u8>,
}

impl View for UDIFChecksum {
    type V = ChecksumModel;

    open spec fn view(&self) -> ChecksumModel {
        ChecksumModel { fork_type: self.fork_type, size: self.size, data: self.data@ }
    }
}

pub const CHECKSUM_DATA_SIZE: usize = 128;

pub const CHECKSUM_SIZE: usize = 136;

/// `n` zero bytes.
pub open spec fn zeros(n: nat) -> Seq<u8> {
    Seq::new(n, |i: int| 0u8)
}

/// The payload as it stands on the wire: cut or zero-padded to exactly 128 bytes.
pub open spec fn checksum_payload(d: Seq<u8>) -> Seq<u8> {
    if d.len() >= CHECKSUM_DATA_SIZE {
        d.subrange(0, CHECKSUM_DATA_SIZE as int)
    } else {
        d + zeros((CHECKSUM_DATA_SIZE - d.len()) as nat)
    }
}

/// The 136 bytes of a checksum carrier.
pub open spec fn checksum_bytes(c: ChecksumModel) -> Seq<u8> {
    be_u32_bytes(c.fork_type) + be_u32_bytes(c.size) + checksum_payload(c.data)
}

/// The checksum carrier held in the first 136 bytes of `s`.
pub open spec fn checksum_from_bytes(s: Seq<u8>) -> ChecksumModel {
    ChecksumModel {
        fork_type: u32_from_be(s),
        size: u32_from_be(s.subrange(4, 8)),
        data: s.subrange(8, CHECKSUM_SIZE as int),
    }
}

/// A carrier whose payload is exactly 128 bytes, as decoding yields.
pub open spec fn checksum_canonical(c: ChecksumModel) -> bool {
    c.data.len() == CHECKSUM_DATA_SIZE
}

/// Decoding an encoded canonical checksum carrier gives it back.
pub proof fn lemma_checksum_round_trip(c: ChecksumModel)
    requires
        checksum_canonical(c),
    ensures
        checksum_bytes(c).len() == CHECKSUM_SIZE,
        checksum_from_bytes(checksum_bytes(c)) == c,
{
    let s = checksum_bytes(c);
    lemma_u32_round_trip(c.fork_type);
    lemma_u32_round_trip(c.size);
    assert(checksum_payload(c.data) =~= c.data);
    assert(s.subrange(0, 4) =~= be_u32_bytes(c.fork_type).subrange(0, 4));
    lemma_u32_prefix(s, be_u32_bytes(c.fork_type));
    assert(s.subrange(4, 8) =~= be_u32_bytes(c.size));
    assert(s.subrange(8, CHECKSUM_SIZE as int) =~= c.data);
}

impl UDIFChecksum {
    /// The placeholder carrier written into new images: fork type 2, size 32, zero payload.
    pub fn placeholder() -> (r: UDIFChecksum)
        ensures
            r@ == (ChecksumModel { fork_type: 2, size: 32, data: zeros(CHECKSUM_DATA_SIZE as nat) }),
    {
        let mut data: Vec<u8> = Vec::new();
        push_zeros(&mut data, CHECKSUM_DATA_SIZE);
        assert(data@ =~= zeros(CHECKSUM_DATA_SIZE as nat));
        UDIFChecksum { fork_type: 2, size: 32, data }
    }

    /// Appends the 136 bytes of this carrier.
    pub fn write_to(&self, buf: &mut Vec<u8>)
        ensures
            final(buf)@ == old(buf)@ + checksum_bytes(self@),
    {
        push_be_u32(buf, self.fork_type);
        push_be_u32(buf, self.size);
        if self.data.len() >= CHECKSUM_DATA_SIZE {
            let (head, _rest) = self.data.as_slice().split_at(CHECKSUM_DATA_SIZE);
            push_bytes(buf, head);
        } else {
            push_bytes(buf, self.data.as_slice());
            push_zeros(buf, CHECKSUM_DATA_SIZE - self.data.len());
        }
        assert(buf@ =~= old(buf)@ + checksum_bytes(self@));
    }

    /// The 136 big-endian bytes of this carrier.
    pub fn to_be_bytes(self) -> (r: Vec<u8>)
        ensures
            r@ == checksum_bytes(self@),
    {
        let mut buffer: Vec<u8> = Vec::new();
        self.write_to(&mut buffer);
        assert(buffer@ =~= checksum_bytes(self@));
        buffer
    }

    /// Reads a carrier from the cursor, advancing it past the 136 bytes.
    pub fn read_from(input: &mut &[u8]) -> (r: UDIFChecksum)
        requires
            old(input)@.len() >= CHECKSUM_SIZE,
        ensures
            r@ == checksum_from_bytes(old(input)@),
            final(input)@ == old(input)@.subrange(CHECKSUM_SIZE as int, old(input)@.len() as int),
    {
        let ghost s = input@;
        let fork_type = take_be_u32(input);
        let size = take_be_u32(input);
        assert(input@ =~= s.subrange(8, s.len() as int));
        let data = read_bytes(input, CHECKSUM_DATA_SIZE);
        proof {
            lemma_u32_window(s, 4);
            assert(s.subrange(8, s.len() as int).subrange(0, 128) =~= s.subrange(8, 136));
            assert(input@ =~= s.subrange(136, s.len() as int));
        }
        UDIFChecksum { fork_type, size, data }
    }
}

} // verus!
