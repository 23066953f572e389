//! Fixed-width little-endian framing shared by every packet on the wire.
//!
//! Integers take a fixed number of bytes, least significant first; a byte
//! string is its length as eight bytes followed by its contents; a text field
//! is the byte string of its UTF-8 encoding.
use vstd::prelude::*;
use vstd::utf8::*;

verus! {

/// The two bytes of `n`, least significant first.
#[verifier::opaque]
pub open spec fn le_u16(n: u16) -> Seq<u8> {
    seq![(n % 0x100) as u8, (n / 0x100) as u8]
}

/// The four bytes of `n`, least significant first.
#[verifier::opaque]
pub open spec fn le_u32(n: u32) -> Seq<u8> {
    seq![
        (n % 0x100) as u8,
        ((n / 0x100) % 0x100) as u8,
        ((n / 0x1_0000) % 0x100) as u8,
        (n / 0x100_0000) as u8,
    ]
}

/// The eight bytes of `n`, least significant first.
#[verifier::opaque]
pub open spec fn le_u64(n: u64) -> Seq<u8> {
    le_u32((n % 0x1_0000_0000) as u32) + le_u32((n / 0x1_0000_0000) as u32)
}

/// The value of two little-endian bytes.
#[verifier::opaque]
pub open spec fn u16_of(b: Seq<u8>) -> u16 {
    (b[0] as int + b[1] as int * 0x100) as u16
}

/// The value of four little-endian bytes.
#[verifier::opaque]
pub open spec fn u32_of(b: Seq<u8>) -> u32 {
    (b[0] as int + b[1] as int * 0x100 + b[2] as int * 0x1_0000 + b[3] as int * 0x100_0000) as u32
}

/// The value of eight little-endian bytes.
#[verifier::opaque]
pub open spec fn u64_of(b: Seq<u8>) -> u64 {
    (u32_of(b.subrange(0, 4)) as int + u32_of(b.subrange(4, 8)) as int * 0x1_0000_0000) as u64
}

/// A byte string as framed on the wire: its length, then its contents.
pub open spec fn bytes_field(b: Seq<u8>) -> Seq<u8> {
    le_u64(b.len() as u64) + b
}

/// A text as framed on the wire: the byte string of its UTF-8 encoding.
pub open spec fn text_field(t: Seq<char>) -> Seq<u8> {
    bytes_field(encode_utf8(t))
}

/// Reads a byte string at the start of `s`: its contents and how many bytes
/// of `s` the field took, or `None` where `s` is too short for it.
pub open spec fn parse_bytes_field(s: Seq<u8>) -> Option<(Seq<u8>, int)> {
    if s.len() < 8 {
        None
    } else {
        let n = u64_of(s.subrange(0, 8)) as int;
        if n > s.len() - 8 {
            None
        } else {
            Some((s.subrange(8, 8 + n), 8 + n))
        }
    }
}

pub proof fn lemma_u16(n: u16)
    ensures
        le_u16(n).len() == 2,
        u16_of(le_u16(n)) == n,
{
    reveal(le_u16);
    reveal(u16_of);
}

pub proof fn lemma_u32(n: u32)
    ensures
        le_u32(n).len() == 4,
        u32_of(le_u32(n)) == n,
{
    reveal(le_u32);
    reveal(u32_of);
}

pub proof fn lemma_u64(n: u64)
    ensures
        le_u64(n).len() == 8,
        u64_of(le_u64(n)) == n,
{
    reveal(le_u64);
    reveal(u64_of);
    let lo = (n % 0x1_0000_0000) as u32;
    let hi = (n / 0x1_0000_0000) as u32;
    lemma_u32(lo);
    lemma_u32(hi);
    assert(le_u64(n).subrange(0, 4) =~= le_u32(lo));
    assert(le_u64(n).subrange(4, 8) =~= le_u32(hi));
}

/// Two bytes are the encoding of the value they hold.
pub proof fn lemma_bytes_u16(b: Seq<u8>)
    requires
        b.len() == 2,
    ensures
        le_u16(u16_of(b)) == b,
{
    reveal(le_u16);
    reveal(u16_of);
    let n = u16_of(b);
    assert(n % 0x100 == b[0] && n / 0x100 == b[1]);
    assert(le_u16(n) =~= b);
}

/// Four bytes are the encoding of the value they hold.
pub proof fn lemma_bytes_u32(b: Seq<u8>)
    requires
        b.len() == 4,
    ensures
        le_u32(u32_of(b)) == b,
{
    reveal(le_u32);
    reveal(u32_of);
    let n = u32_of(b);
    let (b0, b1, b2, b3) = (b[0] as int, b[1] as int, b[2] as int, b[3] as int);
    assert(n as int == b0 + b1 * 0x100 + b2 * 0x1_0000 + b3 * 0x100_0000);
    assert(n % 0x100 == b0) by (nonlinear_arith)
        requires
            n as int == b0 + b1 * 0x100 + b2 * 0x1_0000 + b3 * 0x100_0000,
            0 <= b0 < 0x100,
            0 <= b1 < 0x100,
            0 <= b2 < 0x100,
            0 <= b3 < 0x100,
    ;
    assert((n / 0x100) % 0x100 == b1) by (nonlinear_arith)
        requires
            n as int == b0 + b1 * 0x100 + b2 * 0x1_0000 + b3 * 0x100_0000,
            0 <= b0 < 0x100,
            0 <= b1 < 0x100,
            0 <= b2 < 0x100,
            0 <= b3 < 0x100,
    ;
    assert((n / 0x1_0000) % 0x100 == b2) by (nonlinear_arith)
        requires
            n as int == b0 + b1 * 0x100 + b2 * 0x1_0000 + b3 * 0x100_0000,
            0 <= b0 < 0x100,
            0 <= b1 < 0x100,
            0 <= b2 < 0x100,
            0 <= b3 < 0x100,
    ;
    assert(n / 0x100_0000 == b3) by (nonlinear_arith)
        requires
            n as int == b0 + b1 * 0x100 + b2 * 0x1_0000 + b3 * 0x100_0000,
            0 <= b0 < 0x100,
            0 <= b1 < 0x100,
            0 <= b2 < 0x100,
            0 <= b3 < 0x100,
    ;
    assert(le_u32(n) =~= b);
}

/// Eight bytes are the encoding of the value they hold.
pub proof fn lemma_bytes_u64(b: Seq<u8>)
    requires
        b.len() == 8,
    ensures
        le_u64(u64_of(b)) == b,
{
    reveal(le_u64);
    reveal(u64_of);
    let lo = u32_of(b.subrange(0, 4));
    let hi = u32_of(b.subrange(4, 8));
    let n = u64_of(b);
    assert(n as int == lo as int + hi as int * 0x1_0000_0000);
    assert(n % 0x1_0000_0000 == lo && n / 0x1_0000_0000 == hi) by (nonlinear_arith)
        requires
            n as int == lo as int + hi as int * 0x1_0000_0000,
            0 <= lo < 0x1_0000_0000,
    ;
    lemma_bytes_u32(b.subrange(0, 4));
    lemma_bytes_u32(b.subrange(4, 8));
    assert(le_u64(n) =~= b.subrange(0, 4) + b.subrange(4, 8));
    assert(b =~= b.subrange(0, 4) + b.subrange(4, 8));
}

/// A framed byte string reads back as itself, whatever follows it.
pub proof fn lemma_bytes_field(b: Seq<u8>, rest: Seq<u8>)
    requires
        b.len() <= u64::MAX,
    ensures
        bytes_field(b).len() == 8 + b.len(),
        parse_bytes_field(bytes_field(b) + rest) == Some((b, 8 + b.len() as int)),
{
    let s = bytes_field(b) + rest;
    lemma_u64(b.len() as u64);
    assert(s.subrange(0, 8) =~= le_u64(b.len() as u64));
    assert(s.subrange(8, 8 + b.len() as int) =~= b);
}

/// What a byte string field reads is framed exactly as the bytes it took.
pub proof fn lemma_parse_bytes_field(s: Seq<u8>)
    requires
        parse_bytes_field(s) is Some,
    ensures
        ({
            let (f, n) = parse_bytes_field(s).unwrap();
            &&& 8 <= n <= s.len()
            &&& f.len() <= u64::MAX
            &&& s.subrange(0, n) == bytes_field(f)
        }),
{
    let (f, n) = parse_bytes_field(s).unwrap();
    lemma_bytes_u64(s.subrange(0, 8));
    assert(f.len() == u64_of(s.subrange(0, 8)));
    assert(s.subrange(0, n) =~= s.subrange(0, 8) + f);
}

/// Appends the two little-endian bytes of `n` to `out`.
pub fn put_u16(out: &mut Vec<u8>, n: u16)
    ensures
        final(out)@ == old(out)@ + le_u16(n),
{
    reveal(le_u16);
    out.push((n % 0x100) as u8);
    out.push((n / 0x100) as u8);
    assert(out@ =~= old(out)@ + le_u16(n));
}

/// Appends the four little-endian bytes of `n` to `out`.
pub fn put_u32(out: &mut Vec<u8>, n: u32)
    ensures
        final(out)@ == old(out)@ + le_u32(n),
{
    reveal(le_u32);
    out.push((n % 0x100) as u8);
    out.push(((n / 0x100) % 0x100) as u8);
    out.push(((n / 0x1_0000) % 0x100) as u8);
    out.push((n / 0x100_0000) as u8);
    assert(out@ =~= old(out)@ + le_u32(n));
}

/// Appends the eight little-endian bytes of `n` to `out`.
pub fn put_u64(out: &mut Vec<u8>, n: u64)
    ensures
        final(out)@ == old(out)@ + le_u64(n),
{
    reveal(le_u64);
    put_u32(out, (n % 0x1_0000_0000) as u32);
    put_u32(out, (n / 0x1_0000_0000) as u32);
    assert(out@ =~= old(out)@ + le_u64(n));
}

/// Appends `b` to `out`, framed as a byte string.
pub fn put_bytes(out: &mut Vec<u8>, b: &[u8])
    ensures
        final(out)@ == old(out)@ + bytes_field(b@),
{
    put_u64(out, b.len() as u64);
    let ghost start = out@;
    let mut i: usize = 0;
    while i < b.len()
        invariant
            i <= b@.len(),
            out@ == start + b@.subrange(0, i as int),
        decreases b@.len() - i,
    {
        out.push(b[i]);
        i = i + 1;
        assert(out@ =~= start + b@.subrange(0, i as int));
    }
    assert(b@.subrange(0, b@.len() as int) =~= b@);
    assert(out@ =~= old(out)@ + bytes_field(b@));
}

/// Appends `t` to `out`, framed as a text field.
pub fn put_text(out: &mut Vec<u8>, t: &str)
    ensures
        final(out)@ == old(out)@ + text_field(t@),
{
    put_bytes(out, t.as_bytes());
}

/// The two bytes at `pos`, read as an integer.
pub fn read_u16(b: &[u8], pos: usize) -> (r: Option<u16>)
    ensures
        pos + 2 <= b@.len() ==> r == Some(u16_of(b@.subrange(pos as int, pos + 2))),
        pos + 2 > b@.len() ==> r is None,
{
    reveal(u16_of);
    if pos > b.len() || b.len() - pos < 2 {
        return None;
    }
    let n = b[pos] as u16 + b[pos + 1] as u16 * 0x100;
    Some(n)
}

/// The four bytes at `pos`, read as an integer.
pub fn read_u32(b: &[u8], pos: usize) -> (r: Option<u32>)
    ensures
        pos + 4 <= b@.len() ==> r == Some(u32_of(b@.subrange(pos as int, pos + 4))),
        pos + 4 > b@.len() ==> r is None,
{
    reveal(u32_of);
    if pos > b.len() || b.len() - pos < 4 {
        return None;
    }
    let n = b[pos] as u32 + b[pos + 1] as u32 * 0x100 + b[pos + 2] as u32 * 0x1_0000
        + b[pos + 3] as u32 * 0x100_0000;
    Some(n)
}

/// The eight bytes at `pos`, read as an integer.
pub fn read_u64(b: &[u8], pos: usize) -> (r: Option<u64>)
    ensures
        pos + 8 <= b@.len() ==> r == Some(u64_of(b@.subrange(pos as int, pos + 8))),
        pos + 8 > b@.len() ==> r is None,
{
    reveal(u64_of);
    if pos > b.len() || b.len() - pos < 8 {
        return None;
    }
    let lo = read_u32(b, pos).unwrap();
    let hi = read_u32(b, pos + 4).unwrap();
    let ghost s = b@.subrange(pos as int, pos + 8);
    assert(s.subrange(0, 4) =~= b@.subrange(pos as int, pos + 4));
    assert(s.subrange(4, 8) =~= b@.subrange(pos + 4, pos + 8));
    Some(lo as u64 + hi as u64 * 0x1_0000_0000)
}

/// Reads the byte string framed at `pos`: its contents and the position just
/// past it.
pub fn read_bytes(b: &[u8], pos: usize) -> (r: Option<(Vec<u8>, usize)>)
    requires
        pos <= b@.len(),
    ensures
        match parse_bytes_field(b@.subrange(pos as int, b@.len() as int)) {
            Some((f, n)) => r is Some && r.unwrap().0@ == f && r.unwrap().1 == pos + n,
            None => r is None,
        },
{
    let ghost s = b@.subrange(pos as int, b@.len() as int);
    let n = match read_u64(b, pos) {
        Some(n) => n,
        None => return None,
    };
    assert(s.subrange(0, 8) =~= b@.subrange(pos as int, pos + 8));
    let avail = b.len() - pos - 8;
    if n > avail as u64 {
        return None;
    }
    let end = pos + 8 + n as usize;
    let mut out: Vec<u8> = Vec::new();
    let mut i: usize = pos + 8;
    while i < end
        invariant
            pos + 8 <= i <= end <= b@.len(),
            out@ == b@.subrange(pos + 8, i as int),
        decreases end - i,
    {
        out.push(b[i]);
        i = i + 1;
        assert(out@ =~= b@.subrange(pos + 8, i as int));
    }
    assert(out@ =~= s.subrange(8, 8 + n as int));
    Some((out, end))
}

} // verus!
