//! Little-endian integers in byte sequences, and copies into fixed-size buffers.
use vstd::prelude::*;

verus! {

/// The two bytes of `v`, least significant first.
pub open spec fn le16(v: u16) -> Seq<u8> {
    seq![(v % 256) as u8, (v / 256) as u8]
}

/// The four bytes of `v`, least significant first.
pub open spec fn le32(v: u32) -> Seq<u8> {
    seq![
        (v % 256) as u8,
        (v / 256 % 256) as u8,
        (v / 65536 % 256) as u8,
        (v / 16777216) as u8,
    ]
}

/// The low 32 bits of `v`.
pub open spec fn low32(v: u64) -> u32 {
    (v % 0x1_0000_0000) as u32
}

/// The high 32 bits of `v`.
pub open spec fn high32(v: u64) -> u32 {
    (v / 0x1_0000_0000) as u32
}

/// The eight bytes of `v`, least significant first.
pub open spec fn le64(v: u64) -> Seq<u8> {
    le32(low32(v)) + le32(high32(v))
}

/// `n` zero bytes.
pub open spec fn zeros(n: nat) -> Seq<u8> {
    Seq::new(n, |i: int| 0u8)
}

/// The 16-bit little-endian integer at `at`.
pub open spec fn get16(s: Seq<u8>, at: int) -> u16 {
    (s[at] + 256 * s[at + 1]) as u16
}

/// The 32-bit little-endian integer at `at`.
pub open spec fn get32(s: Seq<u8>, at: int) -> u32 {
    (s[at] + 256 * s[at + 1] + 65536 * s[at + 2] + 16777216 * s[at + 3]) as u32
}

/// The 64-bit little-endian integer at `at`.
pub open spec fn get64(s: Seq<u8>, at: int) -> u64 {
    (get32(s, at) + 0x1_0000_0000 * get32(s, at + 4)) as u64
}

/// `s` with the bytes from `at` on replaced by `b`.
pub open spec fn splice(s: Seq<u8>, at: int, b: Seq<u8>) -> Seq<u8> {
    Seq::new(s.len(), |i: int| if at <= i < at + b.len() { b[i - at] } else { s[i] })
}

pub proof fn lemma_get16(s: Seq<u8>, at: int, v: u16)
    requires
        0 <= at <= s.len() - 2,
        s.subrange(at, at + 2) == le16(v),
    ensures
        get16(s, at) == v,
{
    let t = s.subrange(at, at + 2);
    assert(t[0] == s[at] && t[1] == s[at + 1]);
}

pub proof fn lemma_get32(s: Seq<u8>, at: int, v: u32)
    requires
        0 <= at <= s.len() - 4,
        s.subrange(at, at + 4) == le32(v),
    ensures
        get32(s, at) == v,
{
    let t = s.subrange(at, at + 4);
    assert(t[0] == s[at] && t[1] == s[at + 1] && t[2] == s[at + 2] && t[3] == s[at + 3]);
}

pub proof fn lemma_get64(s: Seq<u8>, at: int, v: u64)
    requires
        0 <= at <= s.len() - 8,
        s.subrange(at, at + 8) == le64(v),
    ensures
        get64(s, at) == v,
{
    assert(s.subrange(at, at + 4) =~= le64(v).subrange(0, 4));
    assert(le64(v).subrange(0, 4) =~= le32(low32(v)));
    assert(s.subrange(at + 4, at + 8) =~= le64(v).subrange(4, 8));
    assert(le64(v).subrange(4, 8) =~= le32(high32(v)));
    lemma_get32(s, at, low32(v));
    lemma_get32(s, at + 4, high32(v));
}

/// The low 32 bits of `v`.
pub fn low_u32(v: u64) -> (r: u32)
    ensures
        r == low32(v),
{
    (v % 0x1_0000_0000) as u32
}

/// The high 32 bits of `v`.
pub fn high_u32(v: u64) -> (r: u32)
    ensures
        r == high32(v),
{
    (v / 0x1_0000_0000) as u32
}

/// The low 16 bits of the high half of `v`: bits 32 to 47.
pub fn high_u16(v: u64) -> (r: u16)
    ensures
        r == (v / 0x1_0000_0000) % 0x1_0000,
{
    ((v / 0x1_0000_0000) % 0x1_0000) as u16
}

pub fn u16_le(v: u16) -> (r: [u8; 2])
    ensures
        r@ == le16(v),
{
    let r: [u8; 2] = [(v % 256) as u8, (v / 256) as u8];
    assert(r@ =~= le16(v));
    r
}

pub fn u32_le(v: u32) -> (r: [u8; 4])
    ensures
        r@ == le32(v),
{
    let r: [u8; 4] = [
        (v % 256) as u8,
        (v / 256 % 256) as u8,
        (v / 65536 % 256) as u8,
        (v / 16777216) as u8,
    ];
    assert(r@ =~= le32(v));
    r
}

pub fn u64_le(v: u64) -> (r: [u8; 8])
    ensures
        r@ == le64(v),
{
    let lo: [u8; 4] = u32_le(low_u32(v));
    let hi: [u8; 4] = u32_le(high_u32(v));
    let r: [u8; 8] = [lo[0], lo[1], lo[2], lo[3], hi[0], hi[1], hi[2], hi[3]];
    assert(r@ =~= le64(v));
    r
}

pub fn read_u16(s: &[u8], at: usize) -> (r: u16)
    requires
        at + 2 <= s@.len(),
    ensures
        r == get16(s@, at as int),
{
    s[at] as u16 + 256 * (s[at + 1] as u16)
}

pub fn read_u32(s: &[u8], at: usize) -> (r: u32)
    requires
        at + 4 <= s@.len(),
    ensures
        r == get32(s@, at as int),
{
    s[at] as u32 + 256 * (s[at + 1] as u32) + 65536 * (s[at + 2] as u32) + 16777216 * (s[at
        + 3] as u32)
}

pub fn read_u64(s: &[u8], at: usize) -> (r: u64)
    requires
        at + 8 <= s@.len(),
    ensures
        r == get64(s@, at as int),
{
    assert(at + 8 <= s.len());
    read_u32(s, at) as u64 + 0x1_0000_0000 * (read_u32(s, at + 4) as u64)
}

/// Copy `src` into `buf`, starting at `at`.
pub fn put<const N: usize>(buf: &mut [u8; N], at: usize, src: &[u8])
    requires
        at + src@.len() <= N,
    ensures
        final(buf)@ == splice(old(buf)@, at as int, src@),
{
    let ghost before = buf@;
    let mut i: usize = 0;
    while i < src.len()
        invariant
            i <= src@.len(),
            at + src@.len() <= N,
            before.len() == N,
            buf@ == splice(before, at as int, src@.take(i as int)),
        decreases src@.len() - i,
    {
        buf[at + i] = src[i];
        i += 1;
        assert(buf@ =~= splice(before, at as int, src@.take(i as int)));
    }
    assert(src@.take(i as int) =~= src@);
}

/// Copy `src` into `buf`, starting at `at`.
pub fn put_vec(buf: &mut Vec<u8>, at: usize, src: &[u8])
    requires
        at + src@.len() <= old(buf)@.len(),
    ensures
        final(buf)@ == splice(old(buf)@, at as int, src@),
{
    let ghost before = buf@;
    let mut i: usize = 0;
    while i < src.len()
        invariant
            i <= src@.len(),
            at + src@.len() <= before.len(),
            buf@ == splice(before, at as int, src@.take(i as int)),
        decreases src@.len() - i,
    {
        assert(at + i < buf.len());
        buf[at + i] = src[i];
        i += 1;
        assert(buf@ =~= splice(before, at as int, src@.take(i as int)));
    }
    assert(src@.take(i as int) =~= src@);
}

} // verus!
