use crate::consts::PAGE_SIZE;
use vstd::prelude::*;

verus! {

/// The two bytes of a 16-bit number, low byte first. Proofs that need the
/// bytes of a given number reveal the definition.
#[verifier::opaque]
pub open spec fn u16_bytes(x: u16) -> Seq<u8> {
    seq![(x % 256) as u8, (x / 256) as u8]
}

/// The four bytes of a 32-bit number, low byte first.
#[verifier::opaque]
pub open spec fn u32_bytes(x: u32) -> Seq<u8> {
    seq![
        (x % 256) as u8,
        (x / 256 % 256) as u8,
        (x / 256 / 256 % 256) as u8,
        (x / 256 / 256 / 256) as u8,
    ]
}

/// The 16-bit number that two bytes write, low byte first.
#[verifier::opaque]
pub open spec fn u16_of(s: Seq<u8>) -> u16 {
    (s[0] + 256 * s[1]) as u16
}

/// The 32-bit number that four bytes write, low byte first.
#[verifier::opaque]
pub open spec fn u32_of(s: Seq<u8>) -> u32 {
    (s[0] + 256 * (s[1] + 256 * (s[2] + 256 * s[3]))) as u32
}

/// A 16-bit number is read back from its bytes, and two bytes are the bytes
/// of the number that they write.
pub proof fn lemma_u16_round_trip()
    ensures
        forall|x: u16|
            {
                &&& #[trigger] u16_bytes(x).len() == 2
                &&& u16_of(u16_bytes(x)) == x
            },
        forall|s: Seq<u8>| s.len() == 2 ==> #[trigger] u16_bytes(u16_of(s)) == s,
{
    reveal(u16_bytes);
    reveal(u16_of);
    assert forall|s: Seq<u8>| s.len() == 2 implies #[trigger] u16_bytes(u16_of(s)) == s by {
        assert(u16_bytes(u16_of(s)) =~= s);
    }
}

proof fn lemma_u32_of_bytes(x: u32)
    ensures
        u32_bytes(x).len() == 4,
        u32_of(u32_bytes(x)) == x,
{
    reveal(u32_bytes);
    reveal(u32_of);
    let a = x / 256;
    let b = a / 256;
    let c = b / 256;
    assert(x == 256 * a + x % 256);
    assert(a == 256 * b + a % 256);
    assert(b == 256 * c + b % 256);
    assert(c < 256);
}

proof fn lemma_u32_bytes_of(s: Seq<u8>)
    requires
        s.len() == 4,
    ensures
        u32_bytes(u32_of(s)) == s,
{
    reveal(u32_bytes);
    reveal(u32_of);
    let c = s[3] as int;
    let b = s[2] + 256 * c;
    let a = s[1] + 256 * b;
    let x = s[0] + 256 * a;
    assert(0 <= x < 0x1_0000_0000);
    assert(x % 256 == s[0] && x / 256 == a);
    assert(a % 256 == s[1] && a / 256 == b);
    assert(b % 256 == s[2] && b / 256 == c);
    assert(u32_bytes(u32_of(s)) =~= s);
}

/// A 32-bit number is read back from its bytes, and four bytes are the
/// bytes of the number that they write.
pub proof fn lemma_u32_round_trip()
    ensures
        forall|x: u32|
            {
                &&& #[trigger] u32_bytes(x).len() == 4
                &&& u32_of(u32_bytes(x)) == x
            },
        forall|s: Seq<u8>| s.len() == 4 ==> #[trigger] u32_bytes(u32_of(s)) == s,
{
    assert forall|x: u32|
        {
            &&& #[trigger] u32_bytes(x).len() == 4
            &&& u32_of(u32_bytes(x)) == x
        } by {
        lemma_u32_of_bytes(x);
    }
    assert forall|s: Seq<u8>| s.len() == 4 implies #[trigger] u32_bytes(u32_of(s)) == s by {
        lemma_u32_bytes_of(s);
    }
}

/// The 16-bit number that the two bytes at `at` write, low byte first.
pub open spec fn u16_at(data: Seq<u8>, at: int) -> u16 {
    u16_of(data.subrange(at, at + 2))
}

/// The 32-bit number that the four bytes at `at` write, low byte first.
pub open spec fn u32_at(data: Seq<u8>, at: int) -> u32 {
    u32_of(data.subrange(at, at + 4))
}

/// The bytes of a 16-bit number, low byte first.
pub fn u16_le(x: u16) -> (v: Vec<u8>)
    ensures
        v@ == u16_bytes(x),
        v@.len() == 2,
{
    let mut v: Vec<u8> = Vec::new();
    v.push((x % 256) as u8);
    v.push((x / 256) as u8);
    proof {
        reveal(u16_bytes);
    }
    assert(v@ =~= u16_bytes(x));
    v
}

/// The bytes of a 32-bit number, low byte first.
pub fn u32_le(x: u32) -> (v: Vec<u8>)
    ensures
        v@ == u32_bytes(x),
        v@.len() == 4,
{
    let mut v: Vec<u8> = Vec::new();
    v.push((x % 256) as u8);
    v.push((x / 256 % 256) as u8);
    v.push((x / 256 / 256 % 256) as u8);
    v.push((x / 256 / 256 / 256) as u8);
    proof {
        reveal(u32_bytes);
    }
    assert(v@ =~= u32_bytes(x));
    v
}

/// `data` with `src` written over it from position `at` on.
pub open spec fn overwrite(data: Seq<u8>, at: int, src: Seq<u8>) -> Seq<u8> {
    data.subrange(0, at) + src + data.subrange(at + src.len(), data.len() as int)
}

/// Reads a 16-bit number, low byte first.
pub fn read_u16(data: &[u8], at: usize) -> (x: u16)
    requires
        at + 2 <= data.len(),
    ensures
        x == u16_at(data@, at as int),
{
    let lo: u16 = data[at] as u16;
    let hi: u16 = data[at + 1] as u16;
    proof {
        reveal(u16_of);
    }
    lo + 256 * hi
}

/// Reads a 32-bit number, low byte first.
pub fn read_u32(data: &[u8], at: usize) -> (x: u32)
    requires
        at + 4 <= data.len(),
    ensures
        x == u32_at(data@, at as int),
{
    let b0: u32 = data[at] as u32;
    let b1: u32 = data[at + 1] as u32;
    let b2: u32 = data[at + 2] as u32;
    let b3: u32 = data[at + 3] as u32;
    proof {
        reveal(u32_of);
    }
    b0 + 256 * (b1 + 256 * (b2 + 256 * b3))
}

/// Writes `src` into a page's bytes from position `at` on.
pub fn write_bytes(data: &mut [u8; PAGE_SIZE], at: usize, src: &[u8])
    requires
        at + src.len() <= PAGE_SIZE,
    ensures
        final(data)@ == overwrite(old(data)@, at as int, src@),
{
    let mut i: usize = 0;
    while i < src.len()
        invariant
            i <= src.len(),
            at + src.len() <= PAGE_SIZE,
            data@ == overwrite(old(data)@, at as int, src@.subrange(0, i as int)),
        decreases src.len() - i,
    {
        data[at + i] = src[i];
        assert(data@ =~= overwrite(old(data)@, at as int, src@.subrange(0, i + 1)));
        i += 1;
    }
    assert(src@.subrange(0, src.len() as int) =~= src@);
}

/// Appends the bytes of `src` to `dst`.
pub fn append_bytes(dst: &mut Vec<u8>, src: &[u8])
    ensures
        final(dst)@ == old(dst)@ + src@,
{
    let mut i: usize = 0;
    while i < src.len()
        invariant
            i <= src.len(),
            dst@ == old(dst)@ + src@.subrange(0, i as int),
        decreases src.len() - i,
    {
        dst.push(src[i]);
        assert(dst@ =~= old(dst)@ + src@.subrange(0, i + 1));
        i += 1;
    }
    assert(src@.subrange(0, src.len() as int) =~= src@);
}

/// The bytes `data[from..to]` as a new vector.
pub fn copy_range(data: &[u8], from: usize, to: usize) -> (r: Vec<u8>)
    requires
        from <= to <= data.len(),
    ensures
        r@ == data@.subrange(from as int, to as int),
{
    let mut r: Vec<u8> = Vec::new();
    let mut i: usize = from;
    while i < to
        invariant
            from <= i <= to <= data.len(),
            r@ == data@.subrange(from as int, i as int),
        decreases to - i,
    {
        r.push(data[i]);
        assert(r@ =~= data@.subrange(from as int, i + 1));
        i += 1;
    }
    r
}

/// Writing over a range leaves the length and every byte outside the range
/// as they were, and puts the written bytes into the range.
pub proof fn lemma_overwrite(data: Seq<u8>, at: int, src: Seq<u8>)
    requires
        0 <= at,
        at + src.len() <= data.len(),
    ensures
        overwrite(data, at, src).len() == data.len(),
        forall|k: int|
            0 <= k < data.len() && (k < at || k >= at + src.len()) ==> #[trigger] overwrite(
                data,
                at,
                src,
            )[k] == data[k],
        forall|k: int| 0 <= k < src.len() ==> #[trigger] overwrite(data, at, src)[at + k] == src[k],
        overwrite(data, at, src).subrange(at, at + src.len()) == src,
{
    assert(overwrite(data, at, src).subrange(at, at + src.len()) =~= src);
}

/// Two byte sequences that agree on a range hold the same numbers there.
pub proof fn lemma_same_range(a: Seq<u8>, b: Seq<u8>, lo: int, hi: int)
    requires
        0 <= lo <= hi <= a.len(),
        hi <= b.len(),
        forall|k: int| lo <= k < hi ==> a[k] == b[k],
    ensures
        a.subrange(lo, hi) == b.subrange(lo, hi),
        forall|p: int| lo <= p && p + 2 <= hi ==> u16_at(a, p) == u16_at(b, p),
        forall|p: int| lo <= p && p + 4 <= hi ==> u32_at(a, p) == u32_at(b, p),
{
    assert(a.subrange(lo, hi) =~= b.subrange(lo, hi));
    assert forall|p: int| lo <= p && p + 2 <= hi implies u16_at(a, p) == u16_at(b, p) by {
        assert(a.subrange(p, p + 2) =~= b.subrange(p, p + 2));
    }
    assert forall|p: int| lo <= p && p + 4 <= hi implies u32_at(a, p) == u32_at(b, p) by {
        assert(a.subrange(p, p + 4) =~= b.subrange(p, p + 4));
    }
}

} // verus!
