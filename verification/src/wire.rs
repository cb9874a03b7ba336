//! Big-endian integers, as they travel in every message of the protocol.
use vstd::prelude::*;

verus! {

/// The two bytes of `n`, most significant first.
pub open spec fn be16(n: u16) -> Seq<u8> {
    seq![(n / 0x100) as u8, (n % 0x100) as u8]
}

/// The four bytes of `n`, most significant first.
pub open spec fn be32(n: u32) -> Seq<u8> {
    seq![
        (n / 0x100_0000) as u8,
        (n / 0x1_0000 % 0x100) as u8,
        (n / 0x100 % 0x100) as u8,
        (n % 0x100) as u8,
    ]
}

/// The eight bytes of `n`, most significant first.
pub open spec fn be64(n: u64) -> Seq<u8> {
    be32((n / 0x1_0000_0000) as u32) + be32((n % 0x1_0000_0000) as u32)
}

/// The number that the two bytes of `s` at `at` stand for.
pub open spec fn read_be16(s: Seq<u8>, at: int) -> u16 {
    (s[at] * 0x100 + s[at + 1]) as u16
}

/// The number that the four bytes of `s` at `at` stand for.
pub open spec fn read_be32(s: Seq<u8>, at: int) -> u32 {
    (s[at] * 0x100_0000 + s[at + 1] * 0x1_0000 + s[at + 2] * 0x100 + s[at + 3]) as u32
}

/// The number that the eight bytes of `s` at `at` stand for.
pub open spec fn read_be64(s: Seq<u8>, at: int) -> u64 {
    (read_be32(s, at) * 0x1_0000_0000 + read_be32(s, at + 4)) as u64
}

/// Reading back the two bytes of a number gives the number.
pub proof fn lemma_read_be16(n: u16, s: Seq<u8>, at: int)
    requires
        0 <= at,
        at + 2 <= s.len(),
        s.subrange(at, at + 2) == be16(n),
    ensures
        read_be16(s, at) == n,
{
    let w = s.subrange(at, at + 2);
    assert(w[0] == s[at] && w[1] == s[at + 1]);
}

/// Reading back the four bytes of a number gives the number.
pub proof fn lemma_read_be32(n: u32, s: Seq<u8>, at: int)
    requires
        0 <= at,
        at + 4 <= s.len(),
        s.subrange(at, at + 4) == be32(n),
    ensures
        read_be32(s, at) == n,
{
    let w = s.subrange(at, at + 4);
    assert(w[0] == s[at] && w[1] == s[at + 1] && w[2] == s[at + 2] && w[3] == s[at + 3]);
}

/// Reading back the eight bytes of a number gives the number.
pub proof fn lemma_read_be64(n: u64, s: Seq<u8>, at: int)
    requires
        0 <= at,
        at + 8 <= s.len(),
        s.subrange(at, at + 8) == be64(n),
    ensures
        read_be64(s, at) == n,
{
    let w = s.subrange(at, at + 8);
    let hi = (n / 0x1_0000_0000) as u32;
    let lo = (n % 0x1_0000_0000) as u32;
    assert(s.subrange(at, at + 4) =~= w.subrange(0, 4));
    assert(w.subrange(0, 4) =~= be32(hi));
    assert(s.subrange(at + 4, at + 8) =~= w.subrange(4, 8));
    assert(w.subrange(4, 8) =~= be32(lo));
    lemma_read_be32(hi, s, at);
    lemma_read_be32(lo, s, at + 4);
}

/// Where a message begins with `head` and then `part`, it begins with `head`, and `part` stands
/// behind that.
pub proof fn lemma_part(s: Seq<u8>, head: Seq<u8>, part: Seq<u8>)
    requires
        head.len() + part.len() <= s.len(),
        s.take((head.len() + part.len()) as int) == head + part,
    ensures
        s.take(head.len() as int) == head,
        s.subrange(head.len() as int, (head.len() + part.len()) as int) == part,
{
    let both = s.take((head.len() + part.len()) as int);
    assert(s.take(head.len() as int) =~= both.take(head.len() as int));
    assert((head + part).take(head.len() as int) =~= head);
    assert(s.subrange(head.len() as int, (head.len() + part.len()) as int) =~= both.subrange(
        head.len() as int,
        both.len() as int,
    ));
    assert((head + part).subrange(head.len() as int, (head + part).len() as int) =~= part);
}

/// Writing the number that four bytes stand for gives the four bytes.
pub proof fn lemma_be32_of_read(s: Seq<u8>, at: int)
    requires
        0 <= at,
        at + 4 <= s.len(),
    ensures
        be32(read_be32(s, at)) == s.subrange(at, at + 4),
{
    assert(be32(read_be32(s, at)) =~= s.subrange(at, at + 4));
}

/// Appends the two bytes of `n` to `out`.
pub fn push_be16(out: &mut Vec<u8>, n: u16)
    ensures
        final(out)@ == old(out)@ + be16(n),
{
    out.push((n / 0x100) as u8);
    out.push((n % 0x100) as u8);
    assert(out@ =~= old(out)@ + be16(n));
}

/// Appends the four bytes of `n` to `out`.
pub fn push_be32(out: &mut Vec<u8>, n: u32)
    ensures
        final(out)@ == old(out)@ + be32(n),
{
    out.push((n / 0x100_0000) as u8);
    out.push((n / 0x1_0000 % 0x100) as u8);
    out.push((n / 0x100 % 0x100) as u8);
    out.push((n % 0x100) as u8);
    assert(out@ =~= old(out)@ + be32(n));
}

/// Appends the eight bytes of `n` to `out`.
pub fn push_be64(out: &mut Vec<u8>, n: u64)
    ensures
        final(out)@ == old(out)@ + be64(n),
{
    push_be32(out, (n / 0x1_0000_0000) as u32);
    push_be32(out, (n % 0x1_0000_0000) as u32);
    assert(out@ =~= old(out)@ + be64(n));
}

/// Appends every byte of `bytes` to `out`.
pub fn push_bytes(out: &mut Vec<u8>, bytes: &[u8])
    ensures
        final(out)@ == old(out)@ + bytes@,
{
    let n: usize = bytes.len();
    let mut i: usize = 0;
    while i < n
        invariant
            n == bytes@.len(),
            i <= n,
            out@ == old(out)@ + bytes@.take(i as int),
        decreases n - i,
    {
        out.push(bytes[i]);
        i = i + 1;
        assert(out@ =~= old(out)@ + bytes@.take(i as int));
    }
    assert(bytes@.take(n as int) =~= bytes@);
    assert(out@ =~= old(out)@ + bytes@);
}

/// The number held by the two bytes of `bytes` at `at`.
pub fn get_be16(bytes: &[u8], at: usize) -> (n: u16)
    requires
        at + 2 <= bytes@.len(),
    ensures
        n == read_be16(bytes@, at as int),
{
    (bytes[at] as u16) * 0x100 + bytes[at + 1] as u16
}

/// The number held by the four bytes of `bytes` at `at`.
pub fn get_be32(bytes: &[u8], at: usize) -> (n: u32)
    requires
        at + 4 <= bytes@.len(),
    ensures
        n == read_be32(bytes@, at as int),
{
    (bytes[at] as u32) * 0x100_0000 + (bytes[at + 1] as u32) * 0x1_0000 + (bytes[at + 2] as u32)
        * 0x100 + bytes[at + 3] as u32
}

/// The number held by the eight bytes of `bytes` at `at`.
pub fn get_be64(bytes: &[u8], at: usize) -> (n: u64)
    requires
        at + 8 <= bytes@.len(),
    ensures
        n == read_be64(bytes@, at as int),
{
    assert(bytes.len() == bytes@.len());
    (get_be32(bytes, at) as u64) * 0x1_0000_0000 + get_be32(bytes, at + 4) as u64
}

/// The bytes of `bytes` from `from` up to `to`.
pub fn copy_range(bytes: &[u8], from: usize, to: usize) -> (out: Vec<u8>)
    requires
        from <= to <= bytes@.len(),
    ensures
        out@ == bytes@.subrange(from as int, to as int),
{
    let mut out: Vec<u8> = Vec::new();
    let mut i: usize = from;
    while i < to
        invariant
            from <= i <= to <= bytes@.len(),
            out@ == bytes@.subrange(from as int, i as int),
        decreases to - i,
    {
        out.push(bytes[i]);
        i = i + 1;
        assert(out@ =~= bytes@.subrange(from as int, i as int));
    }
    out
}

/// Whether `a` and `b` hold the same bytes.
pub fn same_bytes(a: &[u8], b: &[u8]) -> (same: bool)
    ensures
        same == (a@ == b@),
{
    if a.len() != b.len() {
        return false;
    }
    let n: usize = a.len();
    let mut i: usize = 0;
    while i < n
        invariant
            n == a@.len() == b@.len(),
            i <= n,
            forall|j: int| 0 <= j < i ==> a@[j] == b@[j],
        decreases n - i,
    {
        if a[i] != b[i] {
            return false;
        }
        i = i + 1;
    }
    assert(a@ =~= b@);
    true
}

/// The twenty bytes of `bytes` at `at`.
pub fn copy_20(bytes: &[u8], at: usize) -> (out: [u8; 20])
    requires
        at + 20 <= bytes@.len(),
    ensures
        out@ == bytes@.subrange(at as int, at + 20),
{
    let mut out: [u8; 20] = [0u8; 20];
    let mut i: usize = 0;
    while i < 20
        invariant
            i <= 20,
            at + 20 <= bytes@.len(),
            forall|j: int| 0 <= j < i ==> out@[j] == bytes@[at + j],
        decreases 20 - i,
    {
        assert(bytes.len() == bytes@.len());
        out[i] = bytes[at + i];
        i = i + 1;
    }
    assert(out@ =~= bytes@.subrange(at as int, at + 20));
    out
}

} // verus!
