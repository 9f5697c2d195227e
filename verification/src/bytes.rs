//! Integers in byte strings.
use vstd::prelude::*;

verus! {

/// The four bytes of `n`, most significant first.
pub open spec fn be32(n: nat) -> Seq<u8> {
    seq![(n / 0x100_0000 % 256) as u8, (n / 0x1_0000 % 256) as u8, (n / 0x100 % 256) as u8, (n % 256) as u8]
}

/// The number that the four bytes at `at` hold, most significant first.
pub open spec fn be32_at(s: Seq<u8>, at: int) -> nat {
    (s[at] * 0x100_0000 + s[at + 1] * 0x1_0000 + s[at + 2] * 0x100 + s[at + 3]) as nat
}

/// The number that the two bytes at `at` hold, least significant first.
pub open spec fn le16_at(s: Seq<u8>, at: int) -> nat {
    (s[at] + s[at + 1] * 0x100) as nat
}

/// The number that the four bytes at `at` hold, least significant first.
pub open spec fn le32_at(s: Seq<u8>, at: int) -> nat {
    (s[at] + s[at + 1] * 0x100 + s[at + 2] * 0x1_0000 + s[at + 3] * 0x100_0000) as nat
}

/// Writing a number and reading it back.
pub proof fn be32_read_back(n: nat, s: Seq<u8>, at: int)
    requires
        n < 0x1_0000_0000,
        0 <= at,
        at + 4 <= s.len(),
        s.subrange(at, at + 4) == be32(n),
    ensures
        be32_at(s, at) == n,
{
    let b = s.subrange(at, at + 4);
    assert(s[at] == b[0] && s[at + 1] == b[1] && s[at + 2] == b[2] && s[at + 3] == b[3]);
    assert(b[0] == n / 0x100_0000 % 256 && b[1] == n / 0x1_0000 % 256 && b[2] == n / 0x100 % 256 && b[3] == n % 256);
    assert(n / 0x100_0000 < 256);
}

/// Appends the four bytes of `n`, most significant first.
pub fn push_be32(out: &mut Vec<u8>, n: u32)
    ensures
        final(out)@ == old(out)@ + be32(n as nat),
{
    out.push((n / 0x100_0000) as u8);
    out.push((n / 0x1_0000 % 256) as u8);
    out.push((n / 0x100 % 256) as u8);
    out.push((n % 256) as u8);
    proof {
        assert(n / 0x100_0000 % 256 == n / 0x100_0000);
        assert(out@ =~= old(out)@ + be32(n as nat));
    }
}

/// The number at `at`, most significant byte first.
pub fn read_be32(s: &[u8], at: usize) -> (r: u32)
    requires
        at + 4 <= s@.len(),
    ensures
        r == be32_at(s@, at as int),
{
    s[at] as u32 * 0x100_0000 + s[at + 1] as u32 * 0x1_0000 + s[at + 2] as u32 * 0x100 + s[at + 3] as u32
}

/// Appends `src[from..to]`.
pub fn push_range(out: &mut Vec<u8>, src: &[u8], from: usize, to: usize)
    requires
        from <= to <= src@.len(),
    ensures
        final(out)@ == old(out)@ + src@.subrange(from as int, to as int),
{
    let mut i: usize = from;
    let ghost before = out@;
    proof {
        assert(out@ =~= before + src@.subrange(from as int, from as int));
    }
    while i < to
        invariant
            from <= i <= to <= src@.len(),
            out@ == before + src@.subrange(from as int, i as int),
        decreases to - i,
    {
        out.push(src[i]);
        proof {
            assert(out@ =~= before + src@.subrange(from as int, i + 1));
        }
        i = i + 1;
    }
}

/// `src[from..to]` as a new vector.
pub fn copy_range(src: &[u8], from: usize, to: usize) -> (r: Vec<u8>)
    requires
        from <= to <= src@.len(),
    ensures
        r@ == src@.subrange(from as int, to as int),
{
    let mut out: Vec<u8> = Vec::new();
    push_range(&mut out, src, from, to);
    proof {
        assert(out@ =~= src@.subrange(from as int, to as int));
    }
    out
}

/// `s[at..]` starts with the bytes of `tag`.
pub fn bytes_at(s: &[u8], at: usize, tag: &[u8]) -> (r: bool)
    requires
        at + tag@.len() <= s@.len(),
    ensures
        r == (s@.subrange(at as int, at + tag@.len()) == tag@),
{
    let total: usize = s.len();
    let mut i: usize = 0;
    while i < tag.len()
        invariant
            i <= tag@.len(),
            at + tag@.len() <= s@.len() == total,
            forall|k: int| 0 <= k < i ==> s@[at + k] == tag@[k],
        decreases tag@.len() - i,
    {
        if s[at + i] != tag[i] {
            proof {
                assert(s@.subrange(at as int, at + tag@.len())[i as int] != tag@[i as int]);
            }
            return false;
        }
        i = i + 1;
    }
    proof {
        assert(s@.subrange(at as int, at + tag@.len()) =~= tag@);
    }
    true
}

} // verus!
