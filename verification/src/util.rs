//! Alignment padding and big-endian integer encoding.

use vstd::prelude::*;
use vstd::assert_seqs_equal;

verus! {

/// Number of padding bytes that take `size` up to a multiple of `alignment`.
pub open spec fn spec_pad_len(size: int, alignment: int) -> int
    recommends
        alignment > 0,
{
    (alignment - size % alignment) % alignment
}

/// `size` rounded up to the next multiple of `alignment`.
pub open spec fn spec_align_up(size: int, alignment: int) -> int
    recommends
        alignment > 0,
{
    size + spec_pad_len(size, alignment)
}

/// A sequence of `n` zero bytes.
pub open spec fn spec_zeros(n: int) -> Seq<u8> {
    Seq::new(n as nat, |i: int| 0u8)
}

pub proof fn lemma_align_up_aligned(size: int, alignment: int)
    requires
        alignment > 0,
        size >= 0,
    ensures
        spec_align_up(size, alignment) % alignment == 0,
        size <= spec_align_up(size, alignment) < size + alignment,
{
    let r = size % alignment;
    assert(0 <= r < alignment);
    if r == 0 {
        assert(spec_pad_len(size, alignment) == 0) by {
            vstd::arithmetic::div_mod::lemma_mod_self_0(alignment);
        };
    } else {
        assert(spec_pad_len(size, alignment) == alignment - r) by {
            vstd::arithmetic::div_mod::lemma_small_mod((alignment - r) as nat, alignment as nat);
        };
        assert((size + (alignment - r)) % alignment == 0) by {
            vstd::arithmetic::div_mod::lemma_fundamental_div_mod(size, alignment);
            assert(size + (alignment - r) == (size / alignment + 1) * alignment) by (nonlinear_arith)
                requires
                    size == alignment * (size / alignment) + r,
            ;
            vstd::arithmetic::div_mod::lemma_mod_multiples_basic(size / alignment + 1, alignment);
        };
    }
}

/// Return the number of padding bytes required to align `size` to `alignment`.
pub fn align_pad_len(size: usize, alignment: usize) -> (r: usize)
    requires
        alignment > 0,
    ensures
        r == spec_pad_len(size as int, alignment as int),
        r < alignment,
{
    (alignment - size % alignment) % alignment
}

/// Pad a byte vector with zero bytes to the given alignment.
pub fn align_data(data: &mut Vec<u8>, alignment: usize)
    requires
        alignment > 0,
    ensures
        final(data)@ == old(data)@ + spec_zeros(
            spec_pad_len(old(data)@.len() as int, alignment as int),
        ),
        final(data)@.len() == spec_align_up(old(data)@.len() as int, alignment as int),
{
    let ghost orig: Seq<u8> = data@;
    let pad = align_pad_len(data.len(), alignment);
    let mut i: usize = 0;
    while i < pad
        invariant
            i <= pad,
            pad == spec_pad_len(orig.len() as int, alignment as int),
            data@ == orig + spec_zeros(i as int),
        decreases pad - i,
    {
        data.push(0u8);
        i = i + 1;
        proof {
            assert_seqs_equal!(data@ == orig + spec_zeros(i as int));
        }
    }
}

/// Append `n` zero bytes to `out`.
pub fn push_zeros(out: &mut Vec<u8>, n: usize)
    ensures
        final(out)@ == old(out)@ + spec_zeros(n as int),
{
    let ghost orig: Seq<u8> = out@;
    let mut i: usize = 0;
    while i < n
        invariant
            i <= n,
            out@ == orig + spec_zeros(i as int),
        decreases n - i,
    {
        out.push(0u8);
        i = i + 1;
        proof {
            assert_seqs_equal!(out@ == orig + spec_zeros(i as int));
        }
    }
}

/// Append every byte of `src` to `out`, in order.
pub fn push_bytes(out: &mut Vec<u8>, src: &[u8])
    ensures
        final(out)@ == old(out)@ + src@,
{
    let ghost orig: Seq<u8> = out@;
    let mut i: usize = 0;
    while i < src.len()
        invariant
            i <= src@.len(),
            out@ == orig + src@.take(i as int),
        decreases src@.len() - i,
    {
        out.push(src[i]);
        i = i + 1;
        proof {
            assert_seqs_equal!(out@ == orig + src@.take(i as int));
        }
    }
    proof {
        assert_seqs_equal!(out@ == orig + src@);
    }
}

/// Append every byte of `src` from index `from` on to `out`, in order.
pub fn push_tail(out: &mut Vec<u8>, src: &Vec<u8>, from: usize)
    requires
        from <= src@.len(),
    ensures
        final(out)@ == old(out)@ + src@.skip(from as int),
{
    let ghost orig: Seq<u8> = out@;
    let mut i: usize = from;
    while i < src.len()
        invariant
            from <= i <= src@.len(),
            out@ == orig + src@.subrange(from as int, i as int),
        decreases src@.len() - i,
    {
        let b = src[i];
        out.push(b);
        i = i + 1;
        proof {
            assert_seqs_equal!(out@ == orig + src@.subrange(from as int, i as int));
        }
    }
    proof {
        assert(src@.subrange(from as int, src@.len() as int) =~= src@.skip(from as int));
    }
}

/// Return true when `a` and `b` hold the same bytes.
pub fn bytes_eq(a: &[u8], b: &[u8]) -> (r: bool)
    ensures
        r == (a@ == b@),
{
    if a.len() != b.len() {
        proof {
            assert(a@.len() != b@.len());
        }
        return false;
    }
    let mut i: usize = 0;
    while i < a.len()
        invariant
            i <= a@.len(),
            a@.len() == b@.len(),
            forall|j: int| 0 <= j < i ==> a@[j] == b@[j],
        decreases a@.len() - i,
    {
        if a[i] != b[i] {
            return false;
        }
        i = i + 1;
    }
    proof {
        assert_seqs_equal!(a@ == b@);
    }
    true
}

/// Big-endian encoding of a 32-bit value, most significant byte first.
pub open spec fn spec_be32(x: u32) -> Seq<u8> {
    seq![
        ((x / 0x1000000) % 0x100) as u8,
        ((x / 0x10000) % 0x100) as u8,
        ((x / 0x100) % 0x100) as u8,
        (x % 0x100) as u8,
    ]
}

/// Big-endian encoding of a 64-bit value, most significant byte first.
pub open spec fn spec_be64(x: u64) -> Seq<u8> {
    seq![
        ((x / 0x100000000000000) % 0x100) as u8,
        ((x / 0x1000000000000) % 0x100) as u8,
        ((x / 0x10000000000) % 0x100) as u8,
        ((x / 0x100000000) % 0x100) as u8,
        ((x / 0x1000000) % 0x100) as u8,
        ((x / 0x10000) % 0x100) as u8,
        ((x / 0x100) % 0x100) as u8,
        (x % 0x100) as u8,
    ]
}

/// Append the big-endian encoding of `x` to `out`.
pub fn push_be32(out: &mut Vec<u8>, x: u32)
    ensures
        final(out)@ == old(out)@ + spec_be32(x),
{
    out.push(((x / 0x1000000) % 0x100) as u8);
    out.push(((x / 0x10000) % 0x100) as u8);
    out.push(((x / 0x100) % 0x100) as u8);
    out.push((x % 0x100) as u8);
    proof {
        assert_seqs_equal!(out@ == old(out)@ + spec_be32(x));
    }
}

/// Append the big-endian encoding of `x` to `out`.
pub fn push_be64(out: &mut Vec<u8>, x: u64)
    ensures
        final(out)@ == old(out)@ + spec_be64(x),
{
    out.push(((x / 0x100000000000000) % 0x100) as u8);
    out.push(((x / 0x1000000000000) % 0x100) as u8);
    out.push(((x / 0x10000000000) % 0x100) as u8);
    out.push(((x / 0x100000000) % 0x100) as u8);
    out.push(((x / 0x1000000) % 0x100) as u8);
    out.push(((x / 0x10000) % 0x100) as u8);
    out.push(((x / 0x100) % 0x100) as u8);
    out.push((x % 0x100) as u8);
    proof {
        assert_seqs_equal!(out@ == old(out)@ + spec_be64(x));
    }
}

} // verus!
