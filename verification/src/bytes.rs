//! Verified reads of unsigned integers from a byte slice, in either byte
//! order, together with the cursor arithmetic the parsers build on.

use vstd::prelude::*;

use crate::Endian;
use crate::DecodeError;

verus! {

/// Value of a byte sequence read as a little-endian unsigned integer.
pub open spec fn le_value(s: Seq<u8>) -> nat
    decreases s.len(),
{
    if s.len() == 0 {
        0
    } else {
        (s[0] + 256 * le_value(s.skip(1))) as nat
    }
}

/// Value of a byte sequence read as a big-endian unsigned integer.
pub open spec fn be_value(s: Seq<u8>) -> nat
    decreases s.len(),
{
    if s.len() == 0 {
        0
    } else {
        (256 * be_value(s.drop_last()) + s.last()) as nat
    }
}

/// Value of the `width` bytes at `pos`, read in byte order `e`.
pub open spec fn uint_at(data: Seq<u8>, pos: int, width: int, e: Endian) -> nat {
    let s = data.subrange(pos, pos + width);
    match e {
        Endian::Little => le_value(s),
        Endian::Big => be_value(s),
    }
}

/// 256^n.
pub open spec fn pow256(n: nat) -> nat
    decreases n,
{
    if n == 0 {
        1
    } else {
        256 * pow256((n - 1) as nat)
    }
}

pub proof fn lemma_le_value_bound(s: Seq<u8>)
    ensures
        le_value(s) < pow256(s.len()),
    decreases s.len(),
{
    if s.len() == 0 {
    } else {
        lemma_le_value_bound(s.skip(1));
        assert(s[0] < 256);
        assert(((s[0] + 256 * le_value(s.skip(1))) as nat) < 256 * (1 + le_value(s.skip(1))))
            by (nonlinear_arith);
        assert(256 * (1 + le_value(s.skip(1))) <= 256 * pow256(s.skip(1).len()))
            by (nonlinear_arith)
            requires
                1 + le_value(s.skip(1)) <= pow256(s.skip(1).len()),
        ;
    }
}

pub proof fn lemma_be_value_bound(s: Seq<u8>)
    ensures
        be_value(s) < pow256(s.len()),
    decreases s.len(),
{
    if s.len() == 0 {
    } else {
        lemma_be_value_bound(s.drop_last());
        assert(((256 * be_value(s.drop_last()) + s.last()) as nat) < 256 * (be_value(s.drop_last()) + 1))
            by (nonlinear_arith)
            requires
                s.last() < 256,
        ;
        assert(256 * (be_value(s.drop_last()) + 1) <= 256 * pow256(s.drop_last().len()))
            by (nonlinear_arith)
            requires
                be_value(s.drop_last()) + 1 <= pow256(s.drop_last().len()),
        ;
    }
}

pub proof fn lemma_pow256_monotone(a: nat, b: nat)
    requires
        a <= b,
    ensures
        pow256(a) <= pow256(b),
    decreases b,
{
    if a < b && b > 0 {
        lemma_pow256_monotone(a, (b - 1) as nat);
        assert(pow256((b - 1) as nat) <= 256 * pow256((b - 1) as nat)) by (nonlinear_arith)
            requires
                pow256((b - 1) as nat) >= 0,
        ;
    }
}

/// Reads `width` bytes at `*pos` as an unsigned integer in byte order `e`
/// and advances the cursor. Fails only when the bytes are not there.
pub fn read_uint(data: &[u8], pos: &mut usize, width: usize, e: Endian) -> (r: Result<
    u64,
    DecodeError,
>)
    requires
        1 <= width <= 8,
    ensures
        match r {
            Ok(v) => *old(pos) + width <= data@.len() && *final(pos) == *old(pos) + width && v
                == uint_at(data@, *old(pos) as int, width as int, e),
            Err(err) => err is OutOfBounds && *old(pos) + width > data@.len() && *final(pos)
                == *old(pos),
        },
{
    if width > data.len() || *pos > data.len() - width {
        proof {
            assert(*pos + width > data@.len());
        }
        return Err(DecodeError::OutOfBounds(*pos as u64, data.len() as u64));
    }
    let start: usize = *pos;
    let ghost s = data@.subrange(start as int, start + width);
    let mut acc: u64 = 0;
    match e {
        Endian::Little => {
            let mut i: usize = width;
            while i > 0
                invariant
                    i <= width,
                    1 <= width <= 8,
                    start + width <= data@.len(),
                    data@.len() <= usize::MAX,
                    s == data@.subrange(start as int, start + width),
                    acc == le_value(s.skip(i as int)),
                    acc < pow256((width - i) as nat),
                decreases i,
            {
                proof {
                    reveal_with_fuel(pow256, 9);
                    lemma_pow256_monotone((width - i) as nat, 7);
                    assert(acc * 256 + data@[start + i - 1] < pow256(
                        (width - i + 1) as nat,
                    )) by (nonlinear_arith)
                        requires
                            acc < pow256((width - i) as nat),
                            data@[start + i - 1] < 256,
                            pow256((width - i + 1) as nat) == 256 * pow256((width - i) as nat),
                    ;
                    assert(s.skip(i - 1) == seq![s[i - 1]] + s.skip(i as int));
                    assert(le_value(s.skip(i - 1)) == s[i - 1] + 256 * le_value(s.skip(i - 1).skip(
                        1,
                    )));
                    assert(s.skip(i - 1).skip(1) == s.skip(i as int));
                    assert(s[i - 1] == data@[start + i - 1]);
                }
                let b = data[start + i - 1];
                acc = acc * 256 + (b as u64);
                i = i - 1;
            }
            proof {
                assert(s.skip(0) == s);
            }
        },
        Endian::Big => {
            let mut i: usize = 0;
            while i < width
                invariant
                    i <= width,
                    1 <= width <= 8,
                    start + width <= data@.len(),
                    data@.len() <= usize::MAX,
                    s == data@.subrange(start as int, start + width),
                    acc == be_value(s.take(i as int)),
                    acc < pow256(i as nat),
                decreases width - i,
            {
                proof {
                    reveal_with_fuel(pow256, 9);
                    lemma_pow256_monotone(i as nat, 7);
                    assert(acc * 256 + data@[start + i] < pow256((i + 1) as nat))
                        by (nonlinear_arith)
                        requires
                            acc < pow256(i as nat),
                            data@[start + i] < 256,
                            pow256((i + 1) as nat) == 256 * pow256(i as nat),
                    ;
                    assert(s.take(i + 1).drop_last() == s.take(i as int));
                    assert(s.take(i + 1).last() == s[i as int]);
                    assert(s[i as int] == data@[start + i]);
                }
                let b = data[start + i];
                acc = acc * 256 + (b as u64);
                i = i + 1;
            }
            proof {
                assert(s.take(width as int) == s);
            }
        },
    }
    *pos = start + width;
    Ok(acc)
}

/// The concrete powers of 256 up to a `u64`'s width.
pub proof fn lemma_pow256_values()
    ensures
        pow256(0) == 1,
        pow256(1) == 0x100,
        pow256(2) == 0x10000,
        pow256(3) == 0x1000000,
        pow256(4) == 0x100000000,
        pow256(5) == 0x10000000000,
        pow256(6) == 0x1000000000000,
        pow256(7) == 0x100000000000000,
        pow256(8) == 0x10000000000000000,
{
    reveal_with_fuel(pow256, 9);
}

/// The single byte at `pos`, whatever the byte order.
pub proof fn lemma_uint_at_1(data: Seq<u8>, pos: int, e: Endian)
    requires
        0 <= pos < data.len(),
    ensures
        uint_at(data, pos, 1, e) == data[pos],
{
    let s = data.subrange(pos, pos + 1);
    assert(s =~= seq![data[pos]]);
    assert(s.skip(1) =~= Seq::<u8>::empty());
    assert(s.drop_last() =~= Seq::<u8>::empty());
    assert(le_value(Seq::<u8>::empty()) == 0);
    assert(be_value(Seq::<u8>::empty()) == 0);
}

/// Any value read from `width` bytes fits in `width` bytes.
pub proof fn lemma_uint_at_bound(data: Seq<u8>, pos: int, width: int, e: Endian)
    requires
        0 <= pos,
        0 <= width,
        pos + width <= data.len(),
    ensures
        uint_at(data, pos, width, e) < pow256(width as nat),
{
    let s = data.subrange(pos, pos + width);
    match e {
        Endian::Little => lemma_le_value_bound(s),
        Endian::Big => lemma_be_value_bound(s),
    }
}

/// Reads four bytes at `*pos` as a `u32` in byte order `e`.
pub fn read_u32e(data: &[u8], pos: &mut usize, e: Endian) -> (r: Result<u32, DecodeError>)
    ensures
        match r {
            Ok(v) => *old(pos) + 4 <= data@.len() && *final(pos) == *old(pos) + 4 && v == uint_at(
                data@,
                *old(pos) as int,
                4,
                e,
            ),
            Err(err) => err is OutOfBounds && *old(pos) + 4 > data@.len() && *final(pos) == *old(
                pos,
            ),
        },
{
    let v = read_uint(data, pos, 4, e)?;
    proof {
        lemma_uint_at_bound(data@, *old(pos) as int, 4, e);
        reveal_with_fuel(pow256, 5);
    }
    Ok(v as u32)
}

/// Reads the byte at `*pos`.
pub fn read_u8e(data: &[u8], pos: &mut usize) -> (r: Result<u8, DecodeError>)
    ensures
        match r {
            Ok(v) => *old(pos) + 1 <= data@.len() && *final(pos) == *old(pos) + 1 && v == data@[*old(
                pos,
            ) as int],
            Err(err) => err is OutOfBounds && *old(pos) + 1 > data@.len() && *final(pos) == *old(
                pos,
            ),
        },
{
    let v = read_uint(data, pos, 1, Endian::Little)?;
    proof {
        lemma_uint_at_1(data@, *old(pos) as int, Endian::Little);
    }
    Ok(v as u8)
}

/// Advances the cursor by `n` bytes. Fails only when fewer than `n` bytes
/// remain.
pub fn skip_bytes(data: &[u8], pos: &mut usize, n: u64) -> (r: Result<(), DecodeError>)
    ensures
        match r {
            Ok(()) => *old(pos) + n <= data@.len() && *final(pos) == *old(pos) + n,
            Err(err) => err is OutOfBounds && *old(pos) + n > data@.len() && *final(pos) == *old(
                pos,
            ),
        },
{
    if *pos > data.len() {
        return Err(DecodeError::OutOfBounds(*pos as u64, data.len() as u64));
    }
    if n > (data.len() - *pos) as u64 {
        return Err(DecodeError::OutOfBounds(*pos as u64, data.len() as u64));
    }
    *pos = *pos + (n as usize);
    Ok(())
}

} // verus!
