//! Fixed-width unsigned integer fields on the wire.
//!
//! A field of `w` bytes holds a value below `pow256(w)`, laid out least
//! significant byte first (little endian) or most significant byte first
//! (big endian). The spec functions here say exactly which bytes a value
//! becomes and which value a byte sequence stands for; the executable
//! readers and writers are proved against them.

use vstd::prelude::*;

verus! {

/// 256 raised to `w`: the number of distinct values a `w`-byte field can hold.
pub open spec fn pow256(w: nat) -> nat
    decreases w,
{
    if w == 0 {
        1
    } else {
        256 * pow256((w - 1) as nat)
    }
}

/// The `w` little-endian bytes of `v`, least significant first.
pub open spec fn le_bytes(v: nat, w: nat) -> Seq<u8>
    decreases w,
{
    if w == 0 {
        Seq::empty()
    } else {
        seq![(v % 256) as u8] + le_bytes(v / 256, (w - 1) as nat)
    }
}

/// The `w` big-endian bytes of `v`, most significant first.
pub open spec fn be_bytes(v: nat, w: nat) -> Seq<u8>
    decreases w,
{
    if w == 0 {
        Seq::empty()
    } else {
        be_bytes(v / 256, (w - 1) as nat) + seq![(v % 256) as u8]
    }
}

/// The value a little-endian byte sequence stands for.
pub open spec fn le_value(b: Seq<u8>) -> nat
    decreases b.len(),
{
    if b.len() == 0 {
        0
    } else {
        (b.first() + 256 * le_value(b.drop_first())) as nat
    }
}

/// The value a big-endian byte sequence stands for.
pub open spec fn be_value(b: Seq<u8>) -> nat
    decreases b.len(),
{
    if b.len() == 0 {
        0
    } else {
        (256 * be_value(b.drop_last()) + b.last()) as nat
    }
}

/// The `w` bytes of `v` in the given byte order.
pub open spec fn field_bytes(v: nat, w: nat, big_endian: bool) -> Seq<u8> {
    if big_endian {
        be_bytes(v, w)
    } else {
        le_bytes(v, w)
    }
}

/// The value of a `w`-byte field in the given byte order.
pub open spec fn field_value(b: Seq<u8>, big_endian: bool) -> nat {
    if big_endian {
        be_value(b)
    } else {
        le_value(b)
    }
}

pub proof fn lemma_pow256_increases(w1: nat, w2: nat)
    requires
        w1 <= w2,
    ensures
        pow256(w1) <= pow256(w2),
    decreases w2,
{
    if w1 < w2 {
        lemma_pow256_increases(w1, (w2 - 1) as nat);
    }
}

/// Every value of a field at most eight bytes wide fits in a `u64`.
pub proof fn lemma_pow256_fits_u64(w: nat)
    requires
        w <= 8,
    ensures
        pow256(w) <= 0x1_0000_0000_0000_0000,
{
    assert(pow256(8) == 0x1_0000_0000_0000_0000) by {
        reveal_with_fuel(pow256, 9);
    };
    lemma_pow256_increases(w, 8);
}

pub proof fn lemma_le_bytes_len(v: nat, w: nat)
    ensures
        le_bytes(v, w).len() == w,
    decreases w,
{
    if w > 0 {
        lemma_le_bytes_len(v / 256, (w - 1) as nat);
    }
}

pub proof fn lemma_be_bytes_len(v: nat, w: nat)
    ensures
        be_bytes(v, w).len() == w,
    decreases w,
{
    if w > 0 {
        lemma_be_bytes_len(v / 256, (w - 1) as nat);
    }
}

pub proof fn lemma_field_bytes_len(v: nat, w: nat, big_endian: bool)
    ensures
        field_bytes(v, w, big_endian).len() == w,
{
    lemma_le_bytes_len(v, w);
    lemma_be_bytes_len(v, w);
}

/// A `w`-byte field never holds a value of `pow256(w)` or more.
pub proof fn lemma_le_value_bound(b: Seq<u8>)
    ensures
        le_value(b) < pow256(b.len()),
    decreases b.len(),
{
    if b.len() > 0 {
        lemma_le_value_bound(b.drop_first());
    }
}

pub proof fn lemma_be_value_bound(b: Seq<u8>)
    ensures
        be_value(b) < pow256(b.len()),
    decreases b.len(),
{
    if b.len() > 0 {
        lemma_be_value_bound(b.drop_last());
    }
}

pub proof fn lemma_field_value_bound(b: Seq<u8>, big_endian: bool)
    ensures
        field_value(b, big_endian) < pow256(b.len()),
{
    lemma_le_value_bound(b);
    lemma_be_value_bound(b);
}

/// Reading back the little-endian bytes of a value that fits gives the value.
pub proof fn lemma_le_value_of_bytes(v: nat, w: nat)
    requires
        v < pow256(w),
    ensures
        le_value(le_bytes(v, w)) == v,
    decreases w,
{
    if w > 0 {
        let rest = le_bytes(v / 256, (w - 1) as nat);
        assert(le_bytes(v, w).drop_first() =~= rest);
        assert(v / 256 < pow256((w - 1) as nat)) by {
            assert(pow256(w) == 256 * pow256((w - 1) as nat));
        };
        lemma_le_value_of_bytes(v / 256, (w - 1) as nat);
    }
}

/// Reading back the big-endian bytes of a value that fits gives the value.
pub proof fn lemma_be_value_of_bytes(v: nat, w: nat)
    requires
        v < pow256(w),
    ensures
        be_value(be_bytes(v, w)) == v,
    decreases w,
{
    if w > 0 {
        let rest = be_bytes(v / 256, (w - 1) as nat);
        lemma_be_bytes_len(v / 256, (w - 1) as nat);
        assert(be_bytes(v, w).drop_last() =~= rest);
        assert(be_bytes(v, w).last() == (v % 256) as u8);
        assert(v / 256 < pow256((w - 1) as nat)) by {
            assert(pow256(w) == 256 * pow256((w - 1) as nat));
        };
        lemma_be_value_of_bytes(v / 256, (w - 1) as nat);
    }
}

pub proof fn lemma_field_value_of_bytes(v: nat, w: nat, big_endian: bool)
    requires
        v < pow256(w),
    ensures
        field_value(field_bytes(v, w, big_endian), big_endian) == v,
{
    lemma_le_value_of_bytes(v, w);
    lemma_be_value_of_bytes(v, w);
}

/// Writing back the value a little-endian byte sequence stands for gives the bytes.
pub proof fn lemma_le_bytes_of_value(b: Seq<u8>)
    ensures
        le_bytes(le_value(b), b.len()) == b,
    decreases b.len(),
{
    if b.len() > 0 {
        let v = le_value(b);
        let rest = le_value(b.drop_first());
        assert(v == b.first() + 256 * rest);
        assert(v % 256 == b.first() && v / 256 == rest) by (nonlinear_arith)
            requires
                v == b.first() + 256 * rest,
                0 <= b.first() < 256,
                rest >= 0,
        ;
        lemma_le_bytes_of_value(b.drop_first());
        assert(le_bytes(v, b.len()) =~= b);
    }
}

/// Writing back the value a big-endian byte sequence stands for gives the bytes.
pub proof fn lemma_be_bytes_of_value(b: Seq<u8>)
    ensures
        be_bytes(be_value(b), b.len()) == b,
    decreases b.len(),
{
    if b.len() > 0 {
        let v = be_value(b);
        let rest = be_value(b.drop_last());
        assert(v == 256 * rest + b.last());
        assert(v % 256 == b.last() && v / 256 == rest) by (nonlinear_arith)
            requires
                v == 256 * rest + b.last(),
                0 <= b.last() < 256,
                rest >= 0,
        ;
        lemma_be_bytes_of_value(b.drop_last());
        assert(be_bytes(v, b.len()) =~= b);
    }
}

pub proof fn lemma_field_bytes_of_value(b: Seq<u8>, big_endian: bool)
    ensures
        field_bytes(field_value(b, big_endian), b.len(), big_endian) == b,
{
    lemma_le_bytes_of_value(b);
    lemma_be_bytes_of_value(b);
}

/// `pow256` as a machine word, for widths whose result fits.
pub fn pow256_u64(w: usize) -> (r: u64)
    requires
        w <= 7,
    ensures
        r as nat == pow256(w as nat),
{
    let mut r: u64 = 1;
    let mut i: usize = 0;
    while i < w
        invariant
            i <= w <= 7,
            r as nat == pow256(i as nat),
        decreases w - i,
    {
        proof {
            lemma_pow256_increases((i + 1) as nat, 7);
            assert(pow256(7) < 0x1_0000_0000_0000_0000) by {
                reveal_with_fuel(pow256, 8);
            };
        }
        r = r * 256;
        i = i + 1;
    }
    r
}

/// Reads the unsigned field stored in `bytes[offset .. offset + width]`.
pub fn read_uint(bytes: &[u8], offset: usize, width: usize, big_endian: bool) -> (r: u64)
    requires
        1 <= width <= 8,
        offset + width <= bytes@.len(),
    ensures
        r as nat == field_value(bytes@.subrange(offset as int, offset + width), big_endian),
        (r as nat) < pow256(width as nat),
{
    let total = bytes.len();
    if big_endian {
        let mut r: u64 = 0;
        let mut i: usize = 0;
        while i < width
            invariant
                i <= width <= 8,
                offset + width <= bytes@.len(),
                bytes@.len() == total,
                r as nat == be_value(bytes@.subrange(offset as int, offset + i)),
                (r as nat) < pow256(i as nat),
            decreases width - i,
        {
            let b = *vstd::slice::slice_index_get(bytes, offset + i);
            proof {
                let done = bytes@.subrange(offset as int, offset + i);
                let next = bytes@.subrange(offset as int, offset + i + 1);
                assert(next.drop_last() =~= done);
                assert(next.last() == b);
                lemma_pow256_fits_u64((i + 1) as nat);
                assert(pow256((i + 1) as nat) == 256 * pow256(i as nat));
                assert(256 * (r as nat) + (b as nat) < 256 * pow256(i as nat)) by (nonlinear_arith)
                    requires
                        (r as nat) < pow256(i as nat),
                        (b as nat) < 256,
                ;
            }
            r = r * 256 + (b as u64);
            i = i + 1;
        }
        proof {
            lemma_pow256_increases(i as nat, width as nat);
        }
        r
    } else {
        let mut r: u64 = 0;
        let mut i: usize = width;
        while i > 0
            invariant
                i <= width <= 8,
                offset + width <= bytes@.len(),
                bytes@.len() == total,
                r as nat == le_value(bytes@.subrange(offset + i, offset + width)),
                (r as nat) < pow256((width - i) as nat),
            decreases i,
        {
            let b = *vstd::slice::slice_index_get(bytes, offset + i - 1);
            proof {
                let done = bytes@.subrange(offset + i, offset + width);
                let next = bytes@.subrange(offset + i - 1, offset + width);
                assert(next.drop_first() =~= done);
                assert(next.first() == b);
                lemma_pow256_fits_u64((width - i + 1) as nat);
                assert(pow256((width - i + 1) as nat) == 256 * pow256((width - i) as nat));
                assert(256 * (r as nat) + (b as nat) < 256 * pow256((width - i) as nat))
                    by (nonlinear_arith)
                    requires
                        (r as nat) < pow256((width - i) as nat),
                        (b as nat) < 256,
                ;
            }
            r = r * 256 + (b as u64);
            i = i - 1;
        }
        r
    }
}

/// Writes `v` as a `width`-byte field in the given byte order.
pub fn write_uint(v: u64, width: usize, big_endian: bool) -> (r: Vec<u8>)
    requires
        1 <= width <= 8,
        (v as nat) < pow256(width as nat),
    ensures
        r@ == field_bytes(v as nat, width as nat, big_endian),
        r@.len() == width,
{
    proof {
        lemma_field_bytes_len(v as nat, width as nat, big_endian);
    }
    let mut out: Vec<u8> = Vec::new();
    let mut t: u64 = v;
    let mut i: usize = 0;
    if big_endian {
        while i < width
            invariant
                i <= width,
                out@.len() == i,
                be_bytes(t as nat, (width - i) as nat) + out@ == be_bytes(
                    v as nat,
                    width as nat,
                ),
            decreases width - i,
        {
            let b = (t % 256) as u8;
            proof {
                let w_left = (width - i) as nat;
                assert(be_bytes(t as nat, w_left) == be_bytes((t as nat) / 256, (w_left - 1) as nat)
                    + seq![b]);
                assert(be_bytes((t as nat) / 256, (w_left - 1) as nat) + (seq![b] + out@)
                    =~= (be_bytes((t as nat) / 256, (w_left - 1) as nat) + seq![b]) + out@);
                assert(seq![b] + out@ =~= out@.insert(0, b));
            }
            out.insert(0, b);
            t = t / 256;
            i = i + 1;
        }
        proof {
            assert(be_bytes(t as nat, 0) + out@ =~= out@);
        }
    } else {
        while i < width
            invariant
                i <= width,
                out@.len() == i,
                out@ + le_bytes(t as nat, (width - i) as nat) == le_bytes(
                    v as nat,
                    width as nat,
                ),
            decreases width - i,
        {
            let b = (t % 256) as u8;
            proof {
                let w_left = (width - i) as nat;
                assert(le_bytes(t as nat, w_left) == seq![b] + le_bytes(
                    (t as nat) / 256,
                    (w_left - 1) as nat,
                ));
                assert((out@ + seq![b]) + le_bytes((t as nat) / 256, (w_left - 1) as nat)
                    =~= out@ + (seq![b] + le_bytes((t as nat) / 256, (w_left - 1) as nat)));
                assert(out@ + seq![b] =~= out@.push(b));
            }
            out.push(b);
            t = t / 256;
            i = i + 1;
        }
        proof {
            assert(out@ + le_bytes(t as nat, 0) =~= out@);
        }
    }
    out
}

/// Appends the bytes of `src` to `out`.
pub fn push_bytes(out: &mut Vec<u8>, src: &[u8])
    requires
        old(out)@.len() + src@.len() <= usize::MAX,
    ensures
        final(out)@ == old(out)@ + src@,
{
    let mut i: usize = 0;
    while i < src.len()
        invariant
            i <= src@.len(),
            out@ == old(out)@ + src@.subrange(0, i as int),
            old(out)@.len() + src@.len() <= usize::MAX,
        decreases src@.len() - i,
    {
        let b = *vstd::slice::slice_index_get(src, i);
        proof {
            assert(out@ + seq![b] =~= old(out)@ + src@.subrange(0, i + 1));
        }
        out.push(b);
        i = i + 1;
    }
    proof {
        assert(src@.subrange(0, src@.len() as int) =~= src@);
    }
}

} // verus!
