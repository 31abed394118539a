//! Big-endian integer fields and length-delimited byte ranges, the raw
//! material of the TLS record and handshake layers.

use vstd::prelude::*;

verus! {

/// Big-endian 16-bit value carried by two bytes.
pub open spec fn u16_of(hi: u8, lo: u8) -> u16 {
    (hi * 256 + lo) as u16
}

/// Big-endian 24-bit value carried by three bytes.
pub open spec fn u24_of(b0: u8, b1: u8, b2: u8) -> int {
    b0 * 65536 + b1 * 256 + b2
}

pub fn read_u16(hi: u8, lo: u8) -> (r: u16)
    ensures
        r == u16_of(hi, lo),
{
    (hi as u16) * 256 + (lo as u16)
}

pub fn read_u24(b0: u8, b1: u8, b2: u8) -> (r: usize)
    ensures
        r == u24_of(b0, b1, b2),
{
    (b0 as usize) * 65536 + (b1 as usize) * 256 + (b2 as usize)
}

/// The 16-bit values encoded big-endian by consecutive byte pairs.
pub open spec fn u16_list_of(b: Seq<u8>) -> Seq<u16>
    decreases b.len(),
{
    if b.len() < 2 {
        Seq::empty()
    } else {
        seq![u16_of(b[0], b[1])] + u16_list_of(b.skip(2))
    }
}

/// Copies `src[i..j]` into a fresh vector.
pub fn copy_range(src: &[u8], i: usize, j: usize) -> (r: Vec<u8>)
    requires
        i <= j <= src@.len(),
    ensures
        r@ == src@.subrange(i as int, j as int),
{
    let mut r: Vec<u8> = Vec::new();
    let mut k: usize = i;
    while k < j
        invariant
            i <= k <= j <= src@.len(),
            r@ == src@.subrange(i as int, k as int),
        decreases j - k,
    {
        r.push(src[k]);
        proof {
            assert(r@ =~= src@.subrange(i as int, k + 1 as int));
        }
        k = k + 1;
    }
    r
}

/// Appends `src[i..j]` to `dst`.
pub fn append_range(dst: &mut Vec<u8>, src: &[u8], i: usize, j: usize)
    requires
        i <= j <= src@.len(),
    ensures
        final(dst)@ == old(dst)@ + src@.subrange(i as int, j as int),
{
    let mut k: usize = i;
    while k < j
        invariant
            i <= k <= j <= src@.len(),
            dst@.len() == old(dst)@.len() + (k - i),
            dst@ == old(dst)@ + src@.subrange(i as int, k as int),
        decreases j - k,
    {
        dst.push(src[k]);
        proof {
            assert(dst@ =~= old(dst)@ + src@.subrange(i as int, k + 1 as int));
        }
        k = k + 1;
    }
    proof {
        assert(dst@ =~= old(dst)@ + src@.subrange(i as int, j as int));
    }
}

/// Copies a list of 16-bit values.
pub fn copy_u16_list(src: &Vec<u16>) -> (r: Vec<u16>)
    ensures
        r@ == src@,
{
    let mut r: Vec<u16> = Vec::new();
    let mut k: usize = 0;
    while k < src.len()
        invariant
            k <= src@.len(),
            r@ == src@.take(k as int),
        decreases src@.len() - k,
    {
        r.push(src[k]);
        proof {
            assert(r@ =~= src@.take(k + 1 as int));
        }
        k = k + 1;
    }
    proof {
        assert(src@.take(src@.len() as int) =~= src@);
    }
    r
}

/// Reads the 16-bit values of the byte pairs in `src[i..j]`.
pub fn read_u16_list(src: &[u8], i: usize, j: usize) -> (r: Vec<u16>)
    requires
        i <= j <= src@.len(),
        (j - i) % 2 == 0,
    ensures
        r@ == u16_list_of(src@.subrange(i as int, j as int)),
{
    let ghost whole = src@.subrange(i as int, j as int);
    let mut r: Vec<u16> = Vec::new();
    let mut k: usize = i;
    proof {
        assert(whole.skip(0) =~= whole);
        assert(r@ + u16_list_of(whole) =~= u16_list_of(whole));
    }
    while k < j
        invariant
            i <= k <= j <= src@.len(),
            (k - i) % 2 == 0,
            (j - i) % 2 == 0,
            whole == src@.subrange(i as int, j as int),
            u16_list_of(whole) == r@ + u16_list_of(whole.skip(k - i)),
        decreases j - k,
    {
        let v = read_u16(src[k], src[k + 1]);
        proof {
            let rest = whole.skip(k - i);
            assert(rest.len() == j - k);
            assert(rest[0] == src@[k as int]);
            assert(rest[1] == src@[k + 1]);
            assert(rest.skip(2) =~= whole.skip(k + 2 - i));
            assert(u16_list_of(rest) == seq![u16_of(rest[0], rest[1])] + u16_list_of(rest.skip(2)));
            assert(r@ + u16_list_of(rest) =~= r@.push(v) + u16_list_of(whole.skip(k + 2 - i)));
        }
        r.push(v);
        k = k + 2;
    }
    proof {
        assert(whole.skip(k - i) =~= Seq::<u8>::empty());
        assert(u16_list_of(whole) =~= r@);
    }
    r
}

} // verus!
