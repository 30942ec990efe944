//! Canonical CBOR encoding primitives.
//!
//! The wire format of the ledger is CBOR with canonical (shortest-form)
//! argument encodings.  Every item starts with a head: a major-type base byte
//! with the argument packed into it (arguments below 24), or followed by the
//! argument in 1, 2, 4 or 8 big-endian bytes.  The spec functions here define
//! those bytes exactly, and the executable functions append exactly those
//! bytes to an output buffer.

use vstd::prelude::*;

verus! {

/// Major-type base byte of an unsigned integer.
pub const MAJOR_UINT: u8 = 0x00;
/// Major-type base byte of a negative integer.
pub const MAJOR_NINT: u8 = 0x20;
/// Major-type base byte of a byte string.
pub const MAJOR_BYTES: u8 = 0x40;
/// Major-type base byte of an array.
pub const MAJOR_ARRAY: u8 = 0x80;
/// Major-type base byte of a map.
pub const MAJOR_MAP: u8 = 0xa0;

/// The canonical head bytes for major-type base `mb` and argument `v`:
/// the shortest form that can carry `v`.
pub open spec fn enc_head(mb: u8, v: u64) -> Seq<u8> {
    if v < 24 {
        seq![(mb + v) as u8]
    } else if v < 0x100 {
        seq![(mb + 24) as u8, v as u8]
    } else if v < 0x1_0000 {
        seq![(mb + 25) as u8, (v / 0x100) as u8, (v % 0x100) as u8]
    } else if v < 0x1_0000_0000 {
        seq![
            (mb + 26) as u8,
            (v / 0x100_0000) as u8,
            ((v / 0x1_0000) % 0x100) as u8,
            ((v / 0x100) % 0x100) as u8,
            (v % 0x100) as u8,
        ]
    } else {
        seq![
            (mb + 27) as u8,
            (v / 0x100_0000_0000_0000) as u8,
            ((v / 0x1_0000_0000_0000) % 0x100) as u8,
            ((v / 0x100_0000_0000) % 0x100) as u8,
            ((v / 0x1_0000_0000) % 0x100) as u8,
            ((v / 0x100_0000) % 0x100) as u8,
            ((v / 0x1_0000) % 0x100) as u8,
            ((v / 0x100) % 0x100) as u8,
            (v % 0x100) as u8,
        ]
    }
}

/// The canonical encoding of the unsigned integer `v`.
pub open spec fn enc_uint(v: u64) -> Seq<u8> {
    enc_head(MAJOR_UINT, v)
}

/// The canonical encoding of the signed integer `v`: an unsigned integer for
/// `v >= 0`, a negative integer (argument `-1 - v`) otherwise.
pub open spec fn enc_int(v: i64) -> Seq<u8> {
    if v >= 0 {
        enc_head(MAJOR_UINT, v as u64)
    } else {
        enc_head(MAJOR_NINT, (-1 - v) as u64)
    }
}

/// The canonical encoding of a byte string: its head, then its bytes.
pub open spec fn enc_bytes(b: Seq<u8>) -> Seq<u8>
    recommends
        b.len() <= u64::MAX,
{
    enc_head(MAJOR_BYTES, b.len() as u64) + b
}

/// The encoding of a boolean.
pub open spec fn enc_bool(b: bool) -> Seq<u8> {
    if b {
        seq![0xf5u8]
    } else {
        seq![0xf4u8]
    }
}

/// Appends the canonical head for major-type base `mb` and argument `v`.
pub fn push_head(out: &mut Vec<u8>, mb: u8, v: u64)
    requires
        mb == MAJOR_UINT || mb == MAJOR_NINT || mb == MAJOR_BYTES || mb == MAJOR_ARRAY
            || mb == MAJOR_MAP,
    ensures
        final(out)@ == old(out)@ + enc_head(mb, v),
{
    if v < 24 {
        out.push(mb + v as u8);
        assert(out@ =~= old(out)@ + enc_head(mb, v));
    } else if v < 0x100 {
        out.push(mb + 24);
        out.push(v as u8);
        assert(out@ =~= old(out)@ + enc_head(mb, v));
    } else if v < 0x1_0000 {
        out.push(mb + 25);
        out.push((v / 0x100) as u8);
        out.push((v % 0x100) as u8);
        assert(out@ =~= old(out)@ + enc_head(mb, v));
    } else if v < 0x1_0000_0000 {
        out.push(mb + 26);
        out.push((v / 0x100_0000) as u8);
        out.push(((v / 0x1_0000) % 0x100) as u8);
        out.push(((v / 0x100) % 0x100) as u8);
        out.push((v % 0x100) as u8);
        assert(out@ =~= old(out)@ + enc_head(mb, v));
    } else {
        out.push(mb + 27);
        out.push((v / 0x100_0000_0000_0000) as u8);
        out.push(((v / 0x1_0000_0000_0000) % 0x100) as u8);
        out.push(((v / 0x100_0000_0000) % 0x100) as u8);
        out.push(((v / 0x1_0000_0000) % 0x100) as u8);
        out.push(((v / 0x100_0000) % 0x100) as u8);
        out.push(((v / 0x1_0000) % 0x100) as u8);
        out.push(((v / 0x100) % 0x100) as u8);
        out.push((v % 0x100) as u8);
        assert(out@ =~= old(out)@ + enc_head(mb, v));
    }
}

/// Appends the canonical encoding of the unsigned integer `v`.
pub fn push_uint(out: &mut Vec<u8>, v: u64)
    ensures
        final(out)@ == old(out)@ + enc_uint(v),
{
    push_head(out, MAJOR_UINT, v);
}

/// Appends the canonical encoding of the signed integer `v`.
pub fn push_int(out: &mut Vec<u8>, v: i64)
    ensures
        final(out)@ == old(out)@ + enc_int(v),
{
    if v >= 0 {
        push_head(out, MAJOR_UINT, v as u64);
    } else {
        let m: i64 = -1 - v;
        push_head(out, MAJOR_NINT, m as u64);
    }
}

/// Appends the canonical encoding of the byte string `b`.
pub fn push_bytes(out: &mut Vec<u8>, b: &Vec<u8>)
    ensures
        final(out)@ == old(out)@ + enc_bytes(b@),
{
    push_head(out, MAJOR_BYTES, b.len() as u64);
    let ghost with_head: Seq<u8> = out@;
    let mut i: usize = 0;
    while i < b.len()
        invariant
            i <= b.len(),
            out@ == with_head + b@.take(i as int),
        decreases b.len() - i,
    {
        out.push(b[i]);
        assert(out@ =~= with_head + b@.take(i as int + 1));
        i = i + 1;
    }
    assert(b@.take(b@.len() as int) =~= b@);
}

/// Appends the encoding of a boolean.
pub fn push_bool(out: &mut Vec<u8>, b: bool)
    ensures
        final(out)@ == old(out)@ + enc_bool(b),
{
    if b {
        out.push(0xf5);
    } else {
        out.push(0xf4);
    }
    assert(out@ =~= old(out)@ + enc_bool(b));
}

} // verus!
