//! Byte-level encoding of the compact binary tuple format that the scoring
//! service speaks.  Only the value shapes that the query protocol actually
//! uses are covered: nil, booleans, 64-bit floats (carried as raw IEEE-754
//! bits), UTF-8 strings (carried as plain bytes), array headers, compactly
//! encoded signed integers, and byte sequences written out element by
//! element.
use vstd::prelude::*;

verus! {

/// Strings and arrays carry at most a 32-bit length on the wire.
pub const MAX_WIRE_LEN: usize = 0xffff_ffff;

// ---------------------------------------------------------------------------
// Big-endian byte decomposition
// ---------------------------------------------------------------------------
pub open spec fn be16(v: u16) -> Seq<u8> {
    seq![((v >> 8) & 0xff) as u8, (v & 0xff) as u8]
}

pub open spec fn be32(v: u32) -> Seq<u8> {
    seq![
        ((v >> 24) & 0xff) as u8,
        ((v >> 16) & 0xff) as u8,
        ((v >> 8) & 0xff) as u8,
        (v & 0xff) as u8,
    ]
}

pub open spec fn be64(v: u64) -> Seq<u8> {
    seq![
        ((v >> 56) & 0xff) as u8,
        ((v >> 48) & 0xff) as u8,
        ((v >> 40) & 0xff) as u8,
        ((v >> 32) & 0xff) as u8,
        ((v >> 24) & 0xff) as u8,
        ((v >> 16) & 0xff) as u8,
        ((v >> 8) & 0xff) as u8,
        (v & 0xff) as u8,
    ]
}

// ---------------------------------------------------------------------------
// Value encodings
// ---------------------------------------------------------------------------
pub open spec fn enc_nil() -> Seq<u8> {
    seq![0xc0u8]
}

pub open spec fn enc_bool(b: bool) -> Seq<u8> {
    if b {
        seq![0xc3u8]
    } else {
        seq![0xc2u8]
    }
}

/// A 64-bit float, written as its marker followed by the raw bits big-endian.
pub open spec fn enc_f64_bits(bits: u64) -> Seq<u8> {
    seq![0xcbu8] + be64(bits)
}

/// A string: the shortest header that fits the byte length, then the bytes.
pub open spec fn enc_str(s: Seq<u8>) -> Seq<u8>
    recommends
        s.len() <= MAX_WIRE_LEN,
{
    if s.len() <= 31 {
        seq![(0xa0 + s.len()) as u8] + s
    } else if s.len() <= 0xff {
        seq![0xd9u8, s.len() as u8] + s
    } else if s.len() <= 0xffff {
        seq![0xdau8] + be16(s.len() as u16) + s
    } else {
        seq![0xdbu8] + be32(s.len() as u32) + s
    }
}

/// An array header announcing `n` elements, in its shortest form.
pub open spec fn enc_arr(n: nat) -> Seq<u8>
    recommends
        n <= MAX_WIRE_LEN,
{
    if n <= 15 {
        seq![(0x90 + n) as u8]
    } else if n <= 0xffff {
        seq![0xdcu8] + be16(n as u16)
    } else {
        seq![0xddu8] + be32(n as u32)
    }
}

/// A signed integer in its shortest form, preferring unsigned markers for
/// non-negative values.
pub open spec fn enc_int(v: int) -> Seq<u8>
    recommends
        -0x8000_0000_0000_0000 <= v < 0x8000_0000_0000_0000,
{
    if -32 <= v && v < 0 {
        seq![(v + 0x100) as u8]
    } else if -0x80 <= v && v < -32 {
        seq![0xd0u8, (v + 0x100) as u8]
    } else if -0x8000 <= v && v < -0x80 {
        seq![0xd1u8] + be16((v + 0x1_0000) as u16)
    } else if -0x8000_0000 <= v && v < -0x8000 {
        seq![0xd2u8] + be32((v + 0x1_0000_0000) as u32)
    } else if v < -0x8000_0000 {
        seq![0xd3u8] + be64((v + 0x1_0000_0000_0000_0000) as u64)
    } else if v < 0x80 {
        seq![v as u8]
    } else if v <= 0xff {
        seq![0xccu8, v as u8]
    } else if v <= 0xffff {
        seq![0xcdu8] + be16(v as u16)
    } else if v <= 0xffff_ffff {
        seq![0xceu8] + be32(v as u32)
    } else {
        seq![0xcfu8] + be64(v as u64)
    }
}

/// An absent value is nil; a present integer is written directly.
pub open spec fn enc_opt_int(v: Option<int>) -> Seq<u8> {
    match v {
        Some(x) => enc_int(x),
        None => enc_nil(),
    }
}

/// One byte written as an integer element of an array.
pub open spec fn enc_byte_elem(v: u8) -> Seq<u8> {
    if v < 0x80 {
        seq![v]
    } else {
        seq![0xccu8, v]
    }
}

pub open spec fn enc_byte_elems(b: Seq<u8>) -> Seq<u8>
    decreases b.len(),
{
    if b.len() == 0 {
        Seq::empty()
    } else {
        enc_byte_elem(b[0]) + enc_byte_elems(b.drop_first())
    }
}

/// A byte string written as an array of integers, element by element.
pub open spec fn enc_byte_arr(b: Seq<u8>) -> Seq<u8>
    recommends
        b.len() <= MAX_WIRE_LEN,
{
    enc_arr(b.len()) + enc_byte_elems(b)
}

// ---------------------------------------------------------------------------
// Emitters
// ---------------------------------------------------------------------------
pub fn emit_nil(out: &mut Vec<u8>)
    ensures
        final(out)@ == old(out)@ + enc_nil(),
{
    out.push(0xc0);
    proof {
        assert(out@ =~= old(out)@ + enc_nil());
    }
}

pub fn emit_bool(out: &mut Vec<u8>, b: bool)
    ensures
        final(out)@ == old(out)@ + enc_bool(b),
{
    if b {
        out.push(0xc3);
    } else {
        out.push(0xc2);
    }
    proof {
        assert(out@ =~= old(out)@ + enc_bool(b));
    }
}

fn emit_be16(out: &mut Vec<u8>, v: u16)
    ensures
        final(out)@ == old(out)@ + be16(v),
{
    proof {
        assert((v >> 8) & 0xff < 256 && v & 0xff < 256) by (bit_vector);
    }
    out.push(((v >> 8) & 0xff) as u8);
    out.push((v & 0xff) as u8);
    proof {
        assert(out@ =~= old(out)@ + be16(v));
    }
}

fn emit_be32(out: &mut Vec<u8>, v: u32)
    ensures
        final(out)@ == old(out)@ + be32(v),
{
    proof {
        assert((v >> 24) & 0xff < 256 && (v >> 16) & 0xff < 256 && (v >> 8) & 0xff < 256 && v
            & 0xff < 256) by (bit_vector);
    }
    out.push(((v >> 24) & 0xff) as u8);
    out.push(((v >> 16) & 0xff) as u8);
    out.push(((v >> 8) & 0xff) as u8);
    out.push((v & 0xff) as u8);
    proof {
        assert(out@ =~= old(out)@ + be32(v));
    }
}

fn emit_be64(out: &mut Vec<u8>, v: u64)
    ensures
        final(out)@ == old(out)@ + be64(v),
{
    proof {
        assert((v >> 56) & 0xff < 256 && (v >> 48) & 0xff < 256 && (v >> 40) & 0xff < 256 && (v
            >> 32) & 0xff < 256 && (v >> 24) & 0xff < 256 && (v >> 16) & 0xff < 256 && (v >> 8)
            & 0xff < 256 && v & 0xff < 256) by (bit_vector);
    }
    out.push(((v >> 56) & 0xff) as u8);
    out.push(((v >> 48) & 0xff) as u8);
    out.push(((v >> 40) & 0xff) as u8);
    out.push(((v >> 32) & 0xff) as u8);
    out.push(((v >> 24) & 0xff) as u8);
    out.push(((v >> 16) & 0xff) as u8);
    out.push(((v >> 8) & 0xff) as u8);
    out.push((v & 0xff) as u8);
    proof {
        assert(out@ =~= old(out)@ + be64(v));
    }
}

pub fn emit_f64_bits(out: &mut Vec<u8>, bits: u64)
    ensures
        final(out)@ == old(out)@ + enc_f64_bits(bits),
{
    out.push(0xcb);
    emit_be64(out, bits);
    proof {
        assert(out@ =~= old(out)@ + enc_f64_bits(bits));
    }
}

pub fn emit_str(out: &mut Vec<u8>, s: &[u8])
    requires
        s@.len() <= MAX_WIRE_LEN,
    ensures
        final(out)@ == old(out)@ + enc_str(s@),
{
    let n = s.len();
    if n <= 31 {
        out.push((0xa0 + n) as u8);
    } else if n <= 0xff {
        out.push(0xd9);
        out.push(n as u8);
    } else if n <= 0xffff {
        out.push(0xda);
        emit_be16(out, n as u16);
    } else {
        out.push(0xdb);
        emit_be32(out, n as u32);
    }
    let ghost with_header = out@;
    proof {
        assert(with_header =~= old(out)@ + (enc_str(s@).take(enc_str(s@).len() - n)));
    }
    let mut i: usize = 0;
    while i < n
        invariant
            n == s@.len(),
            i <= n,
            out@ == with_header + s@.take(i as int),
        decreases n - i,
    {
        out.push(s[i]);
        proof {
            assert(out@ =~= with_header + s@.take(i + 1 as int));
        }
        i = i + 1;
    }
    proof {
        assert(s@.take(n as int) =~= s@);
        assert(out@ =~= old(out)@ + enc_str(s@));
    }
}

pub fn emit_arr_hdr(out: &mut Vec<u8>, n: usize)
    requires
        n <= MAX_WIRE_LEN,
    ensures
        final(out)@ == old(out)@ + enc_arr(n as nat),
{
    if n <= 15 {
        out.push((0x90 + n) as u8);
    } else if n <= 0xffff {
        out.push(0xdc);
        emit_be16(out, n as u16);
    } else {
        out.push(0xdd);
        emit_be32(out, n as u32);
    }
    proof {
        assert(out@ =~= old(out)@ + enc_arr(n as nat));
    }
}

pub fn emit_int(out: &mut Vec<u8>, v: i32)
    ensures
        final(out)@ == old(out)@ + enc_int(v as int),
{
    if -32 <= v && v < 0 {
        out.push((v + 0x100) as u8);
    } else if -0x80 <= v && v < -32 {
        out.push(0xd0);
        out.push((v + 0x100) as u8);
    } else if -0x8000 <= v && v < -0x80 {
        out.push(0xd1);
        emit_be16(out, (v + 0x1_0000) as u16);
    } else if v < -0x8000 {
        out.push(0xd2);
        emit_be32(out, ((v as i64) + 0x1_0000_0000) as u32);
    } else if v < 0x80 {
        out.push(v as u8);
    } else if v <= 0xff {
        out.push(0xcc);
        out.push(v as u8);
    } else if v <= 0xffff {
        out.push(0xcd);
        emit_be16(out, v as u16);
    } else {
        out.push(0xce);
        emit_be32(out, v as u32);
    }
    proof {
        assert(out@ =~= old(out)@ + enc_int(v as int));
    }
}

pub fn emit_opt_int(out: &mut Vec<u8>, v: Option<i32>)
    ensures
        final(out)@ == old(out)@ + enc_opt_int(match v {
            Some(x) => Some(x as int),
            None => None,
        }),
{
    match v {
        Some(x) => emit_int(out, x),
        None => emit_nil(out),
    }
}

pub fn emit_byte_arr(out: &mut Vec<u8>, b: &[u8])
    requires
        b@.len() <= MAX_WIRE_LEN,
    ensures
        final(out)@ == old(out)@ + enc_byte_arr(b@),
{
    emit_arr_hdr(out, b.len());
    let ghost with_header = out@;
    let n = b.len();
    let mut i: usize = 0;
    while i < n
        invariant
            n == b@.len(),
            i <= n,
            out@ == with_header + enc_byte_elems(b@.take(i as int)),
        decreases n - i,
    {
        let x = b[i];
        if x < 0x80 {
            out.push(x);
        } else {
            out.push(0xcc);
            out.push(x);
        }
        proof {
            lemma_enc_byte_elems_push(b@.take(i as int), b@[i as int]);
            assert(b@.take(i + 1 as int) =~= b@.take(i as int).push(b@[i as int]));
            assert(out@ =~= with_header + enc_byte_elems(b@.take(i + 1 as int)));
        }
        i = i + 1;
    }
    proof {
        assert(b@.take(n as int) =~= b@);
        assert(out@ =~= old(out)@ + enc_byte_arr(b@));
    }
}

proof fn lemma_enc_byte_elems_push(b: Seq<u8>, x: u8)
    ensures
        enc_byte_elems(b.push(x)) == enc_byte_elems(b) + enc_byte_elem(x),
    decreases b.len(),
{
    if b.len() == 0 {
        assert(b.push(x).drop_first() =~= b);
        assert(enc_byte_elems(b.push(x)) =~= enc_byte_elems(b) + enc_byte_elem(x));
    } else {
        assert(b.push(x).drop_first() =~= b.drop_first().push(x));
        lemma_enc_byte_elems_push(b.drop_first(), x);
        assert(enc_byte_elems(b.push(x)) =~= enc_byte_elems(b) + enc_byte_elem(x));
    }
}

} // verus!
