//! Parsing of the binary tuple format: total specification-level parsers
//! over byte sequences, executable readers proved equal to them, and
//! inversion lemmas showing that each parser undoes the matching encoder.
//!
//! A parser takes the remaining input and yields the parsed value together
//! with what is left, or nothing when the bytes do not start with a value
//! of the expected shape.
use vstd::prelude::*;
use vstd::slice::{slice_subrange, slice_to_vec};
use crate::enc::{MAX_WIRE_LEN, be16, be32, be64, enc_arr, enc_f64_bits, enc_nil, enc_str};

verus! {

// ---------------------------------------------------------------------------
// Big-endian recomposition
// ---------------------------------------------------------------------------
pub open spec fn be16_val(b0: u8, b1: u8) -> u16 {
    ((b0 as u16) << 8) | (b1 as u16)
}

pub open spec fn be32_val(b0: u8, b1: u8, b2: u8, b3: u8) -> u32 {
    ((b0 as u32) << 24) | ((b1 as u32) << 16) | ((b2 as u32) << 8) | (b3 as u32)
}

pub open spec fn be64_val(b0: u8, b1: u8, b2: u8, b3: u8, b4: u8, b5: u8, b6: u8, b7: u8) -> u64 {
    ((b0 as u64) << 56) | ((b1 as u64) << 48) | ((b2 as u64) << 40) | ((b3 as u64) << 32) | ((
    b4 as u64) << 24) | ((b5 as u64) << 16) | ((b6 as u64) << 8) | (b7 as u64)
}

pub proof fn lemma_be16_roundtrip(v: u16)
    ensures
        be16_val(be16(v)[0], be16(v)[1]) == v,
{
    assert((((((v >> 8) & 0xff) as u8) as u16) << 8) | (((v & 0xff) as u8) as u16) == v)
        by (bit_vector);
}

pub proof fn lemma_be32_roundtrip(v: u32)
    ensures
        be32_val(be32(v)[0], be32(v)[1], be32(v)[2], be32(v)[3]) == v,
{
    assert((((((v >> 24) & 0xff) as u8) as u32) << 24) | (((((v >> 16) & 0xff) as u8) as u32)
        << 16) | (((((v >> 8) & 0xff) as u8) as u32) << 8) | (((v & 0xff) as u8) as u32) == v)
        by (bit_vector);
}

pub proof fn lemma_be64_roundtrip(v: u64)
    ensures
        be64_val(
            be64(v)[0],
            be64(v)[1],
            be64(v)[2],
            be64(v)[3],
            be64(v)[4],
            be64(v)[5],
            be64(v)[6],
            be64(v)[7],
        ) == v,
{
    assert((((((v >> 56) & 0xff) as u8) as u64) << 56) | (((((v >> 48) & 0xff) as u8) as u64)
        << 48) | (((((v >> 40) & 0xff) as u8) as u64) << 40) | (((((v >> 32) & 0xff) as u8) as u64)
        << 32) | (((((v >> 24) & 0xff) as u8) as u64) << 24) | (((((v >> 16) & 0xff) as u8) as u64)
        << 16) | (((((v >> 8) & 0xff) as u8) as u64) << 8) | (((v & 0xff) as u8) as u64) == v)
        by (bit_vector);
}

// ---------------------------------------------------------------------------
// Specification-level parsers
// ---------------------------------------------------------------------------
pub open spec fn take_bytes(t: Seq<u8>, n: nat) -> Option<(Seq<u8>, Seq<u8>)> {
    if n <= t.len() {
        Some((t.take(n as int), t.skip(n as int)))
    } else {
        None
    }
}

pub open spec fn parse_str(t: Seq<u8>) -> Option<(Seq<u8>, Seq<u8>)> {
    if t.len() == 0 {
        None
    } else {
        let m = t[0];
        if 0xa0 <= m && m <= 0xbf {
            take_bytes(t.skip(1), (m - 0xa0) as nat)
        } else if m == 0xd9 {
            if t.len() >= 2 {
                take_bytes(t.skip(2), t[1] as nat)
            } else {
                None
            }
        } else if m == 0xda {
            if t.len() >= 3 {
                take_bytes(t.skip(3), be16_val(t[1], t[2]) as nat)
            } else {
                None
            }
        } else if m == 0xdb {
            if t.len() >= 5 {
                take_bytes(t.skip(5), be32_val(t[1], t[2], t[3], t[4]) as nat)
            } else {
                None
            }
        } else {
            None
        }
    }
}

pub open spec fn parse_arr_hdr(t: Seq<u8>) -> Option<(nat, Seq<u8>)> {
    if t.len() == 0 {
        None
    } else {
        let m = t[0];
        if 0x90 <= m && m <= 0x9f {
            Some(((m - 0x90) as nat, t.skip(1)))
        } else if m == 0xdc {
            if t.len() >= 3 {
                Some((be16_val(t[1], t[2]) as nat, t.skip(3)))
            } else {
                None
            }
        } else if m == 0xdd {
            if t.len() >= 5 {
                Some((be32_val(t[1], t[2], t[3], t[4]) as nat, t.skip(5)))
            } else {
                None
            }
        } else {
            None
        }
    }
}

pub open spec fn parse_f64_bits(t: Seq<u8>) -> Option<(u64, Seq<u8>)> {
    if t.len() >= 9 && t[0] == 0xcb {
        Some((be64_val(t[1], t[2], t[3], t[4], t[5], t[6], t[7], t[8]), t.skip(9)))
    } else {
        None
    }
}

pub open spec fn parse_nil(t: Seq<u8>) -> Option<Seq<u8>> {
    if t.len() >= 1 && t[0] == 0xc0 {
        Some(t.skip(1))
    } else {
        None
    }
}

// ---------------------------------------------------------------------------
// Inversion: each parser undoes the matching encoder
// ---------------------------------------------------------------------------
pub proof fn lemma_parse_str_enc(x: Seq<u8>, rest: Seq<u8>)
    requires
        x.len() <= MAX_WIRE_LEN,
    ensures
        parse_str(enc_str(x) + rest) == Some((x, rest)),
{
    let t = enc_str(x) + rest;
    if x.len() <= 31 {
        assert(t[0] == (0xa0 + x.len()) as u8);
        assert(t.skip(1) =~= x + rest);
        assert((x + rest).take(x.len() as int) =~= x);
        assert((x + rest).skip(x.len() as int) =~= rest);
    } else if x.len() <= 0xff {
        assert(t[0] == 0xd9 && t[1] == x.len() as u8);
        assert(t.skip(2) =~= x + rest);
        assert((x + rest).take(x.len() as int) =~= x);
        assert((x + rest).skip(x.len() as int) =~= rest);
    } else if x.len() <= 0xffff {
        let l = x.len() as u16;
        assert(t[0] == 0xda && t[1] == be16(l)[0] && t[2] == be16(l)[1]);
        lemma_be16_roundtrip(l);
        assert(t.skip(3) =~= x + rest);
        assert((x + rest).take(x.len() as int) =~= x);
        assert((x + rest).skip(x.len() as int) =~= rest);
    } else {
        let l = x.len() as u32;
        assert(t[0] == 0xdb && t[1] == be32(l)[0] && t[2] == be32(l)[1] && t[3] == be32(l)[2] && t[4]
            == be32(l)[3]);
        lemma_be32_roundtrip(l);
        assert(t.skip(5) =~= x + rest);
        assert((x + rest).take(x.len() as int) =~= x);
        assert((x + rest).skip(x.len() as int) =~= rest);
    }
}

pub proof fn lemma_parse_arr_enc(n: nat, rest: Seq<u8>)
    requires
        n <= MAX_WIRE_LEN,
    ensures
        parse_arr_hdr(enc_arr(n) + rest) == Some((n, rest)),
{
    let t = enc_arr(n) + rest;
    if n <= 15 {
        assert(t[0] == (0x90 + n) as u8);
        assert(t.skip(1) =~= rest);
    } else if n <= 0xffff {
        let l = n as u16;
        assert(t[0] == 0xdc && t[1] == be16(l)[0] && t[2] == be16(l)[1]);
        lemma_be16_roundtrip(l);
        assert(t.skip(3) =~= rest);
    } else {
        let l = n as u32;
        assert(t[0] == 0xdd && t[1] == be32(l)[0] && t[2] == be32(l)[1] && t[3] == be32(l)[2] && t[4]
            == be32(l)[3]);
        lemma_be32_roundtrip(l);
        assert(t.skip(5) =~= rest);
    }
}

pub proof fn lemma_parse_f64_enc(bits: u64, rest: Seq<u8>)
    ensures
        parse_f64_bits(enc_f64_bits(bits) + rest) == Some((bits, rest)),
{
    let t = enc_f64_bits(bits) + rest;
    assert(t[0] == 0xcb);
    assert(t[1] == be64(bits)[0] && t[2] == be64(bits)[1] && t[3] == be64(bits)[2] && t[4] == be64(
        bits,
    )[3] && t[5] == be64(bits)[4] && t[6] == be64(bits)[5] && t[7] == be64(bits)[6] && t[8] == be64(
        bits,
    )[7]);
    lemma_be64_roundtrip(bits);
    assert(t.skip(9) =~= rest);
}

pub proof fn lemma_parse_nil_enc(rest: Seq<u8>)
    ensures
        parse_nil(enc_nil() + rest) == Some(rest),
{
    let t = enc_nil() + rest;
    assert(t[0] == 0xc0);
    assert(t.skip(1) =~= rest);
}

// ---------------------------------------------------------------------------
// Sequences of values: encoding side and parsing side
// ---------------------------------------------------------------------------
/// The concatenation of the encodings of all elements of `s`.
pub open spec fn concat_map<A>(s: Seq<A>, f: spec_fn(A) -> Seq<u8>) -> Seq<u8>
    decreases s.len(),
{
    if s.len() == 0 {
        Seq::empty()
    } else {
        f(s[0]) + concat_map(s.drop_first(), f)
    }
}

pub proof fn lemma_concat_map_push<A>(s: Seq<A>, f: spec_fn(A) -> Seq<u8>, x: A)
    ensures
        concat_map(s.push(x), f) == concat_map(s, f) + f(x),
    decreases s.len(),
{
    if s.len() == 0 {
        assert(s.push(x).drop_first() =~= s);
        assert(concat_map(s.push(x), f) =~= concat_map(s, f) + f(x));
    } else {
        assert(s.push(x).drop_first() =~= s.drop_first().push(x));
        lemma_concat_map_push(s.drop_first(), f, x);
        assert(concat_map(s.push(x), f) =~= concat_map(s, f) + f(x));
    }
}

/// Parse exactly `n` consecutive values with the element parser `p`.
pub open spec fn parse_rows<A>(
    t: Seq<u8>,
    n: nat,
    p: spec_fn(Seq<u8>) -> Option<(A, Seq<u8>)>,
) -> Option<(Seq<A>, Seq<u8>)>
    decreases n,
{
    if n == 0 {
        Some((Seq::empty(), t))
    } else {
        match p(t) {
            None => None,
            Some((v, t1)) => match parse_rows(t1, (n - 1) as nat, p) {
                None => None,
                Some((vs, t2)) => Some((seq![v] + vs, t2)),
            },
        }
    }
}

/// Parsing `n` rows undoes encoding `n` rows, whenever the element parser
/// undoes the element encoder.
pub proof fn lemma_parse_rows_enc<A>(
    rows: Seq<A>,
    rest: Seq<u8>,
    f: spec_fn(A) -> Seq<u8>,
    p: spec_fn(Seq<u8>) -> Option<(A, Seq<u8>)>,
)
    requires
        forall|k: int, t2: Seq<u8>|
            0 <= k < rows.len() ==> #[trigger] p(f(rows[k]) + t2) == Some((rows[k], t2)),
    ensures
        parse_rows(concat_map(rows, f) + rest, rows.len(), p) == Some((rows, rest)),
    decreases rows.len(),
{
    if rows.len() == 0 {
        assert(concat_map(rows, f) + rest =~= rest);
    } else {
        let r0 = rows[0];
        let tl = rows.drop_first();
        let inner = concat_map(tl, f) + rest;
        assert(concat_map(rows, f) + rest =~= f(r0) + inner);
        assert(p(f(r0) + inner) == Some((r0, inner)));
        assert forall|k: int, t2: Seq<u8>| 0 <= k < tl.len() implies #[trigger] p(f(tl[k]) + t2)
            == Some((tl[k], t2)) by {
            assert(tl[k] == rows[k + 1]);
        }
        lemma_parse_rows_enc(tl, rest, f, p);
        assert(seq![r0] + tl =~= rows);
    }
}

// ---------------------------------------------------------------------------
// Executable readers
// ---------------------------------------------------------------------------
fn be16_from(b0: u8, b1: u8) -> (v: u16)
    ensures
        v == be16_val(b0, b1),
{
    ((b0 as u16) << 8) | (b1 as u16)
}

fn be32_from(b0: u8, b1: u8, b2: u8, b3: u8) -> (v: u32)
    ensures
        v == be32_val(b0, b1, b2, b3),
{
    ((b0 as u32) << 24) | ((b1 as u32) << 16) | ((b2 as u32) << 8) | (b3 as u32)
}

fn be64_from(b0: u8, b1: u8, b2: u8, b3: u8, b4: u8, b5: u8, b6: u8, b7: u8) -> (v: u64)
    ensures
        v == be64_val(b0, b1, b2, b3, b4, b5, b6, b7),
{
    ((b0 as u64) << 56) | ((b1 as u64) << 48) | ((b2 as u64) << 40) | ((b3 as u64) << 32) | ((
    b4 as u64) << 24) | ((b5 as u64) << 16) | ((b6 as u64) << 8) | (b7 as u64)
}

/// Copy `len` bytes starting at `j`, if that many remain.
fn rd_bytes(buf: &[u8], j: usize, len: usize) -> (r: Option<(Vec<u8>, usize)>)
    requires
        j <= buf@.len(),
    ensures
        match r {
            Some(p) => {
                &&& p.1 <= buf@.len()
                &&& take_bytes(buf@.skip(j as int), len as nat) == Some(
                    (p.0@, buf@.skip(p.1 as int)),
                )
            },
            None => take_bytes(buf@.skip(j as int), len as nat) is None,
        },
{
    if len <= buf.len() - j {
        let end = j + len;
        let v = slice_to_vec(slice_subrange(buf, j, end));
        proof {
            assert(v@ =~= buf@.skip(j as int).take(len as int));
            assert(buf@.skip(end as int) =~= buf@.skip(j as int).skip(len as int));
        }
        Some((v, end))
    } else {
        None
    }
}

/// Read a string value starting at `i`.
pub fn rd_str(buf: &[u8], i: usize) -> (r: Option<(Vec<u8>, usize)>)
    requires
        i <= buf@.len(),
    ensures
        match r {
            Some(p) => {
                &&& p.1 <= buf@.len()
                &&& parse_str(buf@.skip(i as int)) == Some((p.0@, buf@.skip(p.1 as int)))
            },
            None => parse_str(buf@.skip(i as int)) is None,
        },
{
    let n = buf.len();
    if i >= n {
        return None;
    }
    let m = buf[i];
    if 0xa0 <= m && m <= 0xbf {
        let r = rd_bytes(buf, i + 1, (m - 0xa0) as usize);
        proof {
            assert(buf@.skip(i as int).skip(1) =~= buf@.skip(i + 1 as int));
        }
        r
    } else if m == 0xd9 {
        if n - i >= 2 {
            let r = rd_bytes(buf, i + 2, buf[i + 1] as usize);
            proof {
                assert(buf@.skip(i as int).skip(2) =~= buf@.skip(i + 2 as int));
            }
            r
        } else {
            None
        }
    } else if m == 0xda {
        if n - i >= 3 {
            let len = be16_from(buf[i + 1], buf[i + 2]);
            let r = rd_bytes(buf, i + 3, len as usize);
            proof {
                assert(buf@.skip(i as int).skip(3) =~= buf@.skip(i + 3 as int));
            }
            r
        } else {
            None
        }
    } else if m == 0xdb {
        if n - i >= 5 {
            let len = be32_from(buf[i + 1], buf[i + 2], buf[i + 3], buf[i + 4]);
            let r = rd_bytes(buf, i + 5, len as usize);
            proof {
                assert(buf@.skip(i as int).skip(5) =~= buf@.skip(i + 5 as int));
            }
            r
        } else {
            None
        }
    } else {
        None
    }
}

/// Read an array header starting at `i`.
pub fn rd_arr_hdr(buf: &[u8], i: usize) -> (r: Option<(usize, usize)>)
    requires
        i <= buf@.len(),
    ensures
        match r {
            Some(p) => {
                &&& p.1 <= buf@.len()
                &&& parse_arr_hdr(buf@.skip(i as int)) == Some((p.0 as nat, buf@.skip(p.1 as int)))
            },
            None => parse_arr_hdr(buf@.skip(i as int)) is None,
        },
{
    let n = buf.len();
    if i >= n {
        return None;
    }
    let m = buf[i];
    if 0x90 <= m && m <= 0x9f {
        proof {
            assert(buf@.skip(i as int).skip(1) =~= buf@.skip(i + 1 as int));
        }
        Some(((m - 0x90) as usize, i + 1))
    } else if m == 0xdc {
        if n - i >= 3 {
            let len = be16_from(buf[i + 1], buf[i + 2]);
            proof {
                assert(buf@.skip(i as int).skip(3) =~= buf@.skip(i + 3 as int));
            }
            Some((len as usize, i + 3))
        } else {
            None
        }
    } else if m == 0xdd {
        if n - i >= 5 {
            let len = be32_from(buf[i + 1], buf[i + 2], buf[i + 3], buf[i + 4]);
            proof {
                assert(buf@.skip(i as int).skip(5) =~= buf@.skip(i + 5 as int));
            }
            Some((len as usize, i + 5))
        } else {
            None
        }
    } else {
        None
    }
}

/// Read a 64-bit float starting at `i`, yielding its raw bits.
pub fn rd_f64_bits(buf: &[u8], i: usize) -> (r: Option<(u64, usize)>)
    requires
        i <= buf@.len(),
    ensures
        match r {
            Some(p) => {
                &&& p.1 <= buf@.len()
                &&& parse_f64_bits(buf@.skip(i as int)) == Some((p.0, buf@.skip(p.1 as int)))
            },
            None => parse_f64_bits(buf@.skip(i as int)) is None,
        },
{
    let n = buf.len();
    if i < n && n - i >= 9 && buf[i] == 0xcb {
        let v = be64_from(
            buf[i + 1],
            buf[i + 2],
            buf[i + 3],
            buf[i + 4],
            buf[i + 5],
            buf[i + 6],
            buf[i + 7],
            buf[i + 8],
        );
        proof {
            assert(buf@.skip(i as int).skip(9) =~= buf@.skip(i + 9 as int));
        }
        Some((v, i + 9))
    } else {
        None
    }
}

/// Prepend already-parsed values to the outcome of a row parser.
pub open spec fn chain<A>(acc: Seq<A>, r: Option<(Seq<A>, Seq<u8>)>) -> Option<(Seq<A>, Seq<u8>)> {
    match r {
        None => None,
        Some((vs, t)) => Some((acc + vs, t)),
    }
}

pub proof fn lemma_chain_chain<A>(a: Seq<A>, b: Seq<A>, r: Option<(Seq<A>, Seq<u8>)>)
    ensures
        chain(a, chain(b, r)) == chain(a + b, r),
{
    match r {
        None => {},
        Some((vs, t)) => {
            assert(a + (b + vs) =~= (a + b) + vs);
        },
    }
}

pub proof fn lemma_parse_rows_step<A>(
    t: Seq<u8>,
    n: nat,
    p: spec_fn(Seq<u8>) -> Option<(A, Seq<u8>)>,
    v: A,
    t2: Seq<u8>,
)
    requires
        n > 0,
        p(t) == Some((v, t2)),
    ensures
        parse_rows(t, n, p) == chain(seq![v], parse_rows(t2, (n - 1) as nat, p)),
{
    match parse_rows(t2, (n - 1) as nat, p) {
        None => {},
        Some((vs, tt)) => {},
    }
}

/// Read a nil value starting at `i`.
pub fn rd_nil(buf: &[u8], i: usize) -> (r: Option<usize>)
    requires
        i <= buf@.len(),
    ensures
        match r {
            Some(j) => {
                &&& j <= buf@.len()
                &&& parse_nil(buf@.skip(i as int)) == Some(buf@.skip(j as int))
            },
            None => parse_nil(buf@.skip(i as int)) is None,
        },
{
    if i < buf.len() && buf[i] == 0xc0 {
        proof {
            assert(buf@.skip(i as int).skip(1) =~= buf@.skip(i + 1 as int));
        }
        Some(i + 1)
    } else {
        None
    }
}

} // verus!
