//! MessagePack primitives used by the packet codec: canonical encodings of
//! unsigned and signed integers, strings, byte arrays and the small headers,
//! with spec-level decoders and round-trip lemmas.

use vstd::prelude::*;
use vstd::arithmetic::div_mod::{lemma_breakdown, lemma_small_mod};
use vstd::utf8::{decode_utf8, encode_utf8, valid_utf8};

verus! {

// ---------------------------------------------------------------------------
// Big-endian digit strings
// ---------------------------------------------------------------------------
pub open spec fn be16(n: int) -> Seq<u8> {
    seq![(n / 0x100 % 0x100) as u8, (n % 0x100) as u8]
}

pub open spec fn from_be16(b: Seq<u8>) -> int {
    b[0] * 0x100 + b[1]
}

pub open spec fn be32(n: int) -> Seq<u8> {
    seq![
        (n / 0x1000000 % 0x100) as u8,
        (n / 0x10000 % 0x100) as u8,
        (n / 0x100 % 0x100) as u8,
        (n % 0x100) as u8,
    ]
}

pub open spec fn from_be32(b: Seq<u8>) -> int {
    b[0] * 0x1000000 + b[1] * 0x10000 + b[2] * 0x100 + b[3]
}

pub open spec fn be64(n: int) -> Seq<u8> {
    seq![
        (n / 0x100000000000000 % 0x100) as u8,
        (n / 0x1000000000000 % 0x100) as u8,
        (n / 0x10000000000 % 0x100) as u8,
        (n / 0x100000000 % 0x100) as u8,
        (n / 0x1000000 % 0x100) as u8,
        (n / 0x10000 % 0x100) as u8,
        (n / 0x100 % 0x100) as u8,
        (n % 0x100) as u8,
    ]
}

pub open spec fn from_be64(b: Seq<u8>) -> int {
    b[0] * 0x100000000000000 + b[1] * 0x1000000000000 + b[2] * 0x10000000000 + b[3] * 0x100000000
        + b[4] * 0x1000000 + b[5] * 0x10000 + b[6] * 0x100 + b[7]
}

pub proof fn lemma_be16_roundtrip(n: int)
    requires
        0 <= n < 0x10000,
    ensures
        from_be16(be16(n)) == n,
{
    lemma_breakdown(n, 0x100, 0x100);
    lemma_small_mod(n as nat, 0x10000);
}

pub proof fn lemma_be32_roundtrip(n: int)
    requires
        0 <= n < 0x100000000,
    ensures
        from_be32(be32(n)) == n,
{
    lemma_breakdown(n, 0x100, 0x100);
    lemma_breakdown(n, 0x10000, 0x100);
    lemma_breakdown(n, 0x1000000, 0x100);
    lemma_small_mod(n as nat, 0x100000000);
}

pub proof fn lemma_be64_roundtrip(n: int)
    requires
        0 <= n < 0x10000000000000000,
    ensures
        from_be64(be64(n)) == n,
{
    lemma_breakdown(n, 0x100, 0x100);
    lemma_breakdown(n, 0x10000, 0x100);
    lemma_breakdown(n, 0x1000000, 0x100);
    lemma_breakdown(n, 0x100000000, 0x100);
    lemma_breakdown(n, 0x10000000000, 0x100);
    lemma_breakdown(n, 0x1000000000000, 0x100);
    lemma_breakdown(n, 0x100000000000000, 0x100);
    lemma_small_mod(n as nat, 0x10000000000000000);
}

// ---------------------------------------------------------------------------
// Unsigned integers
// ---------------------------------------------------------------------------
pub open spec fn spec_enc_u64(v: u64) -> Seq<u8> {
    let n = v as int;
    if n < 0x80 {
        seq![v as u8]
    } else if n < 0x100 {
        seq![0xccu8, v as u8]
    } else if n < 0x10000 {
        seq![0xcdu8] + be16(n)
    } else if n < 0x100000000 {
        seq![0xceu8] + be32(n)
    } else {
        seq![0xcfu8] + be64(n)
    }
}

/// Decodes an unsigned integer at the head of `b`: the value and the number
/// of bytes consumed.
pub open spec fn spec_dec_u64(b: Seq<u8>) -> Option<(u64, int)> {
    if b.len() < 1 {
        None
    } else {
        let t = b[0];
        if t < 0x80 {
            Some((t as u64, 1))
        } else if t == 0xcc {
            if b.len() >= 2 {
                Some((b[1] as u64, 2))
            } else {
                None
            }
        } else if t == 0xcd {
            if b.len() >= 3 {
                Some((from_be16(b.subrange(1, 3)) as u64, 3))
            } else {
                None
            }
        } else if t == 0xce {
            if b.len() >= 5 {
                Some((from_be32(b.subrange(1, 5)) as u64, 5))
            } else {
                None
            }
        } else if t == 0xcf {
            if b.len() >= 9 {
                Some((from_be64(b.subrange(1, 9)) as u64, 9))
            } else {
                None
            }
        } else {
            None
        }
    }
}

pub proof fn lemma_dec_enc_u64(v: u64, rest: Seq<u8>)
    ensures
        spec_dec_u64(spec_enc_u64(v) + rest) == Some((v, spec_enc_u64(v).len() as int)),
{
    let n = v as int;
    let b = spec_enc_u64(v) + rest;
    if n < 0x80 {
    } else if n < 0x100 {
    } else if n < 0x10000 {
        assert(b.subrange(1, 3) =~= be16(n));
        lemma_be16_roundtrip(n);
    } else if n < 0x100000000 {
        assert(b.subrange(1, 5) =~= be32(n));
        lemma_be32_roundtrip(n);
    } else {
        assert(b.subrange(1, 9) =~= be64(n));
        lemma_be64_roundtrip(n);
    }
}

pub fn enc_u64(out: &mut Vec<u8>, v: u64)
    ensures
        final(out)@ == old(out)@ + spec_enc_u64(v),
{
    if v < 0x80 {
        out.push(v as u8);
        assert(out@ =~= old(out)@ + spec_enc_u64(v));
    } else if v < 0x100 {
        out.push(0xcc);
        out.push(v as u8);
        assert(out@ =~= old(out)@ + spec_enc_u64(v));
    } else if v < 0x10000 {
        out.push(0xcd);
        out.push((v / 0x100) as u8);
        out.push((v % 0x100) as u8);
        assert(out@ =~= old(out)@ + spec_enc_u64(v));
    } else if v < 0x100000000 {
        out.push(0xce);
        out.push((v / 0x1000000 % 0x100) as u8);
        out.push((v / 0x10000 % 0x100) as u8);
        out.push((v / 0x100 % 0x100) as u8);
        out.push((v % 0x100) as u8);
        assert(out@ =~= old(out)@ + spec_enc_u64(v));
    } else {
        out.push(0xcf);
        out.push((v / 0x100000000000000 % 0x100) as u8);
        out.push((v / 0x1000000000000 % 0x100) as u8);
        out.push((v / 0x10000000000 % 0x100) as u8);
        out.push((v / 0x100000000 % 0x100) as u8);
        out.push((v / 0x1000000 % 0x100) as u8);
        out.push((v / 0x10000 % 0x100) as u8);
        out.push((v / 0x100 % 0x100) as u8);
        out.push((v % 0x100) as u8);
        assert(out@ =~= old(out)@ + spec_enc_u64(v));
    }
}

pub fn dec_u64(buf: &Vec<u8>, pos: usize) -> (r: Option<(u64, usize)>)
    requires
        pos <= buf@.len(),
    ensures
        r is Some <==> spec_dec_u64(buf@.skip(pos as int)) is Some,
        r matches Some((v, np)) ==> pos < np <= buf@.len() && spec_dec_u64(
            buf@.skip(pos as int),
        ) == Some((v, np - pos)),
{
    let ghost s = buf@.skip(pos as int);
    if pos >= buf.len() {
        return None;
    }
    let t: u8 = buf[pos];
    assert(s[0] == t);
    if t < 0x80 {
        Some((t as u64, pos + 1))
    } else if t == 0xcc {
        if buf.len() - pos >= 2 {
            assert(s[1] == buf@[pos + 1]);
            Some((buf[pos + 1] as u64, pos + 2))
        } else {
            None
        }
    } else if t == 0xcd {
        if buf.len() - pos >= 3 {
            let v: u64 = buf[pos + 1] as u64 * 0x100 + buf[pos + 2] as u64;
            assert(s.subrange(1, 3) =~= seq![buf@[pos + 1], buf@[pos + 2]]);
            Some((v, pos + 3))
        } else {
            None
        }
    } else if t == 0xce {
        if buf.len() - pos >= 5 {
            let v: u64 = buf[pos + 1] as u64 * 0x1000000 + buf[pos + 2] as u64 * 0x10000 + buf[pos
                + 3] as u64 * 0x100 + buf[pos + 4] as u64;
            assert(s.subrange(1, 5) =~= seq![
                buf@[pos + 1],
                buf@[pos + 2],
                buf@[pos + 3],
                buf@[pos + 4],
            ]);
            Some((v, pos + 5))
        } else {
            None
        }
    } else if t == 0xcf {
        if buf.len() - pos >= 9 {
            let hi: u64 = buf[pos + 1] as u64 * 0x1000000 + buf[pos + 2] as u64 * 0x10000 + buf[pos
                + 3] as u64 * 0x100 + buf[pos + 4] as u64;
            let lo: u64 = buf[pos + 5] as u64 * 0x1000000 + buf[pos + 6] as u64 * 0x10000 + buf[pos
                + 7] as u64 * 0x100 + buf[pos + 8] as u64;
            let v: u64 = hi * 0x100000000 + lo;
            assert(s.subrange(1, 9) =~= seq![
                buf@[pos + 1],
                buf@[pos + 2],
                buf@[pos + 3],
                buf@[pos + 4],
                buf@[pos + 5],
                buf@[pos + 6],
                buf@[pos + 7],
                buf@[pos + 8],
            ]);
            assert(hi * 0x100000000 + lo == from_be64(s.subrange(1, 9))) by (nonlinear_arith)
                requires
                    hi == s.subrange(1, 9)[0] * 0x1000000 + s.subrange(1, 9)[1] * 0x10000
                        + s.subrange(1, 9)[2] * 0x100 + s.subrange(1, 9)[3],
                    lo == s.subrange(1, 9)[4] * 0x1000000 + s.subrange(1, 9)[5] * 0x10000
                        + s.subrange(1, 9)[6] * 0x100 + s.subrange(1, 9)[7];
            Some((v, pos + 9))
        } else {
            None
        }
    } else {
        None
    }
}



// ---------------------------------------------------------------------------
// Signed integers
// ---------------------------------------------------------------------------
pub open spec fn spec_enc_i64(v: i64) -> Seq<u8> {
    let n = v as int;
    if n >= 0 {
        spec_enc_u64(v as u64)
    } else if n >= -32 {
        seq![(n + 0x100) as u8]
    } else if n >= -0x80 {
        seq![0xd0u8, (n + 0x100) as u8]
    } else if n >= -0x8000 {
        seq![0xd1u8] + be16(n + 0x10000)
    } else if n >= -0x80000000 {
        seq![0xd2u8] + be32(n + 0x100000000)
    } else {
        seq![0xd3u8] + be64(n + 0x10000000000000000)
    }
}

/// Decodes a signed integer at the head of `b`. Unsigned formats are accepted
/// as long as the value fits.
pub open spec fn spec_dec_i64(b: Seq<u8>) -> Option<(i64, int)> {
    if b.len() < 1 {
        None
    } else {
        let t = b[0];
        if t < 0x80 {
            Some((t as i64, 1))
        } else if t >= 0xe0 {
            Some(((t - 0x100) as i64, 1))
        } else if t == 0xcc {
            if b.len() >= 2 {
                Some((b[1] as i64, 2))
            } else {
                None
            }
        } else if t == 0xcd {
            if b.len() >= 3 {
                Some((from_be16(b.subrange(1, 3)) as i64, 3))
            } else {
                None
            }
        } else if t == 0xce {
            if b.len() >= 5 {
                Some((from_be32(b.subrange(1, 5)) as i64, 5))
            } else {
                None
            }
        } else if t == 0xcf {
            if b.len() >= 9 && from_be64(b.subrange(1, 9)) <= i64::MAX {
                Some((from_be64(b.subrange(1, 9)) as i64, 9))
            } else {
                None
            }
        } else if t == 0xd0 {
            if b.len() >= 2 {
                let n = b[1] as int;
                Some(((if n >= 0x80 { n - 0x100 } else { n }) as i64, 2))
            } else {
                None
            }
        } else if t == 0xd1 {
            if b.len() >= 3 {
                let n = from_be16(b.subrange(1, 3));
                Some(((if n >= 0x8000 { n - 0x10000 } else { n }) as i64, 3))
            } else {
                None
            }
        } else if t == 0xd2 {
            if b.len() >= 5 {
                let n = from_be32(b.subrange(1, 5));
                Some(((if n >= 0x80000000 { n - 0x100000000 } else { n }) as i64, 5))
            } else {
                None
            }
        } else if t == 0xd3 {
            if b.len() >= 9 {
                let n = from_be64(b.subrange(1, 9));
                Some(((if n >= 0x8000000000000000 { n - 0x10000000000000000 } else { n }) as i64, 9))
            } else {
                None
            }
        } else {
            None
        }
    }
}

pub proof fn lemma_dec_enc_i64(v: i64, rest: Seq<u8>)
    ensures
        spec_dec_i64(spec_enc_i64(v) + rest) == Some((v, spec_enc_i64(v).len() as int)),
{
    let n = v as int;
    let b = spec_enc_i64(v) + rest;
    if n >= 0 {
        let m = v as u64 as int;
        if m < 0x80 {
        } else if m < 0x100 {
        } else if m < 0x10000 {
            assert(b.subrange(1, 3) =~= be16(m));
            lemma_be16_roundtrip(m);
        } else if m < 0x100000000 {
            assert(b.subrange(1, 5) =~= be32(m));
            lemma_be32_roundtrip(m);
        } else {
            assert(b.subrange(1, 9) =~= be64(m));
            lemma_be64_roundtrip(m);
        }
    } else if n >= -32 {
    } else if n >= -0x80 {
    } else if n >= -0x8000 {
        assert(b.subrange(1, 3) =~= be16(n + 0x10000));
        lemma_be16_roundtrip(n + 0x10000);
    } else if n >= -0x80000000 {
        assert(b.subrange(1, 5) =~= be32(n + 0x100000000));
        lemma_be32_roundtrip(n + 0x100000000);
    } else {
        assert(b.subrange(1, 9) =~= be64(n + 0x10000000000000000));
        lemma_be64_roundtrip(n + 0x10000000000000000);
    }
}

fn enc_be16(out: &mut Vec<u8>, n: u64)
    requires
        n < 0x10000,
    ensures
        final(out)@ == old(out)@ + be16(n as int),
{
    out.push((n / 0x100) as u8);
    out.push((n % 0x100) as u8);
    assert(out@ =~= old(out)@ + be16(n as int));
}

fn enc_be32(out: &mut Vec<u8>, n: u64)
    requires
        n < 0x100000000,
    ensures
        final(out)@ == old(out)@ + be32(n as int),
{
    out.push((n / 0x1000000 % 0x100) as u8);
    out.push((n / 0x10000 % 0x100) as u8);
    out.push((n / 0x100 % 0x100) as u8);
    out.push((n % 0x100) as u8);
    assert(out@ =~= old(out)@ + be32(n as int));
}

fn enc_be64(out: &mut Vec<u8>, n: u64)
    ensures
        final(out)@ == old(out)@ + be64(n as int),
{
    out.push((n / 0x100000000000000 % 0x100) as u8);
    out.push((n / 0x1000000000000 % 0x100) as u8);
    out.push((n / 0x10000000000 % 0x100) as u8);
    out.push((n / 0x100000000 % 0x100) as u8);
    out.push((n / 0x1000000 % 0x100) as u8);
    out.push((n / 0x10000 % 0x100) as u8);
    out.push((n / 0x100 % 0x100) as u8);
    out.push((n % 0x100) as u8);
    assert(out@ =~= old(out)@ + be64(n as int));
}

#[verifier::rlimit(100)]
pub fn enc_i64(out: &mut Vec<u8>, v: i64)
    ensures
        final(out)@ == old(out)@ + spec_enc_i64(v),
{
    if v >= 0 {
        enc_u64(out, v as u64);
    } else if v >= -32 {
        out.push((v + 0x100) as u8);
        assert(out@ =~= old(out)@ + spec_enc_i64(v));
    } else if v >= -0x80 {
        out.push(0xd0);
        out.push((v + 0x100) as u8);
        assert(out@ =~= old(out)@ + spec_enc_i64(v));
    } else if v >= -0x8000 {
        out.push(0xd1);
        enc_be16(out, (v + 0x10000) as u64);
        assert(out@ =~= old(out)@ + spec_enc_i64(v));
    } else if v >= -0x80000000 {
        out.push(0xd2);
        enc_be32(out, (v + 0x100000000) as u64);
        assert(out@ =~= old(out)@ + spec_enc_i64(v));
    } else {
        out.push(0xd3);
        let neg: u64 = (-(v + 1)) as u64;
        let w: u64 = u64::MAX - neg;
        assert(w as int == v as int + 0x10000000000000000);
        enc_be64(out, w);
        assert(out@ =~= old(out)@ + spec_enc_i64(v));
    }
}

#[verifier::rlimit(100)]
#[verifier::spinoff_prover]
pub fn dec_i64(buf: &Vec<u8>, pos: usize) -> (r: Option<(i64, usize)>)
    requires
        pos <= buf@.len(),
    ensures
        r is Some <==> spec_dec_i64(buf@.skip(pos as int)) is Some,
        r matches Some((v, np)) ==> pos < np <= buf@.len() && spec_dec_i64(
            buf@.skip(pos as int),
        ) == Some((v, np - pos)),
{
    let ghost s = buf@.skip(pos as int);
    if pos >= buf.len() {
        return None;
    }
    let t: u8 = buf[pos];
    assert(s[0] == t);
    if t < 0x80 {
        Some((t as i64, pos + 1))
    } else if t >= 0xe0 {
        Some((t as i64 - 0x100, pos + 1))
    } else if t == 0xcc {
        if buf.len() - pos >= 2 {
            assert(s[1] == buf@[pos + 1]);
            Some((buf[pos + 1] as i64, pos + 2))
        } else {
            None
        }
    } else if t == 0xcd {
        if buf.len() - pos >= 3 {
            let v: i64 = buf[pos + 1] as i64 * 0x100 + buf[pos + 2] as i64;
            assert(s.subrange(1, 3) =~= seq![buf@[pos + 1], buf@[pos + 2]]);
            Some((v, pos + 3))
        } else {
            None
        }
    } else if t == 0xce {
        if buf.len() - pos >= 5 {
            let v: i64 = buf[pos + 1] as i64 * 0x1000000 + buf[pos + 2] as i64 * 0x10000 + buf[pos
                + 3] as i64 * 0x100 + buf[pos + 4] as i64;
            assert(s.subrange(1, 5) =~= seq![
                buf@[pos + 1],
                buf@[pos + 2],
                buf@[pos + 3],
                buf@[pos + 4],
            ]);
            Some((v, pos + 5))
        } else {
            None
        }
    } else if t == 0xcf {
        if buf.len() - pos >= 9 {
            let hi: u64 = buf[pos + 1] as u64 * 0x1000000 + buf[pos + 2] as u64 * 0x10000 + buf[pos
                + 3] as u64 * 0x100 + buf[pos + 4] as u64;
            let lo: u64 = buf[pos + 5] as u64 * 0x1000000 + buf[pos + 6] as u64 * 0x10000 + buf[pos
                + 7] as u64 * 0x100 + buf[pos + 8] as u64;
            let v: u64 = hi * 0x100000000 + lo;
            assert(s.subrange(1, 9) =~= seq![
                buf@[pos + 1],
                buf@[pos + 2],
                buf@[pos + 3],
                buf@[pos + 4],
                buf@[pos + 5],
                buf@[pos + 6],
                buf@[pos + 7],
                buf@[pos + 8],
            ]);
            assert(hi * 0x100000000 + lo == from_be64(s.subrange(1, 9))) by (nonlinear_arith)
                requires
                    hi == s.subrange(1, 9)[0] * 0x1000000 + s.subrange(1, 9)[1] * 0x10000
                        + s.subrange(1, 9)[2] * 0x100 + s.subrange(1, 9)[3],
                    lo == s.subrange(1, 9)[4] * 0x1000000 + s.subrange(1, 9)[5] * 0x10000
                        + s.subrange(1, 9)[6] * 0x100 + s.subrange(1, 9)[7];
            if v <= i64::MAX as u64 {
                Some((v as i64, pos + 9))
            } else {
                None
            }
        } else {
            None
        }
    } else if t == 0xd0 {
        if buf.len() - pos >= 2 {
            assert(s[1] == buf@[pos + 1]);
            let n: u8 = buf[pos + 1];
            let v: i64 = if n >= 0x80 {
                n as i64 - 0x100
            } else {
                n as i64
            };
            Some((v, pos + 2))
        } else {
            None
        }
    } else if t == 0xd1 {
        if buf.len() - pos >= 3 {
            let n: u64 = buf[pos + 1] as u64 * 0x100 + buf[pos + 2] as u64;
            assert(s.subrange(1, 3) =~= seq![buf@[pos + 1], buf@[pos + 2]]);
            let v: i64 = if n >= 0x8000 {
                n as i64 - 0x10000
            } else {
                n as i64
            };
            Some((v, pos + 3))
        } else {
            None
        }
    } else if t == 0xd2 {
        if buf.len() - pos >= 5 {
            let n: u64 = buf[pos + 1] as u64 * 0x1000000 + buf[pos + 2] as u64 * 0x10000 + buf[pos
                + 3] as u64 * 0x100 + buf[pos + 4] as u64;
            assert(s.subrange(1, 5) =~= seq![
                buf@[pos + 1],
                buf@[pos + 2],
                buf@[pos + 3],
                buf@[pos + 4],
            ]);
            let v: i64 = if n >= 0x80000000 {
                n as i64 - 0x100000000
            } else {
                n as i64
            };
            Some((v, pos + 5))
        } else {
            None
        }
    } else if t == 0xd3 {
        if buf.len() - pos >= 9 {
            let hi: u64 = buf[pos + 1] as u64 * 0x1000000 + buf[pos + 2] as u64 * 0x10000 + buf[pos
                + 3] as u64 * 0x100 + buf[pos + 4] as u64;
            let lo: u64 = buf[pos + 5] as u64 * 0x1000000 + buf[pos + 6] as u64 * 0x10000 + buf[pos
                + 7] as u64 * 0x100 + buf[pos + 8] as u64;
            let n: u64 = hi * 0x100000000 + lo;
            assert(s.subrange(1, 9) =~= seq![
                buf@[pos + 1],
                buf@[pos + 2],
                buf@[pos + 3],
                buf@[pos + 4],
                buf@[pos + 5],
                buf@[pos + 6],
                buf@[pos + 7],
                buf@[pos + 8],
            ]);
            assert(hi * 0x100000000 + lo == from_be64(s.subrange(1, 9))) by (nonlinear_arith)
                requires
                    hi == s.subrange(1, 9)[0] * 0x1000000 + s.subrange(1, 9)[1] * 0x10000
                        + s.subrange(1, 9)[2] * 0x100 + s.subrange(1, 9)[3],
                    lo == s.subrange(1, 9)[4] * 0x1000000 + s.subrange(1, 9)[5] * 0x10000
                        + s.subrange(1, 9)[6] * 0x100 + s.subrange(1, 9)[7];
            let v: i64 = if n >= 0x8000000000000000 {
                ((n - 0x8000000000000000) as i64) + i64::MIN
            } else {
                n as i64
            };
            assert(v as int == (if n as int >= 0x8000000000000000 { n as int - 0x10000000000000000 } else { n as int }));
            Some((v, pos + 9))
        } else {
            None
        }
    } else {
        None
    }
}


// ---------------------------------------------------------------------------
// Strings and byte arrays
// ---------------------------------------------------------------------------
/// Header-plus-payload encoding of a string given as its UTF-8 bytes.
pub open spec fn spec_enc_strbytes(b: Seq<u8>) -> Seq<u8> {
    if b.len() < 32 {
        seq![(0xa0 + b.len()) as u8] + b
    } else if b.len() < 0x100 {
        seq![0xd9u8, b.len() as u8] + b
    } else if b.len() < 0x10000 {
        seq![0xdau8] + be16(b.len() as int) + b
    } else {
        seq![0xdbu8] + be32(b.len() as int) + b
    }
}

pub open spec fn spec_enc_str(s: Seq<char>) -> Seq<u8> {
    spec_enc_strbytes(encode_utf8(s))
}

/// Whether a string fits the wire format (its UTF-8 form is below 2^32 bytes).
pub open spec fn str_encodable(s: Seq<char>) -> bool {
    encode_utf8(s).len() < 0x100000000
}

/// Decodes a string at the head of `b`: the characters and the bytes consumed.
pub open spec fn spec_dec_str(b: Seq<u8>) -> Option<(Seq<char>, int)> {
    if b.len() < 1 {
        None
    } else {
        let t = b[0];
        let header = if 0xa0 <= t < 0xc0 {
            Some((1int, (t - 0xa0) as int))
        } else if t == 0xd9 {
            if b.len() >= 2 {
                Some((2int, b[1] as int))
            } else {
                None
            }
        } else if t == 0xda {
            if b.len() >= 3 {
                Some((3int, from_be16(b.subrange(1, 3))))
            } else {
                None
            }
        } else if t == 0xdb {
            if b.len() >= 5 {
                Some((5int, from_be32(b.subrange(1, 5))))
            } else {
                None
            }
        } else {
            None
        };
        match header {
            Option::None => None,
            Option::Some((h, l)) => if b.len() >= h + l {
                let bytes = b.subrange(h, h + l);
                if valid_utf8(bytes) {
                    Some((decode_utf8(bytes), h + l))
                } else {
                    None
                }
            } else {
                None
            },
        }
    }
}

pub proof fn lemma_dec_enc_str(t: Seq<char>, rest: Seq<u8>)
    requires
        str_encodable(t),
    ensures
        spec_dec_str(spec_enc_str(t) + rest) == Some((t, spec_enc_str(t).len() as int)),
{
    vstd::utf8::encode_utf8_valid_utf8(t);
    vstd::utf8::encode_utf8_decode_utf8(t);
    let e = encode_utf8(t);
    let b = spec_enc_str(t) + rest;
    if e.len() < 32 {
        assert(b.subrange(1, 1 + e.len() as int) =~= e);
    } else if e.len() < 0x100 {
        assert(b.subrange(2, 2 + e.len() as int) =~= e);
    } else if e.len() < 0x10000 {
        assert(b.subrange(1, 3) =~= be16(e.len() as int));
        lemma_be16_roundtrip(e.len() as int);
        assert(b.subrange(3, 3 + e.len() as int) =~= e);
    } else {
        assert(b.subrange(1, 5) =~= be32(e.len() as int));
        lemma_be32_roundtrip(e.len() as int);
        assert(b.subrange(5, 5 + e.len() as int) =~= e);
    }
}

pub fn enc_str(out: &mut Vec<u8>, s: &str)
    requires
        str_encodable(s@),
    ensures
        final(out)@ == old(out)@ + spec_enc_str(s@),
{
    let bytes: &[u8] = s.as_bytes();
    let len: usize = bytes.len();
    if len < 32 {
        out.push(0xa0 + len as u8);
    } else if len < 0x100 {
        out.push(0xd9);
        out.push(len as u8);
    } else if len < 0x10000 {
        out.push(0xda);
        enc_be16(out, len as u64);
    } else {
        out.push(0xdb);
        enc_be32(out, len as u64);
    }
    out.extend_from_slice(bytes);
    assert(out@ =~= old(out)@ + spec_enc_str(s@));
}

/// Header-plus-payload encoding of a raw byte array.
pub open spec fn spec_enc_bin(b: Seq<u8>) -> Seq<u8> {
    if b.len() < 0x100 {
        seq![0xc4u8, b.len() as u8] + b
    } else if b.len() < 0x10000 {
        seq![0xc5u8] + be16(b.len() as int) + b
    } else {
        seq![0xc6u8] + be32(b.len() as int) + b
    }
}

/// Whether a byte array fits the wire format (below 2^32 bytes).
pub open spec fn bin_encodable(b: Seq<u8>) -> bool {
    b.len() < 0x100000000
}

/// Decodes a byte array at the head of `b`: the bytes and the bytes consumed.
pub open spec fn spec_dec_bin(b: Seq<u8>) -> Option<(Seq<u8>, int)> {
    if b.len() < 1 {
        None
    } else {
        let t = b[0];
        let header = if t == 0xc4 {
            if b.len() >= 2 {
                Some((2int, b[1] as int))
            } else {
                None
            }
        } else if t == 0xc5 {
            if b.len() >= 3 {
                Some((3int, from_be16(b.subrange(1, 3))))
            } else {
                None
            }
        } else if t == 0xc6 {
            if b.len() >= 5 {
                Some((5int, from_be32(b.subrange(1, 5))))
            } else {
                None
            }
        } else {
            None
        };
        match header {
            Option::None => None,
            Option::Some((h, l)) => if b.len() >= h + l {
                Some((b.subrange(h, h + l), h + l))
            } else {
                None
            },
        }
    }
}

pub proof fn lemma_dec_enc_bin(v: Seq<u8>, rest: Seq<u8>)
    requires
        bin_encodable(v),
    ensures
        spec_dec_bin(spec_enc_bin(v) + rest) == Some((v, spec_enc_bin(v).len() as int)),
{
    let b = spec_enc_bin(v) + rest;
    if v.len() < 0x100 {
        assert(b.subrange(2, 2 + v.len() as int) =~= v);
    } else if v.len() < 0x10000 {
        assert(b.subrange(1, 3) =~= be16(v.len() as int));
        lemma_be16_roundtrip(v.len() as int);
        assert(b.subrange(3, 3 + v.len() as int) =~= v);
    } else {
        assert(b.subrange(1, 5) =~= be32(v.len() as int));
        lemma_be32_roundtrip(v.len() as int);
        assert(b.subrange(5, 5 + v.len() as int) =~= v);
    }
}

pub fn enc_bin(out: &mut Vec<u8>, v: &Vec<u8>)
    requires
        bin_encodable(v@),
    ensures
        final(out)@ == old(out)@ + spec_enc_bin(v@),
{
    let len: usize = v.len();
    if len < 0x100 {
        out.push(0xc4);
        out.push(len as u8);
    } else if len < 0x10000 {
        out.push(0xc5);
        enc_be16(out, len as u64);
    } else {
        out.push(0xc6);
        enc_be32(out, len as u64);
    }
    out.extend_from_slice(v.as_slice());
    assert(out@ =~= old(out)@ + spec_enc_bin(v@));
}

// ---------------------------------------------------------------------------
// Array headers
// ---------------------------------------------------------------------------
pub open spec fn spec_enc_arr(n: int) -> Seq<u8> {
    if n < 16 {
        seq![(0x90 + n) as u8]
    } else if n < 0x10000 {
        seq![0xdcu8] + be16(n)
    } else {
        seq![0xddu8] + be32(n)
    }
}

/// Decodes an array header at the head of `b`: the element count and the
/// bytes consumed.
pub open spec fn spec_dec_arr(b: Seq<u8>) -> Option<(int, int)> {
    if b.len() < 1 {
        None
    } else {
        let t = b[0];
        if 0x90 <= t < 0xa0 {
            Some(((t - 0x90) as int, 1))
        } else if t == 0xdc {
            if b.len() >= 3 {
                Some((from_be16(b.subrange(1, 3)), 3))
            } else {
                None
            }
        } else if t == 0xdd {
            if b.len() >= 5 {
                Some((from_be32(b.subrange(1, 5)), 5))
            } else {
                None
            }
        } else {
            None
        }
    }
}

pub proof fn lemma_dec_enc_arr(n: int, rest: Seq<u8>)
    requires
        0 <= n < 0x100000000,
    ensures
        spec_dec_arr(spec_enc_arr(n) + rest) == Some((n, spec_enc_arr(n).len() as int)),
{
    let b = spec_enc_arr(n) + rest;
    if n < 16 {
    } else if n < 0x10000 {
        assert(b.subrange(1, 3) =~= be16(n));
        lemma_be16_roundtrip(n);
    } else {
        assert(b.subrange(1, 5) =~= be32(n));
        lemma_be32_roundtrip(n);
    }
}

pub fn enc_arr(out: &mut Vec<u8>, n: usize)
    requires
        n < 0x100000000,
    ensures
        final(out)@ == old(out)@ + spec_enc_arr(n as int),
{
    if n < 16 {
        out.push(0x90 + n as u8);
        assert(out@ =~= old(out)@ + spec_enc_arr(n as int));
    } else if n < 0x10000 {
        out.push(0xdc);
        enc_be16(out, n as u64);
        assert(out@ =~= old(out)@ + spec_enc_arr(n as int));
    } else {
        out.push(0xdd);
        enc_be32(out, n as u64);
        assert(out@ =~= old(out)@ + spec_enc_arr(n as int));
    }
}

pub fn dec_arr(buf: &Vec<u8>, pos: usize) -> (r: Option<(usize, usize)>)
    requires
        pos <= buf@.len(),
    ensures
        r is Some <==> spec_dec_arr(buf@.skip(pos as int)) is Some,
        r matches Some((n, np)) ==> pos < np <= buf@.len() && spec_dec_arr(
            buf@.skip(pos as int),
        ) == Some((n as int, np - pos)),
{
    let ghost s = buf@.skip(pos as int);
    if pos >= buf.len() {
        return None;
    }
    let t: u8 = buf[pos];
    assert(s[0] == t);
    if 0x90 <= t && t < 0xa0 {
        Some(((t - 0x90) as usize, pos + 1))
    } else if t == 0xdc {
        if buf.len() - pos >= 3 {
            let n: u32 = buf[pos + 1] as u32 * 0x100 + buf[pos + 2] as u32;
            assert(s.subrange(1, 3) =~= seq![buf@[pos + 1], buf@[pos + 2]]);
            Some((n as usize, pos + 3))
        } else {
            None
        }
    } else if t == 0xdd {
        if buf.len() - pos >= 5 {
            let n: u32 = buf[pos + 1] as u32 * 0x1000000 + buf[pos + 2] as u32 * 0x10000 + buf[pos
                + 3] as u32 * 0x100 + buf[pos + 4] as u32;
            assert(s.subrange(1, 5) =~= seq![
                buf@[pos + 1],
                buf@[pos + 2],
                buf@[pos + 3],
                buf@[pos + 4],
            ]);
            Some((n as usize, pos + 5))
        } else {
            None
        }
    } else {
        None
    }
}

// ---------------------------------------------------------------------------
// Decoding strings and byte arrays from a buffer
// ---------------------------------------------------------------------------
/// Relies on String::from_utf8: it succeeds exactly on valid UTF-8 and yields
/// its decoding.
#[verifier::external_body]
pub(crate) fn string_from_utf8(v: Vec<u8>) -> (r: Option<String>)
    ensures
        r is Some <==> valid_utf8(v@),
        r matches Some(s) ==> s@ == decode_utf8(v@),
{
    String::from_utf8(v).ok()
}

/// Reads a string header at `pos`, returning payload length and header size.
fn dec_strhead(buf: &Vec<u8>, pos: usize) -> (r: Option<(usize, usize)>)
    requires
        pos <= buf@.len(),
    ensures
        ({
            let s = buf@.skip(pos as int);
            match r {
                Option::Some((l, h)) => {
                    &&& s.len() >= 1
                    &&& h == if s[0] == 0xd9 { 2int } else if s[0] == 0xda { 3int } else if s[0] == 0xdb { 5int } else { 1int }
                    &&& (0xa0 <= s[0] < 0xc0 ==> l == s[0] - 0xa0)
                    &&& (s[0] == 0xd9 ==> s.len() >= 2 && l == s[1])
                    &&& (s[0] == 0xda ==> s.len() >= 3 && l == from_be16(s.subrange(1, 3)))
                    &&& (s[0] == 0xdb ==> s.len() >= 5 && l == from_be32(s.subrange(1, 5)))
                    &&& (0xa0 <= s[0] < 0xc0 || s[0] == 0xd9 || s[0] == 0xda || s[0] == 0xdb)
                    &&& pos + h <= buf@.len()
                },
                Option::None => !({
                    &&& s.len() >= 1
                    &&& (0xa0 <= s[0] < 0xc0 || (s[0] == 0xd9 && s.len() >= 2) || (s[0] == 0xda
                        && s.len() >= 3) || (s[0] == 0xdb && s.len() >= 5))
                }),
            }
        }),
{
    let ghost s = buf@.skip(pos as int);
    if pos >= buf.len() {
        return None;
    }
    let t: u8 = buf[pos];
    assert(s[0] == t);
    if 0xa0 <= t && t < 0xc0 {
        Some(((t - 0xa0) as usize, 1))
    } else if t == 0xd9 {
        if buf.len() - pos >= 2 {
            assert(s[1] == buf@[pos + 1]);
            Some((buf[pos + 1] as usize, 2))
        } else {
            None
        }
    } else if t == 0xda {
        if buf.len() - pos >= 3 {
            let n: u32 = buf[pos + 1] as u32 * 0x100 + buf[pos + 2] as u32;
            assert(s.subrange(1, 3) =~= seq![buf@[pos + 1], buf@[pos + 2]]);
            Some((n as usize, 3))
        } else {
            None
        }
    } else if t == 0xdb {
        if buf.len() - pos >= 5 {
            let n: u32 = buf[pos + 1] as u32 * 0x1000000 + buf[pos + 2] as u32 * 0x10000 + buf[pos
                + 3] as u32 * 0x100 + buf[pos + 4] as u32;
            assert(s.subrange(1, 5) =~= seq![
                buf@[pos + 1],
                buf@[pos + 2],
                buf@[pos + 3],
                buf@[pos + 4],
            ]);
            Some((n as usize, 5))
        } else {
            None
        }
    } else {
        None
    }
}

pub fn dec_str(buf: &Vec<u8>, pos: usize) -> (r: Option<(String, usize)>)
    requires
        pos <= buf@.len(),
    ensures
        r is Some <==> spec_dec_str(buf@.skip(pos as int)) is Some,
        r matches Some((v, np)) ==> pos < np <= buf@.len() && spec_dec_str(
            buf@.skip(pos as int),
        ) == Some((v@, np - pos)),
{
    let ghost s = buf@.skip(pos as int);
    let head = dec_strhead(buf, pos);
    match head {
        Option::None => None,
        Option::Some((l, h)) => {
            if buf.len() - pos - h < l {
                return None;
            }
            let bytes: Vec<u8> = vstd::slice::slice_to_vec(
                vstd::slice::slice_subrange(buf.as_slice(), pos + h, pos + h + l),
            );
            assert(bytes@ =~= s.subrange(h as int, h as int + l as int));
            match string_from_utf8(bytes) {
                Option::Some(st) => Some((st, pos + h + l)),
                Option::None => None,
            }
        },
    }
}

pub fn dec_bin(buf: &Vec<u8>, pos: usize) -> (r: Option<(Vec<u8>, usize)>)
    requires
        pos <= buf@.len(),
    ensures
        r is Some <==> spec_dec_bin(buf@.skip(pos as int)) is Some,
        r matches Some((v, np)) ==> pos < np <= buf@.len() && spec_dec_bin(
            buf@.skip(pos as int),
        ) == Some((v@, np - pos)),
{
    let ghost s = buf@.skip(pos as int);
    if pos >= buf.len() {
        return None;
    }
    let t: u8 = buf[pos];
    assert(s[0] == t);
    let head: Option<(usize, usize)> = if t == 0xc4 {
        if buf.len() - pos >= 2 {
            assert(s[1] == buf@[pos + 1]);
            Some((buf[pos + 1] as usize, 2))
        } else {
            None
        }
    } else if t == 0xc5 {
        if buf.len() - pos >= 3 {
            let n: u32 = buf[pos + 1] as u32 * 0x100 + buf[pos + 2] as u32;
            assert(s.subrange(1, 3) =~= seq![buf@[pos + 1], buf@[pos + 2]]);
            Some((n as usize, 3))
        } else {
            None
        }
    } else if t == 0xc6 {
        if buf.len() - pos >= 5 {
            let n: u32 = buf[pos + 1] as u32 * 0x1000000 + buf[pos + 2] as u32 * 0x10000 + buf[pos
                + 3] as u32 * 0x100 + buf[pos + 4] as u32;
            assert(s.subrange(1, 5) =~= seq![
                buf@[pos + 1],
                buf@[pos + 2],
                buf@[pos + 3],
                buf@[pos + 4],
            ]);
            Some((n as usize, 5))
        } else {
            None
        }
    } else {
        None
    };
    match head {
        Option::None => None,
        Option::Some((l, h)) => {
            if buf.len() - pos - h < l {
                return None;
            }
            let bytes: Vec<u8> = vstd::slice::slice_to_vec(
                vstd::slice::slice_subrange(buf.as_slice(), pos + h, pos + h + l),
            );
            assert(bytes@ =~= s.subrange(h as int, h as int + l as int));
            Some((bytes, pos + h + l))
        },
    }
}

} // verus!
