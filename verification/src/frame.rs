//! The encrypted frame layer: each packet's bytes are sealed with
//! XChaCha20-Poly1305 and prefixed with the 4-byte big-endian length of the
//! ciphertext (authentication tag included).

use crate::crypto::{seal_of, xchacha_open, xchacha_seal};
use crate::msgpack::{be32, from_be32};
use crate::packets::{spec_cb_wf, spec_enc_cb, spec_enc_sb, spec_sb_wf, SpecClientboundPacket, SpecServerboundPacket};
use vstd::prelude::*;

verus! {

/// The wire frame that sealing `plain` under `key` and `nonce` produces.
pub open spec fn spec_frame(key: Seq<u8>, nonce: Seq<u8>, plain: Seq<u8>) -> Seq<u8> {
    be32(seal_of(key, nonce, plain).len() as int) + seal_of(key, nonce, plain)
}

/// Why a frame cannot be decrypted.
#[derive(Debug, PartialEq, Eq, Clone, Copy)]
pub enum FrameError {
    /// Fewer than four bytes: the length prefix is not yet complete.
    TooShort,
    /// The prefixed length exceeds the bytes at hand: wait for more input.
    NotFullFrame,
    /// The ciphertext does not authenticate under the key and nonce.
    BadTag,
}

/// Reads a big-endian 32-bit integer from the first four bytes.
pub fn read_be_u32(input: &[u8]) -> (r: u32)
    requires
        input@.len() >= 4,
    ensures
        r == from_be32(input@.subrange(0, 4)),
{
    let r: u32 = input[0] as u32 * 0x1000000 + input[1] as u32 * 0x10000 + input[2] as u32 * 0x100
        + input[3] as u32;
    assert(input@.subrange(0, 4) =~= seq![input@[0], input@[1], input@[2], input@[3]]);
    r
}

/// Seals a packet's bytes and prefixes the 4-byte big-endian ciphertext
/// length.
pub fn encrypt_frame(packet_bytes: &[u8], key: &[u8], nonce: &[u8]) -> (r: Vec<u8>)
    requires
        key@.len() == 32,
        nonce@.len() == 24,
        packet_bytes@.len() + 16 + 4 <= u32::MAX,
    ensures
        r@ == spec_frame(key@, nonce@, packet_bytes@),
        r@.len() == packet_bytes@.len() + 20,
{
    let sealed = xchacha_seal(key, nonce, packet_bytes);
    let n: u32 = sealed.len() as u32;
    let mut out: Vec<u8> = Vec::new();
    out.push((n / 0x1000000 % 0x100) as u8);
    out.push((n / 0x10000 % 0x100) as u8);
    out.push((n / 0x100 % 0x100) as u8);
    out.push((n % 0x100) as u8);
    out.extend_from_slice(sealed.as_slice());
    assert(out@ =~= be32(n as int) + sealed@);
    out
}

/// Opens the frame at the head of `buf`. On success, the plaintext and the
/// number of bytes consumed; otherwise, exactly why it failed. The error is
/// `TooShort` or `NotFullFrame` precisely when more input may still complete
/// the frame, and `BadTag` precisely when a complete frame does not
/// authenticate.
pub fn decrypt_frame(buf: &Vec<u8>, key: &[u8], nonce: &[u8]) -> (r: Result<
    (Vec<u8>, usize),
    FrameError,
>)
    requires
        key@.len() == 32,
        nonce@.len() == 24,
    ensures
        r == Err::<(Vec<u8>, usize), FrameError>(FrameError::TooShort) <==> buf@.len() < 4,
        buf@.len() >= 4 ==> (r == Err::<(Vec<u8>, usize), FrameError>(FrameError::NotFullFrame)
            <==> from_be32(buf@.subrange(0, 4)) > buf@.len() - 4),
        ({
            let n = from_be32(buf@.subrange(0, 4));
            let cipher = buf@.subrange(4, 4 + n);
            &&& (r matches Ok((p, c)) ==> buf@.len() >= 4 && n <= buf@.len() - 4 && c == 4 + n
                && cipher == seal_of(key@, nonce@, p@))
            &&& (buf@.len() >= 4 && n <= buf@.len() - 4 ==> (forall|q: Seq<u8>|
                cipher == seal_of(key@, nonce@, q) ==> (r matches Ok((p, c)) && p@ == q && c == 4
                    + n)))
            &&& (r == Err::<(Vec<u8>, usize), FrameError>(FrameError::BadTag) ==> buf@.len() >= 4
                && n <= buf@.len() - 4 && (forall|q: Seq<u8>| cipher != seal_of(key@, nonce@, q)))
        }),
{
    if buf.len() < 4 {
        return Err(FrameError::TooShort);
    }
    let n32 = read_be_u32(buf.as_slice());
    let n = n32 as usize;
    if n > buf.len() - 4 {
        return Err(FrameError::NotFullFrame);
    }
    let cipher: &[u8] = vstd::slice::slice_subrange(buf.as_slice(), 4, 4 + n);
    match xchacha_open(key, nonce, cipher) {
        Option::Some(p) => Ok((p, 4 + n)),
        Option::None => Err(FrameError::BadTag),
    }
}

/// Law: a frame built from an encoded serverbound packet carries exactly the
/// sealed encoding, its length prefix names that ciphertext's length, and the
/// encoding itself decodes back to the packet. Together with the seal and
/// open contracts this gives the full round trip through encryption.
pub proof fn lemma_frame_roundtrip_sb(p: SpecServerboundPacket, key: Seq<u8>, nonce: Seq<u8>)
    requires
        spec_sb_wf(p),
        seal_of(key, nonce, spec_enc_sb(p)).len() < 0x100000000,
    ensures
        ({
            let body = spec_enc_sb(p);
            let sealed = seal_of(key, nonce, body);
            let frame = spec_frame(key, nonce, body);
            &&& frame.len() == 4 + sealed.len()
            &&& from_be32(frame.subrange(0, 4)) == sealed.len()
            &&& frame.subrange(4, frame.len() as int) == sealed
            &&& crate::packets::spec_dec_sb(body) == Some((p, body.len() as int))
        }),
{
    let body = spec_enc_sb(p);
    let sealed = seal_of(key, nonce, body);
    let frame = spec_frame(key, nonce, body);
    assert(frame.subrange(0, 4) =~= be32(sealed.len() as int));
    crate::msgpack::lemma_be32_roundtrip(sealed.len() as int);
    assert(frame.subrange(4, frame.len() as int) =~= sealed);
    crate::packets::lemma_dec_enc_sb(p, Seq::empty());
    assert(body + Seq::<u8>::empty() =~= body);
}


/// The same law for clientbound packets.
pub proof fn lemma_frame_roundtrip_cb(p: SpecClientboundPacket, key: Seq<u8>, nonce: Seq<u8>)
    requires
        spec_cb_wf(p),
        seal_of(key, nonce, spec_enc_cb(p)).len() < 0x100000000,
    ensures
        ({
            let body = spec_enc_cb(p);
            let sealed = seal_of(key, nonce, body);
            let frame = spec_frame(key, nonce, body);
            &&& frame.len() == 4 + sealed.len()
            &&& from_be32(frame.subrange(0, 4)) == sealed.len()
            &&& frame.subrange(4, frame.len() as int) == sealed
            &&& crate::packets::spec_dec_cb(body) == Some((p, body.len() as int))
        }),
{
    let body = spec_enc_cb(p);
    let sealed = seal_of(key, nonce, body);
    let frame = spec_frame(key, nonce, body);
    assert(frame.subrange(0, 4) =~= be32(sealed.len() as int));
    crate::msgpack::lemma_be32_roundtrip(sealed.len() as int);
    assert(frame.subrange(4, frame.len() as int) =~= sealed);
    crate::packets::lemma_dec_enc_cb(p, Seq::empty());
    assert(body + Seq::<u8>::empty() =~= body);
}

} // verus!
