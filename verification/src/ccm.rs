//! CCM* authenticated encryption.
//!
//! Authenticated encryption and decryption of variable-length messages with
//! associated data, built from CBC-MAC authentication and CTR-mode masking
//! over the AES-128 block cipher, with the two-byte length field used by the
//! network and application-service security layers.

use vstd::prelude::*;

use crate::aes128::{cipher_block, RustAes128Encrypt, KEY_SIZE};

verus! {

/// Width of the length field in the CCM* block format.
pub const LENGTH_FIELD_LENGTH: usize = 2;

/// Length of a CCM* nonce in bytes.
pub const NONCE_LENGTH: usize = 13;

/// Failure of an authenticated decryption.
#[derive(Clone, Copy, Debug, PartialEq, Eq, Structural)]
pub enum SecurityError {
    /// The message integrity code did not match the received data.
    AuthenticationFailed,
}

/// The all-zero cipher block.
pub open spec fn zero_block() -> Seq<u8> {
    Seq::new(16, |i: int| 0u8)
}

/// Byte-wise XOR; the result follows the length of `a`.
pub open spec fn xor_bytes(a: Seq<u8>, b: Seq<u8>) -> Seq<u8> {
    Seq::new(a.len(), |i: int| a[i] ^ b[i])
}

/// The CCM* flag octet: bit 6 set iff associated data is present, bits 5..3
/// encoding the authentication-tag length, bits 2..0 the length-field width.
pub open spec fn flag_octet(a_length: int, big_m: int, big_l: int) -> u8 {
    let f1: u8 = if a_length > 0 {
        0x40
    } else {
        0
    };
    let f2: u8 = if big_m > 0 {
        f1 | ((((big_m - 2) / 2) as u8 & 0x07) << 3)
    } else {
        f1
    };
    f2 | (0x07 & ((big_l - 1) as u8))
}

/// Zero padding up to the next block boundary; a sequence already on a
/// boundary (the empty one included) is unchanged.
pub open spec fn pad16(s: Seq<u8>) -> Seq<u8> {
    if s.len() % 16 == 0 {
        s
    } else {
        s + Seq::new((16 - s.len() % 16) as nat, |i: int| 0u8)
    }
}

/// A 16-bit big-endian length field.
pub open spec fn be16(n: int) -> Seq<u8> {
    seq![((n / 256) % 256) as u8, (n % 256) as u8]
}

/// The CBC-MAC formatted input: the first block holds the flag octet, the
/// nonce and the message length; associated data, when present, follows with
/// a two-byte length prefix, zero-padded to a block boundary; the message
/// comes last, zero-padded likewise.
pub open spec fn auth_stream(nonce: Seq<u8>, message: Seq<u8>, aad: Seq<u8>, mic_len: int) -> Seq<
    u8,
> {
    let b0 = seq![flag_octet(aad.len() as int, mic_len, 2)] + nonce + be16(message.len() as int);
    let a = if aad.len() > 0 {
        pad16(be16(aad.len() as int) + aad)
    } else {
        Seq::empty()
    };
    b0 + a + pad16(message)
}

/// XOR-chained CBC-MAC over whole blocks, starting from accumulator `acc`.
pub open spec fn cbc_mac(key: Seq<u8>, acc: Seq<u8>, data: Seq<u8>) -> Seq<u8>
    decreases data.len(),
{
    if data.len() < 16 {
        acc
    } else {
        cbc_mac(key, cipher_block(key, xor_bytes(acc, data.take(16))), data.skip(16))
    }
}

/// The authentication tag (before masking and truncation) of a message.
pub open spec fn auth_tag(
    key: Seq<u8>,
    nonce: Seq<u8>,
    message: Seq<u8>,
    aad: Seq<u8>,
    mic_len: int,
) -> Seq<u8> {
    cbc_mac(key, zero_block(), auth_stream(nonce, message, aad, mic_len))
}

/// The counter block with index `i`: an encryption flag octet, the nonce and
/// the big-endian counter.
pub open spec fn counter_block(nonce: Seq<u8>, i: int) -> Seq<u8> {
    seq![flag_octet(0, 0, 2)] + nonce + be16(i)
}

/// The CTR keystream of `len` bytes, counters starting at `i`.
pub open spec fn keystream(key: Seq<u8>, nonce: Seq<u8>, i: int, len: int) -> Seq<u8>
    decreases len,
{
    if len <= 0 {
        Seq::empty()
    } else if len >= 16 {
        cipher_block(key, counter_block(nonce, i)) + keystream(key, nonce, i + 1, len - 16)
    } else {
        cipher_block(key, counter_block(nonce, i)).take(len)
    }
}

/// The mask applied to the authentication tag: the keystream block of
/// counter zero.
pub open spec fn mic_mask(key: Seq<u8>, nonce: Seq<u8>) -> Seq<u8> {
    cipher_block(key, counter_block(nonce, 0))
}

/// The ciphertext of a message: the message XOR-masked with the keystream
/// from counter one. The same masking maps a ciphertext back to its message.
pub open spec fn ctr_mask(key: Seq<u8>, nonce: Seq<u8>, data: Seq<u8>) -> Seq<u8> {
    xor_bytes(data, keystream(key, nonce, 1, data.len() as int))
}

/// The transmitted message integrity code: the truncated authentication tag,
/// masked with the keystream block of counter zero.
pub open spec fn ccm_mic(
    key: Seq<u8>,
    nonce: Seq<u8>,
    message: Seq<u8>,
    aad: Seq<u8>,
    mic_len: int,
) -> Seq<u8> {
    xor_bytes(auth_tag(key, nonce, message, aad, mic_len), mic_mask(key, nonce)).take(mic_len)
}

/// Whether a received ciphertext, integrity code and associated data
/// authenticate: the unmasked code must equal the tag recomputed over the
/// decrypted message.
pub open spec fn ccm_valid(
    key: Seq<u8>,
    nonce: Seq<u8>,
    encrypted: Seq<u8>,
    mic: Seq<u8>,
    aad: Seq<u8>,
) -> bool {
    let pt = ctr_mask(key, nonce, encrypted);
    xor_bytes(mic, mic_mask(key, nonce)) == auth_tag(key, nonce, pt, aad, mic.len() as int).take(
        mic.len() as int,
    )
}

/// The authentication-tag lengths that the CCM* flag octet can carry: zero
/// (authentication disabled) or an even width between 4 and 16.
pub open spec fn valid_mic_length(m: int) -> bool {
    m == 0 || (4 <= m <= 16 && m % 2 == 0)
}

/// The keystream holds exactly the requested number of bytes.
pub proof fn lemma_keystream_len(key: Seq<u8>, nonce: Seq<u8>, i: int, len: int)
    requires
        len >= 0,
    ensures
        keystream(key, nonce, i, len).len() == len,
    decreases len,
{
    if len >= 16 {
        lemma_keystream_len(key, nonce, i + 1, len - 16);
    }
}

/// The keystream splits at any block boundary.
pub proof fn lemma_keystream_split(key: Seq<u8>, nonce: Seq<u8>, i: int, len: int, b: int)
    requires
        0 <= b,
        16 * b <= len,
    ensures
        keystream(key, nonce, i, len) == keystream(key, nonce, i, 16 * b) + keystream(
            key,
            nonce,
            i + b,
            len - 16 * b,
        ),
    decreases b,
{
    if b == 0 {
        assert(keystream(key, nonce, i, 0) =~= Seq::<u8>::empty());
        assert(keystream(key, nonce, i, len) =~= keystream(key, nonce, i, 0) + keystream(
            key,
            nonce,
            i,
            len,
        ));
    } else {
        lemma_keystream_split(key, nonce, i + 1, len - 16, b - 1);
        assert(keystream(key, nonce, i, 16 * b) == cipher_block(key, counter_block(nonce, i))
            + keystream(key, nonce, i + 1, 16 * b - 16));
        assert(keystream(key, nonce, i, len) =~= keystream(key, nonce, i, 16 * b) + keystream(
            key,
            nonce,
            i + b,
            len - 16 * b,
        ));
    }
}

/// The CCM* flag octet, computed as the hardware-backed engine does.
pub fn make_flag(a_length: usize, big_m: usize, big_l: usize) -> (r: u8)
    requires
        1 <= big_l <= 8,
        big_m == 0 || big_m >= 2,
    ensures
        r == flag_octet(a_length as int, big_m as int, big_l as int),
{
    let mut flag: u8 = if a_length > 0 {
        0x40
    } else {
        0
    };
    flag = if big_m > 0 {
        flag | ((((big_m - 2) / 2) as u8) & 0x07) << 3
    } else {
        flag
    };
    flag |= 0x07 & ((big_l - 1) as u8);
    flag
}

/// Byte-wise XOR of a 16-byte block with the front of another sequence.
fn xor_block(a: &Vec<u8>, b: &Vec<u8>) -> (r: Vec<u8>)
    requires
        a@.len() == 16,
        b@.len() >= 16,
    ensures
        r@ == xor_bytes(a@, b@),
{
    let mut r: Vec<u8> = Vec::new();
    let mut i: usize = 0;
    while i < 16
        invariant
            i <= 16,
            a@.len() == 16,
            b@.len() >= 16,
            r@ == xor_bytes(a@, b@).take(i as int),
        decreases 16 - i,
    {
        r.push(a[i] ^ b[i]);
        proof {
            assert(r@ =~= xor_bytes(a@, b@).take(i + 1));
        }
        i += 1;
    }
    proof {
        assert(xor_bytes(a@, b@).take(16) =~= xor_bytes(a@, b@));
    }
    r
}

/// CBC-MAC of a whole-block stream under the given cipher, starting from the
/// zero accumulator.
fn cbc_mac_exec(cipher: &RustAes128Encrypt, data: &Vec<u8>) -> (r: Vec<u8>)
    requires
        data@.len() % 16 == 0,
    ensures
        r@ == cbc_mac(cipher.key_view(), zero_block(), data@),
        r@.len() == 16,
{
    let mut acc: Vec<u8> = Vec::new();
    let mut i: usize = 0;
    while i < 16
        invariant
            i <= 16,
            acc@ == zero_block().take(i as int),
        decreases 16 - i,
    {
        acc.push(0u8);
        proof {
            assert(acc@ =~= zero_block().take(i + 1));
        }
        i += 1;
    }
    proof {
        assert(zero_block().take(16) =~= zero_block());
        assert(data@.skip(0) =~= data@);
    }
    let mut pos: usize = 0;
    while pos < data.len()
        invariant
            pos <= data@.len(),
            pos % 16 == 0,
            data@.len() % 16 == 0,
            acc@.len() == 16,
            cbc_mac(cipher.key_view(), zero_block(), data@) == cbc_mac(
                cipher.key_view(),
                acc@,
                data@.skip(pos as int),
            ),
        decreases data@.len() - pos,
    {
        proof {
            assert(pos + 16 <= data@.len()) by {
                assert(data@.len() - pos == (data@.len() - pos as int) % 16 + 16 * (
                (data@.len() - pos as int) / 16));
                assert((data@.len() - pos as int) % 16 == 0) by {
                    assert(pos % 16 == 0 && data@.len() % 16 == 0);
                    assert((data@.len() - pos as int) % 16 == 0) by (nonlinear_arith)
                        requires
                            pos % 16 == 0 && data@.len() % 16 == 0,
                    ;
                }
            }
        }
        let dlen: usize = data.len();
        let mut chunk: Vec<u8> = Vec::new();
        let mut j: usize = 0;
        while j < 16
            invariant
                j <= 16,
                dlen == data@.len(),
                pos + 16 <= dlen,
                chunk@ == data@.subrange(pos as int, pos + j as int),
            decreases 16 - j,
        {
            chunk.push(data[pos + j]);
            proof {
                assert(chunk@ =~= data@.subrange(pos as int, pos + (j + 1) as int));
            }
            j += 1;
        }
        let x = xor_block(&acc, &chunk);
        let next = cipher.encrypt_block(x.as_slice());
        proof {
            assert(data@.skip(pos as int).take(16) =~= data@.subrange(pos as int, pos + 16));
            assert(data@.skip(pos as int).skip(16) =~= data@.skip(pos + 16));
            assert(xor_bytes(acc@, chunk@) =~= xor_bytes(acc@, data@.skip(pos as int).take(16)));
        }
        acc = next;
        pos += 16;
    }
    proof {
        assert(data@.skip(data@.len() as int) =~= Seq::<u8>::empty());
    }
    acc
}

/// The CTR keystream from counter one, long enough to mask `len` bytes.
fn keystream_exec(cipher: &RustAes128Encrypt, nonce: &[u8], len: usize) -> (r: Vec<u8>)
    requires
        nonce@.len() == NONCE_LENGTH,
        len <= 0xffff,
    ensures
        r@ == keystream(cipher.key_view(), nonce@, 1, len as int),
{
    let full_blocks: usize = len / 16;
    let rem: usize = len % 16;
    let mut ks: Vec<u8> = Vec::new();
    let mut i: usize = 0;
    while i < full_blocks
        invariant
            i <= full_blocks,
            full_blocks == len / 16,
            rem == len % 16,
            len <= 0xffff,
            nonce@.len() == 13,
            ks@ == keystream(cipher.key_view(), nonce@, 1, 16 * i as int),
        decreases full_blocks - i,
    {
        let cb = counter_block_exec(nonce, (i + 1) as u16);
        let b = cipher.encrypt_block(cb.as_slice());
        let mut j: usize = 0;
        while j < 16
            invariant
                j <= 16,
                b@.len() == 16,
                b@ == cipher_block(cipher.key_view(), counter_block(nonce@, i + 1)),
                ks@ == keystream(cipher.key_view(), nonce@, 1, 16 * i as int) + b@.take(j as int),
            decreases 16 - j,
        {
            ks.push(b[j]);
            proof {
                assert(ks@ =~= keystream(cipher.key_view(), nonce@, 1, 16 * i as int) + b@.take(
                    (j + 1) as int,
                ));
            }
            j += 1;
        }
        proof {
            let key = cipher.key_view();
            lemma_keystream_split(key, nonce@, 1, 16 * (i + 1) as int, i as int);
            assert(keystream(key, nonce@, 1 + i as int, 16) == cipher_block(
                key,
                counter_block(nonce@, 1 + i as int),
            ) + keystream(key, nonce@, 2 + i as int, 0));
            assert(b@.take(16) =~= b@);
            assert(keystream(key, nonce@, 1, 16 * (i + 1) as int) =~= keystream(
                key,
                nonce@,
                1,
                16 * i as int,
            ) + b@);
        }
        i += 1;
    }
    if rem > 0 {
        let cb = counter_block_exec(nonce, (full_blocks + 1) as u16);
        let b = cipher.encrypt_block(cb.as_slice());
        let mut j: usize = 0;
        while j < rem
            invariant
                j <= rem,
                rem < 16,
                b@.len() == 16,
                b@ == cipher_block(cipher.key_view(), counter_block(nonce@, full_blocks + 1)),
                ks@ == keystream(cipher.key_view(), nonce@, 1, 16 * full_blocks as int) + b@.take(
                    j as int,
                ),
            decreases rem - j,
        {
            ks.push(b[j]);
            proof {
                assert(ks@ =~= keystream(cipher.key_view(), nonce@, 1, 16 * full_blocks as int)
                    + b@.take((j + 1) as int));
            }
            j += 1;
        }
        proof {
            let key = cipher.key_view();
            lemma_keystream_split(key, nonce@, 1, len as int, full_blocks as int);
            assert(len - 16 * full_blocks == rem);
            assert(keystream(key, nonce@, 1 + full_blocks as int, rem as int) == cipher_block(
                key,
                counter_block(nonce@, 1 + full_blocks as int),
            ).take(rem as int));
            assert(ks@ =~= keystream(key, nonce@, 1, len as int));
        }
    } else {
        proof {
            lemma_keystream_split(cipher.key_view(), nonce@, 1, len as int, full_blocks as int);
            assert(keystream(cipher.key_view(), nonce@, 1 + full_blocks as int, 0)
                =~= Seq::<u8>::empty());
            assert(ks@ =~= keystream(cipher.key_view(), nonce@, 1, len as int));
        }
    }
    ks
}

/// The counter block with the given index.
fn counter_block_exec(nonce: &[u8], counter: u16) -> (r: Vec<u8>)
    requires
        nonce@.len() == NONCE_LENGTH,
    ensures
        r@ == counter_block(nonce@, counter as int),
        r@.len() == 16,
{
    let mut r: Vec<u8> = Vec::new();
    r.push(make_flag(0, 0, LENGTH_FIELD_LENGTH));
    let mut i: usize = 0;
    while i < 13
        invariant
            i <= 13,
            nonce@.len() == 13,
            r@ == seq![flag_octet(0, 0, 2)] + nonce@.take(i as int),
        decreases 13 - i,
    {
        r.push(nonce[i]);
        proof {
            assert(r@ =~= seq![flag_octet(0, 0, 2)] + nonce@.take(i + 1));
        }
        i += 1;
    }
    proof {
        assert(nonce@.take(13) =~= nonce@);
    }
    r.push((counter / 256) as u8);
    r.push((counter % 256) as u8);
    proof {
        assert((counter as int / 256) % 256 == counter as int / 256);
        assert(r@ =~= counter_block(nonce@, counter as int));
    }
    r
}

/// The CBC-MAC formatted authentication input of a message.
#[verifier::rlimit(100)]
fn build_auth_stream(nonce: &[u8], message: &[u8], aad: &[u8], mic_length: usize) -> (r: Vec<u8>)
    requires
        nonce@.len() == NONCE_LENGTH,
        message@.len() <= 0xffff,
        aad@.len() <= 0xffff,
        valid_mic_length(mic_length as int),
    ensures
        r@ == auth_stream(nonce@, message@, aad@, mic_length as int),
        r@.len() % 16 == 0,
{
    let ghost b0 = seq![flag_octet(aad@.len() as int, mic_length as int, 2)] + nonce@ + be16(
        message@.len() as int,
    );
    let mut buf: Vec<u8> = Vec::new();
    buf.push(make_flag(aad.len(), mic_length, LENGTH_FIELD_LENGTH));
    let mut i: usize = 0;
    while i < 13
        invariant
            i <= 13,
            nonce@.len() == 13,
            buf@ == seq![flag_octet(aad@.len() as int, mic_length as int, 2)] + nonce@.take(
                i as int,
            ),
        decreases 13 - i,
    {
        buf.push(nonce[i]);
        proof {
            assert(buf@ =~= seq![flag_octet(aad@.len() as int, mic_length as int, 2)]
                + nonce@.take(i + 1));
        }
        i += 1;
    }
    buf.push((message.len() / 256) as u8);
    buf.push((message.len() % 256) as u8);
    proof {
        assert(nonce@.take(13) =~= nonce@);
        assert((message@.len() as int / 256) % 256 == message@.len() as int / 256);
        assert(buf@ =~= b0);
        assert(buf@.len() == 16);
    }
    let ghost aseg = if aad@.len() > 0 {
        pad16(be16(aad@.len() as int) + aad@)
    } else {
        Seq::<u8>::empty()
    };
    if aad.len() > 0 {
        buf.push((aad.len() / 256) as u8);
        buf.push((aad.len() % 256) as u8);
        let ghost base = b0 + be16(aad@.len() as int);
        proof {
            assert((aad@.len() as int / 256) % 256 == aad@.len() as int / 256);
            assert(buf@ =~= base + aad@.take(0));
        }
        let mut j: usize = 0;
        while j < aad.len()
            invariant
                j <= aad@.len(),
                buf@ == base + aad@.take(j as int),
            decreases aad@.len() - j,
        {
            buf.push(aad[j]);
            proof {
                assert(buf@ =~= base + aad@.take(j + 1));
            }
            j += 1;
        }
        proof {
            assert(aad@.take(aad@.len() as int) =~= aad@);
        }
        let rem: usize = buf.len() % 16;
        if rem != 0 {
            let pad: usize = 16 - rem;
            let ghost before = buf@;
            let mut k: usize = 0;
            while k < pad
                invariant
                    k <= pad,
                    buf@ == before + Seq::new(k as nat, |q: int| 0u8),
                decreases pad - k,
            {
                buf.push(0u8);
                proof {
                    assert(buf@ =~= before + Seq::new((k + 1) as nat, |q: int| 0u8));
                }
                k += 1;
            }
        }
        proof {
            let seg = be16(aad@.len() as int) + aad@;
            assert((b0 + seg).len() % 16 == seg.len() % 16) by {
                assert(b0.len() == 16);
            }
            assert(buf@ =~= b0 + pad16(seg));
        }
    }
    proof {
        assert(buf@ =~= b0 + aseg);
        assert(aseg.len() % 16 == 0);
        assert(buf@.len() % 16 == 0);
    }
    let ghost mid = b0 + aseg;
    let mut j: usize = 0;
    while j < message.len()
        invariant
            j <= message@.len(),
            buf@ == mid + message@.take(j as int),
        decreases message@.len() - j,
    {
        buf.push(message[j]);
        proof {
            assert(buf@ =~= mid + message@.take(j + 1));
        }
        j += 1;
    }
    proof {
        assert(message@.take(message@.len() as int) =~= message@);
    }
    let rem: usize = buf.len() % 16;
    if rem != 0 {
        let pad: usize = 16 - rem;
        let ghost before = buf@;
        let mut k: usize = 0;
        while k < pad
            invariant
                k <= pad,
                buf@ == before + Seq::new(k as nat, |q: int| 0u8),
            decreases pad - k,
        {
            buf.push(0u8);
            proof {
                assert(buf@ =~= before + Seq::new((k + 1) as nat, |q: int| 0u8));
            }
            k += 1;
        }
    }
    proof {
        assert(mid.len() % 16 == 0);
        assert((mid + message@).len() % 16 == message@.len() % 16);
        assert(buf@ =~= mid + pad16(message@));
        assert(buf@ =~= auth_stream(nonce@, message@, aad@, mic_length as int));
    }
    buf
}

/// Authenticated encryption of a message: returns the ciphertext and the
/// message integrity code of the requested length.
pub fn ccmstar_encrypt(
    key: &[u8],
    nonce: &[u8],
    message: &[u8],
    mic_length: usize,
    aad: &[u8],
) -> (r: (Vec<u8>, Vec<u8>))
    requires
        key@.len() == KEY_SIZE,
        nonce@.len() == NONCE_LENGTH,
        message@.len() <= 0xffff,
        aad@.len() <= 0xffff,
        valid_mic_length(mic_length as int),
    ensures
        r.0@ == ctr_mask(key@, nonce@, message@),
        r.1@ == ccm_mic(key@, nonce@, message@, aad@, mic_length as int),
{
    let cipher = RustAes128Encrypt::new(key);
    let stream = build_auth_stream(nonce, message, aad, mic_length);
    let tag = cbc_mac_exec(&cipher, &stream);
    let ks = keystream_exec(&cipher, nonce, message.len());
    proof {
        lemma_keystream_len(key@, nonce@, 1, message@.len() as int);
    }
    let mut ct: Vec<u8> = Vec::new();
    let mut i: usize = 0;
    while i < message.len()
        invariant
            i <= message@.len(),
            ks@ == keystream(key@, nonce@, 1, message@.len() as int),
            ks@.len() == message@.len(),
            ct@ == ctr_mask(key@, nonce@, message@).take(i as int),
        decreases message@.len() - i,
    {
        ct.push(message[i] ^ ks[i]);
        proof {
            assert(ct@ =~= ctr_mask(key@, nonce@, message@).take(i + 1));
        }
        i += 1;
    }
    proof {
        assert(ctr_mask(key@, nonce@, message@).take(message@.len() as int) =~= ctr_mask(
            key@,
            nonce@,
            message@,
        ));
    }
    let a0 = counter_block_exec(nonce, 0);
    let s0 = cipher.encrypt_block(a0.as_slice());
    let mut mic: Vec<u8> = Vec::new();
    let mut j: usize = 0;
    while j < mic_length
        invariant
            j <= mic_length,
            mic_length <= 16,
            tag@.len() == 16,
            s0@ == mic_mask(key@, nonce@),
            s0@.len() == 16,
            tag@ == auth_tag(key@, nonce@, message@, aad@, mic_length as int),
            mic@ == ccm_mic(key@, nonce@, message@, aad@, mic_length as int).take(j as int),
        decreases mic_length - j,
    {
        mic.push(tag[j] ^ s0[j]);
        proof {
            assert(mic@ =~= ccm_mic(key@, nonce@, message@, aad@, mic_length as int).take(j + 1));
        }
        j += 1;
    }
    proof {
        assert(ccm_mic(key@, nonce@, message@, aad@, mic_length as int).take(mic_length as int)
            =~= ccm_mic(key@, nonce@, message@, aad@, mic_length as int));
    }
    (ct, mic)
}

/// Authenticated decryption of a received ciphertext: recovers the message
/// when the integrity code authenticates and reports `AuthenticationFailed`
/// otherwise, exposing no partial plaintext.
pub fn ccmstar_decrypt(
    key: &[u8],
    nonce: &[u8],
    encrypted: &[u8],
    mic: &[u8],
    aad: &[u8],
) -> (r: Result<Vec<u8>, SecurityError>)
    requires
        key@.len() == KEY_SIZE,
        nonce@.len() == NONCE_LENGTH,
        encrypted@.len() <= 0xffff,
        aad@.len() <= 0xffff,
        valid_mic_length(mic@.len() as int),
    ensures
        ccm_valid(key@, nonce@, encrypted@, mic@, aad@) ==> matches!(r, Ok(_)) && (r matches Ok(pt)
            ==> pt@ == ctr_mask(key@, nonce@, encrypted@)),
        !ccm_valid(key@, nonce@, encrypted@, mic@, aad@) ==> r == Err::<Vec<u8>, SecurityError>(
            SecurityError::AuthenticationFailed,
        ),
{
    let cipher = RustAes128Encrypt::new(key);
    let ks = keystream_exec(&cipher, nonce, encrypted.len());
    proof {
        lemma_keystream_len(key@, nonce@, 1, encrypted@.len() as int);
    }
    let mut pt: Vec<u8> = Vec::new();
    let mut i: usize = 0;
    while i < encrypted.len()
        invariant
            i <= encrypted@.len(),
            ks@ == keystream(key@, nonce@, 1, encrypted@.len() as int),
            ks@.len() == encrypted@.len(),
            pt@ == ctr_mask(key@, nonce@, encrypted@).take(i as int),
        decreases encrypted@.len() - i,
    {
        pt.push(encrypted[i] ^ ks[i]);
        proof {
            assert(pt@ =~= ctr_mask(key@, nonce@, encrypted@).take(i + 1));
        }
        i += 1;
    }
    proof {
        assert(ctr_mask(key@, nonce@, encrypted@).take(encrypted@.len() as int) =~= ctr_mask(
            key@,
            nonce@,
            encrypted@,
        ));
    }
    let stream = build_auth_stream(nonce, pt.as_slice(), aad, mic.len());
    let tag = cbc_mac_exec(&cipher, &stream);
    let a0 = counter_block_exec(nonce, 0);
    let s0 = cipher.encrypt_block(a0.as_slice());
    let ghost expect = auth_tag(
        key@,
        nonce@,
        ctr_mask(key@, nonce@, encrypted@),
        aad@,
        mic@.len() as int,
    ).take(mic@.len() as int);
    let ghost unmasked = xor_bytes(mic@, mic_mask(key@, nonce@));
    let mut ok = true;
    let mut j: usize = 0;
    while j < mic.len()
        invariant
            j <= mic@.len(),
            mic@.len() <= 16,
            tag@ == auth_tag(key@, nonce@, ctr_mask(key@, nonce@, encrypted@), aad@, mic@.len() as int),
            tag@.len() == 16,
            s0@ == mic_mask(key@, nonce@),
            s0@.len() == 16,
            unmasked == xor_bytes(mic@, mic_mask(key@, nonce@)),
            expect == tag@.take(mic@.len() as int),
            ok <==> (forall|k: int| 0 <= k < j ==> unmasked[k] == expect[k]),
        decreases mic@.len() - j,
    {
        if (mic[j] ^ s0[j]) != tag[j] {
            ok = false;
        }
        proof {
            assert(unmasked[j as int] == mic@[j as int] ^ s0@[j as int]);
            assert(expect[j as int] == tag@[j as int]);
        }
        j += 1;
    }
    if ok {
        proof {
            assert(unmasked =~= expect);
        }
        Ok(pt)
    } else {
        proof {
            assert(unmasked != expect);
        }
        Err(SecurityError::AuthenticationFailed)
    }
}

/// Byte-wise XOR is an involution.
proof fn lemma_xor_involute(a: u8, b: u8)
    by (bit_vector)
    ensures
        (a ^ b) ^ b == a,
{
}

/// The authentication tag is always one full cipher block.
proof fn lemma_cbc_mac_len(key: Seq<u8>, acc: Seq<u8>, data: Seq<u8>)
    requires
        acc.len() == 16,
    ensures
        cbc_mac(key, acc, data).len() == 16,
    decreases data.len(),
{
    if data.len() >= 16 {
        lemma_cbc_mac_len(key, cipher_block(key, xor_bytes(acc, data.take(16))), data.skip(16));
    }
}

/// CCM* round-trip: for every key, nonce, message, associated data and
/// authentication-tag length within the valid ranges, masking the ciphertext
/// again recovers the message, and the transmitted integrity code
/// authenticates against the recomputed tag.
pub proof fn lemma_ccm_round_trip(
    key: Seq<u8>,
    nonce: Seq<u8>,
    message: Seq<u8>,
    aad: Seq<u8>,
    mic_len: int,
)
    requires
        message.len() <= 0xffff,
        valid_mic_length(mic_len),
    ensures
        ctr_mask(key, nonce, ctr_mask(key, nonce, message)) == message,
        ccm_valid(
            key,
            nonce,
            ctr_mask(key, nonce, message),
            ccm_mic(key, nonce, message, aad, mic_len),
            aad,
        ),
{
    let len = message.len() as int;
    let ks = keystream(key, nonce, 1, len);
    lemma_keystream_len(key, nonce, 1, len);
    let ct = ctr_mask(key, nonce, message);
    assert(ct.len() == message.len());
    assert forall|i: int| 0 <= i < len implies ctr_mask(key, nonce, ct)[i] == message[i] by {
        assert(ct[i] == message[i] ^ ks[i]);
        lemma_xor_involute(message[i], ks[i]);
    }
    assert(ctr_mask(key, nonce, ct) =~= message);
    let tag = auth_tag(key, nonce, message, aad, mic_len);
    lemma_cbc_mac_len(key, zero_block(), auth_stream(nonce, message, aad, mic_len));
    assert(tag.len() == 16);
    let mask = mic_mask(key, nonce);
    let mic = ccm_mic(key, nonce, message, aad, mic_len);
    assert(mic.len() == mic_len);
    assert forall|i: int| 0 <= i < mic_len implies xor_bytes(mic, mask)[i] == tag.take(mic_len)[i] by {
        assert(mic[i] == tag[i] ^ mask[i]);
        lemma_xor_involute(tag[i], mask[i]);
    }
    assert(xor_bytes(mic, mask) =~= tag.take(mic_len));
    assert(auth_tag(key, nonce, ctr_mask(key, nonce, ct), aad, mic.len() as int) == tag);
}

/// Tamper sensitivity of the integrity code: a decryption that
/// authenticates does so for exactly one code of its length, so any change
/// to the received code — a single flipped bit included — makes
/// authentication fail.
pub proof fn lemma_mic_tamper_detected(
    key: Seq<u8>,
    nonce: Seq<u8>,
    encrypted: Seq<u8>,
    mic: Seq<u8>,
    tampered: Seq<u8>,
    aad: Seq<u8>,
)
    requires
        ccm_valid(key, nonce, encrypted, mic, aad),
        tampered.len() == mic.len(),
        tampered != mic,
    ensures
        !ccm_valid(key, nonce, encrypted, tampered, aad),
{
    let mask = mic_mask(key, nonce);
    if ccm_valid(key, nonce, encrypted, tampered, aad) {
        assert(xor_bytes(tampered, mask) == xor_bytes(mic, mask));
        assert forall|i: int| 0 <= i < mic.len() implies tampered[i] == mic[i] by {
            assert(xor_bytes(tampered, mask)[i] == xor_bytes(mic, mask)[i]);
            lemma_xor_involute(tampered[i], mask[i]);
            lemma_xor_involute(mic[i], mask[i]);
            assert((tampered[i] ^ mask[i]) == (mic[i] ^ mask[i]));
            assert(((tampered[i] ^ mask[i]) ^ mask[i]) == ((mic[i] ^ mask[i]) ^ mask[i]));
        }
        assert(tampered =~= mic);
        assert(false);
    }
}

} // verus!
