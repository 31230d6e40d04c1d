//! Zigbee security header and secured-payload handling.
//!
//! Decoding of the security header, reconstruction of the CCM* nonce and
//! associated data from a secured frame, and a service that tries an
//! ordered list of candidate keys until one authenticates.

use vstd::prelude::*;

use crate::ccm::{ccm_valid, ccmstar_decrypt, ctr_mask};
use crate::mac::spec_le64;
use crate::wire::{le_int, le_of, push_u32_le, push_u64_le, read_u64_le};
use crate::zigbee::Error;

verus! {

/// The security level applied to network traffic: encryption with a 32-bit
/// integrity code.
pub const LEVEL_ENCRYPTED_INTEGRITY_32: u8 = 0x05;

/// The default link key of the Zigbee alliance: the bytes of
/// "ZigBeeAlliance09".
pub const DEFAULT_LINK_KEY: [u8; 16] = [
    0x5A,
    0x69,
    0x67,
    0x42,
    0x65,
    0x65,
    0x41,
    0x6C,
    0x6C,
    0x69,
    0x61,
    0x6E,
    0x63,
    0x65,
    0x30,
    0x39,
];

/// The light-link master key.
pub const LIGHT_LINK_MASTER_KEY: [u8; 16] = [
    0x9F,
    0x55,
    0x95,
    0xF1,
    0x02,
    0x57,
    0xC8,
    0xA4,
    0x69,
    0xCB,
    0xF4,
    0x2B,
    0xC9,
    0x3F,
    0xEE,
    0x31,
];

/// The light-link commissioning link key.
pub const LIGHT_LINK_COMMISSIONING_LINK_KEY: [u8; 16] = [
    0x81,
    0x42,
    0x86,
    0x86,
    0x5D,
    0xC1,
    0xC8,
    0xB2,
    0xC8,
    0xCB,
    0xC5,
    0x2E,
    0x5D,
    0x65,
    0xD1,
    0xB8,
];

/// Length of the message integrity code under that level.
pub const MIC_LENGTH: usize = 4;

/// Which key a secured frame was protected with.
#[derive(Clone, Copy, Debug, PartialEq, Eq, Structural)]
pub enum KeyIdentifier {
    Data,
    Network,
    KeyTransport,
    KeyLoad,
}

/// The control bits of a security header.
#[derive(Clone, Copy, Debug, PartialEq, Eq, Structural)]
pub struct SecurityControl {
    pub level: u8,
    pub identifier: KeyIdentifier,
    pub extended_nonce: bool,
}

/// The security header: control bits, the frame counter, and the optional
/// source address and key sequence number.
#[derive(Clone, Copy, Debug, PartialEq, Eq, Structural)]
pub struct SecurityHeader {
    pub control: SecurityControl,
    pub counter: u32,
    pub source: Option<u64>,
    pub sequence: Option<u8>,
}

/// The key identifier of the two key-identifier bits.
pub open spec fn key_identifier_of(bits: u8) -> KeyIdentifier {
    if bits == 0 {
        KeyIdentifier::Data
    } else if bits == 1 {
        KeyIdentifier::Network
    } else if bits == 2 {
        KeyIdentifier::KeyTransport
    } else {
        KeyIdentifier::KeyLoad
    }
}

/// A 32-bit little-endian field of a byte sequence.
pub open spec fn spec_le32(b: Seq<u8>, pos: int) -> u32 {
    le_int(b.subrange(pos, pos + 4)) as u32
}

/// The parse of a security header: the control octet and frame counter,
/// then the source address when the extended-nonce bit is set, then the key
/// sequence number when the frame was protected with a network key.
pub open spec fn spec_parse_security(b: Seq<u8>) -> Result<(SecurityHeader, int), Error> {
    if b.len() < 5 {
        Err(Error::NotEnoughSpace)
    } else {
        let cb = b[0];
        let control = SecurityControl {
            level: (cb & 0x7) as u8,
            identifier: key_identifier_of(((cb >> 3) & 0x3) as u8),
            extended_nonce: cb & 0x20 != 0,
        };
        let slen: int = if control.extended_nonce {
            8
        } else {
            0
        };
        let klen: int = if control.identifier == KeyIdentifier::Network {
            1
        } else {
            0
        };
        if 5 + slen + klen > b.len() {
            Err(Error::NotEnoughSpace)
        } else {
            Ok(
                (
                    SecurityHeader {
                        control,
                        counter: spec_le32(b, 1),
                        source: if control.extended_nonce {
                            Option::Some(spec_le64(b, 5))
                        } else {
                            Option::None
                        },
                        sequence: if control.identifier == KeyIdentifier::Network {
                            Option::Some(b[5 + slen])
                        } else {
                            Option::None
                        },
                    },
                    5 + slen + klen,
                ),
            )
        }
    }
}

impl SecurityHeader {
    /// Decode a security header from the front of a buffer, returning it
    /// with the number of bytes consumed.
    pub fn unpack(data: &[u8]) -> (r: Result<(SecurityHeader, usize), Error>)
        ensures
            match spec_parse_security(data@) {
                Ok((v, p)) => r is Ok && r->Ok_0.0 == v && r->Ok_0.1 as int == p,
                Err(e) => r == Err::<(SecurityHeader, usize), Error>(e),
            },
    {
        if data.len() < 5 {
            return Err(Error::NotEnoughSpace);
        }
        let cb = data[0];
        let idb = (cb >> 3) & 0x3;
        let control = SecurityControl {
            level: cb & 0x7,
            identifier: if idb == 0 {
                KeyIdentifier::Data
            } else if idb == 1 {
                KeyIdentifier::Network
            } else if idb == 2 {
                KeyIdentifier::KeyTransport
            } else {
                KeyIdentifier::KeyLoad
            },
            extended_nonce: cb & 0x20 != 0,
        };
        let slen: usize = if control.extended_nonce {
            8
        } else {
            0
        };
        let klen: usize = if matches!(control.identifier, KeyIdentifier::Network) {
            1
        } else {
            0
        };
        if data.len() - 5 < slen + klen {
            return Err(Error::NotEnoughSpace);
        }
        let counter = sec_le32(data, 1);
        let header = SecurityHeader {
            control,
            counter,
            source: if control.extended_nonce {
                Option::Some(sec_le64(data, 5))
            } else {
                Option::None
            },
            sequence: if matches!(control.identifier, KeyIdentifier::Network) {
                Option::Some(data[5 + slen])
            } else {
                Option::None
            },
        };
        Ok((header, 5 + slen + klen))
    }
}

/// The security control octet with its level bits replaced by the level
/// actually applied on the air, which transmitters zero out.
pub open spec fn patched_control(raw: u8) -> u8 {
    (raw & 0xf8) | LEVEL_ENCRYPTED_INTEGRITY_32
}

/// The CCM* nonce of a secured frame: source address, frame counter and the
/// patched control octet.
pub open spec fn secure_nonce(source: u64, counter: u32, control: u8) -> Seq<u8> {
    le_of(source as int, 8) + le_of(counter as int, 4) + seq![control]
}

/// What decrypting a secured frame under one key yields. The frame is the
/// whole buffer; the security header starts at `offset`; everything before
/// the encrypted part, with the level bits restored, is the associated
/// data; the last four bytes are the integrity code. The result is the
/// plaintext, or nothing when the header is unusable or the code does not
/// authenticate.
pub open spec fn spec_decrypt_payload(key: Seq<u8>, payload: Seq<u8>, offset: int) -> Option<
    Seq<u8>,
> {
    match spec_parse_security(payload.skip(offset)) {
        Ok((header, used)) => match header.source {
            Option::Some(source) => {
                let hend = offset + used;
                if payload.len() < hend + 4 {
                    Option::None
                } else {
                    let ctrl = patched_control(payload[offset]);
                    let aad = payload.take(hend).update(offset, ctrl);
                    let ct = payload.subrange(hend, payload.len() - 4);
                    let mic = payload.skip(payload.len() - 4);
                    let nonce = secure_nonce(source, header.counter, ctrl);
                    if ccm_valid(key, nonce, ct, mic, aad) {
                        Option::Some(ctr_mask(key, nonce, ct))
                    } else {
                        Option::None
                    }
                }
            },
            Option::None => Option::None,
        },
        Err(_) => Option::None,
    }
}

/// Decrypt the secured part of a frame under one key.
///
/// Succeeds exactly when the security header carries a source address, the
/// buffer holds the integrity code, and the code authenticates under the
/// key; the result is then the decrypted payload.
pub fn handle_secure_payload(key: &[u8], payload: &[u8], offset: usize) -> (r: Option<Vec<u8>>)
    requires
        key@.len() == 16,
        offset <= payload@.len(),
        payload@.len() <= 0xffff,
    ensures
        match spec_decrypt_payload(key@, payload@, offset as int) {
            Option::Some(pt) => r is Some && r->0@ == pt,
            Option::None => r is None,
        },
{
    let mut tail: Vec<u8> = Vec::new();
    let mut k: usize = offset;
    while k < payload.len()
        invariant
            offset <= k <= payload@.len(),
            tail@ == payload@.subrange(offset as int, k as int),
        decreases payload@.len() - k,
    {
        tail.push(payload[k]);
        proof {
            assert(tail@ =~= payload@.subrange(offset as int, k + 1));
        }
        k += 1;
    }
    proof {
        assert(tail@ =~= payload@.skip(offset as int));
    }
    let (header, used) = match SecurityHeader::unpack(tail.as_slice()) {
        Ok(x) => x,
        Err(_) => {
            return Option::None;
        },
    };
    let source = match header.source {
        Option::Some(source) => source,
        Option::None => {
            return Option::None;
        },
    };
    let hend = offset + used;
    if payload.len() < 4 || payload.len() - 4 < hend {
        return Option::None;
    }
    let ctrl = (payload[offset] & 0xf8) | LEVEL_ENCRYPTED_INTEGRITY_32;
    let mut aad: Vec<u8> = Vec::new();
    let mut k: usize = 0;
    while k < hend
        invariant
            k <= hend,
            hend <= payload@.len(),
            offset < hend,
            ctrl == patched_control(payload@[offset as int]),
            aad@ == payload@.take(hend as int).update(offset as int, ctrl).take(k as int),
        decreases hend - k,
    {
        if k == offset {
            aad.push(ctrl);
        } else {
            aad.push(payload[k]);
        }
        proof {
            assert(aad@ =~= payload@.take(hend as int).update(offset as int, ctrl).take(k + 1));
        }
        k += 1;
    }
    proof {
        assert(aad@ =~= payload@.take(hend as int).update(offset as int, ctrl));
    }
    let ct_end = payload.len() - 4;
    let mut ct: Vec<u8> = Vec::new();
    let mut k: usize = hend;
    while k < ct_end
        invariant
            hend <= k <= ct_end,
            ct_end + 4 == payload@.len(),
            ct@ == payload@.subrange(hend as int, k as int),
        decreases ct_end - k,
    {
        ct.push(payload[k]);
        proof {
            assert(ct@ =~= payload@.subrange(hend as int, k + 1));
        }
        k += 1;
    }
    let mut mic: Vec<u8> = Vec::new();
    let mut k: usize = payload.len() - 4;
    while k < payload.len()
        invariant
            payload@.len() >= 4,
            payload@.len() - 4 <= k <= payload@.len(),
            mic@ == payload@.subrange(payload@.len() - 4, k as int),
        decreases payload@.len() - k,
    {
        mic.push(payload[k]);
        proof {
            assert(mic@ =~= payload@.subrange(payload@.len() - 4, k + 1));
        }
        k += 1;
    }
    proof {
        assert(mic@ =~= payload@.skip(payload@.len() - 4));
    }
    let mut nonce: Vec<u8> = Vec::new();
    push_u64_le(&mut nonce, source);
    push_u32_le(&mut nonce, header.counter);
    nonce.push(ctrl);
    proof {
        assert(nonce@ =~= secure_nonce(source, header.counter, ctrl));
        crate::wire::lemma_le_of_len(source as int, 8);
        crate::wire::lemma_le_of_len(header.counter as int, 4);
    }
    match ccmstar_decrypt(key, nonce.as_slice(), ct.as_slice(), mic.as_slice(), aad.as_slice()) {
        Ok(pt) => Option::Some(pt),
        Err(_) => Option::None,
    }
}

/// An ordered list of candidate keys for decrypting captured traffic.
pub struct SecurityService {
    pub keys: Vec<(Vec<u8>, String)>,
}

/// Whether every key of a list is 16 bytes long.
pub open spec fn keys_wf(keys: Seq<(Vec<u8>, String)>) -> bool {
    forall|i: int| 0 <= i < keys.len() ==> #[trigger] keys[i].0@.len() == 16
}

/// The first key of the list, from position `i` on, under which the secured
/// frame authenticates, together with the decrypted payload.
pub open spec fn spec_service_decrypt(
    keys: Seq<(Vec<u8>, String)>,
    payload: Seq<u8>,
    offset: int,
    i: int,
) -> Option<(int, Seq<u8>)>
    decreases keys.len() - i,
{
    if i < 0 || i >= keys.len() {
        Option::None
    } else {
        match spec_decrypt_payload(keys[i].0@, payload, offset) {
            Option::Some(pt) => Option::Some((i, pt)),
            Option::None => spec_service_decrypt(keys, payload, offset, i + 1),
        }
    }
}

impl SecurityService {
    /// A service with no keys; candidates are added one by one.
    pub fn new() -> (r: SecurityService)
        ensures
            r.keys@.len() == 0,
    {
        SecurityService { keys: Vec::new() }
    }

    /// Append a named candidate key to the list.
    pub fn add_key(&mut self, key: &[u8], name: String)
        requires
            key@.len() == 16,
        ensures
            final(self).keys@.len() == old(self).keys@.len() + 1,
            final(self).keys@.last().0@ == key@,
            final(self).keys@.drop_last() == old(self).keys@,
    {
        let mut k: Vec<u8> = Vec::new();
        let mut i: usize = 0;
        while i < key.len()
            invariant
                i <= key@.len(),
                k@ == key@.take(i as int),
            decreases key@.len() - i,
        {
            k.push(key[i]);
            proof {
                assert(k@ =~= key@.take(i + 1));
            }
            i += 1;
        }
        proof {
            assert(k@ =~= key@);
        }
        self.keys.push((k, name));
        proof {
            assert(final(self).keys@.drop_last() =~= old(self).keys@);
        }
    }

    /// Decrypt the secured part of a frame, trying each candidate key in
    /// order; the first that authenticates wins. Returns the index of that
    /// key and the decrypted payload, or nothing when every key fails.
    pub fn decrypt(&self, payload: &[u8], offset: usize) -> (r: Option<(usize, Vec<u8>)>)
        requires
            keys_wf(self.keys@),
            offset <= payload@.len(),
            payload@.len() <= 0xffff,
        ensures
            match spec_service_decrypt(self.keys@, payload@, offset as int, 0) {
                Option::Some((i, pt)) => r is Some && (r->0).0 as int == i && (r->0).1@ == pt,
                Option::None => r is None,
            },
    {
        let mut i: usize = 0;
        while i < self.keys.len()
            invariant
                i <= self.keys@.len(),
                keys_wf(self.keys@),
                offset <= payload@.len(),
                payload@.len() <= 0xffff,
                spec_service_decrypt(self.keys@, payload@, offset as int, 0)
                    == spec_service_decrypt(self.keys@, payload@, offset as int, i as int),
            decreases self.keys@.len() - i,
        {
            let key = &self.keys[i].0;
            match handle_secure_payload(key.as_slice(), payload, offset) {
                Option::Some(pt) => {
                    return Option::Some((i, pt));
                },
                Option::None => {},
            }
            i += 1;
        }
        Option::None
    }
}

/// A 32-bit little-endian field.
fn sec_le32(data: &[u8], pos: usize) -> (r: u32)
    requires
        pos + 4 <= data@.len(),
    ensures
        r == spec_le32(data@, pos as int),
{
    let b0 = data[pos] as u32;
    let b1 = data[pos + 1] as u32;
    let b2 = data[pos + 2] as u32;
    let b3 = data[pos + 3] as u32;
    let r = b0 + 256 * b1 + 65536 * b2 + 16777216 * b3;
    proof {
        let s = data@.subrange(pos as int, pos + 4);
        assert(s.skip(1) =~= data@.subrange(pos + 1, pos + 4));
        assert(s.skip(1).skip(1) =~= data@.subrange(pos + 2, pos + 4));
        assert(s.skip(1).skip(1).skip(1) =~= data@.subrange(pos + 3, pos + 4));
        assert(s.skip(1).skip(1).skip(1).skip(1) =~= Seq::<u8>::empty());
        assert(le_int(s) == s[0] + 256 * le_int(s.skip(1)));
        assert(le_int(s.skip(1)) == s.skip(1)[0] + 256 * le_int(s.skip(1).skip(1)));
        assert(le_int(s.skip(1).skip(1)) == s.skip(1).skip(1)[0] + 256 * le_int(
            s.skip(1).skip(1).skip(1),
        ));
        assert(le_int(s.skip(1).skip(1).skip(1)) == s.skip(1).skip(1).skip(1)[0] + 256 * le_int(
            s.skip(1).skip(1).skip(1).skip(1),
        ));
        assert(le_int(Seq::<u8>::empty()) == 0);
    }
    r
}

/// A 64-bit little-endian field.
fn sec_le64(data: &[u8], pos: usize) -> (r: u64)
    requires
        pos + 8 <= data@.len(),
    ensures
        r == spec_le64(data@, pos as int),
{
    let r = read_u64_le(data, pos);
    proof {
        crate::wire::lemma_le_int_bound(data@.subrange(pos as int, pos + 8));
        assert(crate::wire::pow256(8nat) == 0x1_0000_0000_0000_0000) by {
            reveal_with_fuel(crate::wire::pow256, 9);
        }
    }
    r
}

} // verus!
