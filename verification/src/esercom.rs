//! Message envelope for the host serial link.
//!
//! A message is `[length][type][payload]` where the length octet counts the
//! type octet and the payload, and the whole envelope travels SLIP-framed.

use vstd::prelude::*;

use crate::error::Error;
use crate::slip;

verus! {

/// The kinds of messages exchanged with the host.
#[derive(Clone, Copy, Debug, PartialEq, Eq, Structural)]
pub enum MessageType {
    Unknown,
    Error,
    GetValue,
    SetValue,
    RadioReceive,
    RadioSend,
}

/// The type octet that identifies a message kind on the wire.
pub open spec fn message_octet(mt: MessageType) -> u8 {
    match mt {
        MessageType::Unknown => 0,
        MessageType::Error => 1,
        MessageType::GetValue => 2,
        MessageType::SetValue => 3,
        MessageType::RadioReceive => 4,
        MessageType::RadioSend => 5,
    }
}

/// The message kind identified by a type octet; unrecognized octets map to
/// `Unknown`.
pub open spec fn message_from_octet(bits: u8) -> MessageType {
    if bits == 1 {
        MessageType::Error
    } else if bits == 2 {
        MessageType::GetValue
    } else if bits == 3 {
        MessageType::SetValue
    } else if bits == 4 {
        MessageType::RadioReceive
    } else if bits == 5 {
        MessageType::RadioSend
    } else {
        MessageType::Unknown
    }
}

impl MessageType {
    /// The wire octet of this message kind.
    pub fn octet(self) -> (r: u8)
        ensures
            r == message_octet(self),
    {
        match self {
            MessageType::Unknown => 0,
            MessageType::Error => 1,
            MessageType::GetValue => 2,
            MessageType::SetValue => 3,
            MessageType::RadioReceive => 4,
            MessageType::RadioSend => 5,
        }
    }

    /// The message kind identified by a wire octet.
    pub fn from_bits(bits: u8) -> (r: MessageType)
        ensures
            r == message_from_octet(bits),
    {
        match bits {
            1 => MessageType::Error,
            2 => MessageType::GetValue,
            3 => MessageType::SetValue,
            4 => MessageType::RadioReceive,
            5 => MessageType::RadioSend,
            _ => MessageType::Unknown,
        }
    }
}

/// The envelope of a message before SLIP framing.
pub open spec fn envelope_bytes(mt: MessageType, payload: Seq<u8>) -> Seq<u8> {
    seq![(payload.len() + 2) as u8, message_octet(mt)] + payload
}

/// Encode a message as a SLIP-framed envelope into the front of `output`.
///
/// Fails with `NotEnoughBytes` when the payload exceeds 128 octets or when
/// `output` is shorter than the framed encoding.
pub fn com_encode(mt: MessageType, input: &[u8], output: &mut Vec<u8>) -> (r: Result<usize, Error>)
    ensures
        final(output)@.len() == old(output)@.len(),
        input@.len() > 128 ==> r == Err::<usize, Error>(Error::NotEnoughBytes) && final(output)@
            == old(output)@,
        input@.len() <= 128 ==> {
            let enc = slip::frame_encoding(envelope_bytes(mt, input@));
            if old(output)@.len() < enc.len() {
                r == Err::<usize, Error>(Error::NotEnoughBytes) && final(output)@ == old(output)@
            } else {
                r == Ok::<usize, Error>(enc.len() as usize) && final(output)@ == enc + old(
                    output,
                )@.skip(enc.len() as int)
            }
        },
{
    if input.len() > 128 {
        return Err(Error::NotEnoughBytes);
    }
    let length: u8 = (input.len() as u8) + 2;
    let mut buf: Vec<u8> = Vec::new();
    buf.push(length);
    buf.push(mt.octet());
    let mut i: usize = 0;
    while i < input.len()
        invariant
            i <= input@.len(),
            input@.len() <= 128,
            length == input@.len() + 2,
            buf@ == seq![length, message_octet(mt)] + input@.take(i as int),
        decreases input@.len() - i,
    {
        buf.push(input[i]);
        proof {
            assert(input@.take(i + 1) =~= input@.take(i as int).push(input@[i as int]));
        }
        i += 1;
    }
    proof {
        assert(input@.take(input@.len() as int) =~= input@);
        assert(buf@ =~= envelope_bytes(mt, input@));
    }
    match slip::encode(buf.as_slice(), output) {
        Ok((_, out_size)) => Ok(out_size),
        Err(e) => Err(e),
    }
}

/// The decoding of a SLIP-framed envelope: the message kind, the number of
/// input bytes consumed, and the payload.
pub open spec fn com_decoding(input: Seq<u8>) -> Result<(MessageType, int, Seq<u8>), Error> {
    if input.len() > 256 {
        Err(Error::NotEnoughBytes)
    } else {
        match slip::frame_decoding(input) {
            Err(e) => Err(e),
            Ok((data, used)) => {
                if data.len() < 2 || data[0] as int != data.len() {
                    Err(Error::InvalidLength(used as usize))
                } else {
                    Ok((message_from_octet(data[1]), used, data.skip(2)))
                }
            },
        }
    }
}

/// Decode a SLIP-framed envelope from the front of `input`, writing the
/// payload into the front of `output`.
///
/// Returns the message kind, the number of input bytes consumed and the
/// payload length. Fails with `NotEnoughBytes` on streams over 256 octets,
/// with the SLIP decoder's error when the frame is broken, and with
/// `InvalidLength` when the length octet disagrees with the decoded size.
/// The caller's `output` must hold the decoded payload; nothing more is
/// asked of it.
pub fn com_decode(input: &[u8], output: &mut Vec<u8>) -> (r: Result<
    (MessageType, usize, usize),
    Error,
>)
    requires
        com_decoding(input@) matches Ok((mt, used, payload)) ==> payload.len() <= old(
            output,
        )@.len(),
    ensures
        final(output)@.len() == old(output)@.len(),
        match com_decoding(input@) {
            Ok((mt, used, payload)) => r == Ok::<(MessageType, usize, usize), Error>(
                (mt, used as usize, payload.len() as usize),
            ) && final(output)@ == payload + old(output)@.skip(payload.len() as int),
            Err(e) => r == Err::<(MessageType, usize, usize), Error>(e) && final(output)@ == old(
                output,
            )@,
        },
{
    if input.len() > 256 {
        return Err(Error::NotEnoughBytes);
    }
    let mut buf: Vec<u8> = Vec::new();
    let mut k: usize = 0;
    while k < 256
        invariant
            buf@.len() == k,
            k <= 256,
            forall|j: int| 0 <= j < k ==> buf@[j] == 0u8,
        decreases 256 - k,
    {
        buf.push(0u8);
        k += 1;
    }
    let (in_size, out_size) = match slip::decode(input, &mut buf) {
        Ok(sizes) => sizes,
        Err(e) => {
            return Err(e);
        },
    };
    if out_size < 2 || out_size != (buf[0] as usize) {
        return Err(Error::InvalidLength(in_size));
    }
    let ghost data = slip::frame_decoding(input@)->Ok_0.0;
    proof {
        slip::lemma_scan_len(input@, 0, Seq::<u8>::empty());
        assert(data =~= buf@.take(out_size as int));
    }
    let mt = MessageType::from_bits(buf[1]);
    let length = out_size - 2;
    let mut i: usize = 0;
    while i < length
        invariant
            i <= length,
            length + 2 == out_size,
            out_size <= buf@.len(),
            length <= output@.len(),
            output@.len() == old(output)@.len(),
            output@ == buf@.subrange(2, 2 + i as int) + old(output)@.skip(i as int),
        decreases length - i,
    {
        output.set(i, buf[2 + i]);
        proof {
            assert(output@ =~= buf@.subrange(2, 2 + (i + 1) as int) + old(output)@.skip(
                (i + 1) as int,
            ));
        }
        i += 1;
    }
    proof {
        assert(data.skip(2) =~= buf@.subrange(2, out_size as int));
    }
    Ok((mt, in_size, length))
}

/// Envelope round-trip: decoding the SLIP-framed envelope of any message
/// kind and payload of at most 128 octets yields that kind and payload back
/// and consumes the whole frame, whenever the frame fits the decoder's
/// 256-octet buffer.
pub proof fn lemma_envelope_round_trip(mt: MessageType, payload: Seq<u8>)
    requires
        payload.len() <= 128,
        slip::frame_encoding(envelope_bytes(mt, payload)).len() <= 256,
    ensures
        com_decoding(slip::frame_encoding(envelope_bytes(mt, payload))) == Ok::<
            (MessageType, int, Seq<u8>),
            Error,
        >(
            (
                mt,
                slip::frame_encoding(envelope_bytes(mt, payload)).len() as int,
                payload,
            ),
        ),
{
    let env = envelope_bytes(mt, payload);
    let enc = slip::frame_encoding(env);
    assert(env.len() == payload.len() + 2);
    slip::lemma_round_trip(env);
    assert(slip::frame_decoding(enc) == Ok::<(Seq<u8>, int), Error>((env, enc.len() as int)));
    assert(env[0] == (payload.len() + 2) as u8);
    assert(env[0] as int == env.len());
    assert(env[1] == message_octet(mt));
    assert(message_from_octet(message_octet(mt)) == mt);
    assert(env.skip(2) =~= payload);
}

} // verus!
