use psila_stack::error::Error;
use psila_stack::esercom::{com_decode, com_encode, MessageType};
use psila_stack::slip;

#[test]
fn encode() {
    let data = [0x01, 0x8e];
    let mut buf = vec![0u8; 32];
    let size = com_encode(MessageType::GetValue, &data, &mut buf).unwrap();
    assert_eq!(size, 6);
    assert_eq!(buf[..size], [0xc0, 0x04, 0x02, 0x01, 0x8e, 0xc0]);
}

#[test]
fn decode() {
    let mut buf = vec![0u8; 32];
    let data = [0xc0, 0x04, 0x02, 0x01, 0x8e, 0xc0];
    let (mt, used, size) = com_decode(&data, &mut buf).unwrap();
    assert_eq!(used, 6);
    assert_eq!(size, 2);
    assert_eq!(mt, MessageType::GetValue);

    let data = [0x04, 0x02, 0x01, 0x8e, 0xc0];
    let (mt, used, size) = com_decode(&data, &mut buf).unwrap();
    assert_eq!(used, 5);
    assert_eq!(size, 2);
    assert_eq!(mt, MessageType::GetValue);

    let data = [0xfe, 0x01, 0x8e, 0xc0];
    let result = com_decode(&data, &mut buf);
    assert_eq!(result, Err(Error::InvalidLength(4)));
}

#[test]
fn envelope_get_value_exact_bytes() {
    // Envelope encoding of (GetValue, [0x01, 0x8E]) is exactly six bytes.
    let data = [0x01, 0x8e];
    let mut buf = vec![0u8; 16];
    let size = com_encode(MessageType::GetValue, &data, &mut buf).unwrap();
    assert_eq!(&buf[..size], &[0xc0, 0x04, 0x02, 0x01, 0x8e, 0xc0]);
}

#[test]
fn envelope_rejects_long_payload() {
    let data = vec![0u8; 129];
    let mut buf = vec![0u8; 512];
    assert_eq!(
        com_encode(MessageType::SetValue, &data, &mut buf),
        Err(Error::NotEnoughBytes)
    );
    let data = vec![0u8; 128];
    assert!(com_encode(MessageType::SetValue, &data, &mut buf).is_ok());
}

#[test]
fn envelope_round_trip_all_types() {
    let types = [
        MessageType::Error,
        MessageType::GetValue,
        MessageType::SetValue,
        MessageType::RadioReceive,
        MessageType::RadioSend,
    ];
    let payload = [0xC0, 0xDB, 0x10, 0xDC, 0xDD];
    for mt in types {
        let mut wire = vec![0u8; 64];
        let size = com_encode(mt, &payload, &mut wire).unwrap();
        let mut out = vec![0u8; 64];
        let (mt2, used, len) = com_decode(&wire[..size], &mut out).unwrap();
        assert_eq!(mt2, mt);
        assert_eq!(used, size);
        assert_eq!(&out[..len], &payload);
    }
}

#[test]
fn slip_round_trip_with_special_bytes() {
    // Sequences containing END and ESC survive encode then decode.
    let cases: [&[u8]; 5] = [
        &[],
        &[0x01],
        &[0xC0],
        &[0xDB, 0xC0, 0xDB],
        &[0x00, 0xC0, 0x01, 0xDB, 0x02, 0xDC, 0x03, 0xDD],
    ];
    for input in cases {
        let mut wire = vec![0u8; 64];
        let (consumed, written) = slip::encode(input, &mut wire).unwrap();
        assert_eq!(consumed, input.len());
        let mut out = vec![0u8; 64];
        let (used, len) = slip::decode(&wire[..written], &mut out).unwrap();
        assert_eq!(used, written);
        assert_eq!(&out[..len], input);
    }
}

#[test]
fn slip_encode_escapes() {
    let mut wire = vec![0u8; 16];
    let (_, written) = slip::encode(&[0xC0, 0xDB], &mut wire).unwrap();
    assert_eq!(&wire[..written], &[0xC0, 0xDB, 0xDC, 0xDB, 0xDD, 0xC0]);
}

#[test]
fn slip_encode_output_too_small() {
    let mut wire = vec![0u8; 3];
    assert_eq!(
        slip::encode(&[0x01, 0x02], &mut wire),
        Err(Error::NotEnoughBytes)
    );
}

#[test]
fn slip_decode_end_not_found() {
    let mut out = vec![0u8; 16];
    assert_eq!(
        slip::decode(&[0xC0, 0x01, 0x02], &mut out),
        Err(Error::EndNotFound)
    );
}

#[test]
fn slip_decode_invalid_escape() {
    let mut out = vec![0u8; 16];
    assert_eq!(
        slip::decode(&[0xC0, 0xDB, 0x42, 0xC0], &mut out),
        Err(Error::InvalidEscapeSequence)
    );
}

#[test]
fn slip_decode_output_too_small() {
    let mut out = vec![0u8; 2];
    assert_eq!(
        slip::decode(&[0xC0, 0x01, 0xC0], &mut out),
        Err(Error::NotEnoughBytes)
    );
}

#[test]
fn message_type_octets() {
    assert_eq!(MessageType::from_bits(1), MessageType::Error);
    assert_eq!(MessageType::from_bits(5), MessageType::RadioSend);
    assert_eq!(MessageType::from_bits(9), MessageType::Unknown);
    assert_eq!(MessageType::RadioReceive.octet(), 4);
}

#[test]
fn heavily_escaped_maximum_payload_overflows_decoder() {
    // A maximum-size payload of nothing but END bytes doubles under
    // byte-stuffing; its 260-octet frame encodes fine but exceeds the
    // decoder's 256-octet working buffer.
    let data = vec![0xC0u8; 128];
    let mut wire = vec![0u8; 512];
    let size = com_encode(MessageType::SetValue, &data, &mut wire).unwrap();
    assert_eq!(size, 260);
    let mut out = vec![0u8; 512];
    assert_eq!(
        com_decode(&wire[..size], &mut out),
        Err(Error::NotEnoughBytes)
    );
}
