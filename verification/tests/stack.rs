use psila_stack::ccm::ccmstar_encrypt;
use psila_stack::mac::{Address, Frame, FrameContent, FrameType, FrameVersion, MacHeader};
use psila_stack::parser::Parser;
use psila_stack::security::{handle_secure_payload, SecurityHeader};
use psila_stack::zdp::DeviceProfileMessage;

const NETWORK_KEY: [u8; 16] = [0x11; 16];

/// An application-service data frame carrying a device-announce message on
/// the device profile.
fn aps_bytes() -> Vec<u8> {
    let mut b = Vec::new();
    b.push(0x00); // control: data frame, unicast delivery
    b.push(0x01); // destination endpoint
    b.extend_from_slice(&[0x13, 0x00]); // cluster: device announce
    b.extend_from_slice(&[0x00, 0x00]); // profile: device profile
    b.push(0x02); // source endpoint
    b.push(0x2A); // counter
    // Device announce: sequence, network address, IEEE address, capability.
    b.push(0x05);
    b.extend_from_slice(&[0xCD, 0xAB]);
    b.extend_from_slice(&[0x77, 0x66, 0x55, 0x44, 0x33, 0x22, 0x11, 0x00]);
    b.push(0x8E);
    b
}

/// A network frame whose payload is the secured application-service frame.
fn secured_network_payload() -> Vec<u8> {
    let mut nwk = Vec::new();
    // Network header: data frame, protocol version 2, secured.
    nwk.extend_from_slice(&[0x08, 0x02]);
    nwk.extend_from_slice(&[0x00, 0x00]); // destination address
    nwk.extend_from_slice(&[0x34, 0x12]); // source address
    nwk.push(0x01); // radius
    nwk.push(0x05); // sequence number
    // Security header: network key, extended nonce, level zeroed on the air.
    let sec_offset = nwk.len();
    nwk.push(0x28);
    nwk.extend_from_slice(&[0x01, 0x00, 0x00, 0x00]); // frame counter
    nwk.extend_from_slice(&[0x77, 0x66, 0x55, 0x44, 0x33, 0x22, 0x11, 0x00]); // source
    nwk.push(0x00); // key sequence number
    let hend = nwk.len();
    // The nonce and associated data the receiver will reconstruct.
    let patched = (nwk[sec_offset] & 0xF8) | 0x05;
    let mut nonce = Vec::new();
    nonce.extend_from_slice(&[0x77, 0x66, 0x55, 0x44, 0x33, 0x22, 0x11, 0x00]);
    nonce.extend_from_slice(&[0x01, 0x00, 0x00, 0x00]);
    nonce.push(patched);
    let mut aad = nwk[..hend].to_vec();
    aad[sec_offset] = patched;
    let (ct, mic) = ccmstar_encrypt(&NETWORK_KEY, &nonce, &aps_bytes(), 4, &aad);
    nwk.extend_from_slice(&ct);
    nwk.extend_from_slice(&mic);
    nwk
}

fn mac_data_frame(payload: Vec<u8>) -> Vec<u8> {
    Frame {
        header: MacHeader {
            sequence: 0x42,
            frame_type: FrameType::Data,
            security: false,
            frame_pending: false,
            ack_request: false,
            pan_id_compress: false,
            version: FrameVersion::Ieee802154_2003,
            destination: Address::Short(0x7777, 0x0001),
            source: Address::Short(0x7777, 0x0002),
        },
        content: FrameContent::Data,
        payload,
    }
    .encode()
}

#[test]
fn layered_decode_with_correct_key() {
    // A MAC data frame wrapping a secured network frame wrapping an
    // application-service data frame decodes through every layer when the
    // right key is supplied.
    let packet = mac_data_frame(secured_network_payload());
    let mut parser = Parser::new();
    parser.security.add_key(&NETWORK_KEY, String::from("network key"));
    let parsed = parser.parse_packet(&packet).unwrap();
    let network = parsed.network.expect("network layer");
    assert!(network.header.control.security);
    assert_eq!(network.decrypted_with, Some(0));
    assert_eq!(network.payload, aps_bytes());
    let aps = network.application_service.expect("application-service layer");
    assert_eq!(aps.header.cluster, Some(0x0013));
    assert_eq!(aps.header.profile, Some(0x0000));
    let zdp = aps.device_profile.expect("device profile frame");
    assert_eq!(zdp.transaction_sequence, 0x05);
    assert_eq!(
        zdp.message,
        DeviceProfileMessage::DeviceAnnounce(0xABCD, 0x0011223344556677, 0x8E)
    );
}

#[test]
fn layered_decode_with_wrong_key_fails_cleanly() {
    // With only a wrong key the network header still decodes, but nothing
    // decrypts and no deeper layer is reported; nothing panics.
    let packet = mac_data_frame(secured_network_payload());
    let mut parser = Parser::new();
    parser.security.add_key(&[0x99; 16], String::from("wrong key"));
    let parsed = parser.parse_packet(&packet).unwrap();
    let network = parsed.network.expect("network layer");
    assert_eq!(network.decrypted_with, None);
    assert!(network.payload.is_empty());
    assert!(network.application_service.is_none());
}

#[test]
fn first_matching_key_wins() {
    let packet = mac_data_frame(secured_network_payload());
    let mut parser = Parser::new();
    parser.security.add_key(&[0x99; 16], String::from("wrong key"));
    parser.security.add_key(&NETWORK_KEY, String::from("network key"));
    let parsed = parser.parse_packet(&packet).unwrap();
    let network = parsed.network.expect("network layer");
    assert_eq!(network.decrypted_with, Some(1));
    assert!(network.application_service.is_some());
}

#[test]
fn unsecured_network_frame_decodes_directly() {
    let mut nwk = Vec::new();
    nwk.extend_from_slice(&[0x08, 0x00]); // data frame, version 2, no security
    nwk.extend_from_slice(&[0x00, 0x00]);
    nwk.extend_from_slice(&[0x34, 0x12]);
    nwk.push(0x01);
    nwk.push(0x06);
    nwk.extend_from_slice(&aps_bytes());
    let packet = mac_data_frame(nwk);
    let parser = Parser::new();
    let parsed = parser.parse_packet(&packet).unwrap();
    let network = parsed.network.expect("network layer");
    assert_eq!(network.decrypted_with, None);
    let aps = network.application_service.expect("application-service layer");
    assert!(aps.device_profile.is_some());
}

#[test]
fn secure_payload_direct_round_trip() {
    let payload = secured_network_payload();
    let clear = handle_secure_payload(&NETWORK_KEY, &payload, 8).expect("authenticates");
    assert_eq!(clear, aps_bytes());
    assert!(handle_secure_payload(&[0x99; 16], &payload, 8).is_none());
    // A bit flipped anywhere in the secured part is rejected.
    let mut bad = payload.clone();
    let last = bad.len() - 1;
    bad[last] ^= 0x80;
    assert!(handle_secure_payload(&NETWORK_KEY, &bad, 8).is_none());
}

#[test]
fn security_header_fields() {
    let payload = secured_network_payload();
    let (header, used) = SecurityHeader::unpack(&payload[8..]).unwrap();
    assert_eq!(used, 14);
    assert_eq!(header.control.level, 0);
    assert!(header.control.extended_nonce);
    assert_eq!(header.counter, 1);
    assert_eq!(header.source, Some(0x0011223344556677));
    assert_eq!(header.sequence, Some(0));
}

#[test]
fn well_known_keys_are_supplied_as_candidates() {
    // The named default keys slot straight into the candidate list; traffic
    // under a different key is still rejected by all of them.
    let mut parser = Parser::new();
    parser.security.add_key(
        &psila_stack::security::DEFAULT_LINK_KEY,
        String::from("Default Link Key"),
    );
    parser.security.add_key(
        &psila_stack::security::LIGHT_LINK_MASTER_KEY,
        String::from("Light Link Master Key"),
    );
    parser.security.add_key(
        &psila_stack::security::LIGHT_LINK_COMMISSIONING_LINK_KEY,
        String::from("Light Link Commissioning Link Key"),
    );
    let packet = mac_data_frame(secured_network_payload());
    let parsed = parser.parse_packet(&packet).unwrap();
    let network = parsed.network.expect("network layer");
    assert_eq!(network.decrypted_with, None);
    // With the right key appended, the fourth candidate wins.
    parser.security.add_key(&NETWORK_KEY, String::from("network key"));
    let parsed = parser.parse_packet(&packet).unwrap();
    assert_eq!(parsed.network.unwrap().decrypted_with, Some(3));
}
