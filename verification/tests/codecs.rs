use psila_stack::aps::{ApplicationServiceHeader, ApsFrameType, DeliveryMode};
use psila_stack::nwk::{
    BeaconInformation, DiscoverRoute, LinkStatusEntry, NetworkCommand, NetworkHeader, NwkFrameType,
};
use psila_stack::radio::{
    channel_frequency_offset, channel_from_frequency_offset, deadline_after,
    energy_detect_count_valid, frame_length_from_phr, frame_transmission_buffer,
    transmission_power_supported, RadioError,
};
use psila_stack::zdp::DeviceProfileFrame;
use psila_stack::zdp::DeviceProfileMessage;
use psila_stack::zigbee::Error;

#[test]
fn network_header_plain() {
    let bytes = [0x48u8, 0x00, 0xFF, 0xFF, 0x34, 0x12, 0x1E, 0x99, 0xAA];
    let (header, used) = NetworkHeader::unpack(&bytes).unwrap();
    assert_eq!(used, 8);
    assert_eq!(header.control.frame_type, NwkFrameType::Data);
    assert_eq!(header.control.protocol_version, 2);
    assert_eq!(header.control.discover_route, DiscoverRoute::EnableDiscovery);
    assert!(!header.control.security);
    assert_eq!(header.destination_address, 0xFFFF);
    assert_eq!(header.source_address, 0x1234);
    assert_eq!(header.radius, 0x1E);
    assert_eq!(header.sequence_number, 0x99);
    assert_eq!(header.destination_ieee_address, None);
    assert_eq!(header.source_ieee_address, None);
}

#[test]
fn network_header_with_source_ieee() {
    // Control with the source-IEEE bit set.
    let mut bytes = vec![0x08u8, 0x10, 0x00, 0x00, 0x34, 0x12, 0x01, 0x05];
    bytes.extend_from_slice(&[0x77, 0x66, 0x55, 0x44, 0x33, 0x22, 0x11, 0x00]);
    let (header, used) = NetworkHeader::unpack(&bytes).unwrap();
    assert_eq!(used, 16);
    assert_eq!(header.source_ieee_address, Some(0x0011223344556677));
}

#[test]
fn network_header_too_short() {
    assert_eq!(
        NetworkHeader::unpack(&[0x08, 0x00, 0x00]),
        Err(Error::NotEnoughSpace)
    );
}

#[test]
fn network_header_reserved_frame_type() {
    // Frame-type bits holding the reserved value two are refused.
    let bytes = [0x0Au8, 0x00, 0x00, 0x00, 0x00, 0x00, 0x01, 0x01];
    assert_eq!(NetworkHeader::unpack(&bytes), Err(Error::UnknownFrameType));
}

#[test]
fn route_request_command() {
    let bytes = [0x01u8, 0x00, 0x07, 0xCD, 0xAB, 0x03];
    let (cmd, used) = NetworkCommand::unpack(&bytes).unwrap();
    assert_eq!(used, 6);
    assert_eq!(cmd, NetworkCommand::RouteRequest(0x00, 0x07, 0xABCD, 0x03, None));
}

#[test]
fn route_request_command_with_ieee() {
    let mut bytes = vec![0x01u8, 0x20, 0x07, 0xCD, 0xAB, 0x03];
    bytes.extend_from_slice(&[0x08, 0x07, 0x06, 0x05, 0x04, 0x03, 0x02, 0x01]);
    let (cmd, used) = NetworkCommand::unpack(&bytes).unwrap();
    assert_eq!(used, 14);
    assert_eq!(
        cmd,
        NetworkCommand::RouteRequest(0x20, 0x07, 0xABCD, 0x03, Some(0x0102030405060708))
    );
}

#[test]
fn link_status_command() {
    // First and last frame, two entries.
    let bytes = [
        0x08u8, 0x62, 0x01, 0x00, 0x31, 0x02, 0x00, 0x52,
    ];
    let (cmd, used) = NetworkCommand::unpack(&bytes).unwrap();
    assert_eq!(used, 8);
    assert_eq!(
        cmd,
        NetworkCommand::LinkStatus(
            true,
            true,
            vec![
                LinkStatusEntry { address: 0x0001, incoming_cost: 1, outgoing_cost: 3 },
                LinkStatusEntry { address: 0x0002, incoming_cost: 2, outgoing_cost: 5 },
            ],
        )
    );
}

#[test]
fn route_record_command() {
    let bytes = [0x05u8, 0x02, 0x01, 0x00, 0x02, 0x00];
    let (cmd, used) = NetworkCommand::unpack(&bytes).unwrap();
    assert_eq!(used, 6);
    assert_eq!(cmd, NetworkCommand::RouteRecord(vec![0x0001, 0x0002]));
}

#[test]
fn unknown_network_command() {
    assert_eq!(
        NetworkCommand::unpack(&[0x7F]),
        Err(Error::UnknownNetworkCommand)
    );
}

#[test]
fn aps_header_unicast_data() {
    let bytes = [0x00u8, 0x01, 0x13, 0x00, 0x04, 0x01, 0x02, 0x2A, 0xFF];
    let (header, used) = ApplicationServiceHeader::unpack(&bytes).unwrap();
    assert_eq!(used, 8);
    assert_eq!(header.control.frame_type, ApsFrameType::Data);
    assert_eq!(header.control.delivery_mode, DeliveryMode::Unicast);
    assert_eq!(header.destination, Some(0x01));
    assert_eq!(header.group, None);
    assert_eq!(header.cluster, Some(0x0013));
    assert_eq!(header.profile, Some(0x0104));
    assert_eq!(header.source, Some(0x02));
    assert_eq!(header.counter, 0x2A);
}

#[test]
fn aps_header_group_addressing() {
    // Delivery mode three carries a group address instead of an endpoint.
    let bytes = [0x0Cu8, 0x34, 0x12, 0x13, 0x00, 0x04, 0x01, 0x02, 0x2A];
    let (header, used) = ApplicationServiceHeader::unpack(&bytes).unwrap();
    assert_eq!(used, 9);
    assert_eq!(header.control.delivery_mode, DeliveryMode::GroupAddressing);
    assert_eq!(header.destination, None);
    assert_eq!(header.group, Some(0x1234));
}

#[test]
fn aps_header_too_short() {
    assert_eq!(
        ApplicationServiceHeader::unpack(&[0x00, 0x01, 0x13]),
        Err(Error::NotEnoughSpace)
    );
}

#[test]
fn zdp_network_address_request() {
    let mut bytes = vec![0x07u8];
    bytes.extend_from_slice(&[0x77, 0x66, 0x55, 0x44, 0x33, 0x22, 0x11, 0x00]);
    bytes.push(0x01);
    bytes.push(0x00);
    let (frame, used) = DeviceProfileFrame::unpack(&bytes, 0x0000).unwrap();
    assert_eq!(used, 11);
    assert_eq!(frame.transaction_sequence, 0x07);
    assert_eq!(
        frame.message,
        DeviceProfileMessage::NetworkAddressRequest(0x0011223344556677, 0x01, 0x00)
    );
}

#[test]
fn zdp_unknown_cluster() {
    assert_eq!(
        DeviceProfileFrame::unpack(&[0x01, 0x02], 0x7777),
        Err(Error::UnknownClusterIdentifier)
    );
}

#[test]
fn beacon_information_fields() {
    let bytes = [
        0x00u8, 0x22, 0x84, 0x08, 0x07, 0x06, 0x05, 0x04, 0x03, 0x02, 0x01, 0xFF, 0xFF, 0xFF,
        0x09,
    ];
    let (bi, used) = BeaconInformation::unpack(&bytes).unwrap();
    assert_eq!(used, 15);
    assert_eq!(bi.protocol_identifier, 0x00);
    assert_eq!(bi.stack_profile, 2);
    assert_eq!(bi.network_protocol_version, 2);
    assert!(bi.router_capacity);
    assert_eq!(bi.device_depth, 0);
    assert!(bi.end_device_capacity);
    assert_eq!(bi.extended_pan_address, 0x0102030405060708);
    assert_eq!(bi.tx_offset, 0x00FFFFFF);
    assert_eq!(bi.network_update_identifier, 0x09);
}

#[test]
fn channel_offsets() {
    assert_eq!(channel_frequency_offset(11), Ok(5));
    assert_eq!(channel_frequency_offset(26), Ok(80));
    assert_eq!(channel_frequency_offset(10), Err(RadioError::InvalidChannel));
    assert_eq!(channel_frequency_offset(27), Err(RadioError::InvalidChannel));
    assert_eq!(channel_from_frequency_offset(5), 11);
    assert_eq!(channel_from_frequency_offset(80), 26);
}

#[test]
fn power_levels() {
    for p in [8i8, 7, 6, 5, 4, 3, 2, 0, -4, -8, -12, -16, -20, -40] {
        assert!(transmission_power_supported(p));
    }
    for p in [1i8, -1, 9, -30, 127, -128] {
        assert!(!transmission_power_supported(p));
    }
}

#[test]
fn received_length_octet() {
    assert_eq!(frame_length_from_phr(0x05), Some(5));
    assert_eq!(frame_length_from_phr(0x7F), Some(127));
    // The top bit marks a non-802.15.4 capture; zero length means nothing
    // was received.
    assert_eq!(frame_length_from_phr(0x85), None);
    assert_eq!(frame_length_from_phr(0x00), None);
    assert_eq!(frame_length_from_phr(0x80), None);
}

#[test]
fn transmission_buffer_layout() {
    let buffer = frame_transmission_buffer(&[0xAA, 0xBB, 0xCC]).unwrap();
    assert_eq!(buffer, vec![0x05, 0xAA, 0xBB, 0xCC]);
    let long = vec![0u8; 125];
    assert_eq!(
        frame_transmission_buffer(&long),
        Err(RadioError::FrameTooLong)
    );
    let fits = vec![0u8; 124];
    assert_eq!(frame_transmission_buffer(&fits).unwrap().len(), 125);
}

#[test]
fn energy_detect_counts() {
    assert!(!energy_detect_count_valid(0));
    assert!(energy_detect_count_valid(1));
    assert!(energy_detect_count_valid(0x100000));
    assert!(!energy_detect_count_valid(0x100001));
}

#[test]
fn deadlines_wrap_with_the_counter() {
    assert_eq!(deadline_after(10, 20), 30);
    assert_eq!(deadline_after(0xFFFF_FFFF, 1), 0);
    assert_eq!(deadline_after(0xFFFF_FFF0, 0x20), 0x10);
}
