use psila_stack::mac::{
    Address, AssociationStatus, Beacon, Frame, FrameContent, FrameType, FrameVersion, MacCommand,
    MacHeader, SuperframeSpecification,
};
use psila_stack::mac_service::{Service, State};
use psila_stack::network_layer::{NetworkLayer, NetworkState};

fn beacon_frame(permit: bool) -> Vec<u8> {
    Frame {
        header: MacHeader {
            sequence: 0x10,
            frame_type: FrameType::Beacon,
            security: false,
            frame_pending: false,
            ack_request: false,
            pan_id_compress: false,
            version: FrameVersion::Ieee802154_2003,
            destination: Address::Absent,
            source: Address::Short(0x1234, 0x0001),
        },
        content: FrameContent::Beacon(Beacon {
            superframe_spec: SuperframeSpecification {
                beacon_order: 15,
                superframe_order: 15,
                final_cap_slot: 15,
                battery_life_extension: false,
                pan_coordinator: true,
                association_permit: permit,
            },
            gts_permit: false,
            gts_slots: Vec::new(),
            pending_short: Vec::new(),
            pending_extended: Vec::new(),
        }),
        payload: Vec::new(),
    }
    .encode()
}

fn acknowledge_frame(sequence: u8) -> Vec<u8> {
    Frame {
        header: MacHeader {
            sequence,
            frame_type: FrameType::Acknowledgement,
            security: false,
            frame_pending: false,
            ack_request: false,
            pan_id_compress: false,
            version: FrameVersion::Ieee802154_2003,
            destination: Address::Absent,
            source: Address::Absent,
        },
        content: FrameContent::Acknowledgement,
        payload: Vec::new(),
    }
    .encode()
}

fn association_response_frame(short: u16, status: AssociationStatus) -> Vec<u8> {
    Frame {
        header: MacHeader {
            sequence: 0x11,
            frame_type: FrameType::MacCommand,
            security: false,
            frame_pending: false,
            ack_request: false,
            pan_id_compress: false,
            version: FrameVersion::Ieee802154_2003,
            destination: Address::Extended(0x1234, 0x0011223344556677),
            source: Address::Short(0x1234, 0x0001),
        },
        content: FrameContent::Command(MacCommand::AssociationResponse(short, status)),
        payload: Vec::new(),
    }
    .encode()
}

#[test]
fn association_walks_every_state_in_order() {
    // Orphan -> ActiveScan -> Join -> QueryStatus -> Associated, one step at
    // a time, skipping none.
    let mut service = Service::new(0x0011223344556677);
    assert_eq!(service.state(), State::Orphan);

    // Timer fire: broadcast a beacon request and start scanning.
    let (beacon_request, delay) = service.build_packet();
    assert_eq!(service.state(), State::ActiveScan);
    assert_eq!(delay, 1_000_000);
    // Command frame carrying the beacon-request identifier.
    assert_eq!(beacon_request[0] & 0x07, 0x03);
    assert_eq!(*beacon_request.last().unwrap(), 0x07);

    // A qualifying beacon moves the scan to the join step.
    service.radio_receive(&beacon_frame(true));
    assert_eq!(service.state(), State::Join);

    // Build the association request; the state waits for its acknowledgement.
    let (association_request, _) = service.build_packet();
    assert_eq!(service.state(), State::Join);
    assert_eq!(association_request[0] & 0x07, 0x03);

    // The acknowledgement matching the last transmitted sequence number
    // confirms the request.
    service.radio_receive(&acknowledge_frame(2));
    assert_eq!(service.state(), State::QueryStatus);

    // Poll with a data request; the state waits for the response.
    let (data_request, _) = service.build_packet();
    assert_eq!(service.state(), State::QueryStatus);
    assert_eq!(*data_request.last().unwrap(), 0x04);

    // A successful association response completes the walk.
    service.radio_receive(&association_response_frame(0x4321, AssociationStatus::Successful));
    assert_eq!(service.state(), State::Associated);
    let (idle, delay) = service.build_packet();
    assert_eq!(idle.len(), 0);
    assert_eq!(delay, 0);
}

#[test]
fn beacon_without_permit_is_ignored() {
    let mut service = Service::new(0x0011223344556677);
    let _ = service.build_packet();
    assert_eq!(service.state(), State::ActiveScan);
    service.radio_receive(&beacon_frame(false));
    assert_eq!(service.state(), State::ActiveScan);
}

#[test]
fn scan_timeout_falls_back_to_orphan() {
    let mut service = Service::new(1);
    let _ = service.build_packet();
    assert_eq!(service.state(), State::ActiveScan);
    // No beacon arrived; the next timer fire falls back and waits long.
    let (none, delay) = service.build_packet();
    assert_eq!(none.len(), 0);
    assert_eq!(delay, 29_000_000);
    assert_eq!(service.state(), State::Orphan);
}

#[test]
fn mismatched_acknowledgement_is_ignored() {
    let mut service = Service::new(1);
    let _ = service.build_packet();
    service.radio_receive(&beacon_frame(true));
    let _ = service.build_packet();
    assert_eq!(service.state(), State::Join);
    service.radio_receive(&acknowledge_frame(0x99));
    assert_eq!(service.state(), State::Join);
}

#[test]
fn failed_association_response_is_ignored() {
    let mut service = Service::new(1);
    let _ = service.build_packet();
    service.radio_receive(&beacon_frame(true));
    let _ = service.build_packet();
    service.radio_receive(&acknowledge_frame(2));
    assert_eq!(service.state(), State::QueryStatus);
    service.radio_receive(&association_response_frame(0x4321, AssociationStatus::AccessDenied));
    assert_eq!(service.state(), State::QueryStatus);
}

#[test]
fn acknowledgement_request_schedules_immediate_ack() {
    // A frame addressed to the device with the acknowledge-request bit set
    // takes priority: the next transmission echoes its sequence number.
    let mut service = Service::new(0x0011223344556677);
    let frame = Frame {
        header: MacHeader {
            sequence: 0x77,
            frame_type: FrameType::Data,
            security: false,
            frame_pending: false,
            ack_request: true,
            pan_id_compress: false,
            version: FrameVersion::Ieee802154_2003,
            destination: Address::Extended(0x1234, 0x0011223344556677),
            source: Address::Short(0x1234, 0x0001),
        },
        content: FrameContent::Data,
        payload: Vec::new(),
    }
    .encode();
    let delay = service.radio_receive(&frame);
    assert_eq!(delay, 10);
    let (ack, delay) = service.build_packet();
    assert_eq!(delay, 0);
    // An immediate acknowledgement echoing sequence 0x77.
    assert_eq!(ack, vec![0x02, 0x00, 0x77]);
    // The state machine itself did not advance.
    assert_eq!(service.state(), State::Orphan);
}

#[test]
fn undecodable_packet_changes_nothing() {
    let mut service = Service::new(1);
    assert_eq!(service.radio_receive(&[0x04, 0x00, 0x00]), 0);
    assert_eq!(service.state(), State::Orphan);
}

#[test]
fn network_layer_walks_every_state_in_order() {
    let mut layer = NetworkLayer::new(0x0011223344556677);
    assert_eq!(layer.state(), NetworkState::Orphan);
    let _ = layer.build_packet();
    assert_eq!(layer.state(), NetworkState::ActiveScan);
    layer.radio_receive(&beacon_frame(true));
    assert_eq!(layer.state(), NetworkState::Join);
    let _ = layer.build_packet();
    layer.radio_receive(&acknowledge_frame(2));
    assert_eq!(layer.state(), NetworkState::QueryStatus);
    let _ = layer.build_packet();
    layer.radio_receive(&association_response_frame(0x4321, AssociationStatus::Successful));
    assert_eq!(layer.state(), NetworkState::Associated);
}

#[test]
fn network_layer_ack_delay_is_five_microseconds() {
    let mut layer = NetworkLayer::new(0x0011223344556677);
    let frame = Frame {
        header: MacHeader {
            sequence: 0x01,
            frame_type: FrameType::Data,
            security: false,
            frame_pending: false,
            ack_request: true,
            pan_id_compress: false,
            version: FrameVersion::Ieee802154_2003,
            destination: Address::Extended(0x1234, 0x0011223344556677),
            source: Address::Short(0x1234, 0x0001),
        },
        content: FrameContent::Data,
        payload: Vec::new(),
    }
    .encode();
    assert_eq!(layer.radio_receive(&frame), 5);
}
