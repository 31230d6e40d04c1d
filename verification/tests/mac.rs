use psila_stack::mac::{
    unpack, Address, AssociationStatus, Beacon, CapabilityInformation, DecodeError, Frame,
    FrameContent, FrameType, FrameVersion, MacCommand, MacHeader, SuperframeSpecification,
};

fn header(frame_type: FrameType, destination: Address, source: Address) -> MacHeader {
    MacHeader {
        sequence: 0x2A,
        frame_type,
        security: false,
        frame_pending: false,
        ack_request: false,
        pan_id_compress: false,
        version: FrameVersion::Ieee802154_2003,
        destination,
        source,
    }
}

#[test]
fn acknowledgement_round_trip() {
    let frame = Frame {
        header: header(FrameType::Acknowledgement, Address::Absent, Address::Absent),
        content: FrameContent::Acknowledgement,
        payload: Vec::new(),
    };
    let bytes = frame.encode();
    assert_eq!(bytes, vec![0x02, 0x00, 0x2A]);
    let back = unpack(&bytes).unwrap();
    assert_eq!(back, frame);
}

#[test]
fn data_frame_round_trip() {
    let frame = Frame {
        header: MacHeader {
            sequence: 7,
            frame_type: FrameType::Data,
            security: false,
            frame_pending: false,
            ack_request: true,
            pan_id_compress: true,
            version: FrameVersion::Ieee802154_2003,
            destination: Address::Short(0x1234, 0x5678),
            source: Address::Short(0x1234, 0x9ABC),
        },
        content: FrameContent::Data,
        payload: vec![0xDE, 0xAD, 0xBE, 0xEF],
    };
    let bytes = frame.encode();
    let back = unpack(&bytes).unwrap();
    assert_eq!(back, frame);
}

#[test]
fn extended_addresses_round_trip() {
    let frame = Frame {
        header: header(
            FrameType::Data,
            Address::Extended(0x00AA, 0x0011223344556677),
            Address::Extended(0x00BB, 0x8899AABBCCDDEEFF),
        ),
        content: FrameContent::Data,
        payload: vec![1, 2, 3],
    };
    let bytes = frame.encode();
    let back = unpack(&bytes).unwrap();
    assert_eq!(back, frame);
}

#[test]
fn command_frames_round_trip() {
    let commands = [
        MacCommand::AssociationRequest(CapabilityInformation {
            full_function_device: true,
            mains_power: true,
            idle_receive: true,
            frame_protection: false,
            allocate_address: true,
        }),
        MacCommand::AssociationResponse(0x1234, AssociationStatus::Successful),
        MacCommand::AssociationResponse(0x0000, AssociationStatus::AccessDenied),
        MacCommand::DisassociationNotification(2),
        MacCommand::DataRequest,
        MacCommand::PanIdConflictNotification,
        MacCommand::OrphanNotification,
        MacCommand::BeaconRequest,
        MacCommand::CoordinatorRealignment(0x1111, 0x2222, 15, 0x3333),
        MacCommand::GuaranteedTimeSlotRequest(0x05),
    ];
    for command in commands {
        let frame = Frame {
            header: header(
                FrameType::MacCommand,
                Address::Short(0x4242, 0x0001),
                Address::Short(0x4242, 0x0002),
            ),
            content: FrameContent::Command(command),
            payload: Vec::new(),
        };
        let bytes = frame.encode();
        let back = unpack(&bytes).unwrap();
        assert_eq!(back, frame);
    }
}

#[test]
fn beacon_round_trip() {
    let frame = Frame {
        header: header(FrameType::Beacon, Address::Absent, Address::Short(0x1122, 0x0001)),
        content: FrameContent::Beacon(Beacon {
            superframe_spec: SuperframeSpecification {
                beacon_order: 15,
                superframe_order: 15,
                final_cap_slot: 15,
                battery_life_extension: false,
                pan_coordinator: true,
                association_permit: true,
            },
            gts_permit: false,
            gts_slots: vec![(0x00AA, 0x12), (0x00BB, 0x34)],
            pending_short: vec![0x1357],
            pending_extended: vec![0x0102030405060708],
        }),
        payload: vec![0xFF],
    };
    let bytes = frame.encode();
    let back = unpack(&bytes).unwrap();
    assert_eq!(back, frame);
}

#[test]
fn decode_errors() {
    // Too short for a header.
    assert_eq!(unpack(&[0x01, 0x00]), Err(DecodeError::NotEnoughBytes));
    // Frame-type bits hold a reserved value.
    assert_eq!(unpack(&[0x04, 0x00, 0x00]), Err(DecodeError::InvalidFrameType(4)));
    // The security bit is set.
    assert_eq!(unpack(&[0x0A, 0x00, 0x00]), Err(DecodeError::SecurityNotSupported));
    // The version bits hold the reserved value.
    assert_eq!(unpack(&[0x01, 0x30, 0x00]), Err(DecodeError::InvalidFrameVersion(3)));
    // The destination addressing mode holds the reserved value.
    assert_eq!(unpack(&[0x01, 0x04, 0x00]), Err(DecodeError::InvalidAddressMode(1)));
    // A command frame whose identifier is unknown.
    assert_eq!(unpack(&[0x03, 0x00, 0x00, 0x7F]), Err(DecodeError::InvalidValue));
    // An association response with an undefined status octet.
    assert_eq!(
        unpack(&[0x03, 0x00, 0x00, 0x02, 0x34, 0x12, 0x55]),
        Err(DecodeError::InvalidValue)
    );
}

#[test]
fn pan_id_compression_reuses_destination_pan() {
    let frame = Frame {
        header: MacHeader {
            sequence: 1,
            frame_type: FrameType::Data,
            security: false,
            frame_pending: false,
            ack_request: false,
            pan_id_compress: true,
            version: FrameVersion::Ieee802154_2003,
            destination: Address::Short(0x7777, 0x0001),
            source: Address::Extended(0x7777, 0xAABBCCDD00112233),
        },
        content: FrameContent::Data,
        payload: Vec::new(),
    };
    let bytes = frame.encode();
    // Compressed: control(2) + sequence(1) + dest pan+addr(4) + source addr(8).
    assert_eq!(bytes.len(), 15);
    let back = unpack(&bytes).unwrap();
    assert_eq!(back.header.source, Address::Extended(0x7777, 0xAABBCCDD00112233));
}
