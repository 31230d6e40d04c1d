//! Network-layer association controller.
//!
//! The same finite-state association controller as the MAC service, kept as
//! the network layer drives it: it differs in scheduling the immediate
//! acknowledgement five microseconds after reception instead of ten.

use vstd::prelude::*;

use crate::mac::{
    frame_bytes, spec_parse_frame, Address, CapabilityInformation, ContentView, Frame,
    FrameContent, FrameType, FrameVersion, FrameView, MacCommand, MacHeader,
    AssociationStatus,
};

verus! {

/// The states of the association controller, in the order they are passed.
#[derive(Clone, Copy, Debug, Eq, PartialEq, Structural)]
pub enum NetworkState {
    Orphan,
    ActiveScan,
    Join,
    QueryStatus,
    Associated,
}

/// A device identity: PAN identifier and short address once assigned, and
/// the fixed extended address.
#[derive(Clone, Copy, Debug, PartialEq, Eq, Structural)]
pub struct NetworkIdentity {
    pub id: Option<u16>,
    pub short: Option<u16>,
    pub extended: Option<u64>,
}

impl NetworkIdentity {
    /// An identity with nothing assigned.
    pub fn new() -> (r: NetworkIdentity)
        ensures
            r == (NetworkIdentity { id: Option::None, short: Option::None, extended: Option::None }),
    {
        NetworkIdentity { id: Option::None, short: Option::None, extended: Option::None }
    }
}

/// The association service: its state, sequence counter, pending-acknowledge
/// flag, the two identities and the last received header.
#[derive(Clone, Copy, Debug)]
pub struct NetworkLayer {
    pub state: NetworkState,
    pub sequence: u8,
    pub pending_acknowledge: bool,
    pub id: NetworkIdentity,
    pub coordinator_id: NetworkIdentity,
    pub last_header: MacHeader,
}

/// What the service relies on of itself: its own extended address is fixed,
/// and from the `Join` state on a candidate coordinator is recorded.
pub open spec fn network_wf(s: NetworkLayer) -> bool {
    &&& s.id.extended is Some
    &&& (s.state == NetworkState::Join || s.state == NetworkState::QueryStatus || s.state == NetworkState::Associated)
        ==> s.coordinator_id.id is Some && s.coordinator_id.short is Some
}

/// Whether a received header asks this device for an immediate
/// acknowledgement: the acknowledge-request bit is set and the destination
/// names the device's current identity.
pub open spec fn acknowledge_requested(s: NetworkLayer, h: MacHeader) -> bool {
    h.ack_request && match h.destination {
        Address::Absent => false,
        Address::Short(_, dst) => s.id.short == Option::Some(dst),
        Address::Extended(_, dst) => s.id.extended == Option::Some(dst),
    }
}

/// The step a received beacon causes: a beacon from a short-addressed
/// coordinator that permits association, received while scanning, records
/// the sender as the candidate coordinator and moves the service to `Join`.
pub open spec fn beacon_step(s: NetworkLayer, f: FrameView) -> NetworkLayer {
    match (f.header.source, f.content) {
        (Address::Short(src_id, src_short), ContentView::Beacon(b)) => {
            if b.superframe_spec.pan_coordinator && b.superframe_spec.association_permit
                && s.state == NetworkState::ActiveScan {
                NetworkLayer {
                    coordinator_id: NetworkIdentity {
                        id: Option::Some(src_id),
                        short: Option::Some(src_short),
                        extended: s.coordinator_id.extended,
                    },
                    state: NetworkState::Join,
                    ..s
                }
            } else {
                s
            }
        },
        _ => s,
    }
}

/// The step a received MAC command causes: a successful association
/// response, received while querying status, adopts the assigned short
/// address and PAN identifier and completes the association.
pub open spec fn command_step(s: NetworkLayer, f: FrameView) -> NetworkLayer {
    match f.content {
        ContentView::Command(MacCommand::AssociationResponse(addr, status)) => {
            if status == AssociationStatus::Successful && s.state == NetworkState::QueryStatus {
                NetworkLayer {
                    id: NetworkIdentity {
                        id: f.header.source.spec_pan_id(),
                        short: Option::Some(addr),
                        extended: s.id.extended,
                    },
                    state: NetworkState::Associated,
                    ..s
                }
            } else {
                s
            }
        },
        _ => s,
    }
}

/// The step a received acknowledgement causes: the acknowledgement matching
/// the last transmitted sequence number, received while joining, confirms
/// the association request and moves the service on to `QueryStatus`.
pub open spec fn acknowledge_step(s: NetworkLayer, f: FrameView) -> (NetworkLayer, u32) {
    if f.header.sequence == s.sequence && s.state == NetworkState::Join {
        (NetworkLayer { state: NetworkState::QueryStatus, ..s }, 10u32)
    } else {
        (s, 0u32)
    }
}

/// The full step a received frame causes: the pending-acknowledge flag is
/// recomputed, the frame is handled by type, the header is retained, and the
/// returned delay asks for an immediate acknowledgement ahead of any other
/// pending transmission.
pub open spec fn spec_radio_receive(s: NetworkLayer, f: FrameView) -> (NetworkLayer, u32) {
    let pending = acknowledge_requested(s, f.header);
    let (s1, pending_tx) = match f.header.frame_type {
        FrameType::Acknowledgement => acknowledge_step(s, f),
        FrameType::Beacon => (beacon_step(s, f), 0u32),
        FrameType::Data => (s, 0u32),
        FrameType::MacCommand => (command_step(s, f), 0u32),
    };
    let s2 = NetworkLayer { pending_acknowledge: pending, last_header: f.header, ..s1 };
    (s2, if pending {
        5u32
    } else {
        pending_tx
    })
}

/// An immediate acknowledgement frame echoing a received sequence number.
pub open spec fn acknowledge_frame(sequence: u8) -> FrameView {
    FrameView {
        header: MacHeader {
            sequence,
            frame_type: FrameType::Acknowledgement,
            security: false,
            frame_pending: false,
            ack_request: false,
            pan_id_compress: false,
            version: FrameVersion::Ieee802154_2003,
            destination: Address::Absent,
            source: Address::Absent,
        },
        content: ContentView::Acknowledgement,
        payload: Seq::empty(),
    }
}

/// A broadcast beacon request.
pub open spec fn beacon_request_frame(sequence: u8) -> FrameView {
    FrameView {
        header: MacHeader {
            sequence,
            frame_type: FrameType::MacCommand,
            security: false,
            frame_pending: false,
            ack_request: false,
            pan_id_compress: false,
            version: FrameVersion::Ieee802154_2003,
            destination: Address::Short(0xffff, 0xffff),
            source: Address::Absent,
        },
        content: ContentView::Command(MacCommand::BeaconRequest),
        payload: Seq::empty(),
    }
}

/// The capability information this device announces: a full-function,
/// mains-powered device that receives while idle and asks for an address.
pub open spec fn device_capability() -> CapabilityInformation {
    CapabilityInformation {
        full_function_device: true,
        mains_power: true,
        idle_receive: true,
        frame_protection: false,
        allocate_address: true,
    }
}

/// An association request to the candidate coordinator, acknowledgement
/// requested, sent from the device's extended address on the broadcast PAN.
pub open spec fn association_request_frame(
    sequence: u8,
    coordinator: NetworkIdentity,
    extended: u64,
) -> FrameView {
    FrameView {
        header: MacHeader {
            sequence,
            frame_type: FrameType::MacCommand,
            security: false,
            frame_pending: false,
            ack_request: true,
            pan_id_compress: false,
            version: FrameVersion::Ieee802154_2003,
            destination: Address::Short(coordinator.id->0, coordinator.short->0),
            source: Address::Extended(0xffff, extended),
        },
        content: ContentView::Command(MacCommand::AssociationRequest(device_capability())),
        payload: Seq::empty(),
    }
}

/// A data request polling the coordinator, with the PAN identifier
/// compressed between the two addresses.
pub open spec fn data_request_frame(sequence: u8, coordinator: NetworkIdentity, extended: u64)
    -> FrameView {
    FrameView {
        header: MacHeader {
            sequence,
            frame_type: FrameType::MacCommand,
            security: false,
            frame_pending: false,
            ack_request: true,
            pan_id_compress: true,
            version: FrameVersion::Ieee802154_2003,
            destination: Address::Short(coordinator.id->0, coordinator.short->0),
            source: Address::Extended(coordinator.id->0, extended),
        },
        content: ContentView::Command(MacCommand::DataRequest),
        payload: Seq::empty(),
    }
}

/// The sequence counter after one transmission: incremented, wrapping at
/// the top of its eight bits.
pub open spec fn next_sequence(s: u8) -> u8 {
    if s == 255 {
        0
    } else {
        (s + 1) as u8
    }
}

/// The transmission the service builds next: an immediate acknowledgement
/// when one is pending, otherwise the frame its state asks for, with the
/// delay before the next timer fire.
pub open spec fn spec_build_packet(s: NetworkLayer) -> (NetworkLayer, Seq<u8>, u32) {
    if s.pending_acknowledge {
        (
            NetworkLayer { pending_acknowledge: false, ..s },
            frame_bytes(acknowledge_frame(s.last_header.sequence)),
            0u32,
        )
    } else {
        match s.state {
            NetworkState::Orphan => {
                let seq = next_sequence(s.sequence);
                (
                    NetworkLayer { sequence: seq, state: NetworkState::ActiveScan, ..s },
                    frame_bytes(beacon_request_frame(seq)),
                    1_000_000u32,
                )
            },
            NetworkState::ActiveScan => (NetworkLayer { state: NetworkState::Orphan, ..s }, Seq::empty(), 29_000_000u32),
            NetworkState::Join => {
                let seq = next_sequence(s.sequence);
                (
                    NetworkLayer { sequence: seq, ..s },
                    frame_bytes(association_request_frame(seq, s.coordinator_id, s.id.extended->0)),
                    1_000_000u32,
                )
            },
            NetworkState::QueryStatus => {
                let seq = next_sequence(s.sequence);
                (
                    NetworkLayer { sequence: seq, ..s },
                    frame_bytes(data_request_frame(seq, s.coordinator_id, s.id.extended->0)),
                    1_000_000u32,
                )
            },
            NetworkState::Associated => (s, Seq::empty(), 0u32),
        }
    }
}

impl NetworkLayer {
    /// A fresh service: orphaned, with only the extended address known.
    pub fn new(extended: u64) -> (r: NetworkLayer)
        ensures
            r.state == NetworkState::Orphan,
            r.sequence == 0,
            !r.pending_acknowledge,
            r.id == (NetworkIdentity {
                id: Option::None,
                short: Option::None,
                extended: Option::Some(extended),
            }),
            r.coordinator_id == (NetworkIdentity {
                id: Option::None,
                short: Option::None,
                extended: Option::None,
            }),
            network_wf(r),
    {
        NetworkLayer {
            state: NetworkState::Orphan,
            sequence: 0,
            pending_acknowledge: false,
            id: NetworkIdentity {
                id: Option::None,
                short: Option::None,
                extended: Option::Some(extended),
            },
            coordinator_id: NetworkIdentity::new(),
            last_header: MacHeader {
                sequence: 0,
                frame_type: FrameType::Acknowledgement,
                security: false,
                frame_pending: false,
                ack_request: false,
                pan_id_compress: false,
                version: FrameVersion::Ieee802154_2003,
                destination: Address::Absent,
                source: Address::Absent,
            },
        }
    }

    /// The current state of the association.
    pub fn state(&self) -> (r: NetworkState)
        ensures
            r == self.state,
    {
        self.state
    }

    /// Handle a received packet: decode it as a MAC frame and take the step
    /// it causes. A packet that does not decode changes nothing. Returns the
    /// delay in microseconds before the next transmission should be built,
    /// zero for none.
    pub fn radio_receive(&mut self, data: &[u8]) -> (r: u32)
        requires
            network_wf(*old(self)),
        ensures
            network_wf(*final(self)),
            match spec_parse_frame(data@) {
                Ok(f) => *final(self) == spec_radio_receive(*old(self), f).0 && r
                    == spec_radio_receive(*old(self), f).1,
                Err(_) => *final(self) == *old(self) && r == 0,
            },
    {
        let frame = match crate::mac::unpack(data) {
            Ok(frame) => frame,
            Err(_) => {
                return 0;
            },
        };
        let pending = if frame.header.ack_request {
            match frame.header.destination {
                Address::Absent => false,
                Address::Short(_, dst) => {
                    match self.id.short {
                        Option::Some(address) => address == dst,
                        Option::None => false,
                    }
                },
                Address::Extended(_, dst) => {
                    match self.id.extended {
                        Option::Some(address) => address == dst,
                        Option::None => false,
                    }
                },
            }
        } else {
            false
        };
        let pending_tx: u32 = match frame.header.frame_type {
            FrameType::Acknowledgement => self.handle_acknowledge(&frame),
            FrameType::Beacon => self.handle_beacon(&frame),
            FrameType::Data => 0,
            FrameType::MacCommand => self.handle_mac_command(&frame),
        };
        self.pending_acknowledge = pending;
        self.last_header = frame.header;
        if pending {
            5  // send the acknowledgement after 5 us
        } else {
            pending_tx
        }
    }

    fn handle_beacon(&mut self, frame: &Frame) -> (r: u32)
        ensures
            *final(self) == beacon_step(*old(self), frame@),
            r == 0,
            final(self).id == old(self).id,
            final(self).coordinator_id.id is Some || final(self).coordinator_id
                == old(self).coordinator_id,
            final(self).state == NetworkState::Join || *final(self) == *old(self),
    {
        let (src_id, src_short) = match frame.header.source {
            Address::Short(id, short) => (id, short),
            _ => {
                return 0;
            },
        };
        if let FrameContent::Beacon(beacon) = &frame.content {
            if beacon.superframe_spec.pan_coordinator && beacon.superframe_spec.association_permit {
                if let NetworkState::ActiveScan = self.state {
                    self.coordinator_id.id = Option::Some(src_id);
                    self.coordinator_id.short = Option::Some(src_short);
                    self.state = NetworkState::Join;
                }
            }
        }
        0
    }

    fn handle_mac_command(&mut self, frame: &Frame) -> (r: u32)
        ensures
            *final(self) == command_step(*old(self), frame@),
            r == 0,
    {
        if let FrameContent::Command(command) = &frame.content {
            if let MacCommand::AssociationResponse(addr, status) = command {
                if *status == AssociationStatus::Successful {
                    if let NetworkState::QueryStatus = self.state {
                        self.id.id = frame.header.source.pan_id();
                        self.id.short = Option::Some(*addr);
                        self.state = NetworkState::Associated;
                    }
                }
            }
        }
        0
    }

    fn handle_acknowledge(&mut self, frame: &Frame) -> (r: u32)
        ensures
            *final(self) == acknowledge_step(*old(self), frame@).0,
            r == acknowledge_step(*old(self), frame@).1,
    {
        if frame.header.sequence == self.sequence {
            match self.state {
                NetworkState::Join => {
                    self.state = NetworkState::QueryStatus;
                    10
                },
                _ => 0,
            }
        } else {
            0
        }
    }

    fn sequence_next(&mut self) -> (r: u8)
        ensures
            r == next_sequence(old(self).sequence),
            *final(self) == (NetworkLayer { sequence: r, ..*old(self) }),
    {
        self.sequence = if self.sequence == 255 {
            0
        } else {
            self.sequence + 1
        };
        self.sequence
    }

    /// Build the next transmission: the encoded frame (empty when nothing is
    /// to be sent) and the delay in microseconds before the next timer fire.
    pub fn build_packet(&mut self) -> (r: (Vec<u8>, u32))
        requires
            network_wf(*old(self)),
        ensures
            network_wf(*final(self)),
            *final(self) == spec_build_packet(*old(self)).0,
            r.0@ == spec_build_packet(*old(self)).1,
            r.1 == spec_build_packet(*old(self)).2,
    {
        if self.pending_acknowledge {
            let frame = Frame {
                header: MacHeader {
                    sequence: self.last_header.sequence,
                    frame_type: FrameType::Acknowledgement,
                    security: false,
                    frame_pending: false,
                    ack_request: false,
                    pan_id_compress: false,
                    version: FrameVersion::Ieee802154_2003,
                    destination: Address::Absent,
                    source: Address::Absent,
                },
                content: FrameContent::Acknowledgement,
                payload: Vec::new(),
            };
            self.pending_acknowledge = false;
            proof {
                assert(frame@.payload =~= Seq::<u8>::empty());
            }
            (frame.encode(), 0)
        } else {
            match self.state {
                NetworkState::Orphan => {
                    let seq = self.sequence_next();
                    let frame = Frame {
                        header: MacHeader {
                            sequence: seq,
                            frame_type: FrameType::MacCommand,
                            security: false,
                            frame_pending: false,
                            ack_request: false,
                            pan_id_compress: false,
                            version: FrameVersion::Ieee802154_2003,
                            destination: Address::broadcast_short(),
                            source: Address::Absent,
                        },
                        content: FrameContent::Command(MacCommand::BeaconRequest),
                        payload: Vec::new(),
                    };
                    self.state = NetworkState::ActiveScan;
                    proof {
                        assert(frame@.payload =~= Seq::<u8>::empty());
                    }
                    (frame.encode(), 1_000_000)
                },
                NetworkState::ActiveScan => {
                    self.state = NetworkState::Orphan;
                    (Vec::new(), 29_000_000)
                },
                NetworkState::Join => {
                    let seq = self.sequence_next();
                    let command = MacCommand::AssociationRequest(
                        CapabilityInformation {
                            full_function_device: true,
                            mains_power: true,
                            idle_receive: true,
                            frame_protection: false,
                            allocate_address: true,
                        },
                    );
                    let coordinator_pan = match self.coordinator_id.id {
                        Option::Some(pan) => pan,
                        Option::None => {
                            proof {
                                assert(false);
                            }
                            0
                        },
                    };
                    let coordinator_short = match self.coordinator_id.short {
                        Option::Some(short) => short,
                        Option::None => {
                            proof {
                                assert(false);
                            }
                            0
                        },
                    };
                    let extended = match self.id.extended {
                        Option::Some(extended) => extended,
                        Option::None => {
                            proof {
                                assert(false);
                            }
                            0
                        },
                    };
                    let frame = Frame {
                        header: MacHeader {
                            sequence: seq,
                            frame_type: FrameType::MacCommand,
                            security: false,
                            frame_pending: false,
                            ack_request: true,
                            pan_id_compress: false,
                            version: FrameVersion::Ieee802154_2003,
                            destination: Address::Short(coordinator_pan, coordinator_short),
                            source: Address::Extended(0xffff, extended),
                        },
                        content: FrameContent::Command(command),
                        payload: Vec::new(),
                    };
                    proof {
                        assert(frame@.payload =~= Seq::<u8>::empty());
                    }
                    (frame.encode(), 1_000_000)
                },
                NetworkState::QueryStatus => {
                    let seq = self.sequence_next();
                    let coordinator_pan = match self.coordinator_id.id {
                        Option::Some(pan) => pan,
                        Option::None => {
                            proof {
                                assert(false);
                            }
                            0
                        },
                    };
                    let coordinator_short = match self.coordinator_id.short {
                        Option::Some(short) => short,
                        Option::None => {
                            proof {
                                assert(false);
                            }
                            0
                        },
                    };
                    let extended = match self.id.extended {
                        Option::Some(extended) => extended,
                        Option::None => {
                            proof {
                                assert(false);
                            }
                            0
                        },
                    };
                    let frame = Frame {
                        header: MacHeader {
                            sequence: seq,
                            frame_type: FrameType::MacCommand,
                            security: false,
                            frame_pending: false,
                            ack_request: true,
                            pan_id_compress: true,
                            version: FrameVersion::Ieee802154_2003,
                            destination: Address::Short(coordinator_pan, coordinator_short),
                            source: Address::Extended(coordinator_pan, extended),
                        },
                        content: FrameContent::Command(MacCommand::DataRequest),
                        payload: Vec::new(),
                    };
                    proof {
                        assert(frame@.payload =~= Seq::<u8>::empty());
                    }
                    (frame.encode(), 1_000_000)
                },
                NetworkState::Associated => (Vec::new(), 0),
            }
        }
    }
}

/// From `Orphan`, a timer fire, a qualifying beacon, the matching
/// acknowledgement, another timer fire and a successful association response
/// drive the service through `ActiveScan`, `Join` and `QueryStatus` to
/// `Associated`, in that order and skipping none.
pub proof fn lemma_association_sequence(
    s0: NetworkLayer,
    beacon: FrameView,
    ack: FrameView,
    response: FrameView,
)
    requires
        network_wf(s0),
        s0.state == NetworkState::Orphan,
        !s0.pending_acknowledge,
        beacon.header.frame_type == FrameType::Beacon,
        beacon.header.source is Short,
        beacon.content matches ContentView::Beacon(b) && b.superframe_spec.pan_coordinator
            && b.superframe_spec.association_permit,
        !acknowledge_requested(spec_build_packet(s0).0, beacon.header),
        ack.header.frame_type == FrameType::Acknowledgement,
        ack.header.sequence == spec_build_packet(
            spec_radio_receive(spec_build_packet(s0).0, beacon).0,
        ).0.sequence,
        !acknowledge_requested(
            spec_build_packet(spec_radio_receive(spec_build_packet(s0).0, beacon).0).0,
            ack.header,
        ),
        response.header.frame_type == FrameType::MacCommand,
        response.content matches ContentView::Command(
            MacCommand::AssociationResponse(addr, status),
        ) && status == AssociationStatus::Successful,
    ensures
        ({
            let s1 = spec_build_packet(s0).0;
            let s2 = spec_radio_receive(s1, beacon).0;
            let s3 = spec_build_packet(s2).0;
            let s4 = spec_radio_receive(s3, ack).0;
            let s5 = spec_build_packet(s4).0;
            let s6 = spec_radio_receive(
                NetworkLayer { pending_acknowledge: false, ..s5 },
                response,
            ).0;
            s1.state == NetworkState::ActiveScan && s2.state == NetworkState::Join && s3.state == NetworkState::Join
                && s4.state == NetworkState::QueryStatus && s5.state == NetworkState::QueryStatus && s6.state
                == NetworkState::Associated
        }),
{
}

} // verus!
