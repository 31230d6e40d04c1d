//! IEEE 802.15.4 MAC frame codec.
//!
//! Stateless decoding and encoding of the MAC header, beacon fields and MAC
//! command payloads. Decoding consumes the whole packet: whatever follows the
//! structured part is handed on as the frame payload for the next layer.

use vstd::prelude::*;

use crate::wire::{le_int, le_of, push_u16_le, push_u64_le, read_u16_le, read_u64_le};

verus! {

/// Why a packet failed to decode as a MAC frame.
#[derive(Clone, Copy, Debug, PartialEq, Eq, Structural)]
pub enum DecodeError {
    /// The packet ended before the structured part was complete
    NotEnoughBytes,
    /// The frame-type bits hold a reserved value
    InvalidFrameType(u8),
    /// The frame carries MAC-level security, which is not supported
    SecurityNotSupported,
    /// The addressing-mode bits hold a reserved value
    InvalidAddressMode(u8),
    /// The version bits hold a reserved value
    InvalidFrameVersion(u8),
    /// A field holds a value outside its defined set
    InvalidValue,
}

/// MAC frame types.
#[derive(Clone, Copy, Debug, PartialEq, Eq, Structural)]
pub enum FrameType {
    Acknowledgement,
    Beacon,
    Data,
    MacCommand,
}

/// MAC frame versions.
#[derive(Clone, Copy, Debug, PartialEq, Eq, Structural)]
pub enum FrameVersion {
    /// IEEE 802.15.4-2003
    Ieee802154_2003,
    /// IEEE 802.15.4-2006
    Ieee802154_2006,
    /// IEEE 802.15.4
    Ieee802154,
}

/// A MAC address: absent, or a PAN identifier with a short or extended
/// address.
#[derive(Clone, Copy, Debug, PartialEq, Eq, Structural)]
pub enum Address {
    Absent,
    Short(u16, u16),
    Extended(u16, u64),
}

impl Address {
    /// The PAN identifier, for an address that has one.
    pub open spec fn spec_pan_id(self) -> Option<u16> {
        match self {
            Address::Absent => Option::None,
            Address::Short(pan, _) => Option::Some(pan),
            Address::Extended(pan, _) => Option::Some(pan),
        }
    }

    /// The PAN identifier, for an address that has one.
    pub fn pan_id(&self) -> (r: Option<u16>)
        ensures
            r == self.spec_pan_id(),
    {
        match self {
            Address::Absent => Option::None,
            Address::Short(pan, _) => Option::Some(*pan),
            Address::Extended(pan, _) => Option::Some(*pan),
        }
    }

    /// The broadcast short address on the broadcast PAN.
    pub fn broadcast_short() -> (r: Address)
        ensures
            r == Address::Short(0xffffu16, 0xffffu16),
    {
        Address::Short(0xffff, 0xffff)
    }
}

/// The MAC header: control bits, sequence number and the two addresses.
#[derive(Clone, Copy, Debug, PartialEq, Eq, Structural)]
pub struct MacHeader {
    pub sequence: u8,
    pub frame_type: FrameType,
    pub security: bool,
    pub frame_pending: bool,
    pub ack_request: bool,
    pub pan_id_compress: bool,
    pub version: FrameVersion,
    pub destination: Address,
    pub source: Address,
}

/// The capability information of an association request.
#[derive(Clone, Copy, Debug, PartialEq, Eq, Structural)]
pub struct CapabilityInformation {
    pub full_function_device: bool,
    pub mains_power: bool,
    pub idle_receive: bool,
    pub frame_protection: bool,
    pub allocate_address: bool,
}

/// The status octet of an association response.
#[derive(Clone, Copy, Debug, PartialEq, Eq, Structural)]
pub enum AssociationStatus {
    Successful,
    NetworkAtCapacity,
    AccessDenied,
    HoppingSequenceOffsetDuplication,
    FastAssociationSuccessful,
}

/// A MAC command payload.
#[derive(Clone, Copy, Debug, PartialEq, Eq, Structural)]
pub enum MacCommand {
    AssociationRequest(CapabilityInformation),
    AssociationResponse(u16, AssociationStatus),
    DisassociationNotification(u8),
    DataRequest,
    PanIdConflictNotification,
    OrphanNotification,
    BeaconRequest,
    CoordinatorRealignment(u16, u16, u8, u16),
    GuaranteedTimeSlotRequest(u8),
}

/// The superframe specification of a beacon.
#[derive(Clone, Copy, Debug, PartialEq, Eq, Structural)]
pub struct SuperframeSpecification {
    pub beacon_order: u8,
    pub superframe_order: u8,
    pub final_cap_slot: u8,
    pub battery_life_extension: bool,
    pub pan_coordinator: bool,
    pub association_permit: bool,
}

/// The structured part of a beacon frame.
#[derive(Clone, Debug, PartialEq, Eq)]
pub struct Beacon {
    pub superframe_spec: SuperframeSpecification,
    pub gts_permit: bool,
    pub gts_slots: Vec<(u16, u8)>,
    pub pending_short: Vec<u16>,
    pub pending_extended: Vec<u64>,
}

/// The mathematical value of a beacon.
pub struct BeaconView {
    pub superframe_spec: SuperframeSpecification,
    pub gts_permit: bool,
    pub gts_slots: Seq<(u16, u8)>,
    pub pending_short: Seq<u16>,
    pub pending_extended: Seq<u64>,
}

impl View for Beacon {
    type V = BeaconView;

    open spec fn view(&self) -> BeaconView {
        BeaconView {
            superframe_spec: self.superframe_spec,
            gts_permit: self.gts_permit,
            gts_slots: self.gts_slots@,
            pending_short: self.pending_short@,
            pending_extended: self.pending_extended@,
        }
    }
}

/// The content of a frame, determined by its frame type.
#[derive(Clone, Debug, PartialEq, Eq)]
pub enum FrameContent {
    Acknowledgement,
    Beacon(Beacon),
    Data,
    Command(MacCommand),
}

/// The mathematical value of a frame content.
pub enum ContentView {
    Acknowledgement,
    Beacon(BeaconView),
    Data,
    Command(MacCommand),
}

impl View for FrameContent {
    type V = ContentView;

    open spec fn view(&self) -> ContentView {
        match self {
            FrameContent::Acknowledgement => ContentView::Acknowledgement,
            FrameContent::Beacon(b) => ContentView::Beacon(b@),
            FrameContent::Data => ContentView::Data,
            FrameContent::Command(c) => ContentView::Command(*c),
        }
    }
}

/// A decoded MAC frame: the header, the structured content, and the
/// remaining bytes as payload for the next layer.
#[derive(Clone, Debug, PartialEq, Eq)]
pub struct Frame {
    pub header: MacHeader,
    pub content: FrameContent,
    pub payload: Vec<u8>,
}

/// The mathematical value of a frame.
pub struct FrameView {
    pub header: MacHeader,
    pub content: ContentView,
    pub payload: Seq<u8>,
}

impl View for Frame {
    type V = FrameView;

    open spec fn view(&self) -> FrameView {
        FrameView { header: self.header, content: self.content@, payload: self.payload@ }
    }
}

/// A 16-bit little-endian field of a byte sequence.
pub open spec fn spec_le16(b: Seq<u8>, pos: int) -> u16 {
    le_int(b.subrange(pos, pos + 2)) as u16
}

/// A 64-bit little-endian field of a byte sequence.
pub open spec fn spec_le64(b: Seq<u8>, pos: int) -> u64 {
    le_int(b.subrange(pos, pos + 8)) as u64
}

/// The frame type of the low three frame-control bits; values over three are
/// reserved.
pub open spec fn frame_type_of(bits: u8) -> FrameType {
    if bits == 0 {
        FrameType::Beacon
    } else if bits == 1 {
        FrameType::Data
    } else if bits == 2 {
        FrameType::Acknowledgement
    } else {
        FrameType::MacCommand
    }
}

/// The version of the two version bits; the value three is reserved.
pub open spec fn version_of(bits: u8) -> FrameVersion {
    if bits == 0 {
        FrameVersion::Ieee802154_2003
    } else if bits == 1 {
        FrameVersion::Ieee802154_2006
    } else {
        FrameVersion::Ieee802154
    }
}

/// Parse of the destination address at `pos` under the given addressing
/// mode: PAN identifier first, then the address, both little-endian.
pub open spec fn spec_parse_dest(b: Seq<u8>, pos: int, mode: u8) -> Result<
    (Address, int),
    DecodeError,
> {
    if mode == 0 {
        Ok((Address::Absent, pos))
    } else if mode == 2 {
        if pos + 4 <= b.len() {
            Ok((Address::Short(spec_le16(b, pos), spec_le16(b, pos + 2)), pos + 4))
        } else {
            Err(DecodeError::NotEnoughBytes)
        }
    } else if mode == 3 {
        if pos + 10 <= b.len() {
            Ok((Address::Extended(spec_le16(b, pos), spec_le64(b, pos + 2)), pos + 10))
        } else {
            Err(DecodeError::NotEnoughBytes)
        }
    } else {
        Err(DecodeError::InvalidAddressMode(mode))
    }
}

/// Parse of the source address: under PAN identifier compression the PAN
/// identifier is taken from the destination instead of the wire, and a frame
/// that compresses against an absent destination is invalid.
pub open spec fn spec_parse_src(b: Seq<u8>, pos: int, mode: u8, compress: bool, dest: Address)
    -> Result<(Address, int), DecodeError> {
    if mode == 0 {
        Ok((Address::Absent, pos))
    } else if mode == 2 {
        if compress {
            match dest.spec_pan_id() {
                Option::Some(pan) => if pos + 2 <= b.len() {
                    Ok((Address::Short(pan, spec_le16(b, pos)), pos + 2))
                } else {
                    Err(DecodeError::NotEnoughBytes)
                },
                Option::None => Err(DecodeError::InvalidValue),
            }
        } else {
            if pos + 4 <= b.len() {
                Ok((Address::Short(spec_le16(b, pos), spec_le16(b, pos + 2)), pos + 4))
            } else {
                Err(DecodeError::NotEnoughBytes)
            }
        }
    } else if mode == 3 {
        if compress {
            match dest.spec_pan_id() {
                Option::Some(pan) => if pos + 8 <= b.len() {
                    Ok((Address::Extended(pan, spec_le64(b, pos)), pos + 8))
                } else {
                    Err(DecodeError::NotEnoughBytes)
                },
                Option::None => Err(DecodeError::InvalidValue),
            }
        } else {
            if pos + 10 <= b.len() {
                Ok((Address::Extended(spec_le16(b, pos), spec_le64(b, pos + 2)), pos + 10))
            } else {
                Err(DecodeError::NotEnoughBytes)
            }
        }
    } else {
        Err(DecodeError::InvalidAddressMode(mode))
    }
}

/// Parse of the beacon fields: superframe specification, guaranteed time
/// slots and pending addresses.
pub open spec fn spec_parse_beacon(b: Seq<u8>, pos: int) -> Result<(BeaconView, int), DecodeError> {
    if pos + 4 > b.len() {
        Err(DecodeError::NotEnoughBytes)
    } else {
        let ss = spec_le16(b, pos);
        let spec = SuperframeSpecification {
            beacon_order: (ss & 0xf) as u8,
            superframe_order: ((ss >> 4) & 0xf) as u8,
            final_cap_slot: ((ss >> 8) & 0xf) as u8,
            battery_life_extension: ss & 0x1000 != 0,
            pan_coordinator: ss & 0x4000 != 0,
            association_permit: ss & 0x8000 != 0,
        };
        let gts_byte = b[pos + 2];
        let gts_count = (gts_byte & 0x7) as int;
        let p1 = pos + 3;
        if p1 + 3 * gts_count + 1 > b.len() {
            Err(DecodeError::NotEnoughBytes)
        } else {
            let slots = Seq::new(
                gts_count as nat,
                |i: int| (spec_le16(b, p1 + 3 * i), b[p1 + 3 * i + 2]),
            );
            let p2 = p1 + 3 * gts_count;
            let pend_byte = b[p2];
            let sc = (pend_byte & 0x7) as int;
            let ec = ((pend_byte >> 4) & 0x7) as int;
            let p3 = p2 + 1;
            if p3 + 2 * sc + 8 * ec > b.len() {
                Err(DecodeError::NotEnoughBytes)
            } else {
                let shorts = Seq::new(sc as nat, |i: int| spec_le16(b, p3 + 2 * i));
                let exts = Seq::new(ec as nat, |i: int| spec_le64(b, p3 + 2 * sc + 8 * i));
                let beacon = BeaconView {
                    superframe_spec: spec,
                    gts_permit: gts_byte & 0x80 != 0,
                    gts_slots: slots,
                    pending_short: shorts,
                    pending_extended: exts,
                };
                Ok((beacon, p3 + 2 * sc + 8 * ec))
            }
        }
    }
}

/// Parse of a MAC command payload, selected by the command identifier octet.
pub open spec fn spec_parse_command(b: Seq<u8>, pos: int) -> Result<
    (MacCommand, int),
    DecodeError,
> {
    if pos + 1 > b.len() {
        Err(DecodeError::NotEnoughBytes)
    } else {
        let id = b[pos];
        let p = pos + 1;
        if id == 1 {
            if p + 1 > b.len() {
                Err(DecodeError::NotEnoughBytes)
            } else {
                let cap = b[p];
                Ok(
                    (
                        MacCommand::AssociationRequest(
                            CapabilityInformation {
                                full_function_device: cap & 0x02 != 0,
                                mains_power: cap & 0x04 != 0,
                                idle_receive: cap & 0x08 != 0,
                                frame_protection: cap & 0x40 != 0,
                                allocate_address: cap & 0x80 != 0,
                            },
                        ),
                        p + 1,
                    ),
                )
            }
        } else if id == 2 {
            if p + 3 > b.len() {
                Err(DecodeError::NotEnoughBytes)
            } else {
                match status_of(b[p + 2]) {
                    Option::Some(status) => Ok(
                        (MacCommand::AssociationResponse(spec_le16(b, p), status), p + 3),
                    ),
                    Option::None => Err(DecodeError::InvalidValue),
                }
            }
        } else if id == 3 {
            if p + 1 > b.len() {
                Err(DecodeError::NotEnoughBytes)
            } else if b[p] == 1 || b[p] == 2 {
                Ok((MacCommand::DisassociationNotification(b[p]), p + 1))
            } else {
                Err(DecodeError::InvalidValue)
            }
        } else if id == 4 {
            Ok((MacCommand::DataRequest, p))
        } else if id == 5 {
            Ok((MacCommand::PanIdConflictNotification, p))
        } else if id == 6 {
            Ok((MacCommand::OrphanNotification, p))
        } else if id == 7 {
            Ok((MacCommand::BeaconRequest, p))
        } else if id == 8 {
            if p + 7 > b.len() {
                Err(DecodeError::NotEnoughBytes)
            } else {
                Ok(
                    (
                        MacCommand::CoordinatorRealignment(
                            spec_le16(b, p),
                            spec_le16(b, p + 2),
                            b[p + 4],
                            spec_le16(b, p + 5),
                        ),
                        p + 7,
                    ),
                )
            }
        } else if id == 9 {
            if p + 1 > b.len() {
                Err(DecodeError::NotEnoughBytes)
            } else {
                Ok((MacCommand::GuaranteedTimeSlotRequest(b[p]), p + 1))
            }
        } else {
            Err(DecodeError::InvalidValue)
        }
    }
}

/// The association status of a status octet, where defined.
pub open spec fn status_of(bits: u8) -> Option<AssociationStatus> {
    if bits == 0 {
        Option::Some(AssociationStatus::Successful)
    } else if bits == 1 {
        Option::Some(AssociationStatus::NetworkAtCapacity)
    } else if bits == 2 {
        Option::Some(AssociationStatus::AccessDenied)
    } else if bits == 3 {
        Option::Some(AssociationStatus::HoppingSequenceOffsetDuplication)
    } else if bits == 0x80 {
        Option::Some(AssociationStatus::FastAssociationSuccessful)
    } else {
        Option::None
    }
}

/// Parse of the content that a frame type asks for.
pub open spec fn spec_parse_content(b: Seq<u8>, pos: int, ft: FrameType) -> Result<
    (ContentView, int),
    DecodeError,
> {
    match ft {
        FrameType::Acknowledgement => Ok((ContentView::Acknowledgement, pos)),
        FrameType::Data => Ok((ContentView::Data, pos)),
        FrameType::Beacon => match spec_parse_beacon(b, pos) {
            Ok((beacon, p)) => Ok((ContentView::Beacon(beacon), p)),
            Err(e) => Err(e),
        },
        FrameType::MacCommand => match spec_parse_command(b, pos) {
            Ok((c, p)) => Ok((ContentView::Command(c), p)),
            Err(e) => Err(e),
        },
    }
}

/// The layered parse of a whole MAC frame: frame control, sequence number,
/// addresses, content, and the remaining bytes as payload.
pub open spec fn spec_parse_frame(b: Seq<u8>) -> Result<FrameView, DecodeError> {
    if b.len() < 3 {
        Err(DecodeError::NotEnoughBytes)
    } else {
        let fc = spec_le16(b, 0);
        let ftb = (fc & 0x7) as u8;
        if ftb > 3 {
            Err(DecodeError::InvalidFrameType(ftb))
        } else if fc & 0x8 != 0 {
            Err(DecodeError::SecurityNotSupported)
        } else {
            let vb = ((fc >> 12) & 0x3) as u8;
            if vb == 3 {
                Err(DecodeError::InvalidFrameVersion(vb))
            } else {
                match spec_parse_dest(b, 3, ((fc >> 10) & 0x3) as u8) {
                    Err(e) => Err(e),
                    Ok((dest, p1)) => match spec_parse_src(
                        b,
                        p1,
                        ((fc >> 14) & 0x3) as u8,
                        fc & 0x40 != 0,
                        dest,
                    ) {
                        Err(e) => Err(e),
                        Ok((src, p2)) => {
                            let ft = frame_type_of(ftb);
                            match spec_parse_content(b, p2, ft) {
                                Err(e) => Err(e),
                                Ok((content, p3)) => Ok(
                                    FrameView {
                                        header: MacHeader {
                                            sequence: b[2],
                                            frame_type: ft,
                                            security: false,
                                            frame_pending: fc & 0x10 != 0,
                                            ack_request: fc & 0x20 != 0,
                                            pan_id_compress: fc & 0x40 != 0,
                                            version: version_of(vb),
                                            destination: dest,
                                            source: src,
                                        },
                                        content,
                                        payload: b.skip(p3),
                                    },
                                ),
                            }
                        },
                    },
                }
            }
        }
    }
}

/// Whether an executable parse step returned exactly what the specification
/// parse says, position included.
pub open spec fn step_matches<T>(
    r: Result<(T, usize), DecodeError>,
    s: Result<(T, int), DecodeError>,
) -> bool {
    match s {
        Ok((v, p)) => r is Ok && r->Ok_0.0 == v && r->Ok_0.1 as int == p,
        Err(e) => r == Err::<(T, usize), DecodeError>(e),
    }
}

/// A 16-bit little-endian field.
fn le16(data: &[u8], pos: usize) -> (r: u16)
    requires
        pos + 2 <= data@.len(),
    ensures
        r == spec_le16(data@, pos as int),
{
    let r = read_u16_le(data, pos);
    proof {
        crate::wire::lemma_le_int_bound(data@.subrange(pos as int, pos + 2));
        assert(crate::wire::pow256(2nat) == 0x1_0000) by {
            reveal_with_fuel(crate::wire::pow256, 3);
        }
    }
    r
}

/// A 64-bit little-endian field.
fn le64(data: &[u8], pos: usize) -> (r: u64)
    requires
        pos + 8 <= data@.len(),
    ensures
        r == spec_le64(data@, pos as int),
{
    let r = read_u64_le(data, pos);
    proof {
        crate::wire::lemma_le_int_bound(data@.subrange(pos as int, pos + 8));
        assert(crate::wire::pow256(8nat) == 0x1_0000_0000_0000_0000) by {
            reveal_with_fuel(crate::wire::pow256, 9);
        }
    }
    r
}

fn parse_dest(data: &[u8], pos: usize, mode: u8) -> (r: Result<(Address, usize), DecodeError>)
    requires
        pos <= data@.len(),
    ensures
        step_matches(r, spec_parse_dest(data@, pos as int, mode)),
{
    if mode == 0 {
        Ok((Address::Absent, pos))
    } else if mode == 2 {
        if data.len() - pos >= 4 {
            Ok((Address::Short(le16(data, pos), le16(data, pos + 2)), pos + 4))
        } else {
            Err(DecodeError::NotEnoughBytes)
        }
    } else if mode == 3 {
        if data.len() - pos >= 10 {
            Ok((Address::Extended(le16(data, pos), le64(data, pos + 2)), pos + 10))
        } else {
            Err(DecodeError::NotEnoughBytes)
        }
    } else {
        Err(DecodeError::InvalidAddressMode(mode))
    }
}

fn parse_src(data: &[u8], pos: usize, mode: u8, compress: bool, dest: Address) -> (r: Result<
    (Address, usize),
    DecodeError,
>)
    requires
        pos <= data@.len(),
    ensures
        step_matches(r, spec_parse_src(data@, pos as int, mode, compress, dest)),
{
    if mode == 0 {
        Ok((Address::Absent, pos))
    } else if mode == 2 {
        if compress {
            match dest.pan_id() {
                Option::Some(pan) => {
                    if data.len() - pos >= 2 {
                        Ok((Address::Short(pan, le16(data, pos)), pos + 2))
                    } else {
                        Err(DecodeError::NotEnoughBytes)
                    }
                },
                Option::None => Err(DecodeError::InvalidValue),
            }
        } else {
            if data.len() - pos >= 4 {
                Ok((Address::Short(le16(data, pos), le16(data, pos + 2)), pos + 4))
            } else {
                Err(DecodeError::NotEnoughBytes)
            }
        }
    } else if mode == 3 {
        if compress {
            match dest.pan_id() {
                Option::Some(pan) => {
                    if data.len() - pos >= 8 {
                        Ok((Address::Extended(pan, le64(data, pos)), pos + 8))
                    } else {
                        Err(DecodeError::NotEnoughBytes)
                    }
                },
                Option::None => Err(DecodeError::InvalidValue),
            }
        } else {
            if data.len() - pos >= 10 {
                Ok((Address::Extended(le16(data, pos), le64(data, pos + 2)), pos + 10))
            } else {
                Err(DecodeError::NotEnoughBytes)
            }
        }
    } else {
        Err(DecodeError::InvalidAddressMode(mode))
    }
}

/// Whether an executable beacon parse returned exactly what the
/// specification parse says.
pub open spec fn beacon_matches(
    r: Result<(Beacon, usize), DecodeError>,
    s: Result<(BeaconView, int), DecodeError>,
) -> bool {
    match s {
        Ok((v, p)) => r is Ok && r->Ok_0.0@ == v && r->Ok_0.1 as int == p,
        Err(e) => r == Err::<(Beacon, usize), DecodeError>(e),
    }
}

fn parse_beacon(data: &[u8], pos: usize) -> (r: Result<(Beacon, usize), DecodeError>)
    requires
        pos <= data@.len(),
    ensures
        beacon_matches(r, spec_parse_beacon(data@, pos as int)),
{
    if data.len() - pos < 4 {
        return Err(DecodeError::NotEnoughBytes);
    }
    let ss = le16(data, pos);
    let spec = SuperframeSpecification {
        beacon_order: (ss & 0xf) as u8,
        superframe_order: ((ss >> 4) & 0xf) as u8,
        final_cap_slot: ((ss >> 8) & 0xf) as u8,
        battery_life_extension: ss & 0x1000 != 0,
        pan_coordinator: ss & 0x4000 != 0,
        association_permit: ss & 0x8000 != 0,
    };
    let gts_byte = data[pos + 2];
    let gts_count = (gts_byte & 0x7) as usize;
    let p1 = pos + 3;
    proof {
        assert(gts_count <= 7) by (bit_vector)
            requires
                gts_count == (gts_byte & 0x7) as usize,
        ;
    }
    if data.len() - p1 < 3 * gts_count + 1 {
        return Err(DecodeError::NotEnoughBytes);
    }
    let ghost slots_spec = Seq::new(
        gts_count as nat,
        |i: int| (spec_le16(data@, p1 + 3 * i), data@[p1 + 3 * i + 2]),
    );
    let mut slots: Vec<(u16, u8)> = Vec::new();
    let mut i: usize = 0;
    while i < gts_count
        invariant
            i <= gts_count,
            gts_count <= 7,
            data@.len() <= usize::MAX,
            p1 + 3 * gts_count + 1 <= data@.len(),
            slots@.len() == i,
            forall|j: int|
                0 <= j < i ==> slots@[j] == (spec_le16(data@, p1 + 3 * j), data@[p1 + 3 * j + 2]),
        decreases gts_count - i,
    {
        slots.push((le16(data, p1 + 3 * i), data[p1 + 3 * i + 2]));
        i += 1;
    }
    proof {
        assert(slots@ =~= slots_spec);
    }
    let p2 = p1 + 3 * gts_count;
    let pend_byte = data[p2];
    let sc = (pend_byte & 0x7) as usize;
    let ec = ((pend_byte >> 4) & 0x7) as usize;
    let p3 = p2 + 1;
    proof {
        assert(sc <= 7 && ec <= 7) by (bit_vector)
            requires
                sc == (pend_byte & 0x7) as usize && ec == ((pend_byte >> 4) & 0x7) as usize,
        ;
    }
    if data.len() - p3 < 2 * sc + 8 * ec {
        return Err(DecodeError::NotEnoughBytes);
    }
    let ghost shorts_spec = Seq::new(sc as nat, |i: int| spec_le16(data@, p3 + 2 * i));
    let mut shorts: Vec<u16> = Vec::new();
    let mut i: usize = 0;
    while i < sc
        invariant
            i <= sc,
            sc <= 7,
            data@.len() <= usize::MAX,
            p3 + 2 * sc <= data@.len(),
            shorts@.len() == i,
            forall|j: int| 0 <= j < i ==> shorts@[j] == spec_le16(data@, p3 + 2 * j),
        decreases sc - i,
    {
        shorts.push(le16(data, p3 + 2 * i));
        i += 1;
    }
    proof {
        assert(shorts@ =~= shorts_spec);
    }
    let pe = p3 + 2 * sc;
    let ghost exts_spec = Seq::new(ec as nat, |i: int| spec_le64(data@, p3 + 2 * (sc as int) + 8 * i));
    let mut exts: Vec<u64> = Vec::new();
    let mut i: usize = 0;
    while i < ec
        invariant
            i <= ec,
            ec <= 7,
            pe == p3 + 2 * sc,
            data@.len() <= usize::MAX,
            pe + 8 * ec <= data@.len(),
            exts@.len() == i,
            forall|j: int| 0 <= j < i ==> exts@[j] == spec_le64(data@, pe + 8 * j),
        decreases ec - i,
    {
        exts.push(le64(data, pe + 8 * i));
        i += 1;
    }
    proof {
        assert(exts@ =~= exts_spec);
    }
    let beacon = Beacon {
        superframe_spec: spec,
        gts_permit: gts_byte & 0x80 != 0,
        gts_slots: slots,
        pending_short: shorts,
        pending_extended: exts,
    };
    Ok((beacon, pe + 8 * ec))
}

fn parse_command(data: &[u8], pos: usize) -> (r: Result<(MacCommand, usize), DecodeError>)
    requires
        pos <= data@.len(),
    ensures
        step_matches(r, spec_parse_command(data@, pos as int)),
{
    if data.len() - pos < 1 {
        return Err(DecodeError::NotEnoughBytes);
    }
    let id = data[pos];
    let p = pos + 1;
    if id == 1 {
        if data.len() - p < 1 {
            Err(DecodeError::NotEnoughBytes)
        } else {
            let cap = data[p];
            Ok(
                (
                    MacCommand::AssociationRequest(
                        CapabilityInformation {
                            full_function_device: cap & 0x02 != 0,
                            mains_power: cap & 0x04 != 0,
                            idle_receive: cap & 0x08 != 0,
                            frame_protection: cap & 0x40 != 0,
                            allocate_address: cap & 0x80 != 0,
                        },
                    ),
                    p + 1,
                ),
            )
        }
    } else if id == 2 {
        if data.len() - p < 3 {
            Err(DecodeError::NotEnoughBytes)
        } else {
            match association_status_from_octet(data[p + 2]) {
                Option::Some(status) => Ok(
                    (MacCommand::AssociationResponse(le16(data, p), status), p + 3),
                ),
                Option::None => Err(DecodeError::InvalidValue),
            }
        }
    } else if id == 3 {
        if data.len() - p < 1 {
            Err(DecodeError::NotEnoughBytes)
        } else if data[p] == 1 || data[p] == 2 {
            Ok((MacCommand::DisassociationNotification(data[p]), p + 1))
        } else {
            Err(DecodeError::InvalidValue)
        }
    } else if id == 4 {
        Ok((MacCommand::DataRequest, p))
    } else if id == 5 {
        Ok((MacCommand::PanIdConflictNotification, p))
    } else if id == 6 {
        Ok((MacCommand::OrphanNotification, p))
    } else if id == 7 {
        Ok((MacCommand::BeaconRequest, p))
    } else if id == 8 {
        if data.len() - p < 7 {
            Err(DecodeError::NotEnoughBytes)
        } else {
            Ok(
                (
                    MacCommand::CoordinatorRealignment(
                        le16(data, p),
                        le16(data, p + 2),
                        data[p + 4],
                        le16(data, p + 5),
                    ),
                    p + 7,
                ),
            )
        }
    } else if id == 9 {
        if data.len() - p < 1 {
            Err(DecodeError::NotEnoughBytes)
        } else {
            Ok((MacCommand::GuaranteedTimeSlotRequest(data[p]), p + 1))
        }
    } else {
        Err(DecodeError::InvalidValue)
    }
}

/// The association status of a status octet, where defined.
pub fn association_status_from_octet(bits: u8) -> (r: Option<AssociationStatus>)
    ensures
        r == status_of(bits),
{
    if bits == 0 {
        Option::Some(AssociationStatus::Successful)
    } else if bits == 1 {
        Option::Some(AssociationStatus::NetworkAtCapacity)
    } else if bits == 2 {
        Option::Some(AssociationStatus::AccessDenied)
    } else if bits == 3 {
        Option::Some(AssociationStatus::HoppingSequenceOffsetDuplication)
    } else if bits == 0x80 {
        Option::Some(AssociationStatus::FastAssociationSuccessful)
    } else {
        Option::None
    }
}

/// Decode a whole packet as a MAC frame.
pub fn unpack(data: &[u8]) -> (r: Result<Frame, DecodeError>)
    ensures
        match spec_parse_frame(data@) {
            Ok(f) => r is Ok && r->Ok_0@ == f,
            Err(e) => r == Err::<Frame, DecodeError>(e),
        },
{
    if data.len() < 3 {
        return Err(DecodeError::NotEnoughBytes);
    }
    let fc = le16(data, 0);
    let ftb = (fc & 0x7) as u8;
    if ftb > 3 {
        return Err(DecodeError::InvalidFrameType(ftb));
    }
    if fc & 0x8 != 0 {
        return Err(DecodeError::SecurityNotSupported);
    }
    let vb = ((fc >> 12) & 0x3) as u8;
    if vb == 3 {
        return Err(DecodeError::InvalidFrameVersion(vb));
    }
    let (dest, p1) = match parse_dest(data, 3, ((fc >> 10) & 0x3) as u8) {
        Ok(x) => x,
        Err(e) => {
            return Err(e);
        },
    };
    proof {
        lemma_parse_dest_pos(data@, 3, ((fc >> 10) & 0x3) as u8);
    }
    let (src, p2) = match parse_src(data, p1, ((fc >> 14) & 0x3) as u8, fc & 0x40 != 0, dest) {
        Ok(x) => x,
        Err(e) => {
            return Err(e);
        },
    };
    proof {
        lemma_parse_src_pos(data@, p1 as int, ((fc >> 14) & 0x3) as u8, fc & 0x40 != 0, dest);
    }
    let ft = if ftb == 0 {
        FrameType::Beacon
    } else if ftb == 1 {
        FrameType::Data
    } else if ftb == 2 {
        FrameType::Acknowledgement
    } else {
        FrameType::MacCommand
    };
    let version = if vb == 0 {
        FrameVersion::Ieee802154_2003
    } else if vb == 1 {
        FrameVersion::Ieee802154_2006
    } else {
        FrameVersion::Ieee802154
    };
    let (content, p3) = match ft {
        FrameType::Acknowledgement => (FrameContent::Acknowledgement, p2),
        FrameType::Data => (FrameContent::Data, p2),
        FrameType::Beacon => match parse_beacon(data, p2) {
            Ok((b, p)) => (FrameContent::Beacon(b), p),
            Err(e) => {
                return Err(e);
            },
        },
        FrameType::MacCommand => match parse_command(data, p2) {
            Ok((c, p)) => (FrameContent::Command(c), p),
            Err(e) => {
                return Err(e);
            },
        },
    };
    proof {
        lemma_parse_content_pos(data@, p2 as int, ft);
    }
    let mut payload: Vec<u8> = Vec::new();
    let mut k: usize = p3;
    while k < data.len()
        invariant
            p3 <= k <= data@.len(),
            payload@ == data@.subrange(p3 as int, k as int),
        decreases data@.len() - k,
    {
        payload.push(data[k]);
        proof {
            assert(payload@ =~= data@.subrange(p3 as int, k + 1));
        }
        k += 1;
    }
    proof {
        assert(payload@ =~= data@.skip(p3 as int));
    }
    let header = MacHeader {
        sequence: data[2],
        frame_type: ft,
        security: false,
        frame_pending: fc & 0x10 != 0,
        ack_request: fc & 0x20 != 0,
        pan_id_compress: fc & 0x40 != 0,
        version,
        destination: dest,
        source: src,
    };
    Ok(Frame { header, content, payload })
}

/// A successful destination parse lands inside the packet.
proof fn lemma_parse_dest_pos(b: Seq<u8>, pos: int, mode: u8)
    requires
        0 <= pos <= b.len(),
    ensures
        spec_parse_dest(b, pos, mode) matches Ok((_, p)) ==> pos <= p <= b.len(),
{
}

/// A successful source parse lands inside the packet.
proof fn lemma_parse_src_pos(b: Seq<u8>, pos: int, mode: u8, compress: bool, dest: Address)
    requires
        0 <= pos <= b.len(),
    ensures
        spec_parse_src(b, pos, mode, compress, dest) matches Ok((_, p)) ==> pos <= p <= b.len(),
{
}

/// A successful content parse lands inside the packet.
proof fn lemma_parse_content_pos(b: Seq<u8>, pos: int, ft: FrameType)
    requires
        0 <= pos <= b.len(),
    ensures
        spec_parse_content(b, pos, ft) matches Ok((_, p)) ==> pos <= p <= b.len(),
{
}

/// A single bit as a 16-bit field.
pub open spec fn bit16(b: bool) -> u16 {
    if b {
        1
    } else {
        0
    }
}

/// The frame-type bits of a frame type.
pub open spec fn type_bits(ft: FrameType) -> u16 {
    match ft {
        FrameType::Beacon => 0,
        FrameType::Data => 1,
        FrameType::Acknowledgement => 2,
        FrameType::MacCommand => 3,
    }
}

/// The version bits of a frame version.
pub open spec fn version_bits(v: FrameVersion) -> u16 {
    match v {
        FrameVersion::Ieee802154_2003 => 0,
        FrameVersion::Ieee802154_2006 => 1,
        FrameVersion::Ieee802154 => 2,
    }
}

/// The addressing-mode bits of an address.
pub open spec fn address_mode(a: Address) -> u16 {
    match a {
        Address::Absent => 0,
        Address::Short(_, _) => 2,
        Address::Extended(_, _) => 3,
    }
}

/// The frame-control field of a header.
pub open spec fn spec_frame_control(h: MacHeader) -> u16 {
    type_bits(h.frame_type) | (bit16(h.security) << 3) | (bit16(h.frame_pending) << 4) | (bit16(
        h.ack_request,
    ) << 5) | (bit16(h.pan_id_compress) << 6) | (address_mode(h.destination) << 10) | (version_bits(
        h.version,
    ) << 12) | (address_mode(h.source) << 14)
}

/// The wire bytes of the destination address.
pub open spec fn dest_bytes(a: Address) -> Seq<u8> {
    match a {
        Address::Absent => Seq::empty(),
        Address::Short(pan, addr) => le_of(pan as int, 2) + le_of(addr as int, 2),
        Address::Extended(pan, addr) => le_of(pan as int, 2) + le_of(addr as int, 8),
    }
}

/// The wire bytes of the source address; under PAN identifier compression
/// the PAN identifier is not written.
pub open spec fn src_bytes(a: Address, compress: bool) -> Seq<u8> {
    match a {
        Address::Absent => Seq::empty(),
        Address::Short(pan, addr) => if compress {
            le_of(addr as int, 2)
        } else {
            le_of(pan as int, 2) + le_of(addr as int, 2)
        },
        Address::Extended(pan, addr) => if compress {
            le_of(addr as int, 8)
        } else {
            le_of(pan as int, 2) + le_of(addr as int, 8)
        },
    }
}

/// The superframe-specification field of a beacon.
pub open spec fn superframe_bits(s: SuperframeSpecification) -> u16 {
    (s.beacon_order as u16) | ((s.superframe_order as u16) << 4) | ((s.final_cap_slot as u16) << 8)
        | (bit16(s.battery_life_extension) << 12) | (bit16(s.pan_coordinator) << 14) | (bit16(
        s.association_permit,
    ) << 15)
}

/// The wire bytes of a guaranteed-time-slot list.
pub open spec fn gts_slots_bytes(s: Seq<(u16, u8)>) -> Seq<u8>
    decreases s.len(),
{
    if s.len() == 0 {
        Seq::empty()
    } else {
        le_of(s[0].0 as int, 2) + seq![s[0].1] + gts_slots_bytes(s.skip(1))
    }
}

/// The wire bytes of a pending short-address list.
pub open spec fn shorts_bytes(s: Seq<u16>) -> Seq<u8>
    decreases s.len(),
{
    if s.len() == 0 {
        Seq::empty()
    } else {
        le_of(s[0] as int, 2) + shorts_bytes(s.skip(1))
    }
}

/// The wire bytes of a pending extended-address list.
pub open spec fn exts_bytes(s: Seq<u64>) -> Seq<u8>
    decreases s.len(),
{
    if s.len() == 0 {
        Seq::empty()
    } else {
        le_of(s[0] as int, 8) + exts_bytes(s.skip(1))
    }
}

/// The wire bytes of the beacon fields.
pub open spec fn beacon_bytes(b: BeaconView) -> Seq<u8> {
    le_of(superframe_bits(b.superframe_spec) as int, 2) + seq![
        ((b.gts_slots.len() as u8) | ((if b.gts_permit {
            1u8
        } else {
            0u8
        }) << 7)),
    ] + gts_slots_bytes(b.gts_slots) + seq![
        ((b.pending_short.len() as u8) | ((b.pending_extended.len() as u8) << 4)),
    ] + shorts_bytes(b.pending_short) + exts_bytes(b.pending_extended)
}

/// The capability octet of an association request.
pub open spec fn capability_bits(c: CapabilityInformation) -> u8 {
    (if c.full_function_device {
        0x02u8
    } else {
        0u8
    }) | (if c.mains_power {
        0x04u8
    } else {
        0u8
    }) | (if c.idle_receive {
        0x08u8
    } else {
        0u8
    }) | (if c.frame_protection {
        0x40u8
    } else {
        0u8
    }) | (if c.allocate_address {
        0x80u8
    } else {
        0u8
    })
}

/// The status octet of an association status.
pub open spec fn status_octet(s: AssociationStatus) -> u8 {
    match s {
        AssociationStatus::Successful => 0,
        AssociationStatus::NetworkAtCapacity => 1,
        AssociationStatus::AccessDenied => 2,
        AssociationStatus::HoppingSequenceOffsetDuplication => 3,
        AssociationStatus::FastAssociationSuccessful => 0x80,
    }
}

/// The wire bytes of a MAC command payload.
pub open spec fn command_bytes(c: MacCommand) -> Seq<u8> {
    match c {
        MacCommand::AssociationRequest(cap) => seq![1u8, capability_bits(cap)],
        MacCommand::AssociationResponse(addr, status) => seq![2u8] + le_of(addr as int, 2) + seq![
            status_octet(status),
        ],
        MacCommand::DisassociationNotification(reason) => seq![3u8, reason],
        MacCommand::DataRequest => seq![4u8],
        MacCommand::PanIdConflictNotification => seq![5u8],
        MacCommand::OrphanNotification => seq![6u8],
        MacCommand::BeaconRequest => seq![7u8],
        MacCommand::CoordinatorRealignment(pan, coord, channel, device) => seq![8u8] + le_of(
            pan as int,
            2,
        ) + le_of(coord as int, 2) + seq![channel] + le_of(device as int, 2),
        MacCommand::GuaranteedTimeSlotRequest(ch) => seq![9u8, ch],
    }
}

/// The wire bytes of a frame content.
pub open spec fn content_bytes(c: ContentView) -> Seq<u8> {
    match c {
        ContentView::Acknowledgement => Seq::empty(),
        ContentView::Data => Seq::empty(),
        ContentView::Beacon(b) => beacon_bytes(b),
        ContentView::Command(cmd) => command_bytes(cmd),
    }
}

/// The complete wire bytes of a frame.
pub open spec fn frame_bytes(f: FrameView) -> Seq<u8> {
    le_of(spec_frame_control(f.header) as int, 2) + seq![f.header.sequence] + dest_bytes(
        f.header.destination,
    ) + src_bytes(f.header.source, f.header.pan_id_compress) + content_bytes(f.content) + f.payload
}

/// A frame that the codec can put on the wire: unsecured, its content of the
/// kind its frame type asks for, compression only between two present
/// addresses of one PAN, and beacon lists within their three-bit counts.
pub open spec fn wf_frame(f: FrameView) -> bool {
    &&& !f.header.security
    &&& match f.content {
        ContentView::Acknowledgement => f.header.frame_type == FrameType::Acknowledgement,
        ContentView::Data => f.header.frame_type == FrameType::Data,
        ContentView::Beacon(b) => f.header.frame_type == FrameType::Beacon
            && b.gts_slots.len() <= 7 && b.pending_short.len() <= 7 && b.pending_extended.len()
            <= 7 && b.superframe_spec.beacon_order <= 15 && b.superframe_spec.superframe_order
            <= 15 && b.superframe_spec.final_cap_slot <= 15,
        ContentView::Command(_) => f.header.frame_type == FrameType::MacCommand,
    }
    &&& f.header.pan_id_compress ==> {
        &&& f.header.destination.spec_pan_id() is Some
        &&& f.header.source.spec_pan_id() == f.header.destination.spec_pan_id()
        &&& !(f.header.source is Absent)
    }
}

proof fn lemma_gts_slots_take_step(s: Seq<(u16, u8)>, i: int)
    requires
        0 <= i < s.len(),
    ensures
        gts_slots_bytes(s.take(i + 1)) == gts_slots_bytes(s.take(i)) + le_of(s[i].0 as int, 2)
            + seq![s[i].1],
    decreases i,
{
    if i == 0 {
        assert(s.take(1).skip(1) =~= Seq::<(u16, u8)>::empty());
        assert(s.take(0) =~= Seq::<(u16, u8)>::empty());
        assert(s.take(1)[0] == s[0]);
        assert(gts_slots_bytes(Seq::<(u16, u8)>::empty()) == Seq::<u8>::empty());
        assert(gts_slots_bytes(s.take(1)) == le_of(s.take(1)[0].0 as int, 2) + seq![s.take(1)[0].1]
            + gts_slots_bytes(s.take(1).skip(1)));
        assert(le_of(s[0].0 as int, 2) + seq![s[0].1] + Seq::<u8>::empty() =~= le_of(
            s[0].0 as int,
            2,
        ) + seq![s[0].1]);
    } else {
        let t = s.skip(1);
        lemma_gts_slots_take_step(t, i - 1);
        assert(s.take(i + 1).skip(1) =~= t.take(i));
        assert(s.take(i).skip(1) =~= t.take(i - 1));
        assert(s.take(i + 1)[0] == s[0] && s.take(i)[0] == s[0] && t[i - 1] == s[i]);
        assert(gts_slots_bytes(s.take(i + 1)) == le_of(s[0].0 as int, 2) + seq![s[0].1]
            + gts_slots_bytes(t.take(i)));
        assert(gts_slots_bytes(s.take(i)) == le_of(s[0].0 as int, 2) + seq![s[0].1]
            + gts_slots_bytes(t.take(i - 1)));
        assert(gts_slots_bytes(s.take(i)) + (le_of(s[i].0 as int, 2) + seq![s[i].1]) == le_of(
            s[0].0 as int,
            2,
        ) + seq![s[0].1] + (gts_slots_bytes(t.take(i - 1)) + (le_of(t[i - 1].0 as int, 2) + seq![
            t[i - 1].1,
        ])));
    }
}

proof fn lemma_shorts_take_step(s: Seq<u16>, i: int)
    requires
        0 <= i < s.len(),
    ensures
        shorts_bytes(s.take(i + 1)) == shorts_bytes(s.take(i)) + le_of(s[i] as int, 2),
    decreases i,
{
    if i == 0 {
        assert(s.take(1).skip(1) =~= Seq::<u16>::empty());
        assert(s.take(0) =~= Seq::<u16>::empty());
        assert(s.take(1)[0] == s[0]);
        assert(shorts_bytes(Seq::<u16>::empty()) == Seq::<u8>::empty());
        assert(shorts_bytes(s.take(1)) == le_of(s.take(1)[0] as int, 2) + shorts_bytes(
            s.take(1).skip(1),
        ));
        assert(le_of(s[0] as int, 2) + Seq::<u8>::empty() =~= le_of(s[0] as int, 2));
    } else {
        let t = s.skip(1);
        lemma_shorts_take_step(t, i - 1);
        assert(s.take(i + 1).skip(1) =~= t.take(i));
        assert(s.take(i).skip(1) =~= t.take(i - 1));
        assert(s.take(i + 1)[0] == s[0] && s.take(i)[0] == s[0] && t[i - 1] == s[i]);
        assert(shorts_bytes(s.take(i + 1)) == le_of(s[0] as int, 2) + shorts_bytes(t.take(i)));
        assert(shorts_bytes(s.take(i)) == le_of(s[0] as int, 2) + shorts_bytes(t.take(i - 1)));
        assert(shorts_bytes(s.take(i)) + le_of(s[i] as int, 2) == le_of(s[0] as int, 2) + (
        shorts_bytes(t.take(i - 1)) + le_of(t[i - 1] as int, 2)));
    }
}

proof fn lemma_exts_take_step(s: Seq<u64>, i: int)
    requires
        0 <= i < s.len(),
    ensures
        exts_bytes(s.take(i + 1)) == exts_bytes(s.take(i)) + le_of(s[i] as int, 8),
    decreases i,
{
    if i == 0 {
        assert(s.take(1).skip(1) =~= Seq::<u64>::empty());
        assert(s.take(0) =~= Seq::<u64>::empty());
        assert(s.take(1)[0] == s[0]);
        assert(exts_bytes(Seq::<u64>::empty()) == Seq::<u8>::empty());
        assert(exts_bytes(s.take(1)) == le_of(s.take(1)[0] as int, 8) + exts_bytes(
            s.take(1).skip(1),
        ));
        assert(le_of(s[0] as int, 8) + Seq::<u8>::empty() =~= le_of(s[0] as int, 8));
    } else {
        let t = s.skip(1);
        lemma_exts_take_step(t, i - 1);
        assert(s.take(i + 1).skip(1) =~= t.take(i));
        assert(s.take(i).skip(1) =~= t.take(i - 1));
        assert(s.take(i + 1)[0] == s[0] && s.take(i)[0] == s[0] && t[i - 1] == s[i]);
        assert(exts_bytes(s.take(i + 1)) == le_of(s[0] as int, 8) + exts_bytes(t.take(i)));
        assert(exts_bytes(s.take(i)) == le_of(s[0] as int, 8) + exts_bytes(t.take(i - 1)));
        assert(exts_bytes(s.take(i)) + le_of(s[i] as int, 8) == le_of(s[0] as int, 8) + (exts_bytes(
            t.take(i - 1),
        ) + le_of(t[i - 1] as int, 8)));
    }
}

/// A single bit as a 16-bit field.
fn bit16_exec(b: bool) -> (r: u16)
    ensures
        r == bit16(b),
{
    if b {
        1
    } else {
        0
    }
}

impl Frame {
    /// Encode this frame for the radio: header, content, then the payload.
    #[verifier::rlimit(100)]
    pub fn encode(&self) -> (r: Vec<u8>)
        requires
            wf_frame(self@),
        ensures
            r@ == frame_bytes(self@),
    {
        let h = &self.header;
        let tb: u16 = match h.frame_type {
            FrameType::Beacon => 0,
            FrameType::Data => 1,
            FrameType::Acknowledgement => 2,
            FrameType::MacCommand => 3,
        };
        let vb: u16 = match h.version {
            FrameVersion::Ieee802154_2003 => 0,
            FrameVersion::Ieee802154_2006 => 1,
            FrameVersion::Ieee802154 => 2,
        };
        let dm: u16 = match h.destination {
            Address::Absent => 0,
            Address::Short(_, _) => 2,
            Address::Extended(_, _) => 3,
        };
        let sm: u16 = match h.source {
            Address::Absent => 0,
            Address::Short(_, _) => 2,
            Address::Extended(_, _) => 3,
        };
        let fc: u16 = tb | (bit16_exec(h.security) << 3) | (bit16_exec(h.frame_pending) << 4) | (
        bit16_exec(h.ack_request) << 5) | (bit16_exec(h.pan_id_compress) << 6) | (dm << 10) | (vb
            << 12) | (sm << 14);
        let mut out: Vec<u8> = Vec::new();
        push_u16_le(&mut out, fc);
        out.push(h.sequence);
        proof {
            assert(out@ =~= le_of(spec_frame_control(self@.header) as int, 2) + seq![
                self@.header.sequence,
            ]);
        }
        match h.destination {
            Address::Absent => {},
            Address::Short(pan, addr) => {
                push_u16_le(&mut out, pan);
                push_u16_le(&mut out, addr);
            },
            Address::Extended(pan, addr) => {
                push_u16_le(&mut out, pan);
                push_u64_le(&mut out, addr);
            },
        }
        let ghost hdr_part = le_of(spec_frame_control(self@.header) as int, 2) + seq![
            self@.header.sequence,
        ] + dest_bytes(self@.header.destination);
        proof {
            assert(out@ =~= hdr_part);
        }
        match h.source {
            Address::Absent => {},
            Address::Short(pan, addr) => {
                if !h.pan_id_compress {
                    push_u16_le(&mut out, pan);
                }
                push_u16_le(&mut out, addr);
            },
            Address::Extended(pan, addr) => {
                if !h.pan_id_compress {
                    push_u16_le(&mut out, pan);
                }
                push_u64_le(&mut out, addr);
            },
        }
        let ghost with_src = hdr_part + src_bytes(
            self@.header.source,
            self@.header.pan_id_compress,
        );
        proof {
            assert(out@ =~= with_src);
        }
        match &self.content {
            FrameContent::Acknowledgement => {},
            FrameContent::Data => {},
            FrameContent::Command(c) => {
                self.encode_command(&mut out, c);
            },
            FrameContent::Beacon(b) => {
                Self::encode_beacon(&mut out, b);
            },
        }
        let ghost with_content = with_src + content_bytes(self@.content);
        proof {
            assert(out@ =~= with_content);
        }
        let mut k: usize = 0;
        while k < self.payload.len()
            invariant
                k <= self.payload@.len(),
                out@ == with_content + self.payload@.take(k as int),
            decreases self.payload@.len() - k,
        {
            out.push(self.payload[k]);
            proof {
                assert(out@ =~= with_content + self.payload@.take(k + 1));
            }
            k += 1;
        }
        proof {
            assert(self.payload@.take(self.payload@.len() as int) =~= self.payload@);
            assert(out@ =~= frame_bytes(self@));
        }
        out
    }

    fn encode_command(&self, out: &mut Vec<u8>, c: &MacCommand)
        ensures
            final(out)@ == old(out)@ + command_bytes(*c),
    {
        match c {
            MacCommand::AssociationRequest(cap) => {
                out.push(1);
                let capb: u8 = (if cap.full_function_device {
                    0x02u8
                } else {
                    0u8
                }) | (if cap.mains_power {
                    0x04u8
                } else {
                    0u8
                }) | (if cap.idle_receive {
                    0x08u8
                } else {
                    0u8
                }) | (if cap.frame_protection {
                    0x40u8
                } else {
                    0u8
                }) | (if cap.allocate_address {
                    0x80u8
                } else {
                    0u8
                });
                out.push(capb);
                proof {
                    assert(final(out)@ =~= old(out)@ + command_bytes(*c));
                }
            },
            MacCommand::AssociationResponse(addr, status) => {
                out.push(2);
                push_u16_le(out, *addr);
                let sb: u8 = match status {
                    AssociationStatus::Successful => 0,
                    AssociationStatus::NetworkAtCapacity => 1,
                    AssociationStatus::AccessDenied => 2,
                    AssociationStatus::HoppingSequenceOffsetDuplication => 3,
                    AssociationStatus::FastAssociationSuccessful => 0x80,
                };
                out.push(sb);
                proof {
                    assert(final(out)@ =~= old(out)@ + command_bytes(*c));
                }
            },
            MacCommand::DisassociationNotification(reason) => {
                out.push(3);
                out.push(*reason);
                proof {
                    assert(final(out)@ =~= old(out)@ + command_bytes(*c));
                }
            },
            MacCommand::DataRequest => {
                out.push(4);
                proof {
                    assert(final(out)@ =~= old(out)@ + command_bytes(*c));
                }
            },
            MacCommand::PanIdConflictNotification => {
                out.push(5);
                proof {
                    assert(final(out)@ =~= old(out)@ + command_bytes(*c));
                }
            },
            MacCommand::OrphanNotification => {
                out.push(6);
                proof {
                    assert(final(out)@ =~= old(out)@ + command_bytes(*c));
                }
            },
            MacCommand::BeaconRequest => {
                out.push(7);
                proof {
                    assert(final(out)@ =~= old(out)@ + command_bytes(*c));
                }
            },
            MacCommand::CoordinatorRealignment(pan, coord, channel, device) => {
                out.push(8);
                push_u16_le(out, *pan);
                push_u16_le(out, *coord);
                out.push(*channel);
                push_u16_le(out, *device);
                proof {
                    assert(final(out)@ =~= old(out)@ + command_bytes(*c));
                }
            },
            MacCommand::GuaranteedTimeSlotRequest(ch) => {
                out.push(9);
                out.push(*ch);
                proof {
                    assert(final(out)@ =~= old(out)@ + command_bytes(*c));
                }
            },
        }
    }

    fn encode_beacon(out: &mut Vec<u8>, b: &Beacon)
        requires
            b@.gts_slots.len() <= 7,
            b@.pending_short.len() <= 7,
            b@.pending_extended.len() <= 7,
        ensures
            final(out)@ == old(out)@ + beacon_bytes(b@),
    {
        let s = &b.superframe_spec;
        let ss: u16 = (s.beacon_order as u16) | ((s.superframe_order as u16) << 4) | ((
        s.final_cap_slot as u16) << 8) | (bit16_exec(s.battery_life_extension) << 12) | (bit16_exec(
            s.pan_coordinator,
        ) << 14) | (bit16_exec(s.association_permit) << 15);
        push_u16_le(out, ss);
        let gts_byte: u8 = (b.gts_slots.len() as u8) | ((if b.gts_permit {
            1u8
        } else {
            0u8
        }) << 7);
        out.push(gts_byte);
        let ghost base1 = old(out)@ + le_of(superframe_bits(b@.superframe_spec) as int, 2) + seq![
            ((b@.gts_slots.len() as u8) | ((if b@.gts_permit {
                1u8
            } else {
                0u8
            }) << 7)),
        ];
        proof {
            assert(out@ =~= base1);
            assert(b@.gts_slots.take(0) =~= Seq::<(u16, u8)>::empty());
        }
        let mut i: usize = 0;
        while i < b.gts_slots.len()
            invariant
                i <= b@.gts_slots.len(),
                out@ == base1 + gts_slots_bytes(b@.gts_slots.take(i as int)),
            decreases b@.gts_slots.len() - i,
        {
            let (addr, slot) = b.gts_slots[i];
            push_u16_le(out, addr);
            out.push(slot);
            proof {
                lemma_gts_slots_take_step(b@.gts_slots, i as int);
            }
            i += 1;
        }
        proof {
            assert(b@.gts_slots.take(b@.gts_slots.len() as int) =~= b@.gts_slots);
        }
        let pend_byte: u8 = (b.pending_short.len() as u8) | ((b.pending_extended.len() as u8)
            << 4);
        out.push(pend_byte);
        let ghost base2 = base1 + gts_slots_bytes(b@.gts_slots) + seq![
            ((b@.pending_short.len() as u8) | ((b@.pending_extended.len() as u8) << 4)),
        ];
        proof {
            assert(out@ =~= base2);
            assert(b@.pending_short.take(0) =~= Seq::<u16>::empty());
        }
        let mut i: usize = 0;
        while i < b.pending_short.len()
            invariant
                i <= b@.pending_short.len(),
                out@ == base2 + shorts_bytes(b@.pending_short.take(i as int)),
            decreases b@.pending_short.len() - i,
        {
            push_u16_le(out, b.pending_short[i]);
            proof {
                lemma_shorts_take_step(b@.pending_short, i as int);
            }
            i += 1;
        }
        proof {
            assert(b@.pending_short.take(b@.pending_short.len() as int) =~= b@.pending_short);
        }
        let ghost base3 = base2 + shorts_bytes(b@.pending_short);
        proof {
            assert(out@ =~= base3);
            assert(b@.pending_extended.take(0) =~= Seq::<u64>::empty());
        }
        let mut i: usize = 0;
        while i < b.pending_extended.len()
            invariant
                i <= b@.pending_extended.len(),
                out@ == base3 + exts_bytes(b@.pending_extended.take(i as int)),
            decreases b@.pending_extended.len() - i,
        {
            push_u64_le(out, b.pending_extended[i]);
            proof {
                lemma_exts_take_step(b@.pending_extended, i as int);
            }
            i += 1;
        }
        proof {
            assert(b@.pending_extended.take(b@.pending_extended.len() as int)
                =~= b@.pending_extended);
            assert(final(out)@ =~= old(out)@ + beacon_bytes(b@));
        }
    }
}

/// The wire width of a destination address.
pub open spec fn dest_width(a: Address) -> int {
    match a {
        Address::Absent => 0,
        Address::Short(_, _) => 4,
        Address::Extended(_, _) => 10,
    }
}

/// The wire width of a source address.
pub open spec fn src_width(a: Address, compress: bool) -> int {
    match a {
        Address::Absent => 0,
        Address::Short(_, _) => if compress {
            2
        } else {
            4
        },
        Address::Extended(_, _) => if compress {
            8
        } else {
            10
        },
    }
}

proof fn lemma_control_bits(t: u16, sec: u16, fp: u16, ack: u16, cmp: u16, dm: u16, vb: u16, sm: u16)
    by (bit_vector)
    requires
        t <= 3,
        sec <= 1,
        fp <= 1,
        ack <= 1,
        cmp <= 1,
        dm <= 3,
        vb <= 3,
        sm <= 3,
    ensures
        ({
            let fc = t | (sec << 3) | (fp << 4) | (ack << 5) | (cmp << 6) | (dm << 10) | (vb
                << 12) | (sm << 14);
            &&& (fc & 0x7) == t
            &&& ((fc & 0x8) != 0 <==> sec == 1)
            &&& ((fc & 0x10) != 0 <==> fp == 1)
            &&& ((fc & 0x20) != 0 <==> ack == 1)
            &&& ((fc & 0x40) != 0 <==> cmp == 1)
            &&& ((fc >> 10) & 0x3) == dm
            &&& ((fc >> 12) & 0x3) == vb
            &&& ((fc >> 14) & 0x3) == sm
        }),
{
}

proof fn lemma_superframe_bits(bo: u16, so: u16, cap: u16, ble: u16, pc: u16, ap: u16)
    by (bit_vector)
    requires
        bo <= 15,
        so <= 15,
        cap <= 15,
        ble <= 1,
        pc <= 1,
        ap <= 1,
    ensures
        ({
            let ss = bo | (so << 4) | (cap << 8) | (ble << 12) | (pc << 14) | (ap << 15);
            &&& (ss & 0xf) == bo
            &&& ((ss >> 4) & 0xf) == so
            &&& ((ss >> 8) & 0xf) == cap
            &&& ((ss & 0x1000) != 0 <==> ble == 1)
            &&& ((ss & 0x4000) != 0 <==> pc == 1)
            &&& ((ss & 0x8000) != 0 <==> ap == 1)
        }),
{
}

proof fn lemma_count_bits(count: u8, high: u8)
    by (bit_vector)
    requires
        count <= 7,
        high <= 1,
    ensures
        ((count | (high << 7)) & 0x7) == count,
        ((count | (high << 7)) & 0x80) != 0 <==> high == 1,
        ((count | (high << 4)) & 0x7) == count,
        (((count | (high << 4)) >> 4) & 0x7) == high,
{
}

proof fn lemma_pending_bits(sc: u8, ec: u8)
    by (bit_vector)
    requires
        sc <= 7,
        ec <= 7,
    ensures
        ((sc | (ec << 4)) & 0x7) == sc,
        (((sc | (ec << 4)) >> 4) & 0x7) == ec,
{
}

proof fn lemma_capability_bits_extraction(a: u8, b: u8, c: u8, d: u8, e: u8)
    by (bit_vector)
    requires
        a == 0 || a == 0x02,
        b == 0 || b == 0x04,
        c == 0 || c == 0x08,
        d == 0 || d == 0x40,
        e == 0 || e == 0x80,
    ensures
        (((a | b | c | d | e) & 0x02) != 0 <==> a == 0x02),
        (((a | b | c | d | e) & 0x04) != 0 <==> b == 0x04),
        (((a | b | c | d | e) & 0x08) != 0 <==> c == 0x08),
        (((a | b | c | d | e) & 0x40) != 0 <==> d == 0x40),
        (((a | b | c | d | e) & 0x80) != 0 <==> e == 0x80),
{
}

/// A slice of bytes laid down at a position reads back piecewise.
proof fn lemma_subrange_slice(b: Seq<u8>, pos: int, total: Seq<u8>, lo: int, hi: int)
    requires
        0 <= pos,
        pos + total.len() <= b.len(),
        b.subrange(pos, pos + total.len()) == total,
        0 <= lo <= hi <= total.len(),
    ensures
        b.subrange(pos + lo, pos + hi) == total.subrange(lo, hi),
{
    assert forall|k: int| 0 <= k < hi - lo implies b.subrange(pos + lo, pos + hi)[k]
        == total.subrange(lo, hi)[k] by {
        assert(b.subrange(pos, pos + total.len() as int)[lo + k] == total[lo + k]);
    }
    assert(b.subrange(pos + lo, pos + hi) =~= total.subrange(lo, hi));
}

/// A 16-bit field written at a position reads back as its value.
proof fn lemma_le16_at(b: Seq<u8>, pos: int, v: u16)
    requires
        0 <= pos,
        pos + 2 <= b.len(),
        b.subrange(pos, pos + 2) == le_of(v as int, 2),
    ensures
        spec_le16(b, pos) == v,
{
    assert(crate::wire::pow256(2nat) == 0x1_0000) by {
        reveal_with_fuel(crate::wire::pow256, 3);
    }
    crate::wire::lemma_le_of_int(v as int, 2);
}

/// A 64-bit field written at a position reads back as its value.
proof fn lemma_le64_at(b: Seq<u8>, pos: int, v: u64)
    requires
        0 <= pos,
        pos + 8 <= b.len(),
        b.subrange(pos, pos + 8) == le_of(v as int, 8),
    ensures
        spec_le64(b, pos) == v,
{
    assert(crate::wire::pow256(8nat) == 0x1_0000_0000_0000_0000) by {
        reveal_with_fuel(crate::wire::pow256, 9);
    }
    crate::wire::lemma_le_of_int(v as int, 8);
}

/// The destination address reads back from its own wire bytes.
proof fn lemma_dest_round_trip(b: Seq<u8>, pos: int, a: Address)
    requires
        0 <= pos,
        pos + dest_width(a) <= b.len(),
        b.subrange(pos, pos + dest_width(a)) == dest_bytes(a),
    ensures
        spec_parse_dest(b, pos, (address_mode(a) as u8)) == Ok::<(Address, int), DecodeError>(
            (a, pos + dest_width(a)),
        ),
{
    match a {
        Address::Absent => {},
        Address::Short(pan, addr) => {
            crate::wire::lemma_le_of_len(pan as int, 2);
            crate::wire::lemma_le_of_len(addr as int, 2);
            let total = dest_bytes(a);
            lemma_subrange_slice(b, pos, total, 0, 2);
            lemma_subrange_slice(b, pos, total, 2, 4);
            assert(total.subrange(0, 2) =~= le_of(pan as int, 2));
            assert(total.subrange(2, 4) =~= le_of(addr as int, 2));
            lemma_le16_at(b, pos, pan);
            lemma_le16_at(b, pos + 2, addr);
        },
        Address::Extended(pan, addr) => {
            crate::wire::lemma_le_of_len(pan as int, 2);
            crate::wire::lemma_le_of_len(addr as int, 8);
            let total = dest_bytes(a);
            lemma_subrange_slice(b, pos, total, 0, 2);
            lemma_subrange_slice(b, pos, total, 2, 10);
            assert(total.subrange(0, 2) =~= le_of(pan as int, 2));
            assert(total.subrange(2, 10) =~= le_of(addr as int, 8));
            lemma_le16_at(b, pos, pan);
            lemma_le64_at(b, pos + 2, addr);
        },
    }
}

/// The source address reads back from its own wire bytes, the compressed
/// PAN identifier coming from the destination.
proof fn lemma_src_round_trip(b: Seq<u8>, pos: int, a: Address, compress: bool, dest: Address)
    requires
        0 <= pos,
        pos + src_width(a, compress) <= b.len(),
        b.subrange(pos, pos + src_width(a, compress)) == src_bytes(a, compress),
        compress ==> dest.spec_pan_id() is Some && a.spec_pan_id() == dest.spec_pan_id() && !(
        a is Absent),
    ensures
        spec_parse_src(b, pos, (address_mode(a) as u8), compress, dest) == Ok::<
            (Address, int),
            DecodeError,
        >((a, pos + src_width(a, compress))),
{
    match a {
        Address::Absent => {},
        Address::Short(pan, addr) => {
            let total = src_bytes(a, compress);
            if compress {
                crate::wire::lemma_le_of_len(addr as int, 2);
                assert(b.subrange(pos, pos + 2) =~= le_of(addr as int, 2));
                lemma_le16_at(b, pos, addr);
            } else {
                crate::wire::lemma_le_of_len(pan as int, 2);
                crate::wire::lemma_le_of_len(addr as int, 2);
                lemma_subrange_slice(b, pos, total, 0, 2);
                lemma_subrange_slice(b, pos, total, 2, 4);
                assert(total.subrange(0, 2) =~= le_of(pan as int, 2));
                assert(total.subrange(2, 4) =~= le_of(addr as int, 2));
                lemma_le16_at(b, pos, pan);
                lemma_le16_at(b, pos + 2, addr);
            }
        },
        Address::Extended(pan, addr) => {
            let total = src_bytes(a, compress);
            if compress {
                crate::wire::lemma_le_of_len(addr as int, 8);
                assert(b.subrange(pos, pos + 8) =~= le_of(addr as int, 8));
                lemma_le64_at(b, pos, addr);
            } else {
                crate::wire::lemma_le_of_len(pan as int, 2);
                crate::wire::lemma_le_of_len(addr as int, 8);
                lemma_subrange_slice(b, pos, total, 0, 2);
                lemma_subrange_slice(b, pos, total, 2, 10);
                assert(total.subrange(0, 2) =~= le_of(pan as int, 2));
                assert(total.subrange(2, 10) =~= le_of(addr as int, 8));
                lemma_le16_at(b, pos, pan);
                lemma_le64_at(b, pos + 2, addr);
            }
        },
    }
}

/// The guaranteed-time-slot list occupies three bytes per entry.
proof fn lemma_gts_bytes_len(s: Seq<(u16, u8)>)
    ensures
        gts_slots_bytes(s).len() == 3 * s.len(),
    decreases s.len(),
{
    if s.len() > 0 {
        lemma_gts_bytes_len(s.skip(1));
        crate::wire::lemma_le_of_len(s[0].0 as int, 2);
    }
}

/// The pending short-address list occupies two bytes per entry.
proof fn lemma_shorts_bytes_len(s: Seq<u16>)
    ensures
        shorts_bytes(s).len() == 2 * s.len(),
    decreases s.len(),
{
    if s.len() > 0 {
        lemma_shorts_bytes_len(s.skip(1));
        crate::wire::lemma_le_of_len(s[0] as int, 2);
    }
}

/// The pending extended-address list occupies eight bytes per entry.
proof fn lemma_exts_bytes_len(s: Seq<u64>)
    ensures
        exts_bytes(s).len() == 8 * s.len(),
    decreases s.len(),
{
    if s.len() > 0 {
        lemma_exts_bytes_len(s.skip(1));
        crate::wire::lemma_le_of_len(s[0] as int, 8);
    }
}

/// Each guaranteed-time-slot entry sits at its stride in the list bytes.
proof fn lemma_gts_bytes_at(s: Seq<(u16, u8)>, i: int)
    requires
        0 <= i < s.len(),
    ensures
        gts_slots_bytes(s).subrange(3 * i, 3 * i + 3) == le_of(s[i].0 as int, 2) + seq![s[i].1],
    decreases i,
{
    lemma_gts_bytes_len(s);
    crate::wire::lemma_le_of_len(s[0].0 as int, 2);
    if i == 0 {
        lemma_gts_bytes_len(s.skip(1));
        assert(gts_slots_bytes(s).subrange(0, 3) =~= le_of(s[0].0 as int, 2) + seq![s[0].1]);
    } else {
        lemma_gts_bytes_at(s.skip(1), i - 1);
        lemma_gts_bytes_len(s.skip(1));
        assert(s.skip(1)[i - 1] == s[i]);
        assert(gts_slots_bytes(s).subrange(3 * i, 3 * i + 3) =~= gts_slots_bytes(
            s.skip(1),
        ).subrange(3 * (i - 1), 3 * (i - 1) + 3));
    }
}

/// Each pending short address sits at its stride in the list bytes.
proof fn lemma_shorts_bytes_at(s: Seq<u16>, i: int)
    requires
        0 <= i < s.len(),
    ensures
        shorts_bytes(s).subrange(2 * i, 2 * i + 2) == le_of(s[i] as int, 2),
    decreases i,
{
    lemma_shorts_bytes_len(s);
    crate::wire::lemma_le_of_len(s[0] as int, 2);
    if i == 0 {
        lemma_shorts_bytes_len(s.skip(1));
        assert(shorts_bytes(s).subrange(0, 2) =~= le_of(s[0] as int, 2));
    } else {
        lemma_shorts_bytes_at(s.skip(1), i - 1);
        lemma_shorts_bytes_len(s.skip(1));
        assert(s.skip(1)[i - 1] == s[i]);
        assert(shorts_bytes(s).subrange(2 * i, 2 * i + 2) =~= shorts_bytes(s.skip(1)).subrange(
            2 * (i - 1),
            2 * (i - 1) + 2,
        ));
    }
}

/// Each pending extended address sits at its stride in the list bytes.
proof fn lemma_exts_bytes_at(s: Seq<u64>, i: int)
    requires
        0 <= i < s.len(),
    ensures
        exts_bytes(s).subrange(8 * i, 8 * i + 8) == le_of(s[i] as int, 8),
    decreases i,
{
    lemma_exts_bytes_len(s);
    crate::wire::lemma_le_of_len(s[0] as int, 8);
    if i == 0 {
        lemma_exts_bytes_len(s.skip(1));
        assert(exts_bytes(s).subrange(0, 8) =~= le_of(s[0] as int, 8));
    } else {
        lemma_exts_bytes_at(s.skip(1), i - 1);
        lemma_exts_bytes_len(s.skip(1));
        assert(s.skip(1)[i - 1] == s[i]);
        assert(exts_bytes(s).subrange(8 * i, 8 * i + 8) =~= exts_bytes(s.skip(1)).subrange(
            8 * (i - 1),
            8 * (i - 1) + 8,
        ));
    }
}

/// A command whose wire form decodes back to itself: every command except a
/// disassociation notification with a reason outside its two defined
/// values.
pub open spec fn wf_command(c: MacCommand) -> bool {
    match c {
        MacCommand::DisassociationNotification(reason) => reason == 1 || reason == 2,
        _ => true,
    }
}

/// A MAC command reads back from its own wire bytes.
proof fn lemma_command_round_trip(b: Seq<u8>, pos: int, c: MacCommand)
    requires
        0 <= pos,
        pos + command_bytes(c).len() <= b.len(),
        b.subrange(pos, pos + command_bytes(c).len()) == command_bytes(c),
        wf_command(c),
    ensures
        spec_parse_command(b, pos) == Ok::<(MacCommand, int), DecodeError>(
            (c, pos + command_bytes(c).len()),
        ),
{
    let total = command_bytes(c);
    assert(b[pos] == total[0]) by {
        assert(b.subrange(pos, pos + total.len() as int)[0] == total[0]);
    }
    match c {
        MacCommand::AssociationRequest(cap) => {
            assert(b[pos + 1] == capability_bits(cap)) by {
                assert(b.subrange(pos, pos + 2)[1] == total[1]);
            }
            lemma_capability_bits_extraction(
                if cap.full_function_device {
                    0x02
                } else {
                    0
                },
                if cap.mains_power {
                    0x04
                } else {
                    0
                },
                if cap.idle_receive {
                    0x08
                } else {
                    0
                },
                if cap.frame_protection {
                    0x40
                } else {
                    0
                },
                if cap.allocate_address {
                    0x80
                } else {
                    0
                },
            );
        },
        MacCommand::AssociationResponse(addr, status) => {
            crate::wire::lemma_le_of_len(addr as int, 2);
            lemma_subrange_slice(b, pos, total, 1, 3);
            assert(total.subrange(1, 3) =~= le_of(addr as int, 2));
            lemma_le16_at(b, pos + 1, addr);
            assert(b[pos + 3] == status_octet(status)) by {
                assert(b.subrange(pos, pos + 4)[3] == total[3]);
            }
        },
        MacCommand::DisassociationNotification(reason) => {
            assert(b[pos + 1] == reason) by {
                assert(b.subrange(pos, pos + 2)[1] == total[1]);
            }
        },
        MacCommand::DataRequest => {},
        MacCommand::PanIdConflictNotification => {},
        MacCommand::OrphanNotification => {},
        MacCommand::BeaconRequest => {},
        MacCommand::CoordinatorRealignment(pan, coord, channel, device) => {
            crate::wire::lemma_le_of_len(pan as int, 2);
            crate::wire::lemma_le_of_len(coord as int, 2);
            crate::wire::lemma_le_of_len(device as int, 2);
            lemma_subrange_slice(b, pos, total, 1, 3);
            lemma_subrange_slice(b, pos, total, 3, 5);
            lemma_subrange_slice(b, pos, total, 6, 8);
            assert(total.subrange(1, 3) =~= le_of(pan as int, 2));
            assert(total.subrange(3, 5) =~= le_of(coord as int, 2));
            assert(total.subrange(6, 8) =~= le_of(device as int, 2));
            lemma_le16_at(b, pos + 1, pan);
            lemma_le16_at(b, pos + 3, coord);
            lemma_le16_at(b, pos + 6, device);
            assert(b[pos + 5] == channel) by {
                assert(b.subrange(pos, pos + 8)[5] == total[5]);
            }
        },
        MacCommand::GuaranteedTimeSlotRequest(ch) => {
            assert(b[pos + 1] == ch) by {
                assert(b.subrange(pos, pos + 2)[1] == total[1]);
            }
        },
    }
}

/// The wire width of a beacon's structured part.
pub open spec fn beacon_width(v: BeaconView) -> int {
    4 + 3 * v.gts_slots.len() as int + 2 * v.pending_short.len() as int + 8 * v.pending_extended.len() as int
}

/// The wire width of a frame content.
pub open spec fn content_width(c: ContentView) -> int {
    match c {
        ContentView::Acknowledgement => 0,
        ContentView::Data => 0,
        ContentView::Beacon(v) => beacon_width(v),
        ContentView::Command(cmd) => command_bytes(cmd).len() as int,
    }
}

proof fn lemma_dest_width(a: Address)
    ensures
        dest_bytes(a).len() == dest_width(a),
{
    match a {
        Address::Absent => {},
        Address::Short(pan, addr) => {
            crate::wire::lemma_le_of_len(pan as int, 2);
            crate::wire::lemma_le_of_len(addr as int, 2);
        },
        Address::Extended(pan, addr) => {
            crate::wire::lemma_le_of_len(pan as int, 2);
            crate::wire::lemma_le_of_len(addr as int, 8);
        },
    }
}

proof fn lemma_src_width(a: Address, compress: bool)
    ensures
        src_bytes(a, compress).len() == src_width(a, compress),
{
    match a {
        Address::Absent => {},
        Address::Short(pan, addr) => {
            crate::wire::lemma_le_of_len(pan as int, 2);
            crate::wire::lemma_le_of_len(addr as int, 2);
        },
        Address::Extended(pan, addr) => {
            crate::wire::lemma_le_of_len(pan as int, 2);
            crate::wire::lemma_le_of_len(addr as int, 8);
        },
    }
}

proof fn lemma_content_width(c: ContentView)
    ensures
        content_bytes(c).len() == content_width(c),
{
    match c {
        ContentView::Acknowledgement => {},
        ContentView::Data => {},
        ContentView::Beacon(v) => {
            crate::wire::lemma_le_of_len(superframe_bits(v.superframe_spec) as int, 2);
            lemma_gts_bytes_len(v.gts_slots);
            lemma_shorts_bytes_len(v.pending_short);
            lemma_exts_bytes_len(v.pending_extended);
        },
        ContentView::Command(cmd) => {
            match cmd {
                MacCommand::AssociationResponse(addr, _) => {
                    crate::wire::lemma_le_of_len(addr as int, 2);
                },
                MacCommand::CoordinatorRealignment(pan, coord, _, device) => {
                    crate::wire::lemma_le_of_len(pan as int, 2);
                    crate::wire::lemma_le_of_len(coord as int, 2);
                    crate::wire::lemma_le_of_len(device as int, 2);
                },
                _ => {},
            }
        },
    }
}

/// A beacon's structured part reads back from its own wire bytes.
#[verifier::rlimit(100)]
proof fn lemma_beacon_round_trip(b: Seq<u8>, pos: int, v: BeaconView)
    requires
        0 <= pos,
        v.gts_slots.len() <= 7,
        v.pending_short.len() <= 7,
        v.pending_extended.len() <= 7,
        v.superframe_spec.beacon_order <= 15,
        v.superframe_spec.superframe_order <= 15,
        v.superframe_spec.final_cap_slot <= 15,
        pos + beacon_width(v) <= b.len(),
        b.subrange(pos, pos + beacon_width(v)) == beacon_bytes(v),
    ensures
        spec_parse_beacon(b, pos) == Ok::<(BeaconView, int), DecodeError>(
            (v, pos + beacon_width(v)),
        ),
{
    let total = beacon_bytes(v);
    let c = v.gts_slots.len() as int;
    let sc = v.pending_short.len() as int;
    let ec = v.pending_extended.len() as int;
    lemma_content_width(ContentView::Beacon(v));
    crate::wire::lemma_le_of_len(superframe_bits(v.superframe_spec) as int, 2);
    lemma_gts_bytes_len(v.gts_slots);
    lemma_shorts_bytes_len(v.pending_short);
    lemma_exts_bytes_len(v.pending_extended);

    lemma_subrange_slice(b, pos, total, 0, 2);
    assert(total.subrange(0, 2) =~= le_of(superframe_bits(v.superframe_spec) as int, 2));
    lemma_le16_at(b, pos, superframe_bits(v.superframe_spec));
    let spec = v.superframe_spec;
    lemma_superframe_bits(
        spec.beacon_order as u16,
        spec.superframe_order as u16,
        spec.final_cap_slot as u16,
        bit16(spec.battery_life_extension),
        bit16(spec.pan_coordinator),
        bit16(spec.association_permit),
    );

    let gb = ((c as u8) | ((if v.gts_permit {
        1u8
    } else {
        0u8
    }) << 7));
    assert(b[pos + 2] == gb) by {
        assert(b.subrange(pos, pos + total.len() as int)[2] == total[2]);
    }
    lemma_count_bits(c as u8, if v.gts_permit {
        1u8
    } else {
        0u8
    });
    let p1 = pos + 3;

    let gts = gts_slots_bytes(v.gts_slots);
    lemma_subrange_slice(b, pos, total, 3, 3 + 3 * c);
    assert(total.subrange(3, 3 + 3 * c) =~= gts);
    assert forall|i: int| 0 <= i < c implies (
        spec_le16(b, p1 + 3 * i) == v.gts_slots[i].0 && b[p1 + 3 * i + 2] == v.gts_slots[i].1
    ) by {
        lemma_gts_bytes_at(v.gts_slots, i);
        lemma_subrange_slice(b, p1, gts, 3 * i, 3 * i + 3);
        let piece = le_of(v.gts_slots[i].0 as int, 2) + seq![v.gts_slots[i].1];
        crate::wire::lemma_le_of_len(v.gts_slots[i].0 as int, 2);
        lemma_subrange_slice(b, p1 + 3 * i, piece, 0, 2);
        assert(piece.subrange(0, 2) =~= le_of(v.gts_slots[i].0 as int, 2));
        lemma_le16_at(b, p1 + 3 * i, v.gts_slots[i].0);
        assert(b.subrange(p1 + 3 * i, p1 + 3 * i + 3)[2] == piece[2]);
    }
    assert(Seq::new(c as nat, |i: int| (spec_le16(b, p1 + 3 * i), b[p1 + 3 * i + 2]))
        =~= v.gts_slots);

    let p2 = p1 + 3 * c;
    let pb = ((sc as u8) | ((ec as u8) << 4));
    assert(b[p2] == pb) by {
        assert(b.subrange(pos, pos + total.len() as int)[3 + 3 * c] == total[3 + 3 * c]);
    }
    lemma_pending_bits(sc as u8, ec as u8);
    let p3 = p2 + 1;

    let shorts = shorts_bytes(v.pending_short);
    lemma_subrange_slice(b, pos, total, 4 + 3 * c, 4 + 3 * c + 2 * sc);
    assert(total.subrange(4 + 3 * c, 4 + 3 * c + 2 * sc) =~= shorts);
    assert forall|i: int| 0 <= i < sc implies spec_le16(b, p3 + 2 * i) == v.pending_short[i] by {
        lemma_shorts_bytes_at(v.pending_short, i);
        lemma_subrange_slice(b, p3, shorts, 2 * i, 2 * i + 2);
        lemma_le16_at(b, p3 + 2 * i, v.pending_short[i]);
    }
    assert(Seq::new(sc as nat, |i: int| spec_le16(b, p3 + 2 * i)) =~= v.pending_short);

    let pe = p3 + 2 * sc;
    let exts = exts_bytes(v.pending_extended);
    lemma_subrange_slice(b, pos, total, 4 + 3 * c + 2 * sc, 4 + 3 * c + 2 * sc + 8 * ec);
    assert(total.subrange(4 + 3 * c + 2 * sc, 4 + 3 * c + 2 * sc + 8 * ec) =~= exts);
    assert forall|i: int| 0 <= i < ec implies spec_le64(b, pe + 8 * i)
        == v.pending_extended[i] by {
        lemma_exts_bytes_at(v.pending_extended, i);
        lemma_subrange_slice(b, pe, exts, 8 * i, 8 * i + 8);
        lemma_le64_at(b, pe + 8 * i, v.pending_extended[i]);
    }
    assert(Seq::new(ec as nat, |i: int| spec_le64(b, pe + 2 * sc as int - 2 * sc + 8 * i))
        =~= v.pending_extended);
    assert(Seq::new(ec as nat, |i: int| spec_le64(b, p3 + 2 * sc + 8 * i))
        =~= v.pending_extended);

    match spec_parse_beacon(b, pos) {
        Ok((parsed, end)) => {
            assert(parsed.superframe_spec == v.superframe_spec);
            assert(parsed.gts_slots =~= v.gts_slots);
            assert(parsed.pending_short =~= v.pending_short);
            assert(parsed.pending_extended =~= v.pending_extended);
            assert(end == pos + beacon_width(v));
        },
        Err(_) => {
            assert(false);
        },
    }
}

/// Codec round-trip: a well-formed frame put on the wire by `encode`
/// decodes back to exactly itself — header, content and payload. The one
/// extra condition is on commands: a disassociation notification must carry
/// one of the two defined reasons, since the decoder rejects the rest.
#[verifier::rlimit(100)]
pub proof fn lemma_frame_round_trip(f: FrameView)
    requires
        wf_frame(f),
        f.content matches ContentView::Command(c) ==> wf_command(c),
    ensures
        spec_parse_frame(frame_bytes(f)) == Ok::<FrameView, DecodeError>(f),
{
    let h = f.header;
    let fc = spec_frame_control(h);
    let b = frame_bytes(f);
    crate::wire::lemma_le_of_len(fc as int, 2);
    lemma_dest_width(h.destination);
    lemma_src_width(h.source, h.pan_id_compress);
    lemma_content_width(f.content);
    let p1 = 3 + dest_width(h.destination);
    let p2 = p1 + src_width(h.source, h.pan_id_compress);
    let p3 = p2 + content_width(f.content);
    assert(b.len() == p3 + f.payload.len());

    assert(b.subrange(0, 2) =~= le_of(fc as int, 2));
    lemma_le16_at(b, 0, fc);
    assert(type_bits(h.frame_type) <= 3);
    assert(version_bits(h.version) <= 2);
    assert(address_mode(h.destination) <= 3);
    assert(address_mode(h.source) <= 3);
    lemma_control_bits(
        type_bits(h.frame_type),
        bit16(h.security),
        bit16(h.frame_pending),
        bit16(h.ack_request),
        bit16(h.pan_id_compress),
        address_mode(h.destination),
        version_bits(h.version),
        address_mode(h.source),
    );
    assert((fc & 0x7) == type_bits(h.frame_type));
    assert(frame_type_of((fc & 0x7) as u8) == h.frame_type);
    assert((fc & 0x8) == 0);
    assert(((fc >> 12) & 0x3) == version_bits(h.version));
    assert(version_of(((fc >> 12) & 0x3) as u8) == h.version);
    assert(b[2] == h.sequence);

    assert(b.subrange(3, p1) =~= dest_bytes(h.destination));
    lemma_dest_round_trip(b, 3, h.destination);
    assert(((fc >> 10) & 0x3) as u8 == address_mode(h.destination) as u8);
    assert(spec_parse_dest(b, 3, ((fc >> 10) & 0x3) as u8) == Ok::<(Address, int), DecodeError>(
        (h.destination, p1),
    ));

    assert(b.subrange(p1, p2) =~= src_bytes(h.source, h.pan_id_compress));
    lemma_src_round_trip(b, p1, h.source, h.pan_id_compress, h.destination);
    assert(spec_parse_src(
        b,
        p1,
        ((fc >> 14) & 0x3) as u8,
        (fc & 0x40) != 0,
        h.destination,
    ) == Ok::<(Address, int), DecodeError>((h.source, p2)));

    assert(b.subrange(p2, p3) =~= content_bytes(f.content));
    match f.content {
        ContentView::Acknowledgement => {
            assert(h.frame_type == FrameType::Acknowledgement);
        },
        ContentView::Data => {
            assert(h.frame_type == FrameType::Data);
        },
        ContentView::Command(c) => {
            assert(h.frame_type == FrameType::MacCommand);
            lemma_command_round_trip(b, p2, c);
        },
        ContentView::Beacon(v) => {
            assert(h.frame_type == FrameType::Beacon);
            lemma_beacon_round_trip(b, p2, v);
        },
    }
    assert(spec_parse_content(b, p2, h.frame_type) == Ok::<(ContentView, int), DecodeError>(
        (f.content, p3),
    ));

    assert(b.skip(p3) =~= f.payload);
    match spec_parse_frame(b) {
        Ok(parsed) => {
            assert(parsed.header == h);
            assert(parsed.content == f.content);
            assert(parsed.payload == f.payload);
        },
        Err(_) => {
            assert(false);
        },
    }
}

} // verus!
