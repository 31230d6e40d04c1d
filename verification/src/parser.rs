//! Layered decoding of captured packets.
//!
//! A captured packet is decoded MAC layer first; a data frame's payload is
//! decoded as a network frame; a secured network frame is decrypted with the
//! candidate keys; the clear payload is decoded as an application-service
//! frame or a network command; and a device-profile message is decoded when
//! the profile asks for it. A layer that fails to decode ends the descent
//! there; nothing deeper is reported.

use vstd::prelude::*;

use crate::aps::{spec_parse_aps, ApplicationServiceHeader, ApsFrameType};
use crate::mac::{spec_parse_frame, ContentView, Frame, FrameContent};
use crate::nwk::{
    spec_parse_beacon_information, spec_parse_command, spec_parse_network, BeaconInformation,
    NetworkCommand, NetworkCommandView, NetworkHeader, NetworkHeaderView, NwkFrameType,
};
use crate::security::{keys_wf, spec_service_decrypt, SecurityService};
use crate::zdp::{spec_parse_zdp, DeviceProfileFrame, DeviceProfileFrameView};

verus! {

/// The profile identifier of the device-profile message set.
pub const DEVICE_PROFILE: u16 = 0x0000;

/// A decoded application-service layer: the header, the clear payload that
/// follows it, which key (by list position) decrypted it when it was
/// secured, and the device-profile message when the profile carries one.
#[derive(Clone, Debug, PartialEq, Eq)]
pub struct ParsedAps {
    pub header: ApplicationServiceHeader,
    pub decrypted_with: Option<usize>,
    pub payload: Vec<u8>,
    pub device_profile: Option<DeviceProfileFrame>,
}

/// The mathematical value of a decoded application-service layer.
pub struct ParsedApsView {
    pub header: ApplicationServiceHeader,
    pub decrypted_with: Option<int>,
    pub payload: Seq<u8>,
    pub device_profile: Option<DeviceProfileFrameView>,
}

impl View for ParsedAps {
    type V = ParsedApsView;

    open spec fn view(&self) -> ParsedApsView {
        ParsedApsView {
            header: self.header,
            decrypted_with: match self.decrypted_with {
                Option::Some(i) => Option::Some(i as int),
                Option::None => Option::None,
            },
            payload: self.payload@,
            device_profile: match &self.device_profile {
                Option::Some(f) => Option::Some(f@),
                Option::None => Option::None,
            },
        }
    }
}

/// A decoded network layer: the header, the clear payload, which key
/// decrypted it when it was secured, and the command or the
/// application-service layer the frame type selects.
#[derive(Clone, Debug, PartialEq, Eq)]
pub struct ParsedNetwork {
    pub header: NetworkHeader,
    pub decrypted_with: Option<usize>,
    pub payload: Vec<u8>,
    pub command: Option<NetworkCommand>,
    pub application_service: Option<ParsedAps>,
}

/// The mathematical value of a decoded network layer.
pub struct ParsedNetworkView {
    pub header: NetworkHeaderView,
    pub decrypted_with: Option<int>,
    pub payload: Seq<u8>,
    pub command: Option<NetworkCommandView>,
    pub application_service: Option<ParsedApsView>,
}

impl View for ParsedNetwork {
    type V = ParsedNetworkView;

    open spec fn view(&self) -> ParsedNetworkView {
        ParsedNetworkView {
            header: self.header@,
            decrypted_with: match self.decrypted_with {
                Option::Some(i) => Option::Some(i as int),
                Option::None => Option::None,
            },
            payload: self.payload@,
            command: match &self.command {
                Option::Some(c) => Option::Some(c@),
                Option::None => Option::None,
            },
            application_service: match &self.application_service {
                Option::Some(a) => Option::Some(a@),
                Option::None => Option::None,
            },
        }
    }
}

/// A fully decoded packet: the MAC frame, the beacon payload of a beacon
/// frame, and the network layer of a data frame.
#[derive(Clone, Debug, PartialEq, Eq)]
pub struct ParsedPacket {
    pub frame: Frame,
    pub beacon_information: Option<BeaconInformation>,
    pub network: Option<ParsedNetwork>,
}

/// The mathematical value of a decoded packet.
pub struct ParsedPacketView {
    pub frame: crate::mac::FrameView,
    pub beacon_information: Option<BeaconInformation>,
    pub network: Option<ParsedNetworkView>,
}

impl View for ParsedPacket {
    type V = ParsedPacketView;

    open spec fn view(&self) -> ParsedPacketView {
        ParsedPacketView {
            frame: self.frame@,
            beacon_information: self.beacon_information,
            network: match &self.network {
                Option::Some(n) => Option::Some(n@),
                Option::None => Option::None,
            },
        }
    }
}

/// What decrypting the secured part of a layer yields: the decrypting key's
/// position and the plaintext when one key authenticates, and an empty
/// payload when none does.
pub open spec fn spec_decrypt_step(
    keys: Seq<(Vec<u8>, String)>,
    payload: Seq<u8>,
    offset: int,
) -> (Option<int>, Seq<u8>) {
    match spec_service_decrypt(keys, payload, offset, 0) {
        Option::Some((i, pt)) => (Option::Some(i), pt),
        Option::None => (Option::None, Seq::empty()),
    }
}

/// The decode of the application-service layer of a clear payload.
pub open spec fn spec_parse_aps_layer(keys: Seq<(Vec<u8>, String)>, payload: Seq<u8>) -> Option<
    ParsedApsView,
> {
    match spec_parse_aps(payload) {
        Ok((header, used)) => {
            let (key, clear) = if header.control.security {
                spec_decrypt_step(keys, payload, used)
            } else {
                (Option::None, payload.skip(used))
            };
            let device_profile = if header.control.frame_type == ApsFrameType::Data
                && header.profile == Option::Some(DEVICE_PROFILE) && header.cluster is Some {
                match spec_parse_zdp(clear, header.cluster->0) {
                    Ok((f, _)) => Option::Some(f),
                    Err(_) => Option::None,
                }
            } else {
                Option::None
            };
            Option::Some(
                ParsedApsView { header, decrypted_with: key, payload: clear, device_profile },
            )
        },
        Err(_) => Option::None,
    }
}

/// The decode of the network layer of a data frame's payload.
pub open spec fn spec_parse_network_layer(keys: Seq<(Vec<u8>, String)>, payload: Seq<u8>)
    -> Option<ParsedNetworkView> {
    match spec_parse_network(payload) {
        Ok((header, used)) => {
            let (key, clear) = if header.control.security {
                spec_decrypt_step(keys, payload, used)
            } else {
                (Option::None, payload.skip(used))
            };
            let command = if clear.len() > 0 && header.control.frame_type == NwkFrameType::Command {
                match spec_parse_command(clear) {
                    Ok((c, _)) => Option::Some(c),
                    Err(_) => Option::None,
                }
            } else {
                Option::None
            };
            let application_service = if clear.len() > 0 && (header.control.frame_type
                == NwkFrameType::Data || header.control.frame_type == NwkFrameType::InterPan) {
                spec_parse_aps_layer(keys, clear)
            } else {
                Option::None
            };
            Option::Some(
                ParsedNetworkView {
                    header,
                    decrypted_with: key,
                    payload: clear,
                    command,
                    application_service,
                },
            )
        },
        Err(_) => Option::None,
    }
}

/// The decode of a whole captured packet.
pub open spec fn spec_parse_packet(keys: Seq<(Vec<u8>, String)>, packet: Seq<u8>) -> Result<
    ParsedPacketView,
    crate::mac::DecodeError,
> {
    match spec_parse_frame(packet) {
        Ok(frame) => {
            let beacon_information = match frame.content {
                ContentView::Beacon(_) => match spec_parse_beacon_information(frame.payload) {
                    Ok((bi, _)) => Option::Some(bi),
                    Err(_) => Option::None,
                },
                _ => Option::None,
            };
            let network = match frame.content {
                ContentView::Data => spec_parse_network_layer(keys, frame.payload),
                _ => Option::None,
            };
            Ok(ParsedPacketView { frame, beacon_information, network })
        },
        Err(e) => Err(e),
    }
}

/// A stateful packet decoder holding the candidate keys for secured
/// traffic.
pub struct Parser {
    pub security: SecurityService,
}

impl Parser {
    /// A parser with no candidate keys.
    pub fn new() -> (r: Parser)
        ensures
            r.security.keys@.len() == 0,
    {
        Parser { security: SecurityService::new() }
    }

    /// Decode a captured packet through every layer it carries.
    pub fn parse_packet(&self, packet: &[u8]) -> (r: Result<ParsedPacket, crate::mac::DecodeError>)
        requires
            keys_wf(self.security.keys@),
            packet@.len() <= 0xffff,
        ensures
            match spec_parse_packet(self.security.keys@, packet@) {
                Ok(v) => r is Ok && r->Ok_0@ == v,
                Err(e) => r == Err::<ParsedPacket, crate::mac::DecodeError>(e),
            },
    {
        let frame = match crate::mac::unpack(packet) {
            Ok(frame) => frame,
            Err(e) => {
                return Err(e);
            },
        };
        proof {
            lemma_payload_len(packet@);
        }
        let beacon_information = match &frame.content {
            FrameContent::Beacon(_) => match BeaconInformation::unpack(frame.payload.as_slice()) {
                Ok((bi, _)) => Option::Some(bi),
                Err(_) => Option::None,
            },
            _ => Option::None,
        };
        let network = match &frame.content {
            FrameContent::Data => self.parse_network_layer(frame.payload.as_slice()),
            _ => Option::None,
        };
        Ok(ParsedPacket { frame, beacon_information, network })
    }

    /// Decode the network layer of a data frame's payload: the header, the
    /// decrypted or clear payload, and the layer above it.
    pub fn parse_network_layer(&self, payload: &[u8]) -> (r: Option<ParsedNetwork>)
        requires
            keys_wf(self.security.keys@),
            payload@.len() <= 0xffff,
        ensures
            match spec_parse_network_layer(self.security.keys@, payload@) {
                Option::Some(v) => r is Some && r->0@ == v,
                Option::None => r is None,
            },
    {
        let (header, used) = match NetworkHeader::unpack(payload) {
            Ok(x) => x,
            Err(_) => {
                return Option::None;
            },
        };
        let (key, clear) = if header.control.security {
            match self.security.decrypt(payload, used) {
                Option::Some((i, pt)) => (Option::Some(i), pt),
                Option::None => {
                    let empty: Vec<u8> = Vec::new();
                    proof {
                        assert(empty@ =~= Seq::<u8>::empty());
                    }
                    (Option::None, empty)
                },
            }
        } else {
            (Option::None, tail(payload, used))
        };
        proof {
            lemma_parse_network_pos(payload@);
            lemma_clear_len(self.security.keys@, payload@, used as int);
        }
        let command = if clear.len() > 0 && matches!(header.control.frame_type, NwkFrameType::Command) {
            match NetworkCommand::unpack(clear.as_slice()) {
                Ok((c, _)) => Option::Some(c),
                Err(_) => Option::None,
            }
        } else {
            Option::None
        };
        let application_service = if clear.len() > 0 && matches!(
            header.control.frame_type,
            NwkFrameType::Data | NwkFrameType::InterPan,
        ) {
            self.parse_aps_layer(clear.as_slice())
        } else {
            Option::None
        };
        Option::Some(
            ParsedNetwork { header, decrypted_with: key, payload: clear, command, application_service },
        )
    }

    /// Decode the application-service layer of a clear payload: the header,
    /// the decrypted or clear payload above it, and the device-profile
    /// message when the profile carries one.
    pub fn parse_aps_layer(&self, payload: &[u8]) -> (r: Option<ParsedAps>)
        requires
            keys_wf(self.security.keys@),
            payload@.len() <= 0xffff,
        ensures
            match spec_parse_aps_layer(self.security.keys@, payload@) {
                Option::Some(v) => r is Some && r->0@ == v,
                Option::None => r is None,
            },
    {
        let (header, used) = match ApplicationServiceHeader::unpack(payload) {
            Ok(x) => x,
            Err(_) => {
                return Option::None;
            },
        };
        let (key, clear) = if header.control.security {
            match self.security.decrypt(payload, used) {
                Option::Some((i, pt)) => (Option::Some(i), pt),
                Option::None => {
                    let empty: Vec<u8> = Vec::new();
                    proof {
                        assert(empty@ =~= Seq::<u8>::empty());
                    }
                    (Option::None, empty)
                },
            }
        } else {
            (Option::None, tail(payload, used))
        };
        let device_profile = if matches!(header.control.frame_type, ApsFrameType::Data) && matches!(
            header.profile,
            Option::Some(DEVICE_PROFILE),
        ) {
            match header.cluster {
                Option::Some(cluster) => match DeviceProfileFrame::unpack(clear.as_slice(), cluster) {
                    Ok((f, _)) => Option::Some(f),
                    Err(_) => Option::None,
                },
                Option::None => Option::None,
            }
        } else {
            Option::None
        };
        Option::Some(ParsedAps { header, decrypted_with: key, payload: clear, device_profile })
    }
}

/// The bytes of a buffer from a position on.
fn tail(data: &[u8], pos: usize) -> (r: Vec<u8>)
    requires
        pos <= data@.len(),
    ensures
        r@ == data@.skip(pos as int),
{
    let mut r: Vec<u8> = Vec::new();
    let mut k: usize = pos;
    while k < data.len()
        invariant
            pos <= k <= data@.len(),
            r@ == data@.subrange(pos as int, k as int),
        decreases data@.len() - k,
    {
        r.push(data[k]);
        proof {
            assert(r@ =~= data@.subrange(pos as int, k + 1));
        }
        k += 1;
    }
    proof {
        assert(r@ =~= data@.skip(pos as int));
    }
    r
}

/// A parsed frame's payload is no longer than the packet it came from.
proof fn lemma_payload_len(packet: Seq<u8>)
    ensures
        spec_parse_frame(packet) matches Ok(f) ==> f.payload.len() <= packet.len(),
{
}

/// A decrypted payload is no longer than the secured buffer it came from.
proof fn lemma_clear_len(keys: Seq<(Vec<u8>, String)>, payload: Seq<u8>, offset: int)
    requires
        0 <= offset <= payload.len(),
    ensures
        spec_service_decrypt(keys, payload, offset, 0) matches Option::Some((i, pt)) ==> pt.len()
            <= payload.len(),
{
    lemma_service_decrypt_len(keys, payload, offset, 0);
}

proof fn lemma_decrypt_payload_len(key: Seq<u8>, payload: Seq<u8>, offset: int)
    requires
        0 <= offset <= payload.len(),
    ensures
        crate::security::spec_decrypt_payload(key, payload, offset) matches Option::Some(pt)
            ==> pt.len() <= payload.len(),
{
}

proof fn lemma_service_decrypt_len(keys: Seq<(Vec<u8>, String)>, payload: Seq<u8>, offset: int, i: int)
    requires
        0 <= offset <= payload.len(),
    ensures
        spec_service_decrypt(keys, payload, offset, i) matches Option::Some((j, pt)) ==> pt.len()
            <= payload.len(),
    decreases keys.len() - i,
{
    if 0 <= i < keys.len() {
        lemma_decrypt_payload_len(keys[i].0@, payload, offset);
        lemma_service_decrypt_len(keys, payload, offset, i + 1);
    }
}

/// A successful header parse consumes part of the buffer.
proof fn lemma_parse_network_pos(b: Seq<u8>)
    ensures
        spec_parse_network(b) matches Ok((h, p)) ==> 0 <= p <= b.len(),
{
}

/// A successful header parse consumes part of the buffer.
proof fn lemma_parse_aps_pos(b: Seq<u8>)
    ensures
        spec_parse_aps(b) matches Ok((h, p)) ==> 0 <= p <= b.len(),
{
}

} // verus!
