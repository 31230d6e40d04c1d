//! Zigbee application-service frame codec.
//!
//! Decoding of the application-service header, whose optional addressing
//! fields are selected by the frame type and delivery mode.

use vstd::prelude::*;

use crate::mac::spec_le16;
use crate::wire::read_u16_le;
use crate::zigbee::Error;

verus! {

/// Application-service frame types.
#[derive(Clone, Copy, Debug, PartialEq, Eq, Structural)]
pub enum ApsFrameType {
    Data,
    Command,
    Acknowledgement,
    InterPan,
}

/// Application-service delivery modes.
#[derive(Clone, Copy, Debug, PartialEq, Eq, Structural)]
pub enum DeliveryMode {
    Unicast,
    Indirect,
    Broadcast,
    GroupAddressing,
}

/// The control bits of an application-service header.
#[derive(Clone, Copy, Debug, PartialEq, Eq, Structural)]
pub struct ApsControl {
    pub frame_type: ApsFrameType,
    pub delivery_mode: DeliveryMode,
    pub acknowledge_format: bool,
    pub security: bool,
    pub acknowledge_request: bool,
    pub extended_header: bool,
}

/// The application-service header: control bits, the addressing fields the
/// control bits announce, and the frame counter.
#[derive(Clone, Copy, Debug, PartialEq, Eq, Structural)]
pub struct ApplicationServiceHeader {
    pub control: ApsControl,
    pub destination: Option<u8>,
    pub group: Option<u16>,
    pub cluster: Option<u16>,
    pub profile: Option<u16>,
    pub source: Option<u8>,
    pub counter: u8,
}

/// Whether a destination endpoint is carried: data and acknowledgement
/// frames delivered to a single or broadcast endpoint name one.
pub open spec fn has_destination(c: ApsControl) -> bool {
    (c.frame_type == ApsFrameType::Data || c.frame_type == ApsFrameType::Acknowledgement) && (
    c.delivery_mode == DeliveryMode::Unicast || c.delivery_mode == DeliveryMode::Broadcast)
}

/// Whether a group address is carried.
pub open spec fn has_group(c: ApsControl) -> bool {
    (c.frame_type == ApsFrameType::Data || c.frame_type == ApsFrameType::Acknowledgement)
        && c.delivery_mode == DeliveryMode::GroupAddressing
}

/// Whether cluster and profile identifiers are carried.
pub open spec fn has_cluster_profile(c: ApsControl) -> bool {
    c.frame_type == ApsFrameType::Data || c.frame_type == ApsFrameType::Acknowledgement
}

/// Whether a source endpoint is carried.
pub open spec fn has_source(c: ApsControl) -> bool {
    c.frame_type == ApsFrameType::Data
}

/// The control bits of a control octet.
pub open spec fn spec_control(b: u8) -> ApsControl {
    ApsControl {
        frame_type: if b & 0x3 == 0 {
            ApsFrameType::Data
        } else if b & 0x3 == 1 {
            ApsFrameType::Command
        } else if b & 0x3 == 2 {
            ApsFrameType::Acknowledgement
        } else {
            ApsFrameType::InterPan
        },
        delivery_mode: if (b >> 2) & 0x3 == 0 {
            DeliveryMode::Unicast
        } else if (b >> 2) & 0x3 == 1 {
            DeliveryMode::Indirect
        } else if (b >> 2) & 0x3 == 2 {
            DeliveryMode::Broadcast
        } else {
            DeliveryMode::GroupAddressing
        },
        acknowledge_format: b & 0x10 != 0,
        security: b & 0x20 != 0,
        acknowledge_request: b & 0x40 != 0,
        extended_header: b & 0x80 != 0,
    }
}

/// The parse of an application-service header. After the control octet come
/// the destination endpoint or group address, the cluster and profile
/// identifiers, the source endpoint — each only when the control bits
/// announce it — and the frame counter.
pub open spec fn spec_parse_aps(b: Seq<u8>) -> Result<(ApplicationServiceHeader, int), Error> {
    if b.len() < 1 {
        Err(Error::NotEnoughSpace)
    } else {
        let control = spec_control(b[0]);
        let dlen: int = if has_destination(control) {
            1
        } else {
            0
        };
        let glen: int = if has_group(control) {
            2
        } else {
            0
        };
        let cplen: int = if has_cluster_profile(control) {
            4
        } else {
            0
        };
        let slen: int = if has_source(control) {
            1
        } else {
            0
        };
        let used = 1 + dlen + glen + cplen + slen + 1;
        if used > b.len() {
            Err(Error::NotEnoughSpace)
        } else {
            Ok(
                (
                    ApplicationServiceHeader {
                        control,
                        destination: if has_destination(control) {
                            Option::Some(b[1])
                        } else {
                            Option::None
                        },
                        group: if has_group(control) {
                            Option::Some(spec_le16(b, 1 + dlen))
                        } else {
                            Option::None
                        },
                        cluster: if has_cluster_profile(control) {
                            Option::Some(spec_le16(b, 1 + dlen + glen))
                        } else {
                            Option::None
                        },
                        profile: if has_cluster_profile(control) {
                            Option::Some(spec_le16(b, 3 + dlen + glen))
                        } else {
                            Option::None
                        },
                        source: if has_source(control) {
                            Option::Some(b[1 + dlen + glen + cplen])
                        } else {
                            Option::None
                        },
                        counter: b[1 + dlen + glen + cplen + slen],
                    },
                    used,
                ),
            )
        }
    }
}

impl ApplicationServiceHeader {
    /// Decode an application-service header from the front of a buffer,
    /// returning it with the number of bytes consumed.
    pub fn unpack(data: &[u8]) -> (r: Result<(ApplicationServiceHeader, usize), Error>)
        ensures
            match spec_parse_aps(data@) {
                Ok((v, p)) => r is Ok && r->Ok_0.0 == v && r->Ok_0.1 as int == p,
                Err(e) => r == Err::<(ApplicationServiceHeader, usize), Error>(e),
            },
    {
        if data.len() < 1 {
            return Err(Error::NotEnoughSpace);
        }
        let cb = data[0];
        let control = ApsControl {
            frame_type: if cb & 0x3 == 0 {
                ApsFrameType::Data
            } else if cb & 0x3 == 1 {
                ApsFrameType::Command
            } else if cb & 0x3 == 2 {
                ApsFrameType::Acknowledgement
            } else {
                ApsFrameType::InterPan
            },
            delivery_mode: if (cb >> 2) & 0x3 == 0 {
                DeliveryMode::Unicast
            } else if (cb >> 2) & 0x3 == 1 {
                DeliveryMode::Indirect
            } else if (cb >> 2) & 0x3 == 2 {
                DeliveryMode::Broadcast
            } else {
                DeliveryMode::GroupAddressing
            },
            acknowledge_format: cb & 0x10 != 0,
            security: cb & 0x20 != 0,
            acknowledge_request: cb & 0x40 != 0,
            extended_header: cb & 0x80 != 0,
        };
        let has_dst = matches!(control.frame_type, ApsFrameType::Data | ApsFrameType::Acknowledgement)
            && matches!(control.delivery_mode, DeliveryMode::Unicast | DeliveryMode::Broadcast);
        let has_grp = matches!(control.frame_type, ApsFrameType::Data | ApsFrameType::Acknowledgement)
            && matches!(control.delivery_mode, DeliveryMode::GroupAddressing);
        let has_cp = matches!(control.frame_type, ApsFrameType::Data | ApsFrameType::Acknowledgement);
        let has_src = matches!(control.frame_type, ApsFrameType::Data);
        let dlen: usize = if has_dst {
            1
        } else {
            0
        };
        let glen: usize = if has_grp {
            2
        } else {
            0
        };
        let cplen: usize = if has_cp {
            4
        } else {
            0
        };
        let slen: usize = if has_src {
            1
        } else {
            0
        };
        let used = 1 + dlen + glen + cplen + slen + 1;
        if used > data.len() {
            return Err(Error::NotEnoughSpace);
        }
        let header = ApplicationServiceHeader {
            control,
            destination: if has_dst {
                Option::Some(data[1])
            } else {
                Option::None
            },
            group: if has_grp {
                Option::Some(aps_le16(data, 1 + dlen))
            } else {
                Option::None
            },
            cluster: if has_cp {
                Option::Some(aps_le16(data, 1 + dlen + glen))
            } else {
                Option::None
            },
            profile: if has_cp {
                Option::Some(aps_le16(data, 3 + dlen + glen))
            } else {
                Option::None
            },
            source: if has_src {
                Option::Some(data[1 + dlen + glen + cplen])
            } else {
                Option::None
            },
            counter: data[1 + dlen + glen + cplen + slen],
        };
        Ok((header, used))
    }
}

/// A 16-bit little-endian field.
fn aps_le16(data: &[u8], pos: usize) -> (r: u16)
    requires
        pos + 2 <= data@.len(),
    ensures
        r == spec_le16(data@, pos as int),
{
    let r = read_u16_le(data, pos);
    proof {
        crate::wire::lemma_le_int_bound(data@.subrange(pos as int, pos + 2));
        assert(crate::wire::pow256(2nat) == 0x1_0000) by {
            reveal_with_fuel(crate::wire::pow256, 3);
        }
    }
    r
}

} // verus!
