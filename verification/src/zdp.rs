//! Zigbee device-profile frame codec.
//!
//! Decoding of the management messages carried over the application-service
//! layer: addressing queries and their responses, node-descriptor queries,
//! device announcements and link-quality queries.

use vstd::prelude::*;

use crate::mac::{spec_le16, spec_le64};
use crate::wire::{le_int, read_u16_le, read_u64_le};
use crate::zigbee::Error;

verus! {

/// An address-of-interest response: the looked-up pair of addresses, with
/// the slice of associated devices when one was asked for.
#[derive(Clone, Debug, PartialEq, Eq)]
pub struct AddressResponse {
    pub status: u8,
    pub ieee_address: u64,
    pub network_address: u16,
    pub start_index: Option<u8>,
    pub associated_devices: Option<Vec<u16>>,
}

/// The mathematical value of an address response.
pub struct AddressResponseView {
    pub status: u8,
    pub ieee_address: u64,
    pub network_address: u16,
    pub start_index: Option<u8>,
    pub associated_devices: Option<Seq<u16>>,
}

impl View for AddressResponse {
    type V = AddressResponseView;

    open spec fn view(&self) -> AddressResponseView {
        AddressResponseView {
            status: self.status,
            ieee_address: self.ieee_address,
            network_address: self.network_address,
            start_index: self.start_index,
            associated_devices: match &self.associated_devices {
                Option::Some(v) => Option::Some(v@),
                Option::None => Option::None,
            },
        }
    }
}

/// A device-profile message, selected by the cluster it was carried on.
#[derive(Clone, Debug, PartialEq, Eq)]
pub enum DeviceProfileMessage {
    /// IEEE address looked up, request type, start index
    NetworkAddressRequest(u64, u8, u8),
    NetworkAddressResponse(AddressResponse),
    /// network address looked up, request type, start index
    IeeeAddressRequest(u16, u8, u8),
    IeeeAddressResponse(AddressResponse),
    /// network address of interest
    NodeDescriptorRequest(u16),
    /// network address, IEEE address, capability
    DeviceAnnounce(u16, u64, u8),
    /// start index
    ManagementLinkQualityIndicatorRequest(u8),
}

/// The mathematical value of a device-profile message.
pub enum DeviceProfileMessageView {
    NetworkAddressRequest(u64, u8, u8),
    NetworkAddressResponse(AddressResponseView),
    IeeeAddressRequest(u16, u8, u8),
    IeeeAddressResponse(AddressResponseView),
    NodeDescriptorRequest(u16),
    DeviceAnnounce(u16, u64, u8),
    ManagementLinkQualityIndicatorRequest(u8),
}

impl View for DeviceProfileMessage {
    type V = DeviceProfileMessageView;

    open spec fn view(&self) -> DeviceProfileMessageView {
        match self {
            DeviceProfileMessage::NetworkAddressRequest(a, t, i)
                => DeviceProfileMessageView::NetworkAddressRequest(*a, *t, *i),
            DeviceProfileMessage::NetworkAddressResponse(r)
                => DeviceProfileMessageView::NetworkAddressResponse(r@),
            DeviceProfileMessage::IeeeAddressRequest(a, t, i)
                => DeviceProfileMessageView::IeeeAddressRequest(*a, *t, *i),
            DeviceProfileMessage::IeeeAddressResponse(r)
                => DeviceProfileMessageView::IeeeAddressResponse(r@),
            DeviceProfileMessage::NodeDescriptorRequest(a)
                => DeviceProfileMessageView::NodeDescriptorRequest(*a),
            DeviceProfileMessage::DeviceAnnounce(n, e, c)
                => DeviceProfileMessageView::DeviceAnnounce(*n, *e, *c),
            DeviceProfileMessage::ManagementLinkQualityIndicatorRequest(i)
                => DeviceProfileMessageView::ManagementLinkQualityIndicatorRequest(*i),
        }
    }
}

/// A device-profile frame: the transaction sequence number and the message.
#[derive(Clone, Debug, PartialEq, Eq)]
pub struct DeviceProfileFrame {
    pub transaction_sequence: u8,
    pub message: DeviceProfileMessage,
}

/// The mathematical value of a device-profile frame.
pub struct DeviceProfileFrameView {
    pub transaction_sequence: u8,
    pub message: DeviceProfileMessageView,
}

impl View for DeviceProfileFrame {
    type V = DeviceProfileFrameView;

    open spec fn view(&self) -> DeviceProfileFrameView {
        DeviceProfileFrameView {
            transaction_sequence: self.transaction_sequence,
            message: self.message@,
        }
    }
}

/// The parse of an address response, shared by the two address clusters:
/// status, IEEE address and network address, and — when bytes remain — the
/// start index and the list of associated devices.
pub open spec fn spec_parse_address_response(b: Seq<u8>, pos: int) -> Result<
    (AddressResponseView, int),
    Error,
> {
    if pos + 11 > b.len() {
        Err(Error::NotEnoughSpace)
    } else if pos + 11 == b.len() {
        Ok(
            (
                AddressResponseView {
                    status: b[pos],
                    ieee_address: spec_le64(b, pos + 1),
                    network_address: spec_le16(b, pos + 9),
                    start_index: Option::None,
                    associated_devices: Option::None,
                },
                pos + 11,
            ),
        )
    } else if pos + 13 > b.len() {
        Err(Error::WrongNumberOfBytes)
    } else {
        let count = b[pos + 11] as int;
        if pos + 13 + 2 * count != b.len() {
            Err(Error::WrongNumberOfBytes)
        } else {
            Ok(
                (
                    AddressResponseView {
                        status: b[pos],
                        ieee_address: spec_le64(b, pos + 1),
                        network_address: spec_le16(b, pos + 9),
                        start_index: Option::Some(b[pos + 12]),
                        associated_devices: Option::Some(
                            Seq::new(count as nat, |i: int| spec_le16(b, pos + 13 + 2 * i)),
                        ),
                    },
                    pos + 13 + 2 * count,
                ),
            )
        }
    }
}

/// The parse of a device-profile frame carried on a cluster: the transaction
/// sequence number, then the message layout the cluster defines.
pub open spec fn spec_parse_zdp(b: Seq<u8>, cluster: u16) -> Result<
    (DeviceProfileFrameView, int),
    Error,
> {
    if b.len() < 1 {
        Err(Error::NotEnoughSpace)
    } else {
        let ts = b[0];
        if cluster == 0x0000 {
            if b.len() < 11 {
                Err(Error::NotEnoughSpace)
            } else {
                Ok(
                    (
                        DeviceProfileFrameView {
                            transaction_sequence: ts,
                            message: DeviceProfileMessageView::NetworkAddressRequest(
                                spec_le64(b, 1),
                                b[9],
                                b[10],
                            ),
                        },
                        11,
                    ),
                )
            }
        } else if cluster == 0x8000 {
            match spec_parse_address_response(b, 1) {
                Ok((r, p)) => Ok(
                    (
                        DeviceProfileFrameView {
                            transaction_sequence: ts,
                            message: DeviceProfileMessageView::NetworkAddressResponse(r),
                        },
                        p,
                    ),
                ),
                Err(e) => Err(e),
            }
        } else if cluster == 0x0001 {
            if b.len() < 5 {
                Err(Error::NotEnoughSpace)
            } else {
                Ok(
                    (
                        DeviceProfileFrameView {
                            transaction_sequence: ts,
                            message: DeviceProfileMessageView::IeeeAddressRequest(
                                spec_le16(b, 1),
                                b[3],
                                b[4],
                            ),
                        },
                        5,
                    ),
                )
            }
        } else if cluster == 0x8001 {
            match spec_parse_address_response(b, 1) {
                Ok((r, p)) => Ok(
                    (
                        DeviceProfileFrameView {
                            transaction_sequence: ts,
                            message: DeviceProfileMessageView::IeeeAddressResponse(r),
                        },
                        p,
                    ),
                ),
                Err(e) => Err(e),
            }
        } else if cluster == 0x0002 {
            if b.len() < 3 {
                Err(Error::NotEnoughSpace)
            } else {
                Ok(
                    (
                        DeviceProfileFrameView {
                            transaction_sequence: ts,
                            message: DeviceProfileMessageView::NodeDescriptorRequest(
                                spec_le16(b, 1),
                            ),
                        },
                        3,
                    ),
                )
            }
        } else if cluster == 0x0013 {
            if b.len() < 12 {
                Err(Error::NotEnoughSpace)
            } else {
                Ok(
                    (
                        DeviceProfileFrameView {
                            transaction_sequence: ts,
                            message: DeviceProfileMessageView::DeviceAnnounce(
                                spec_le16(b, 1),
                                spec_le64(b, 3),
                                b[11],
                            ),
                        },
                        12,
                    ),
                )
            }
        } else if cluster == 0x0031 {
            if b.len() < 2 {
                Err(Error::NotEnoughSpace)
            } else {
                Ok(
                    (
                        DeviceProfileFrameView {
                            transaction_sequence: ts,
                            message:
                                DeviceProfileMessageView::ManagementLinkQualityIndicatorRequest(
                                b[1],
                            ),
                        },
                        2,
                    ),
                )
            }
        } else {
            Err(Error::UnknownClusterIdentifier)
        }
    }
}

impl DeviceProfileFrame {
    /// Decode a device-profile frame carried on a cluster, returning it with
    /// the number of bytes consumed.
    pub fn unpack(data: &[u8], cluster: u16) -> (r: Result<(DeviceProfileFrame, usize), Error>)
        ensures
            match spec_parse_zdp(data@, cluster) {
                Ok((v, p)) => r is Ok && r->Ok_0.0@ == v && r->Ok_0.1 as int == p,
                Err(e) => r == Err::<(DeviceProfileFrame, usize), Error>(e),
            },
    {
        if data.len() < 1 {
            return Err(Error::NotEnoughSpace);
        }
        let ts = data[0];
        if cluster == 0x0000 {
            if data.len() < 11 {
                return Err(Error::NotEnoughSpace);
            }
            Ok(
                (
                    DeviceProfileFrame {
                        transaction_sequence: ts,
                        message: DeviceProfileMessage::NetworkAddressRequest(
                            zdp_le64(data, 1),
                            data[9],
                            data[10],
                        ),
                    },
                    11,
                ),
            )
        } else if cluster == 0x8000 {
            match parse_address_response(data, 1) {
                Ok((resp, p)) => Ok(
                    (
                        DeviceProfileFrame {
                            transaction_sequence: ts,
                            message: DeviceProfileMessage::NetworkAddressResponse(resp),
                        },
                        p,
                    ),
                ),
                Err(e) => Err(e),
            }
        } else if cluster == 0x0001 {
            if data.len() < 5 {
                return Err(Error::NotEnoughSpace);
            }
            Ok(
                (
                    DeviceProfileFrame {
                        transaction_sequence: ts,
                        message: DeviceProfileMessage::IeeeAddressRequest(
                            zdp_le16(data, 1),
                            data[3],
                            data[4],
                        ),
                    },
                    5,
                ),
            )
        } else if cluster == 0x8001 {
            match parse_address_response(data, 1) {
                Ok((resp, p)) => Ok(
                    (
                        DeviceProfileFrame {
                            transaction_sequence: ts,
                            message: DeviceProfileMessage::IeeeAddressResponse(resp),
                        },
                        p,
                    ),
                ),
                Err(e) => Err(e),
            }
        } else if cluster == 0x0002 {
            if data.len() < 3 {
                return Err(Error::NotEnoughSpace);
            }
            Ok(
                (
                    DeviceProfileFrame {
                        transaction_sequence: ts,
                        message: DeviceProfileMessage::NodeDescriptorRequest(zdp_le16(data, 1)),
                    },
                    3,
                ),
            )
        } else if cluster == 0x0013 {
            if data.len() < 12 {
                return Err(Error::NotEnoughSpace);
            }
            Ok(
                (
                    DeviceProfileFrame {
                        transaction_sequence: ts,
                        message: DeviceProfileMessage::DeviceAnnounce(
                            zdp_le16(data, 1),
                            zdp_le64(data, 3),
                            data[11],
                        ),
                    },
                    12,
                ),
            )
        } else if cluster == 0x0031 {
            if data.len() < 2 {
                return Err(Error::NotEnoughSpace);
            }
            Ok(
                (
                    DeviceProfileFrame {
                        transaction_sequence: ts,
                        message: DeviceProfileMessage::ManagementLinkQualityIndicatorRequest(
                            data[1],
                        ),
                    },
                    2,
                ),
            )
        } else {
            Err(Error::UnknownClusterIdentifier)
        }
    }
}

fn parse_address_response(data: &[u8], pos: usize) -> (r: Result<(AddressResponse, usize), Error>)
    requires
        pos <= data@.len(),
    ensures
        match spec_parse_address_response(data@, pos as int) {
            Ok((v, p)) => r is Ok && r->Ok_0.0@ == v && r->Ok_0.1 as int == p,
            Err(e) => r == Err::<(AddressResponse, usize), Error>(e),
        },
{
    if data.len() - pos < 11 {
        return Err(Error::NotEnoughSpace);
    }
    if data.len() - pos == 11 {
        return Ok(
            (
                AddressResponse {
                    status: data[pos],
                    ieee_address: zdp_le64(data, pos + 1),
                    network_address: zdp_le16(data, pos + 9),
                    start_index: Option::None,
                    associated_devices: Option::None,
                },
                pos + 11,
            ),
        );
    }
    if data.len() - pos < 13 {
        return Err(Error::WrongNumberOfBytes);
    }
    let count = data[pos + 11] as usize;
    if data.len() - (pos + 13) != 2 * count {
        return Err(Error::WrongNumberOfBytes);
    }
    let mut devices: Vec<u16> = Vec::new();
    let mut i: usize = 0;
    while i < count
        invariant
            i <= count,
            data@.len() <= usize::MAX,
            pos + 13 + 2 * count <= data@.len(),
            devices@.len() == i,
            forall|j: int| 0 <= j < i ==> devices@[j] == spec_le16(data@, pos + 13 + 2 * j),
        decreases count - i,
    {
        devices.push(zdp_le16(data, pos + 13 + 2 * i));
        i += 1;
    }
    proof {
        assert(devices@ =~= Seq::new(
            count as nat,
            |j: int| spec_le16(data@, pos + 13 + 2 * j),
        ));
    }
    Ok(
        (
            AddressResponse {
                status: data[pos],
                ieee_address: zdp_le64(data, pos + 1),
                network_address: zdp_le16(data, pos + 9),
                start_index: Option::Some(data[pos + 12]),
                associated_devices: Option::Some(devices),
            },
            pos + 13 + 2 * count,
        ),
    )
}

/// A 16-bit little-endian field.
fn zdp_le16(data: &[u8], pos: usize) -> (r: u16)
    requires
        pos + 2 <= data@.len(),
    ensures
        r == spec_le16(data@, pos as int),
{
    let r = read_u16_le(data, pos);
    proof {
        crate::wire::lemma_le_int_bound(data@.subrange(pos as int, pos + 2));
        assert(crate::wire::pow256(2nat) == 0x1_0000) by {
            reveal_with_fuel(crate::wire::pow256, 3);
        }
    }
    r
}

/// A 64-bit little-endian field.
fn zdp_le64(data: &[u8], pos: usize) -> (r: u64)
    requires
        pos + 8 <= data@.len(),
    ensures
        r == spec_le64(data@, pos as int),
{
    let r = read_u64_le(data, pos);
    proof {
        crate::wire::lemma_le_int_bound(data@.subrange(pos as int, pos + 8));
        assert(crate::wire::pow256(8nat) == 0x1_0000_0000_0000_0000) by {
            reveal_with_fuel(crate::wire::pow256, 9);
        }
    }
    r
}

} // verus!
