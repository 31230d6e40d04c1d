//! Zigbee network-layer frame codec.
//!
//! Decoding and encoding of the network header, whose optional fields are
//! selected by control bits, and decoding of the network command sub-frames.

use vstd::prelude::*;

use crate::wire::{read_u16_le, read_u64_le};
use crate::mac::{spec_le16, spec_le64};
use crate::zigbee::Error;

verus! {

/// Network-layer frame types.
#[derive(Clone, Copy, Debug, PartialEq, Eq, Structural)]
pub enum NwkFrameType {
    Data,
    Command,
    InterPan,
}

/// Route-discovery control of a network frame.
#[derive(Clone, Copy, Debug, PartialEq, Eq, Structural)]
pub enum DiscoverRoute {
    SuppressDiscovery,
    EnableDiscovery,
}

/// The control bits of a network header.
#[derive(Clone, Copy, Debug, PartialEq, Eq, Structural)]
pub struct NetworkControl {
    pub frame_type: NwkFrameType,
    pub protocol_version: u8,
    pub discover_route: DiscoverRoute,
    pub multicast: bool,
    pub security: bool,
    pub contains_source_route_frame: bool,
    pub contains_destination_ieee_address: bool,
    pub contains_source_ieee_address: bool,
}

/// A source-route subframe: the index of the next relay and the relay list.
#[derive(Clone, Debug, PartialEq, Eq)]
pub struct SourceRouteFrame {
    pub index: u8,
    pub relays: Vec<u16>,
}

/// The mathematical value of a source-route subframe.
pub struct SourceRouteFrameView {
    pub index: u8,
    pub relays: Seq<u16>,
}

impl View for SourceRouteFrame {
    type V = SourceRouteFrameView;

    open spec fn view(&self) -> SourceRouteFrameView {
        SourceRouteFrameView { index: self.index, relays: self.relays@ }
    }
}

/// The network header: control bits, addresses, radius, sequence number and
/// the optional fields the control bits announce.
#[derive(Clone, Debug, PartialEq, Eq)]
pub struct NetworkHeader {
    pub control: NetworkControl,
    pub destination_address: u16,
    pub source_address: u16,
    pub radius: u8,
    pub sequence_number: u8,
    pub destination_ieee_address: Option<u64>,
    pub source_ieee_address: Option<u64>,
    pub multicast_control: Option<u8>,
    pub source_route_frame: Option<SourceRouteFrame>,
}

/// The mathematical value of a network header.
pub struct NetworkHeaderView {
    pub control: NetworkControl,
    pub destination_address: u16,
    pub source_address: u16,
    pub radius: u8,
    pub sequence_number: u8,
    pub destination_ieee_address: Option<u64>,
    pub source_ieee_address: Option<u64>,
    pub multicast_control: Option<u8>,
    pub source_route_frame: Option<SourceRouteFrameView>,
}

impl View for NetworkHeader {
    type V = NetworkHeaderView;

    open spec fn view(&self) -> NetworkHeaderView {
        NetworkHeaderView {
            control: self.control,
            destination_address: self.destination_address,
            source_address: self.source_address,
            radius: self.radius,
            sequence_number: self.sequence_number,
            destination_ieee_address: self.destination_ieee_address,
            source_ieee_address: self.source_ieee_address,
            multicast_control: self.multicast_control,
            source_route_frame: match &self.source_route_frame {
                Option::Some(f) => Option::Some(f@),
                Option::None => Option::None,
            },
        }
    }
}

/// The relay list of a source-route subframe, in order.
pub open spec fn spec_relays(b: Seq<u8>, pos: int, count: int) -> Seq<u16> {
    Seq::new(count as nat, |i: int| spec_le16(b, pos + 2 * i))
}

/// The parse of a network header. The optional fields follow the fixed part
/// in the order destination IEEE address, source IEEE address, multicast
/// control, source-route subframe.
pub open spec fn spec_parse_network(b: Seq<u8>) -> Result<(NetworkHeaderView, int), Error> {
    if b.len() < 8 {
        Err(Error::NotEnoughSpace)
    } else {
        let fc = spec_le16(b, 0);
        let ftb = (fc & 0x3) as u8;
        if ftb == 2 {
            Err(Error::UnknownFrameType)
        } else {
            let drb = ((fc >> 6) & 0x3) as u8;
            if drb > 1 {
                Err(Error::UnknownFrameType)
            } else {
                let control = NetworkControl {
                    frame_type: if ftb == 0 {
                        NwkFrameType::Data
                    } else if ftb == 1 {
                        NwkFrameType::Command
                    } else {
                        NwkFrameType::InterPan
                    },
                    protocol_version: ((fc >> 2) & 0xf) as u8,
                    discover_route: if drb == 1 {
                        DiscoverRoute::EnableDiscovery
                    } else {
                        DiscoverRoute::SuppressDiscovery
                    },
                    multicast: fc & 0x100 != 0,
                    security: fc & 0x200 != 0,
                    contains_source_route_frame: fc & 0x400 != 0,
                    contains_destination_ieee_address: fc & 0x800 != 0,
                    contains_source_ieee_address: fc & 0x1000 != 0,
                };
                let p0: int = 8;
                let dlen: int = if control.contains_destination_ieee_address {
                    8
                } else {
                    0
                };
                let slen: int = if control.contains_source_ieee_address {
                    8
                } else {
                    0
                };
                let mlen: int = if control.multicast {
                    1
                } else {
                    0
                };
                if p0 + dlen + slen + mlen > b.len() {
                    Err(Error::NotEnoughSpace)
                } else {
                    let dst_ieee = if control.contains_destination_ieee_address {
                        Option::Some(spec_le64(b, p0))
                    } else {
                        Option::None
                    };
                    let src_ieee = if control.contains_source_ieee_address {
                        Option::Some(spec_le64(b, p0 + dlen))
                    } else {
                        Option::None
                    };
                    let mc = if control.multicast {
                        Option::Some(b[p0 + dlen + slen])
                    } else {
                        Option::None
                    };
                    let p1 = p0 + dlen + slen + mlen;
                    if control.contains_source_route_frame {
                        if p1 + 2 > b.len() {
                            Err(Error::NotEnoughSpace)
                        } else {
                            let count = b[p1] as int;
                            let index = b[p1 + 1];
                            if index as int >= count {
                                Err(Error::BrokenRelayList)
                            } else if p1 + 2 + 2 * count > b.len() {
                                Err(Error::NotEnoughSpace)
                            } else {
                                Ok(
                                    (
                                        NetworkHeaderView {
                                            control,
                                            destination_address: spec_le16(b, 2),
                                            source_address: spec_le16(b, 4),
                                            radius: b[6],
                                            sequence_number: b[7],
                                            destination_ieee_address: dst_ieee,
                                            source_ieee_address: src_ieee,
                                            multicast_control: mc,
                                            source_route_frame: Option::Some(
                                                SourceRouteFrameView {
                                                    index,
                                                    relays: spec_relays(b, p1 + 2, count),
                                                },
                                            ),
                                        },
                                        p1 + 2 + 2 * count,
                                    ),
                                )
                            }
                        }
                    } else {
                        Ok(
                            (
                                NetworkHeaderView {
                                    control,
                                    destination_address: spec_le16(b, 2),
                                    source_address: spec_le16(b, 4),
                                    radius: b[6],
                                    sequence_number: b[7],
                                    destination_ieee_address: dst_ieee,
                                    source_ieee_address: src_ieee,
                                    multicast_control: mc,
                                    source_route_frame: Option::None,
                                },
                                p1,
                            ),
                        )
                    }
                }
            }
        }
    }
}

/// Whether an executable network-header parse returned exactly what the
/// specification parse says.
pub open spec fn network_matches(
    r: Result<(NetworkHeader, usize), Error>,
    s: Result<(NetworkHeaderView, int), Error>,
) -> bool {
    match s {
        Ok((v, p)) => r is Ok && r->Ok_0.0@ == v && r->Ok_0.1 as int == p,
        Err(e) => r == Err::<(NetworkHeader, usize), Error>(e),
    }
}

impl NetworkHeader {
    /// Decode a network header from the front of a buffer, returning it with
    /// the number of bytes consumed.
    pub fn unpack(data: &[u8]) -> (r: Result<(NetworkHeader, usize), Error>)
        ensures
            network_matches(r, spec_parse_network(data@)),
    {
        if data.len() < 8 {
            return Err(Error::NotEnoughSpace);
        }
        let fc = nwk_le16(data, 0);
        let ftb = (fc & 0x3) as u8;
        if ftb == 2 {
            return Err(Error::UnknownFrameType);
        }
        let drb = ((fc >> 6) & 0x3) as u8;
        if drb > 1 {
            return Err(Error::UnknownFrameType);
        }
        let control = NetworkControl {
            frame_type: if ftb == 0 {
                NwkFrameType::Data
            } else if ftb == 1 {
                NwkFrameType::Command
            } else {
                NwkFrameType::InterPan
            },
            protocol_version: ((fc >> 2) & 0xf) as u8,
            discover_route: if drb == 1 {
                DiscoverRoute::EnableDiscovery
            } else {
                DiscoverRoute::SuppressDiscovery
            },
            multicast: fc & 0x100 != 0,
            security: fc & 0x200 != 0,
            contains_source_route_frame: fc & 0x400 != 0,
            contains_destination_ieee_address: fc & 0x800 != 0,
            contains_source_ieee_address: fc & 0x1000 != 0,
        };
        let p0: usize = 8;
        let dlen: usize = if control.contains_destination_ieee_address {
            8
        } else {
            0
        };
        let slen: usize = if control.contains_source_ieee_address {
            8
        } else {
            0
        };
        let mlen: usize = if control.multicast {
            1
        } else {
            0
        };
        if data.len() - p0 < dlen + slen + mlen {
            return Err(Error::NotEnoughSpace);
        }
        let dst_ieee = if control.contains_destination_ieee_address {
            Option::Some(nwk_le64(data, p0))
        } else {
            Option::None
        };
        let src_ieee = if control.contains_source_ieee_address {
            Option::Some(nwk_le64(data, p0 + dlen))
        } else {
            Option::None
        };
        let mc = if control.multicast {
            Option::Some(data[p0 + dlen + slen])
        } else {
            Option::None
        };
        let p1 = p0 + dlen + slen + mlen;
        let source_route_frame = if control.contains_source_route_frame {
            if data.len() - p1 < 2 {
                return Err(Error::NotEnoughSpace);
            }
            let count = data[p1] as usize;
            let index = data[p1 + 1];
            if index as usize >= count {
                return Err(Error::BrokenRelayList);
            }
            if data.len() - (p1 + 2) < 2 * count {
                return Err(Error::NotEnoughSpace);
            }
            let mut relays: Vec<u16> = Vec::new();
            let mut i: usize = 0;
            while i < count
                invariant
                    i <= count,
                    data@.len() <= usize::MAX,
                    p1 + 2 + 2 * count <= data@.len(),
                    relays@.len() == i,
                    forall|j: int| 0 <= j < i ==> relays@[j] == spec_le16(data@, p1 + 2 + 2 * j),
                decreases count - i,
            {
                relays.push(nwk_le16(data, p1 + 2 + 2 * i));
                i += 1;
            }
            proof {
                assert(relays@ =~= spec_relays(data@, p1 + 2, count as int));
            }
            Option::Some(SourceRouteFrame { index, relays })
        } else {
            Option::None
        };
        let used = if control.contains_source_route_frame {
            p1 + 2 + 2 * (data[p1] as usize)
        } else {
            p1
        };
        let header = NetworkHeader {
            control,
            destination_address: nwk_le16(data, 2),
            source_address: nwk_le16(data, 4),
            radius: data[6],
            sequence_number: data[7],
            destination_ieee_address: dst_ieee,
            source_ieee_address: src_ieee,
            multicast_control: mc,
            source_route_frame,
        };
        Ok((header, used))
    }
}

/// A 16-bit little-endian field.
fn nwk_le16(data: &[u8], pos: usize) -> (r: u16)
    requires
        pos + 2 <= data@.len(),
    ensures
        r == spec_le16(data@, pos as int),
{
    let r = read_u16_le(data, pos);
    proof {
        crate::wire::lemma_le_int_bound(data@.subrange(pos as int, pos + 2));
        assert(crate::wire::pow256(2nat) == 0x1_0000) by {
            reveal_with_fuel(crate::wire::pow256, 3);
        }
    }
    r
}

/// A 64-bit little-endian field.
fn nwk_le64(data: &[u8], pos: usize) -> (r: u64)
    requires
        pos + 8 <= data@.len(),
    ensures
        r == spec_le64(data@, pos as int),
{
    let r = read_u64_le(data, pos);
    proof {
        crate::wire::lemma_le_int_bound(data@.subrange(pos as int, pos + 8));
        assert(crate::wire::pow256(8nat) == 0x1_0000_0000_0000_0000) by {
            reveal_with_fuel(crate::wire::pow256, 9);
        }
    }
    r
}

/// One neighbor entry of a link-status command.
#[derive(Clone, Copy, Debug, PartialEq, Eq, Structural)]
pub struct LinkStatusEntry {
    pub address: u16,
    pub incoming_cost: u8,
    pub outgoing_cost: u8,
}

/// A network-layer command sub-frame.
#[derive(Clone, Debug, PartialEq, Eq)]
pub enum NetworkCommand {
    /// options, identifier, destination, path cost, destination IEEE address
    RouteRequest(u8, u8, u16, u8, Option<u64>),
    /// options, identifier, originator, responder, path cost
    RouteReply(u8, u8, u16, u16, u8),
    /// status, destination
    NetworkStatus(u8, u16),
    /// options
    Leave(u8),
    /// relay list
    RouteRecord(Vec<u16>),
    /// capability information
    RejoinRequest(u8),
    /// address, status
    RejoinResponse(u16, u8),
    /// first frame, last frame, entries
    LinkStatus(bool, bool, Vec<LinkStatusEntry>),
    NetworkReport,
    NetworkUpdate,
    EndDeviceTimeoutRequest,
    EndDeviceTimeoutResponse,
}

/// The mathematical value of a network command.
pub enum NetworkCommandView {
    RouteRequest(u8, u8, u16, u8, Option<u64>),
    RouteReply(u8, u8, u16, u16, u8),
    NetworkStatus(u8, u16),
    Leave(u8),
    RouteRecord(Seq<u16>),
    RejoinRequest(u8),
    RejoinResponse(u16, u8),
    LinkStatus(bool, bool, Seq<LinkStatusEntry>),
    NetworkReport,
    NetworkUpdate,
    EndDeviceTimeoutRequest,
    EndDeviceTimeoutResponse,
}

impl View for NetworkCommand {
    type V = NetworkCommandView;

    open spec fn view(&self) -> NetworkCommandView {
        match self {
            NetworkCommand::RouteRequest(o, i, d, c, e) => NetworkCommandView::RouteRequest(
                *o,
                *i,
                *d,
                *c,
                *e,
            ),
            NetworkCommand::RouteReply(o, i, or, re, c) => NetworkCommandView::RouteReply(
                *o,
                *i,
                *or,
                *re,
                *c,
            ),
            NetworkCommand::NetworkStatus(s, d) => NetworkCommandView::NetworkStatus(*s, *d),
            NetworkCommand::Leave(o) => NetworkCommandView::Leave(*o),
            NetworkCommand::RouteRecord(r) => NetworkCommandView::RouteRecord(r@),
            NetworkCommand::RejoinRequest(c) => NetworkCommandView::RejoinRequest(*c),
            NetworkCommand::RejoinResponse(a, s) => NetworkCommandView::RejoinResponse(*a, *s),
            NetworkCommand::LinkStatus(f, l, e) => NetworkCommandView::LinkStatus(*f, *l, e@),
            NetworkCommand::NetworkReport => NetworkCommandView::NetworkReport,
            NetworkCommand::NetworkUpdate => NetworkCommandView::NetworkUpdate,
            NetworkCommand::EndDeviceTimeoutRequest => NetworkCommandView::EndDeviceTimeoutRequest,
            NetworkCommand::EndDeviceTimeoutResponse
                => NetworkCommandView::EndDeviceTimeoutResponse,
        }
    }
}

/// The entries of a link-status command, in order.
pub open spec fn spec_link_entries(b: Seq<u8>, pos: int, count: int) -> Seq<LinkStatusEntry> {
    Seq::new(
        count as nat,
        |i: int|
            LinkStatusEntry {
                address: spec_le16(b, pos + 3 * i),
                incoming_cost: (b[pos + 3 * i + 2] & 0x7) as u8,
                outgoing_cost: ((b[pos + 3 * i + 2] >> 4) & 0x7) as u8,
            },
    )
}

/// The parse of a network command sub-frame, selected by its identifier
/// octet.
pub open spec fn spec_parse_command(b: Seq<u8>) -> Result<(NetworkCommandView, int), Error> {
    if b.len() < 1 {
        Err(Error::NotEnoughSpace)
    } else {
        let id = b[0];
        if id == 1 {
            if b.len() < 6 {
                Err(Error::NotEnoughSpace)
            } else {
                let options = b[1];
                if options & 0x20 != 0 {
                    if b.len() < 14 {
                        Err(Error::NotEnoughSpace)
                    } else {
                        Ok(
                            (
                                NetworkCommandView::RouteRequest(
                                    options,
                                    b[2],
                                    spec_le16(b, 3),
                                    b[5],
                                    Option::Some(spec_le64(b, 6)),
                                ),
                                14,
                            ),
                        )
                    }
                } else {
                    Ok(
                        (
                            NetworkCommandView::RouteRequest(
                                options,
                                b[2],
                                spec_le16(b, 3),
                                b[5],
                                Option::None,
                            ),
                            6,
                        ),
                    )
                }
            }
        } else if id == 2 {
            if b.len() < 8 {
                Err(Error::NotEnoughSpace)
            } else {
                Ok(
                    (
                        NetworkCommandView::RouteReply(
                            b[1],
                            b[2],
                            spec_le16(b, 3),
                            spec_le16(b, 5),
                            b[7],
                        ),
                        8,
                    ),
                )
            }
        } else if id == 3 {
            if b.len() < 4 {
                Err(Error::NotEnoughSpace)
            } else {
                Ok((NetworkCommandView::NetworkStatus(b[1], spec_le16(b, 2)), 4))
            }
        } else if id == 4 {
            if b.len() < 2 {
                Err(Error::NotEnoughSpace)
            } else {
                Ok((NetworkCommandView::Leave(b[1]), 2))
            }
        } else if id == 5 {
            if b.len() < 2 {
                Err(Error::NotEnoughSpace)
            } else {
                let count = b[1] as int;
                if 2 + 2 * count > b.len() {
                    Err(Error::BrokenRelayList)
                } else {
                    Ok((NetworkCommandView::RouteRecord(spec_relays(b, 2, count)), 2 + 2 * count))
                }
            }
        } else if id == 6 {
            if b.len() < 2 {
                Err(Error::NotEnoughSpace)
            } else {
                Ok((NetworkCommandView::RejoinRequest(b[1]), 2))
            }
        } else if id == 7 {
            if b.len() < 4 {
                Err(Error::NotEnoughSpace)
            } else {
                Ok((NetworkCommandView::RejoinResponse(spec_le16(b, 1), b[3]), 4))
            }
        } else if id == 8 {
            if b.len() < 2 {
                Err(Error::NotEnoughSpace)
            } else {
                let options = b[1];
                let count = (options & 0x1f) as int;
                if 2 + 3 * count > b.len() {
                    Err(Error::NotEnoughSpace)
                } else {
                    Ok(
                        (
                            NetworkCommandView::LinkStatus(
                                options & 0x20 != 0,
                                options & 0x40 != 0,
                                spec_link_entries(b, 2, count),
                            ),
                            2 + 3 * count,
                        ),
                    )
                }
            }
        } else if id == 9 {
            Ok((NetworkCommandView::NetworkReport, 1))
        } else if id == 10 {
            Ok((NetworkCommandView::NetworkUpdate, 1))
        } else if id == 11 {
            Ok((NetworkCommandView::EndDeviceTimeoutRequest, 1))
        } else if id == 12 {
            Ok((NetworkCommandView::EndDeviceTimeoutResponse, 1))
        } else {
            Err(Error::UnknownNetworkCommand)
        }
    }
}

/// Whether an executable command parse returned exactly what the
/// specification parse says.
pub open spec fn command_matches(
    r: Result<(NetworkCommand, usize), Error>,
    s: Result<(NetworkCommandView, int), Error>,
) -> bool {
    match s {
        Ok((v, p)) => r is Ok && r->Ok_0.0@ == v && r->Ok_0.1 as int == p,
        Err(e) => r == Err::<(NetworkCommand, usize), Error>(e),
    }
}

impl NetworkCommand {
    /// Decode a network command sub-frame from the front of a buffer,
    /// returning it with the number of bytes consumed.
    pub fn unpack(data: &[u8]) -> (r: Result<(NetworkCommand, usize), Error>)
        ensures
            command_matches(r, spec_parse_command(data@)),
    {
        if data.len() < 1 {
            return Err(Error::NotEnoughSpace);
        }
        let id = data[0];
        if id == 1 {
            if data.len() < 6 {
                return Err(Error::NotEnoughSpace);
            }
            let options = data[1];
            if options & 0x20 != 0 {
                if data.len() < 14 {
                    return Err(Error::NotEnoughSpace);
                }
                Ok(
                    (
                        NetworkCommand::RouteRequest(
                            options,
                            data[2],
                            nwk_le16(data, 3),
                            data[5],
                            Option::Some(nwk_le64(data, 6)),
                        ),
                        14,
                    ),
                )
            } else {
                Ok(
                    (
                        NetworkCommand::RouteRequest(
                            options,
                            data[2],
                            nwk_le16(data, 3),
                            data[5],
                            Option::None,
                        ),
                        6,
                    ),
                )
            }
        } else if id == 2 {
            if data.len() < 8 {
                return Err(Error::NotEnoughSpace);
            }
            Ok(
                (
                    NetworkCommand::RouteReply(
                        data[1],
                        data[2],
                        nwk_le16(data, 3),
                        nwk_le16(data, 5),
                        data[7],
                    ),
                    8,
                ),
            )
        } else if id == 3 {
            if data.len() < 4 {
                return Err(Error::NotEnoughSpace);
            }
            Ok((NetworkCommand::NetworkStatus(data[1], nwk_le16(data, 2)), 4))
        } else if id == 4 {
            if data.len() < 2 {
                return Err(Error::NotEnoughSpace);
            }
            Ok((NetworkCommand::Leave(data[1]), 2))
        } else if id == 5 {
            if data.len() < 2 {
                return Err(Error::NotEnoughSpace);
            }
            let count = data[1] as usize;
            if data.len() - 2 < 2 * count {
                return Err(Error::BrokenRelayList);
            }
            let mut relays: Vec<u16> = Vec::new();
            let mut i: usize = 0;
            while i < count
                invariant
                    i <= count,
                    data@.len() <= usize::MAX,
                    2 + 2 * count <= data@.len(),
                    relays@.len() == i,
                    forall|j: int| 0 <= j < i ==> relays@[j] == spec_le16(data@, 2 + 2 * j),
                decreases count - i,
            {
                relays.push(nwk_le16(data, 2 + 2 * i));
                i += 1;
            }
            proof {
                assert(relays@ =~= spec_relays(data@, 2, count as int));
            }
            Ok((NetworkCommand::RouteRecord(relays), 2 + 2 * count))
        } else if id == 6 {
            if data.len() < 2 {
                return Err(Error::NotEnoughSpace);
            }
            Ok((NetworkCommand::RejoinRequest(data[1]), 2))
        } else if id == 7 {
            if data.len() < 4 {
                return Err(Error::NotEnoughSpace);
            }
            Ok((NetworkCommand::RejoinResponse(nwk_le16(data, 1), data[3]), 4))
        } else if id == 8 {
            if data.len() < 2 {
                return Err(Error::NotEnoughSpace);
            }
            let options = data[1];
            let count = (options & 0x1f) as usize;
            proof {
                assert(count <= 31) by (bit_vector)
                    requires
                        count == (options & 0x1f) as usize,
                ;
            }
            if data.len() - 2 < 3 * count {
                return Err(Error::NotEnoughSpace);
            }
            let mut entries: Vec<LinkStatusEntry> = Vec::new();
            let mut i: usize = 0;
            while i < count
                invariant
                    i <= count,
                    count <= 31,
                    data@.len() <= usize::MAX,
                    2 + 3 * count <= data@.len(),
                    entries@.len() == i,
                    forall|j: int|
                        0 <= j < i ==> entries@[j] == (LinkStatusEntry {
                            address: spec_le16(data@, 2 + 3 * j),
                            incoming_cost: (data@[2 + 3 * j + 2] & 0x7) as u8,
                            outgoing_cost: ((data@[2 + 3 * j + 2] >> 4) & 0x7) as u8,
                        }),
                decreases count - i,
            {
                let link_byte = data[2 + 3 * i + 2];
                entries.push(
                    LinkStatusEntry {
                        address: nwk_le16(data, 2 + 3 * i),
                        incoming_cost: link_byte & 0x7,
                        outgoing_cost: (link_byte >> 4) & 0x7,
                    },
                );
                i += 1;
            }
            proof {
                assert(entries@ =~= spec_link_entries(data@, 2, count as int));
            }
            Ok((NetworkCommand::LinkStatus(options & 0x20 != 0, options & 0x40 != 0, entries), 2 + 3
                * count))
        } else if id == 9 {
            Ok((NetworkCommand::NetworkReport, 1))
        } else if id == 10 {
            Ok((NetworkCommand::NetworkUpdate, 1))
        } else if id == 11 {
            Ok((NetworkCommand::EndDeviceTimeoutRequest, 1))
        } else if id == 12 {
            Ok((NetworkCommand::EndDeviceTimeoutResponse, 1))
        } else {
            Err(Error::UnknownNetworkCommand)
        }
    }
}

/// The Zigbee beacon payload: protocol and stack identification, capacity
/// flags, the extended PAN address, the beacon transmission offset and the
/// network update identifier.
#[derive(Clone, Copy, Debug, PartialEq, Eq, Structural)]
pub struct BeaconInformation {
    pub protocol_identifier: u8,
    pub stack_profile: u8,
    pub network_protocol_version: u8,
    pub router_capacity: bool,
    pub device_depth: u8,
    pub end_device_capacity: bool,
    pub extended_pan_address: u64,
    pub tx_offset: u32,
    pub network_update_identifier: u8,
}

/// The parse of a beacon payload: fifteen bytes of fixed layout.
pub open spec fn spec_parse_beacon_information(b: Seq<u8>) -> Result<
    (BeaconInformation, int),
    Error,
> {
    if b.len() < 15 {
        Err(Error::NotEnoughSpace)
    } else {
        Ok(
            (
                BeaconInformation {
                    protocol_identifier: b[0],
                    stack_profile: (b[1] & 0xf) as u8,
                    network_protocol_version: ((b[1] >> 4) & 0xf) as u8,
                    router_capacity: b[2] & 0x04 != 0,
                    device_depth: ((b[2] >> 3) & 0xf) as u8,
                    end_device_capacity: b[2] & 0x80 != 0,
                    extended_pan_address: spec_le64(b, 3),
                    tx_offset: (b[11] + 256 * b[12] + 65536 * b[13]) as u32,
                    network_update_identifier: b[14],
                },
                15,
            ),
        )
    }
}

impl BeaconInformation {
    /// Decode a beacon payload, returning it with the number of bytes
    /// consumed.
    pub fn unpack(data: &[u8]) -> (r: Result<(BeaconInformation, usize), Error>)
        ensures
            match spec_parse_beacon_information(data@) {
                Ok((v, p)) => r is Ok && r->Ok_0.0 == v && r->Ok_0.1 as int == p,
                Err(e) => r == Err::<(BeaconInformation, usize), Error>(e),
            },
    {
        if data.len() < 15 {
            return Err(Error::NotEnoughSpace);
        }
        let tx_offset: u32 = data[11] as u32 + 256 * (data[12] as u32) + 65536 * (data[13] as u32);
        Ok(
            (
                BeaconInformation {
                    protocol_identifier: data[0],
                    stack_profile: data[1] & 0xf,
                    network_protocol_version: (data[1] >> 4) & 0xf,
                    router_capacity: data[2] & 0x04 != 0,
                    device_depth: (data[2] >> 3) & 0xf,
                    end_device_capacity: data[2] & 0x80 != 0,
                    extended_pan_address: nwk_le64(data, 3),
                    tx_offset,
                    network_update_identifier: data[14],
                },
                15,
            ),
        )
    }
}

} // verus!
