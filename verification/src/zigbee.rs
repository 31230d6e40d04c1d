//! Errors shared by the Zigbee-side codecs.

use vstd::prelude::*;

verus! {

/// Why a Zigbee-layer structure failed to decode.
#[derive(Clone, Copy, Debug, PartialEq, Eq, Structural)]
pub enum Error {
    /// The buffer ended before the structure was complete
    NotEnoughSpace,
    /// A length field disagrees with the bytes present
    WrongNumberOfBytes,
    /// The frame-type bits hold a reserved value
    UnknownFrameType,
    /// A source-route relay list is inconsistent
    BrokenRelayList,
    /// The network-command identifier is not recognized
    UnknownNetworkCommand,
    /// The delivery-mode bits hold a reserved value
    UnknownDeliveryMode,
    /// The device-profile cluster is not recognized
    UnknownClusterIdentifier,
}

} // verus!
