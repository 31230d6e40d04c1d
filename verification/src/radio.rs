//! Radio driver arithmetic and framing.
//!
//! The decisions the radio driver makes away from its registers: channel
//! and power validation, the frame layout handed to the transmitter, and
//! the length octet of a received frame. The register sequences themselves
//! are hardware-specific and stay outside the library.

use vstd::prelude::*;

verus! {

/// The longest packet the radio accepts, length octet included.
pub const MAX_PACKET_LENGTH: u8 = 128;

/// The CRC polynomial of the 802.15.4 frame check sequence.
pub const CRC_POLYNOMIAL: u32 = 0x00011021;

/// A configuration value the radio cannot take.
#[derive(Clone, Copy, Debug, PartialEq, Eq, Structural)]
pub enum RadioError {
    /// The channel is outside the 802.15.4 band
    InvalidChannel,
    /// The power is not one of the supported levels
    InvalidPower,
    /// The frame is too long for the radio
    FrameTooLong,
}

/// Whether a channel lies in the 802.15.4 band.
pub open spec fn channel_valid(channel: u8) -> bool {
    11 <= channel <= 26
}

/// The frequency register offset of a channel: five megahertz per channel
/// above 2400 megahertz.
pub fn channel_frequency_offset(channel: u8) -> (r: Result<u8, RadioError>)
    ensures
        channel_valid(channel) ==> r == Ok::<u8, RadioError>((5 * (channel - 10)) as u8),
        !channel_valid(channel) ==> r == Err::<u8, RadioError>(RadioError::InvalidChannel),
{
    if channel < 11 || channel > 26 {
        return Err(RadioError::InvalidChannel);
    }
    Ok((channel - 10) * 5)
}

/// The channel of a frequency register offset.
pub fn channel_from_frequency_offset(offset: u8) -> (r: u8)
    ensures
        r == offset / 5 + 10,
{
    (offset / 5) + 10
}

/// Whether a transmission power is one of the discrete levels the radio
/// offers, in decibel-milliwatts.
pub open spec fn power_valid(power: i8) -> bool {
    power == 8 || power == 7 || power == 6 || power == 5 || power == 4 || power == 3 || power == 2
        || power == 0 || power == -4 || power == -8 || power == -12 || power == -16 || power == -20
        || power == -40
}

/// Whether a transmission power is one of the discrete levels the radio
/// offers. An unsupported level is a configuration error, not a runtime
/// condition.
pub fn transmission_power_supported(power: i8) -> (r: bool)
    ensures
        r == power_valid(power),
{
    match power {
        8 | 7 | 6 | 5 | 4 | 3 | 2 | 0 => true,
        -4 | -8 | -12 | -16 | -20 | -40 => true,
        _ => false,
    }
}

/// The payload length announced by a received length octet: its low seven
/// bits, provided its top bit is clear and the length is not zero. Anything
/// else means no frame was captured.
pub open spec fn spec_frame_length(phr: u8) -> Option<u8> {
    if phr & 0x80 == 0 && phr & 0x7f != 0 {
        Option::Some((phr & 0x7f) as u8)
    } else {
        Option::None
    }
}

/// The payload length announced by a received length octet.
pub fn frame_length_from_phr(phr: u8) -> (r: Option<u8>)
    ensures
        r == spec_frame_length(phr),
{
    let length = phr & 0x7f;
    if length > 0 && (phr & 0x80) == 0 {
        Option::Some(length)
    } else {
        Option::None
    }
}

/// The buffer handed to the transmitter for a payload: the length octet
/// counts the payload and the two frame-check octets the radio appends.
pub fn frame_transmission_buffer(data: &[u8]) -> (r: Result<Vec<u8>, RadioError>)
    ensures
        data@.len() + 2 < 127 ==> r is Ok && r->Ok_0@ == seq![(data@.len() + 2) as u8] + data@,
        data@.len() + 2 >= 127 ==> r == Err::<Vec<u8>, RadioError>(RadioError::FrameTooLong),
{
    if data.len() >= 125 {
        return Err(RadioError::FrameTooLong);
    }
    let tx_length: u8 = (data.len() as u8) + 2;
    let mut buffer: Vec<u8> = Vec::new();
    buffer.push(tx_length);
    let mut i: usize = 0;
    while i < data.len()
        invariant
            i <= data@.len(),
            data@.len() < 125,
            tx_length == data@.len() + 2,
            buffer@ == seq![tx_length] + data@.take(i as int),
        decreases data@.len() - i,
    {
        buffer.push(data[i]);
        proof {
            assert(buffer@ =~= seq![tx_length] + data@.take(i + 1));
        }
        i += 1;
    }
    proof {
        assert(data@.take(data@.len() as int) =~= data@);
    }
    Ok(buffer)
}

/// Whether an energy-detection sample count can be programmed: positive and
/// within the peripheral's twenty-bit counter.
pub fn energy_detect_count_valid(count: u32) -> (r: bool)
    ensures
        r == (0 < count <= 0x100000),
{
    count > 0 && count <= 0x100000
}

/// The free-running counter value at which a timer armed now for a delay
/// fires: deadlines wrap with the counter.
pub fn deadline_after(now: u32, delay: u32) -> (r: u32)
    ensures
        r == (now + delay) % 0x1_0000_0000,
{
    let r = if delay <= 0xffff_ffff - now {
        now + delay
    } else {
        delay - (0xffff_ffff - now) - 1
    };
    r
}

} // verus!
