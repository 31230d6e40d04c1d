//! Device-side IEEE 802.15.4 / Zigbee-style network stack.
//!
//! The crate covers the CCM* authenticated-encryption engine over an AES-128
//! block cipher, the layered frame codec (MAC, network, application-service,
//! device-profile and security headers), the MAC-level association state
//! machine, the single-producer/single-consumer byte ring buffer, and the
//! SLIP-style host framing with its message envelope.

pub mod aes128;
pub mod aps;
pub mod ccm;
pub mod error;
pub mod esercom;
pub mod mac;
pub mod mac_service;
pub mod network_layer;
pub mod nwk;
pub mod parser;
pub mod radio;
pub mod ring;
pub mod security;
pub mod slip;
pub mod timer;
pub mod wire;
pub mod zdp;
pub mod zigbee;
