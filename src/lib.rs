//! Relays addressed text lines from a network stream to a serial device.
//!
//! `message` decodes the addressing grammar; `relay` holds the forwarding
//! loop's decisions as a state machine that the transports drive.

pub mod message;
pub mod relay;
