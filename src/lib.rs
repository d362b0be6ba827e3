//! CAN frames, a fan-out bus that hands them to many readers, and the J1939-21 and
//! ISO-15765-2 transport protocols that heavy-vehicle diagnostics speak over them.
//!
//! The protocol engines take frames and return frames: whoever owns a connection feeds them
//! what arrives and sends what they ask for.

pub mod text;
pub mod segment;
pub mod packet;
pub mod j1939_packet;
pub mod pgn;
pub mod bus;
pub mod sim;
pub mod slcan;
pub mod rp1210;
pub mod iso15765;
pub mod uds;
pub mod j1939tp;
pub mod j1939;
pub mod tools;
