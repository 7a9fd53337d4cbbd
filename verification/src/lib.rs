//! Decoder for the fixed 40-byte IPv6 packet header, given as hexadecimal text.

pub mod address;
pub mod bits;
pub mod cli;
pub mod error;
pub mod header;
pub mod hex;
pub mod layout;
pub mod report;
pub mod text;
pub mod theorems;
