//! Decoder for the Flexible and Interoperable Data Transfer (FIT) format.
//!
//! The input is a byte slice that holds one or more FIT files, one after
//! the other. The output is a list of records per message name and a list of
//! the errors that did not stop the decoding. Every function of this crate is
//! verified against a contract over the mathematical models of its data.
pub mod text;
pub mod search;
pub mod fit;
pub mod error;
pub mod crc;
pub mod byte_reader;
pub mod accumulator;
pub mod bit_reader;
pub mod profile;
pub mod sheet;
pub mod naming;
pub mod record;
pub mod time;
pub mod projection;
pub mod message;
pub mod expansion;
pub mod framing;
pub mod developer;
pub mod session;
pub mod decoder;
pub mod chain;
pub mod validity;
pub mod emission;
pub mod succession;

pub use fit::{BaseType, Value, ValueModel};
