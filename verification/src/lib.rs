//! Host side of a challenge/response protocol with a hardware signing device.
//!
//! The device holds the keys but little memory: large inputs (a spending
//! policy, a transaction) are handed to it as short Merkle commitments, and
//! while it executes one command it may interrupt several times to ask the
//! host for committed data. This crate is the protocol core, free of I/O: it
//! builds the commands, answers the device's requests from what was committed,
//! decides after every reply what is sent next, and decodes the results.
//!
//! - `merkle`, `mapping`, `hash`: commitments to lists and to mappings, and
//!   the proofs that open them.
//! - `interpreter`: the registries of what was committed to, and the answers
//!   to the device's requests.
//! - `psbt`: transactions, flattened into the records that are committed to.
//! - `client`: the beginning of each operation, and the step that follows
//!   each reply of the device.
//! - `response`, `signature`: the decoding of results.
//! - `command`, `apdu`, `wallet`: the commands and what they carry.
//! - `varint`, `bytes`: the encodings underneath.
//! - `primitives`: what is taken on trust from the primitives library.

pub mod apdu;
pub mod bytes;
pub mod client;
pub mod command;
pub mod error;
pub mod hash;
pub mod interpreter;
pub mod mapping;
pub mod merkle;
pub mod primitives;
pub mod psbt;
pub mod response;
pub mod signature;
pub mod varint;
pub mod wallet;
