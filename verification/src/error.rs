//! The ways in which an operation fails.

use crate::apdu::StatusWord;
use vstd::prelude::*;

verus! {

/// Why a request of the device could not be answered.
#[derive(Clone, Copy, Debug, PartialEq, Eq, Structural)]
pub enum InterpreterError {
    /// The request has no bytes at all.
    EmptyInput,
    /// The request's first byte names no known kind of request.
    UnknownCommand(u8),
    /// The request has not the shape of its kind.
    UnsupportedRequest,
    /// The request cites a hash or a root that was never registered.
    UnknownHash,
    /// The request cites a position outside the list it names.
    IndexOutOfRange,
    /// More elements were asked for, and none is waiting or those waiting
    /// differ in length.
    UnexpectedQueue,
}

/// Why an operation failed. A failure of the channel itself is not among
/// these: it never reaches this library.
#[derive(Clone, Debug, PartialEq, Eq)]
pub enum BitcoinClientError {
    /// The host could not carry out a step of its own.
    ClientError(String),
    /// The transaction to sign is inconsistent in itself.
    InvalidPsbt,
    /// A request of the device could not be answered.
    Interpreter(InterpreterError),
    /// The device ended the command with a status other than success.
    Device { command: u8, status: StatusWord },
    /// The device's result has not the expected form.
    UnexpectedResult { command: u8, data: Vec<u8> },
    /// The device's result contradicts what the host computed itself.
    InvalidResponse(String),
}

/// A failure, as a mathematical value.
pub enum ErrorView {
    ClientError(Seq<char>),
    InvalidPsbt,
    Interpreter(InterpreterError),
    Device { command: u8, status: StatusWord },
    UnexpectedResult { command: u8, data: Seq<u8> },
    InvalidResponse(Seq<char>),
}

impl View for BitcoinClientError {
    type V = ErrorView;

    open spec fn view(&self) -> ErrorView {
        match self {
            BitcoinClientError::ClientError(text) => ErrorView::ClientError(text@),
            BitcoinClientError::InvalidPsbt => ErrorView::InvalidPsbt,
            BitcoinClientError::Interpreter(e) => ErrorView::Interpreter(*e),
            BitcoinClientError::Device { command, status } => ErrorView::Device {
                command: *command,
                status: *status,
            },
            BitcoinClientError::UnexpectedResult { command, data } => ErrorView::UnexpectedResult {
                command: *command,
                data: data@,
            },
            BitcoinClientError::InvalidResponse(text) => ErrorView::InvalidResponse(text@),
        }
    }
}

} // verus!
