//! Commands sent to the device, and the status words that come back.

use vstd::prelude::*;

verus! {

/// Class byte of the commands that every application answers.
pub const CLA_DEFAULT: u8 = 0xB0;

/// Class byte of the Bitcoin application's commands.
pub const CLA_BITCOIN: u8 = 0xE1;

/// Class byte of the commands of the interruption framework.
pub const CLA_FRAMEWORK: u8 = 0xF8;

/// Instruction: name, version and state flags of the running application.
pub const INS_GET_VERSION: u8 = 0x01;

/// Instruction: extended public key at a derivation path.
pub const INS_GET_EXTENDED_PUBKEY: u8 = 0x00;

/// Instruction: register a wallet policy.
pub const INS_REGISTER_WALLET: u8 = 0x02;

/// Instruction: address of a wallet policy.
pub const INS_GET_WALLET_ADDRESS: u8 = 0x03;

/// Instruction: sign a partially signed transaction.
pub const INS_SIGN_PSBT: u8 = 0x04;

/// Instruction: fingerprint of the master key.
pub const INS_GET_MASTER_FINGERPRINT: u8 = 0x05;

/// Instruction: sign a message.
pub const INS_SIGN_MESSAGE: u8 = 0x10;

/// Instruction of the framework class: resume an interrupted command.
pub const INS_CONTINUE_INTERRUPTED: u8 = 0x01;

/// The version of the protocol that the commands of the Bitcoin class speak.
pub const PROTOCOL_VERSION: u8 = 0x01;

/// Request of the device: keep a fragment of the result.
pub const CLIENT_YIELD: u8 = 0x10;

/// Request of the device: the preimage of a hash.
pub const CLIENT_GET_PREIMAGE: u8 = 0x40;

/// Request of the device: a leaf of a committed list with its proof.
pub const CLIENT_GET_MERKLE_LEAF_PROOF: u8 = 0x41;

/// Request of the device: the position of a leaf in a committed list.
pub const CLIENT_GET_MERKLE_LEAF_INDEX: u8 = 0x42;

/// Request of the device: more of an answer that did not fit one reply.
pub const CLIENT_GET_MORE_ELEMENTS: u8 = 0xA0;

/// One command for the device.
#[derive(Clone, Debug, PartialEq, Eq)]
pub struct APDUCommand {
    pub cla: u8,
    pub ins: u8,
    pub p1: u8,
    pub p2: u8,
    pub data: Vec<u8>,
}

/// What a command holds, as a mathematical value.
pub struct CommandView {
    pub cla: u8,
    pub ins: u8,
    pub p1: u8,
    pub p2: u8,
    pub data: Seq<u8>,
}

impl View for APDUCommand {
    type V = CommandView;

    open spec fn view(&self) -> CommandView {
        CommandView { cla: self.cla, ins: self.ins, p1: self.p1, p2: self.p2, data: self.data@ }
    }
}

/// The outcome of one exchange, as the device reports it.
#[derive(Clone, Copy, Debug, PartialEq, Eq, Structural)]
pub enum StatusWord {
    /// Rejected by the user.
    Deny,
    /// The command's data is not acceptable.
    IncorrectData,
    /// The request is not supported.
    NotSupported,
    /// The command's parameters are wrong.
    WrongP1P2,
    /// The command's data has the wrong length.
    WrongDataLength,
    /// The instruction is unknown to the application.
    InsNotSupported,
    /// The class is unknown to the application.
    ClaNotSupported,
    /// The application is in a state that does not allow the command.
    BadState,
    /// Signing failed.
    SignatureFail,
    /// The command completed; the payload is its result.
    OK,
    /// The command is suspended; the payload is a request to the host.
    InterruptedExecution,
    /// Any other status.
    Unknown,
}

/// The status that a two-byte code stands for.
pub open spec fn status_of(code: u16) -> StatusWord {
    if code == 0x6985 {
        StatusWord::Deny
    } else if code == 0x6A80 {
        StatusWord::IncorrectData
    } else if code == 0x6A82 {
        StatusWord::NotSupported
    } else if code == 0x6A86 {
        StatusWord::WrongP1P2
    } else if code == 0x6A87 {
        StatusWord::WrongDataLength
    } else if code == 0x6D00 {
        StatusWord::InsNotSupported
    } else if code == 0x6E00 {
        StatusWord::ClaNotSupported
    } else if code == 0xB007 {
        StatusWord::BadState
    } else if code == 0xB008 {
        StatusWord::SignatureFail
    } else if code == 0x9000 {
        StatusWord::OK
    } else if code == 0xE000 {
        StatusWord::InterruptedExecution
    } else {
        StatusWord::Unknown
    }
}

impl StatusWord {
    /// The status that `code` stands for; `Unknown` for a code without a name.
    pub fn from_code(code: u16) -> (status: StatusWord)
        ensures
            status == status_of(code),
    {
        if code == 0x6985 {
            StatusWord::Deny
        } else if code == 0x6A80 {
            StatusWord::IncorrectData
        } else if code == 0x6A82 {
            StatusWord::NotSupported
        } else if code == 0x6A86 {
            StatusWord::WrongP1P2
        } else if code == 0x6A87 {
            StatusWord::WrongDataLength
        } else if code == 0x6D00 {
            StatusWord::InsNotSupported
        } else if code == 0x6E00 {
            StatusWord::ClaNotSupported
        } else if code == 0xB007 {
            StatusWord::BadState
        } else if code == 0xB008 {
            StatusWord::SignatureFail
        } else if code == 0x9000 {
            StatusWord::OK
        } else if code == 0xE000 {
            StatusWord::InterruptedExecution
        } else {
            StatusWord::Unknown
        }
    }

    /// The code of a named status; `None` for `Unknown`.
    pub fn code(&self) -> (code: Option<u16>)
        ensures
            match code {
                Some(c) => status_of(c) == *self,
                None => *self == StatusWord::Unknown,
            },
    {
        match self {
            StatusWord::Deny => Some(0x6985),
            StatusWord::IncorrectData => Some(0x6A80),
            StatusWord::NotSupported => Some(0x6A82),
            StatusWord::WrongP1P2 => Some(0x6A86),
            StatusWord::WrongDataLength => Some(0x6A87),
            StatusWord::InsNotSupported => Some(0x6D00),
            StatusWord::ClaNotSupported => Some(0x6E00),
            StatusWord::BadState => Some(0xB007),
            StatusWord::SignatureFail => Some(0xB008),
            StatusWord::OK => Some(0x9000),
            StatusWord::InterruptedExecution => Some(0xE000),
            StatusWord::Unknown => None,
        }
    }
}

} // verus!
