//! The commands of the protocol, one for each operation.

use crate::apdu::{
    APDUCommand, CommandView, CLA_BITCOIN, CLA_DEFAULT, CLA_FRAMEWORK, INS_CONTINUE_INTERRUPTED,
    INS_GET_EXTENDED_PUBKEY, INS_GET_MASTER_FINGERPRINT, INS_GET_VERSION, INS_GET_WALLET_ADDRESS,
    INS_REGISTER_WALLET, INS_SIGN_MESSAGE, INS_SIGN_PSBT, PROTOCOL_VERSION,
};
use crate::bytes::{be_bytes_u32, push_be_u32};
use crate::varint;
use crate::wallet::{policy_id, serialization, WalletPolicy};
use vstd::prelude::*;

verus! {

/// One for `true`, zero for `false`.
pub open spec fn flag(on: bool) -> u8 {
    if on {
        1
    } else {
        0
    }
}

/// The steps of a derivation path, four bytes each, most significant first.
pub open spec fn path_bytes(path: Seq<u32>) -> Seq<u8>
    decreases path.len(),
{
    if path.len() == 0 {
        Seq::empty()
    } else {
        path_bytes(path.drop_last()) + be_bytes_u32(path.last())
    }
}

/// The authentication tag of a registered policy, or 32 zero bytes for a
/// policy that needs no registration.
pub open spec fn hmac_bytes(hmac: Option<&[u8; 32]>) -> Seq<u8> {
    match hmac {
        Some(tag) => tag@,
        None => Seq::new(32, |i: int| 0u8),
    }
}

/// A command of the Bitcoin class.
pub open spec fn bitcoin_command(ins: u8, data: Seq<u8>) -> CommandView {
    CommandView { cla: CLA_BITCOIN, ins, p1: 0, p2: PROTOCOL_VERSION, data }
}

/// The command that asks for name, version and flags of the application.
pub open spec fn get_version_command() -> CommandView {
    CommandView { cla: CLA_DEFAULT, ins: INS_GET_VERSION, p1: 0, p2: 0, data: Seq::empty() }
}

/// The command that asks for the fingerprint of the master key.
pub open spec fn get_master_fingerprint_command() -> CommandView {
    bitcoin_command(INS_GET_MASTER_FINGERPRINT, Seq::empty())
}

/// The command that asks for the extended public key at `path`.
pub open spec fn get_extended_pubkey_command(path: Seq<u32>, display: bool) -> CommandView {
    bitcoin_command(
        INS_GET_EXTENDED_PUBKEY,
        seq![flag(display), (path.len() % 256) as u8] + path_bytes(path),
    )
}

/// The command that registers `policy`.
pub open spec fn register_wallet_command(policy: WalletPolicy) -> CommandView {
    bitcoin_command(
        INS_REGISTER_WALLET,
        varint::encoding(serialization(policy).len() as u64) + serialization(policy),
    )
}

/// The command that asks for an address of `policy`.
pub open spec fn get_wallet_address_command(
    policy: WalletPolicy,
    hmac: Option<&[u8; 32]>,
    change: bool,
    address_index: u32,
    display: bool,
) -> CommandView {
    bitcoin_command(
        INS_GET_WALLET_ADDRESS,
        seq![flag(display)] + policy_id(policy)@ + hmac_bytes(hmac) + seq![flag(change)]
            + be_bytes_u32(address_index),
    )
}

/// The command that asks to sign a transaction, given the commitments to
/// its three groups of records.
pub open spec fn sign_psbt_command(
    global_commitment: Seq<u8>,
    inputs: nat,
    inputs_root: [u8; 32],
    outputs: nat,
    outputs_root: [u8; 32],
    policy: WalletPolicy,
    hmac: Option<&[u8; 32]>,
) -> CommandView {
    bitcoin_command(
        INS_SIGN_PSBT,
        global_commitment + varint::encoding(inputs as u64) + inputs_root@ + varint::encoding(
            outputs as u64,
        ) + outputs_root@ + policy_id(policy)@ + hmac_bytes(hmac),
    )
}

/// The command that asks to sign a message of `length` bytes, given the
/// commitment to its chunks.
pub open spec fn sign_message_command(length: nat, root: [u8; 32], path: Seq<u32>) -> CommandView {
    bitcoin_command(
        INS_SIGN_MESSAGE,
        seq![(path.len() % 256) as u8] + path_bytes(path) + varint::encoding(length as u64)
            + root@,
    )
}

/// The command that resumes an interrupted command with `data` as the
/// answer to the device's request.
pub open spec fn continue_interrupted_command(data: Seq<u8>) -> CommandView {
    CommandView { cla: CLA_FRAMEWORK, ins: INS_CONTINUE_INTERRUPTED, p1: 0, p2: 0, data }
}

/// Appends the steps of `path`.
fn push_path(out: &mut Vec<u8>, path: &[u32])
    ensures
        final(out)@ == old(out)@ + path_bytes(path@),
{
    let ghost before = out@;
    let mut i: usize = 0;
    assert(out@ =~= before + path_bytes(path@.take(0)));
    while i < path.len()
        invariant
            i <= path.len(),
            out@ == before + path_bytes(path@.take(i as int)),
        decreases path.len() - i,
    {
        push_be_u32(out, path[i]);
        proof {
            let next = path@.take(i + 1);
            assert(next.drop_last() =~= path@.take(i as int));
            assert(next.last() == path@[i as int]);
            assert(out@ =~= before + path_bytes(next));
        }
        i += 1;
    }
    assert(path@.take(i as int) =~= path@);
}

/// Appends the authentication tag, or zeros in its place.
fn push_hmac(out: &mut Vec<u8>, hmac: Option<&[u8; 32]>)
    ensures
        final(out)@ == old(out)@ + hmac_bytes(hmac),
{
    match hmac {
        Some(tag) => {
            out.extend_from_slice(tag.as_slice());
        },
        None => {
            let zeros = [0u8; 32];
            out.extend_from_slice(zeros.as_slice());
            assert(zeros@ =~= hmac_bytes(hmac));
        },
    }
}

fn flag_byte(on: bool) -> (byte: u8)
    ensures
        byte == flag(on),
{
    if on {
        1
    } else {
        0
    }
}

/// Builds the command that asks for name, version and flags of the application.
pub fn get_version() -> (command: APDUCommand)
    ensures
        command@ == get_version_command(),
{
    APDUCommand { cla: CLA_DEFAULT, ins: INS_GET_VERSION, p1: 0, p2: 0, data: Vec::new() }
}

/// Builds the command that asks for the fingerprint of the master key.
pub fn get_master_fingerprint() -> (command: APDUCommand)
    ensures
        command@ == get_master_fingerprint_command(),
{
    APDUCommand {
        cla: CLA_BITCOIN,
        ins: INS_GET_MASTER_FINGERPRINT,
        p1: 0,
        p2: PROTOCOL_VERSION,
        data: Vec::new(),
    }
}

/// Builds the command that asks for the extended public key at `path`,
/// shown on the device's screen if `display` is set.
pub fn get_extended_pubkey(path: &[u32], display: bool) -> (command: APDUCommand)
    ensures
        command@ == get_extended_pubkey_command(path@, display),
{
    let mut data: Vec<u8> = Vec::new();
    data.push(flag_byte(display));
    data.push((path.len() % 256) as u8);
    push_path(&mut data, path);
    assert(data@ =~= seq![flag(display), (path@.len() % 256) as u8] + path_bytes(path@));
    APDUCommand { cla: CLA_BITCOIN, ins: INS_GET_EXTENDED_PUBKEY, p1: 0, p2: PROTOCOL_VERSION, data }
}

/// Builds the command that registers `policy`.
pub fn register_wallet(policy: &WalletPolicy) -> (command: APDUCommand)
    ensures
        command@ == register_wallet_command(*policy),
{
    let bytes = policy.serialize();
    let mut data = varint::encode(bytes.len() as u64);
    data.extend_from_slice(bytes.as_slice());
    assert(data@ =~= varint::encoding(serialization(*policy).len() as u64) + serialization(
        *policy,
    ));
    APDUCommand { cla: CLA_BITCOIN, ins: INS_REGISTER_WALLET, p1: 0, p2: PROTOCOL_VERSION, data }
}

/// Builds the command that asks for the address of `policy` at
/// `address_index`, among the change addresses if `change` is set.
pub fn get_wallet_address(
    policy: &WalletPolicy,
    hmac: Option<&[u8; 32]>,
    change: bool,
    address_index: u32,
    display: bool,
) -> (command: APDUCommand)
    ensures
        command@ == get_wallet_address_command(*policy, hmac, change, address_index, display),
{
    let mut data: Vec<u8> = Vec::new();
    data.push(flag_byte(display));
    let id = policy.id();
    data.extend_from_slice(id.as_slice());
    push_hmac(&mut data, hmac);
    data.push(flag_byte(change));
    push_be_u32(&mut data, address_index);
    assert(data@ =~= seq![flag(display)] + policy_id(*policy)@ + hmac_bytes(hmac) + seq![
        flag(change),
    ] + be_bytes_u32(address_index));
    APDUCommand { cla: CLA_BITCOIN, ins: INS_GET_WALLET_ADDRESS, p1: 0, p2: PROTOCOL_VERSION, data }
}

/// Builds the command that asks to sign a transaction.
pub fn sign_psbt(
    global_commitment: &[u8],
    inputs_number: usize,
    inputs_root: &[u8; 32],
    outputs_number: usize,
    outputs_root: &[u8; 32],
    policy: &WalletPolicy,
    hmac: Option<&[u8; 32]>,
) -> (command: APDUCommand)
    ensures
        command@ == sign_psbt_command(
            global_commitment@,
            inputs_number as nat,
            *inputs_root,
            outputs_number as nat,
            *outputs_root,
            *policy,
            hmac,
        ),
{
    let mut data: Vec<u8> = Vec::new();
    data.extend_from_slice(global_commitment);
    varint::push(&mut data, inputs_number as u64);
    data.extend_from_slice(inputs_root.as_slice());
    varint::push(&mut data, outputs_number as u64);
    data.extend_from_slice(outputs_root.as_slice());
    let id = policy.id();
    data.extend_from_slice(id.as_slice());
    push_hmac(&mut data, hmac);
    assert(data@ =~= global_commitment@ + varint::encoding(inputs_number as u64) + inputs_root@
        + varint::encoding(outputs_number as u64) + outputs_root@ + policy_id(*policy)@
        + hmac_bytes(hmac));
    APDUCommand { cla: CLA_BITCOIN, ins: INS_SIGN_PSBT, p1: 0, p2: PROTOCOL_VERSION, data }
}

/// Builds the command that asks to sign a message.
pub fn sign_message(message_length: usize, root: &[u8; 32], path: &[u32]) -> (command: APDUCommand)
    ensures
        command@ == sign_message_command(message_length as nat, *root, path@),
{
    let mut data: Vec<u8> = Vec::new();
    data.push((path.len() % 256) as u8);
    push_path(&mut data, path);
    varint::push(&mut data, message_length as u64);
    data.extend_from_slice(root.as_slice());
    assert(data@ =~= seq![(path@.len() % 256) as u8] + path_bytes(path@) + varint::encoding(
        message_length as u64,
    ) + root@);
    APDUCommand { cla: CLA_BITCOIN, ins: INS_SIGN_MESSAGE, p1: 0, p2: PROTOCOL_VERSION, data }
}

/// Builds the command that resumes an interrupted command.
pub fn continue_interrupted(data: Vec<u8>) -> (command: APDUCommand)
    ensures
        command@ == continue_interrupted_command(data@),
{
    APDUCommand { cla: CLA_FRAMEWORK, ins: INS_CONTINUE_INTERRUPTED, p1: 0, p2: 0, data }
}

} // verus!
