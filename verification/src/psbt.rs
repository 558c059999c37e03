//! Partially signed transactions, and their flattening into the key/value
//! records that the device reads.
//!
//! The device wants a transaction as three groups of records: one for the
//! transaction as a whole, one for each input and one for each output. A
//! record's key is a type byte followed by key data, which most types leave
//! empty. What the outpoints, sequences, amounts and scripts of the unsigned
//! transaction say is spread over the groups as records of their own.
//!
//! Numbers, outputs and counts are held as values and encoded here. Every
//! other field is held as the byte string that the format gives it: scripts,
//! keys, signatures, hashes, key origins, witness stacks, control blocks,
//! script trees and whole transactions.

use crate::bytes::{clone_bytes, le_bytes, pair_views, push_le};
use crate::error::{BitcoinClientError, ErrorView};
use crate::varint;
use vstd::prelude::*;

verus! {

pub const PSBT_GLOBAL_XPUB: u8 = 0x01;

pub const PSBT_GLOBAL_TX_VERSION: u8 = 0x02;

pub const PSBT_GLOBAL_FALLBACK_LOCKTIME: u8 = 0x03;

pub const PSBT_GLOBAL_INPUT_COUNT: u8 = 0x04;

pub const PSBT_GLOBAL_OUTPUT_COUNT: u8 = 0x05;

pub const PSBT_GLOBAL_VERSION: u8 = 0xFB;

pub const PSBT_PROPRIETARY: u8 = 0xFC;

pub const PSBT_IN_NON_WITNESS_UTXO: u8 = 0x00;

pub const PSBT_IN_WITNESS_UTXO: u8 = 0x01;

pub const PSBT_IN_PARTIAL_SIG: u8 = 0x02;

pub const PSBT_IN_SIGHASH_TYPE: u8 = 0x03;

pub const PSBT_IN_REDEEM_SCRIPT: u8 = 0x04;

pub const PSBT_IN_WITNESS_SCRIPT: u8 = 0x05;

pub const PSBT_IN_BIP32_DERIVATION: u8 = 0x06;

pub const PSBT_IN_FINAL_SCRIPTSIG: u8 = 0x07;

pub const PSBT_IN_FINAL_SCRIPTWITNESS: u8 = 0x08;

pub const PSBT_IN_RIPEMD160: u8 = 0x0a;

pub const PSBT_IN_SHA256: u8 = 0x0b;

pub const PSBT_IN_HASH160: u8 = 0x0c;

pub const PSBT_IN_HASH256: u8 = 0x0d;

pub const PSBT_IN_PREVIOUS_TXID: u8 = 0x0e;

pub const PSBT_IN_OUTPUT_INDEX: u8 = 0x0f;

pub const PSBT_IN_SEQUENCE: u8 = 0x10;

pub const PSBT_IN_TAP_KEY_SIG: u8 = 0x13;

pub const PSBT_IN_TAP_SCRIPT_SIG: u8 = 0x14;

pub const PSBT_IN_TAP_LEAF_SCRIPT: u8 = 0x15;

pub const PSBT_IN_TAP_BIP32_DERIVATION: u8 = 0x16;

pub const PSBT_IN_TAP_INTERNAL_KEY: u8 = 0x17;

pub const PSBT_IN_TAP_MERKLE_ROOT: u8 = 0x18;

pub const PSBT_OUT_REDEEM_SCRIPT: u8 = 0x00;

pub const PSBT_OUT_WITNESS_SCRIPT: u8 = 0x01;

pub const PSBT_OUT_BIP32_DERIVATION: u8 = 0x02;

pub const PSBT_OUT_AMOUNT: u8 = 0x03;

pub const PSBT_OUT_SCRIPT: u8 = 0x04;

pub const PSBT_OUT_TAP_INTERNAL_KEY: u8 = 0x05;

pub const PSBT_OUT_TAP_TREE: u8 = 0x06;

pub const PSBT_OUT_TAP_BIP32_DERIVATION: u8 = 0x07;

/// An output of a transaction: an amount and the script that locks it.
#[derive(Clone, Debug, PartialEq, Eq, Default)]
pub struct TxOut {
    pub value: u64,
    pub script_pubkey: Vec<u8>,
}

/// A reference to an output of an earlier transaction.
#[derive(Clone, Debug, PartialEq, Eq)]
pub struct OutPoint {
    /// The earlier transaction's id, in the byte order of the wire format.
    pub txid: [u8; 32],
    /// The position of the output in that transaction.
    pub vout: u32,
}

/// An input of the unsigned transaction.
#[derive(Clone, Debug, PartialEq, Eq)]
pub struct TxIn {
    pub previous_output: OutPoint,
    pub sequence: u32,
}

/// The transaction that is to be signed.
#[derive(Clone, Debug, PartialEq, Eq, Default)]
pub struct Transaction {
    pub version: i32,
    pub lock_time: u32,
    pub input: Vec<TxIn>,
    pub output: Vec<TxOut>,
}

/// What is known of one input beyond the unsigned transaction. A map is a
/// list of entries, each the key data and the value of one record; `unknown`
/// holds whole keys, type byte first.
#[derive(Clone, Debug, PartialEq, Eq, Default)]
pub struct Input {
    /// The whole transaction that is spent from, serialized.
    pub non_witness_utxo: Option<Vec<u8>>,
    /// The output that is spent.
    pub witness_utxo: Option<TxOut>,
    /// Public key to signature.
    pub partial_sigs: Vec<(Vec<u8>, Vec<u8>)>,
    /// The signature hash type to sign with.
    pub sighash_type: Option<u32>,
    pub redeem_script: Option<Vec<u8>>,
    pub witness_script: Option<Vec<u8>>,
    /// Public key to master fingerprint and derivation path.
    pub bip32_derivation: Vec<(Vec<u8>, Vec<u8>)>,
    pub final_script_sig: Option<Vec<u8>>,
    /// The final witness stack, serialized.
    pub final_script_witness: Option<Vec<u8>>,
    /// Hash to preimage, for each of four hash functions.
    pub ripemd160_preimages: Vec<(Vec<u8>, Vec<u8>)>,
    pub sha256_preimages: Vec<(Vec<u8>, Vec<u8>)>,
    pub hash160_preimages: Vec<(Vec<u8>, Vec<u8>)>,
    pub hash256_preimages: Vec<(Vec<u8>, Vec<u8>)>,
    pub tap_key_sig: Option<Vec<u8>>,
    /// X-only public key and leaf hash to signature.
    pub tap_script_sigs: Vec<(Vec<u8>, Vec<u8>)>,
    /// Control block to script and leaf version.
    pub tap_scripts: Vec<(Vec<u8>, Vec<u8>)>,
    /// X-only public key to leaf hashes and key origin.
    pub tap_key_origins: Vec<(Vec<u8>, Vec<u8>)>,
    pub tap_internal_key: Option<Vec<u8>>,
    pub tap_merkle_root: Option<Vec<u8>>,
    /// Proprietary key, serialized, to value.
    pub proprietary: Vec<(Vec<u8>, Vec<u8>)>,
    /// Whole key to value, for the records of types not known here.
    pub unknown: Vec<(Vec<u8>, Vec<u8>)>,
}

/// What is known of one output beyond the unsigned transaction.
#[derive(Clone, Debug, PartialEq, Eq, Default)]
pub struct Output {
    pub redeem_script: Option<Vec<u8>>,
    pub witness_script: Option<Vec<u8>>,
    /// Public key to master fingerprint and derivation path.
    pub bip32_derivation: Vec<(Vec<u8>, Vec<u8>)>,
    pub tap_internal_key: Option<Vec<u8>>,
    /// The script tree, serialized.
    pub tap_tree: Option<Vec<u8>>,
    /// X-only public key to leaf hashes and key origin.
    pub tap_key_origins: Vec<(Vec<u8>, Vec<u8>)>,
    pub proprietary: Vec<(Vec<u8>, Vec<u8>)>,
    pub unknown: Vec<(Vec<u8>, Vec<u8>)>,
}

/// The two lists of a transaction whose entries are flattened one by one.
#[derive(Clone, Copy, Debug, PartialEq, Eq, Structural)]
pub enum Group {
    Inputs,
    Outputs,
}

/// A partially signed transaction.
#[derive(Clone, Debug, PartialEq, Eq, Default)]
pub struct Psbt {
    pub unsigned_tx: Transaction,
    /// The version of the format that the transaction came in.
    pub version: u32,
    /// Extended public key, serialized, to master fingerprint and derivation path.
    pub xpub: Vec<(Vec<u8>, Vec<u8>)>,
    pub proprietary: Vec<(Vec<u8>, Vec<u8>)>,
    pub unknown: Vec<(Vec<u8>, Vec<u8>)>,
    /// One entry for each input of the unsigned transaction, in its order.
    pub inputs: Vec<Input>,
    /// One entry for each output of the unsigned transaction, in its order.
    pub outputs: Vec<Output>,
}

/// The record of type `kind` without key data.
pub open spec fn record(kind: u8, value: Seq<u8>) -> Seq<(Seq<u8>, Seq<u8>)> {
    seq![(seq![kind], value)]
}

/// The record of an optional field: none where the field is empty.
pub open spec fn optional(kind: u8, value: Option<Vec<u8>>) -> Seq<(Seq<u8>, Seq<u8>)> {
    match value {
        Some(bytes) => record(kind, bytes@),
        None => Seq::empty(),
    }
}

/// The records of a map: one for each entry, its key data behind the type byte.
pub open spec fn keyed(kind: u8, entries: Seq<(Vec<u8>, Vec<u8>)>) -> Seq<(Seq<u8>, Seq<u8>)> {
    entries.map_values(|entry: (Vec<u8>, Vec<u8>)| (seq![kind] + entry.0@, entry.1@))
}

/// The four bytes of a signed 32-bit number, least significant first.
pub open spec fn le_bytes_i32(value: i32) -> Seq<u8> {
    if value >= 0 {
        le_bytes(value as nat, 4)
    } else {
        le_bytes((value + 0x1_0000_0000) as nat, 4)
    }
}

/// The serialization of an output: the amount in eight bytes, then the
/// script behind its length.
pub open spec fn txout_encoding(txout: TxOut) -> Seq<u8> {
    le_bytes(txout.value as nat, 8) + varint::encoding(txout.script_pubkey@.len() as u64)
        + txout.script_pubkey@
}

/// The record of the output that an input spends.
pub open spec fn witness_utxo_record(utxo: Option<TxOut>) -> Seq<(Seq<u8>, Seq<u8>)> {
    match utxo {
        Some(txout) => record(PSBT_IN_WITNESS_UTXO, txout_encoding(txout)),
        None => Seq::empty(),
    }
}

/// The record of the signature hash type of an input.
pub open spec fn sighash_record(sighash: Option<u32>) -> Seq<(Seq<u8>, Seq<u8>)> {
    match sighash {
        Some(value) => record(PSBT_IN_SIGHASH_TYPE, le_bytes(value as nat, 4)),
        None => Seq::empty(),
    }
}

/// The record of the format version: none for version 0.
pub open spec fn version_record(version: u32) -> Seq<(Seq<u8>, Seq<u8>)> {
    if version > 0 {
        record(PSBT_GLOBAL_VERSION, le_bytes(version as nat, 4))
    } else {
        Seq::empty()
    }
}

/// The records of the transaction as a whole: version, lock time and the
/// numbers of inputs and outputs; then the extended public keys, the
/// format version, and what is proprietary or unknown.
pub open spec fn global_pairs(psbt: Psbt) -> Seq<(Seq<u8>, Seq<u8>)> {
    record(PSBT_GLOBAL_TX_VERSION, le_bytes_i32(psbt.unsigned_tx.version))
        + record(PSBT_GLOBAL_FALLBACK_LOCKTIME, le_bytes(psbt.unsigned_tx.lock_time as nat, 4))
        + record(PSBT_GLOBAL_INPUT_COUNT, varint::encoding(psbt.inputs@.len() as u64))
        + record(PSBT_GLOBAL_OUTPUT_COUNT, varint::encoding(psbt.outputs@.len() as u64))
        + keyed(PSBT_GLOBAL_XPUB, psbt.xpub@)
        + version_record(psbt.version)
        + keyed(PSBT_PROPRIETARY, psbt.proprietary@)
        + pair_views(psbt.unknown@)
}

/// The records of one input: the outpoint it spends and its sequence, from
/// the unsigned transaction; then its own fields, in the order of their
/// types; then what is proprietary or unknown.
pub open spec fn input_pairs(input: Input, txin: TxIn) -> Seq<(Seq<u8>, Seq<u8>)> {
    record(PSBT_IN_PREVIOUS_TXID, txin.previous_output.txid@)
        + record(PSBT_IN_OUTPUT_INDEX, le_bytes(txin.previous_output.vout as nat, 4))
        + record(PSBT_IN_SEQUENCE, le_bytes(txin.sequence as nat, 4))
        + optional(PSBT_IN_NON_WITNESS_UTXO, input.non_witness_utxo)
        + witness_utxo_record(input.witness_utxo)
        + keyed(PSBT_IN_PARTIAL_SIG, input.partial_sigs@)
        + sighash_record(input.sighash_type)
        + optional(PSBT_IN_REDEEM_SCRIPT, input.redeem_script)
        + optional(PSBT_IN_WITNESS_SCRIPT, input.witness_script)
        + keyed(PSBT_IN_BIP32_DERIVATION, input.bip32_derivation@)
        + optional(PSBT_IN_FINAL_SCRIPTSIG, input.final_script_sig)
        + optional(PSBT_IN_FINAL_SCRIPTWITNESS, input.final_script_witness)
        + keyed(PSBT_IN_RIPEMD160, input.ripemd160_preimages@)
        + keyed(PSBT_IN_SHA256, input.sha256_preimages@)
        + keyed(PSBT_IN_HASH160, input.hash160_preimages@)
        + keyed(PSBT_IN_HASH256, input.hash256_preimages@)
        + optional(PSBT_IN_TAP_KEY_SIG, input.tap_key_sig)
        + keyed(PSBT_IN_TAP_SCRIPT_SIG, input.tap_script_sigs@)
        + keyed(PSBT_IN_TAP_LEAF_SCRIPT, input.tap_scripts@)
        + keyed(PSBT_IN_TAP_BIP32_DERIVATION, input.tap_key_origins@)
        + optional(PSBT_IN_TAP_INTERNAL_KEY, input.tap_internal_key)
        + optional(PSBT_IN_TAP_MERKLE_ROOT, input.tap_merkle_root)
        + keyed(PSBT_PROPRIETARY, input.proprietary@)
        + pair_views(input.unknown@)
}

/// The records of one output: its amount and its script, from the unsigned
/// transaction; then its own fields, in the order of their types; then what
/// is proprietary or unknown.
pub open spec fn output_pairs(output: Output, txout: TxOut) -> Seq<(Seq<u8>, Seq<u8>)> {
    record(PSBT_OUT_AMOUNT, le_bytes(txout.value as nat, 8))
        + record(PSBT_OUT_SCRIPT, txout.script_pubkey@)
        + optional(PSBT_OUT_REDEEM_SCRIPT, output.redeem_script)
        + optional(PSBT_OUT_WITNESS_SCRIPT, output.witness_script)
        + keyed(PSBT_OUT_BIP32_DERIVATION, output.bip32_derivation@)
        + optional(PSBT_OUT_TAP_INTERNAL_KEY, output.tap_internal_key)
        + optional(PSBT_OUT_TAP_TREE, output.tap_tree)
        + keyed(PSBT_OUT_TAP_BIP32_DERIVATION, output.tap_key_origins@)
        + keyed(PSBT_PROPRIETARY, output.proprietary@)
        + pair_views(output.unknown@)
}

/// Appends the record of type `kind` with the value `value`.
fn push_record(out: &mut Vec<(Vec<u8>, Vec<u8>)>, kind: u8, value: Vec<u8>)
    ensures
        pair_views(final(out)@) == pair_views(old(out)@) + record(kind, value@),
{
    let mut key: Vec<u8> = Vec::new();
    key.push(kind);
    assert(key@ =~= seq![kind]);
    let ghost entry = (key@, value@);
    out.push((key, value));
    assert(pair_views(out@) =~= pair_views(old(out)@) + seq![entry]);
}

/// Appends the record of an optional field.
fn push_optional(out: &mut Vec<(Vec<u8>, Vec<u8>)>, kind: u8, value: &Option<Vec<u8>>)
    ensures
        pair_views(final(out)@) == pair_views(old(out)@) + optional(kind, *value),
{
    match value {
        Some(bytes) => {
            push_record(out, kind, clone_bytes(bytes.as_slice()));
        },
        None => {
            assert(pair_views(out@) =~= pair_views(out@) + optional(kind, *value));
        },
    }
}

/// Appends the records of a map.
fn push_keyed(out: &mut Vec<(Vec<u8>, Vec<u8>)>, kind: u8, entries: &Vec<(Vec<u8>, Vec<u8>)>)
    ensures
        pair_views(final(out)@) == pair_views(old(out)@) + keyed(kind, entries@),
{
    let ghost before = pair_views(out@);
    let mut i: usize = 0;
    assert(pair_views(out@) =~= before + keyed(kind, entries@.take(0)));
    while i < entries.len()
        invariant
            i <= entries.len(),
            pair_views(out@) == before + keyed(kind, entries@.take(i as int)),
        decreases entries.len() - i,
    {
        let mut key: Vec<u8> = Vec::new();
        key.push(kind);
        key.extend_from_slice(entries[i].0.as_slice());
        let value = clone_bytes(entries[i].1.as_slice());
        let ghost shown = pair_views(out@);
        let ghost entry = (key@, value@);
        out.push((key, value));
        proof {
            assert(entry.0 =~= seq![kind] + entries@[i as int].0@);
            assert(pair_views(out@) =~= shown.push(entry));
            assert(entries@.take(i + 1) =~= entries@.take(i as int).push(entries@[i as int]));
            assert(pair_views(out@) =~= before + keyed(kind, entries@.take(i + 1)));
        }
        i += 1;
    }
    assert(entries@.take(i as int) =~= entries@);
}

/// Appends records as they are.
fn push_all(out: &mut Vec<(Vec<u8>, Vec<u8>)>, entries: &Vec<(Vec<u8>, Vec<u8>)>)
    ensures
        pair_views(final(out)@) == pair_views(old(out)@) + pair_views(entries@),
{
    let ghost before = pair_views(out@);
    let mut i: usize = 0;
    assert(pair_views(out@) =~= before + pair_views(entries@.take(0)));
    while i < entries.len()
        invariant
            i <= entries.len(),
            pair_views(out@) == before + pair_views(entries@.take(i as int)),
        decreases entries.len() - i,
    {
        let key = clone_bytes(entries[i].0.as_slice());
        let value = clone_bytes(entries[i].1.as_slice());
        let ghost shown = pair_views(out@);
        let ghost entry = (key@, value@);
        out.push((key, value));
        proof {
            assert(pair_views(out@) =~= shown.push(entry));
            assert(entries@.take(i + 1) =~= entries@.take(i as int).push(entries@[i as int]));
            assert(pair_views(out@) =~= before + pair_views(entries@.take(i + 1)));
        }
        i += 1;
    }
    assert(entries@.take(i as int) =~= entries@);
}

/// The `width` low bytes of `value`, least significant first.
fn le_encode(value: u64, width: usize) -> (out: Vec<u8>)
    ensures
        out@ == le_bytes(value as nat, width as nat),
{
    let mut out: Vec<u8> = Vec::new();
    push_le(&mut out, value, width);
    assert(out@ =~= le_bytes(value as nat, width as nat));
    out
}

/// The four bytes of a signed 32-bit number, least significant first.
fn le_encode_i32(value: i32) -> (out: Vec<u8>)
    ensures
        out@ == le_bytes_i32(value),
{
    if value >= 0 {
        le_encode(value as u64, 4)
    } else {
        le_encode((value as i64 + 0x1_0000_0000) as u64, 4)
    }
}

/// Serializes an output.
pub fn encode_txout(txout: &TxOut) -> (out: Vec<u8>)
    ensures
        out@ == txout_encoding(*txout),
{
    let mut out: Vec<u8> = Vec::new();
    push_le(&mut out, txout.value, 8);
    varint::push(&mut out, txout.script_pubkey.len() as u64);
    out.extend_from_slice(txout.script_pubkey.as_slice());
    assert(out@ =~= txout_encoding(*txout));
    out
}

/// Flattens what belongs to the transaction as a whole.
pub fn get_v2_global_pairs(psbt: &Psbt) -> (pairs: Vec<(Vec<u8>, Vec<u8>)>)
    ensures
        pair_views(pairs@) == global_pairs(*psbt),
{
    let mut pairs: Vec<(Vec<u8>, Vec<u8>)> = Vec::new();
    assert(pair_views(pairs@) =~= Seq::empty());
    push_record(&mut pairs, PSBT_GLOBAL_TX_VERSION, le_encode_i32(psbt.unsigned_tx.version));
    assert(pair_views(pairs@) =~= record(
        PSBT_GLOBAL_TX_VERSION,
        le_bytes_i32(psbt.unsigned_tx.version),
    ));
    push_record(
        &mut pairs,
        PSBT_GLOBAL_FALLBACK_LOCKTIME,
        le_encode(psbt.unsigned_tx.lock_time as u64, 4),
    );
    push_record(&mut pairs, PSBT_GLOBAL_INPUT_COUNT, varint::encode(psbt.inputs.len() as u64));
    push_record(&mut pairs, PSBT_GLOBAL_OUTPUT_COUNT, varint::encode(psbt.outputs.len() as u64));
    push_keyed(&mut pairs, PSBT_GLOBAL_XPUB, &psbt.xpub);
    if psbt.version > 0 {
        push_record(&mut pairs, PSBT_GLOBAL_VERSION, le_encode(psbt.version as u64, 4));
    } else {
        assert(pair_views(pairs@) + version_record(psbt.version) =~= pair_views(pairs@));
    }
    push_keyed(&mut pairs, PSBT_PROPRIETARY, &psbt.proprietary);
    push_all(&mut pairs, &psbt.unknown);
    pairs
}

/// Flattens one input, given the input of the unsigned transaction that it
/// belongs to.
pub fn get_v2_input_pairs(input: &Input, txin: &TxIn) -> (pairs: Vec<(Vec<u8>, Vec<u8>)>)
    ensures
        pair_views(pairs@) == input_pairs(*input, *txin),
{
    let mut pairs: Vec<(Vec<u8>, Vec<u8>)> = Vec::new();
    assert(pair_views(pairs@) =~= Seq::empty());
    push_record(
        &mut pairs,
        PSBT_IN_PREVIOUS_TXID,
        clone_bytes(txin.previous_output.txid.as_slice()),
    );
    assert(pair_views(pairs@) =~= record(PSBT_IN_PREVIOUS_TXID, txin.previous_output.txid@));
    push_record(&mut pairs, PSBT_IN_OUTPUT_INDEX, le_encode(txin.previous_output.vout as u64, 4));
    push_record(&mut pairs, PSBT_IN_SEQUENCE, le_encode(txin.sequence as u64, 4));
    push_optional(&mut pairs, PSBT_IN_NON_WITNESS_UTXO, &input.non_witness_utxo);
    match &input.witness_utxo {
        Some(txout) => {
            push_record(&mut pairs, PSBT_IN_WITNESS_UTXO, encode_txout(txout));
        },
        None => {
            assert(pair_views(pairs@) + witness_utxo_record(input.witness_utxo) =~= pair_views(
                pairs@,
            ));
        },
    }
    push_keyed(&mut pairs, PSBT_IN_PARTIAL_SIG, &input.partial_sigs);
    match input.sighash_type {
        Some(value) => {
            push_record(&mut pairs, PSBT_IN_SIGHASH_TYPE, le_encode(value as u64, 4));
        },
        None => {
            assert(pair_views(pairs@) + sighash_record(input.sighash_type) =~= pair_views(pairs@));
        },
    }
    push_optional(&mut pairs, PSBT_IN_REDEEM_SCRIPT, &input.redeem_script);
    push_optional(&mut pairs, PSBT_IN_WITNESS_SCRIPT, &input.witness_script);
    push_keyed(&mut pairs, PSBT_IN_BIP32_DERIVATION, &input.bip32_derivation);
    push_optional(&mut pairs, PSBT_IN_FINAL_SCRIPTSIG, &input.final_script_sig);
    push_optional(&mut pairs, PSBT_IN_FINAL_SCRIPTWITNESS, &input.final_script_witness);
    push_keyed(&mut pairs, PSBT_IN_RIPEMD160, &input.ripemd160_preimages);
    push_keyed(&mut pairs, PSBT_IN_SHA256, &input.sha256_preimages);
    push_keyed(&mut pairs, PSBT_IN_HASH160, &input.hash160_preimages);
    push_keyed(&mut pairs, PSBT_IN_HASH256, &input.hash256_preimages);
    push_optional(&mut pairs, PSBT_IN_TAP_KEY_SIG, &input.tap_key_sig);
    push_keyed(&mut pairs, PSBT_IN_TAP_SCRIPT_SIG, &input.tap_script_sigs);
    push_keyed(&mut pairs, PSBT_IN_TAP_LEAF_SCRIPT, &input.tap_scripts);
    push_keyed(&mut pairs, PSBT_IN_TAP_BIP32_DERIVATION, &input.tap_key_origins);
    push_optional(&mut pairs, PSBT_IN_TAP_INTERNAL_KEY, &input.tap_internal_key);
    push_optional(&mut pairs, PSBT_IN_TAP_MERKLE_ROOT, &input.tap_merkle_root);
    push_keyed(&mut pairs, PSBT_PROPRIETARY, &input.proprietary);
    push_all(&mut pairs, &input.unknown);
    pairs
}

/// Flattens one output, given the output of the unsigned transaction that
/// it belongs to.
pub fn get_v2_output_pairs(output: &Output, txout: &TxOut) -> (pairs: Vec<(Vec<u8>, Vec<u8>)>)
    ensures
        pair_views(pairs@) == output_pairs(*output, *txout),
{
    let mut pairs: Vec<(Vec<u8>, Vec<u8>)> = Vec::new();
    assert(pair_views(pairs@) =~= Seq::empty());
    push_record(&mut pairs, PSBT_OUT_AMOUNT, le_encode(txout.value, 8));
    assert(pair_views(pairs@) =~= record(PSBT_OUT_AMOUNT, le_bytes(txout.value as nat, 8)));
    push_record(&mut pairs, PSBT_OUT_SCRIPT, clone_bytes(txout.script_pubkey.as_slice()));
    push_optional(&mut pairs, PSBT_OUT_REDEEM_SCRIPT, &output.redeem_script);
    push_optional(&mut pairs, PSBT_OUT_WITNESS_SCRIPT, &output.witness_script);
    push_keyed(&mut pairs, PSBT_OUT_BIP32_DERIVATION, &output.bip32_derivation);
    push_optional(&mut pairs, PSBT_OUT_TAP_INTERNAL_KEY, &output.tap_internal_key);
    push_optional(&mut pairs, PSBT_OUT_TAP_TREE, &output.tap_tree);
    push_keyed(&mut pairs, PSBT_OUT_TAP_BIP32_DERIVATION, &output.tap_key_origins);
    push_keyed(&mut pairs, PSBT_PROPRIETARY, &output.proprietary);
    push_all(&mut pairs, &output.unknown);
    pairs
}

impl Psbt {
    /// Whether `index` names an input that is described and is an input of
    /// the unsigned transaction.
    pub open spec fn has_input(&self, index: int) -> bool {
        0 <= index < self.inputs@.len() && index < self.unsigned_tx.input@.len()
    }

    /// Whether `index` names an output that is described and is an output
    /// of the unsigned transaction.
    pub open spec fn has_output(&self, index: int) -> bool {
        0 <= index < self.outputs@.len() && index < self.unsigned_tx.output@.len()
    }

    /// How many inputs, or outputs, are described.
    pub open spec fn described(&self, group: Group) -> nat {
        match group {
            Group::Inputs => self.inputs@.len(),
            Group::Outputs => self.outputs@.len(),
        }
    }

    /// How many inputs, or outputs, the unsigned transaction has.
    pub open spec fn unsigned(&self, group: Group) -> nat {
        match group {
            Group::Inputs => self.unsigned_tx.input@.len(),
            Group::Outputs => self.unsigned_tx.output@.len(),
        }
    }

    /// Whether every described input, or output, has its counterpart in the
    /// unsigned transaction.
    pub open spec fn complete(&self, group: Group) -> bool {
        self.described(group) <= self.unsigned(group)
    }

    /// The records of the input, or output, at `index`.
    pub open spec fn record(&self, group: Group, index: int) -> Seq<(Seq<u8>, Seq<u8>)> {
        match group {
            Group::Inputs => input_pairs(self.inputs@[index], self.unsigned_tx.input@[index]),
            Group::Outputs => output_pairs(self.outputs@[index], self.unsigned_tx.output@[index]),
        }
    }

    /// The records of every input, or of every output, in their order.
    pub open spec fn records(&self, group: Group) -> Seq<Seq<(Seq<u8>, Seq<u8>)>> {
        Seq::new(self.described(group), |index: int| self.record(group, index))
    }

    /// Flattens the input, or the output, at `index`. Fails where the
    /// transaction has none there, described and unsigned.
    pub fn flatten(&self, group: Group, index: usize) -> (flat: Result<
        Vec<(Vec<u8>, Vec<u8>)>,
        BitcoinClientError,
    >)
        ensures
            match flat {
                Ok(pairs) => index < self.described(group) && index < self.unsigned(group)
                    && pair_views(pairs@) == self.record(group, index as int),
                Err(error) => (index >= self.described(group) || index >= self.unsigned(group))
                    && error@ == ErrorView::InvalidPsbt,
            },
    {
        match group {
            Group::Inputs => self.flatten_input(index),
            Group::Outputs => self.flatten_output(index),
        }
    }

    /// Flattens what belongs to the transaction as a whole.
    pub fn flatten_global(&self) -> (pairs: Vec<(Vec<u8>, Vec<u8>)>)
        ensures
            pair_views(pairs@) == global_pairs(*self),
    {
        get_v2_global_pairs(self)
    }

    /// Flattens the input at `index`. Fails where the transaction has no
    /// such input, described and unsigned.
    pub fn flatten_input(&self, index: usize) -> (flat: Result<
        Vec<(Vec<u8>, Vec<u8>)>,
        BitcoinClientError,
    >)
        ensures
            match flat {
                Ok(pairs) => self.has_input(index as int) && pair_views(pairs@) == input_pairs(
                    self.inputs@[index as int],
                    self.unsigned_tx.input@[index as int],
                ),
                Err(error) => !self.has_input(index as int) && error@ == ErrorView::InvalidPsbt,
            },
    {
        if index < self.inputs.len() && index < self.unsigned_tx.input.len() {
            Ok(get_v2_input_pairs(&self.inputs[index], &self.unsigned_tx.input[index]))
        } else {
            Err(BitcoinClientError::InvalidPsbt)
        }
    }

    /// Flattens the output at `index`. Fails where the transaction has no
    /// such output, described and unsigned.
    pub fn flatten_output(&self, index: usize) -> (flat: Result<
        Vec<(Vec<u8>, Vec<u8>)>,
        BitcoinClientError,
    >)
        ensures
            match flat {
                Ok(pairs) => self.has_output(index as int) && pair_views(pairs@) == output_pairs(
                    self.outputs@[index as int],
                    self.unsigned_tx.output@[index as int],
                ),
                Err(error) => !self.has_output(index as int) && error@ == ErrorView::InvalidPsbt,
            },
    {
        if index < self.outputs.len() && index < self.unsigned_tx.output.len() {
            Ok(get_v2_output_pairs(&self.outputs[index], &self.unsigned_tx.output[index]))
        } else {
            Err(BitcoinClientError::InvalidPsbt)
        }
    }
}

} // verus!
