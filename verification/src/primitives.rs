//! What only the primitives library can tell: whether bytes decode as a key
//! or a signature, which key or address a text reads as, and which script
//! an address pays to.
//!
//! Nothing in this file is proved. Each function hands its argument to
//! `bitcoin` and reports what came back; its contract gives that answer a
//! name, or states what the outside function's source shows.

use core::str::FromStr;
use vstd::prelude::*;

verus! {

/// An extended public key, as `bitcoin` holds it.
#[verifier::external_type_specification]
#[verifier::external_body]
pub struct ExExtendedPubKey(bitcoin::util::bip32::ExtendedPubKey);

/// An address, as `bitcoin` holds it.
#[verifier::external_type_specification]
#[verifier::external_body]
pub struct ExAddress(bitcoin::Address);

/// The longest text that is read as a key or as an address. No extended
/// key and no address in text form is as long as this. A longer text is
/// not handed to the primitives library, which multiplies the length of
/// what it reads.
pub const MAX_TEXT: usize = 256;

/// Whether `bitcoin::PublicKey::from_slice` accepts `bytes`.
pub uninterp spec fn public_key_decodes(bytes: Seq<u8>) -> bool;

/// Whether `bitcoin::EcdsaSig::from_slice` accepts `bytes`.
pub uninterp spec fn ecdsa_sig_decodes(bytes: Seq<u8>) -> bool;

/// Whether `bitcoin::XOnlyPublicKey::from_slice` accepts `bytes`.
pub uninterp spec fn xonly_key_decodes(bytes: Seq<u8>) -> bool;

/// Whether `bitcoin::secp256k1::ecdsa::Signature::from_compact` accepts `bytes`.
pub uninterp spec fn compact_sig_decodes(bytes: Seq<u8>) -> bool;

/// The extended public key that `bitcoin::util::bip32::ExtendedPubKey::from_str`
/// reads from `text`, taken as UTF-8 with a replacement character for what
/// is none; `None` where it reads no key.
pub uninterp spec fn xpub_key(text: Seq<u8>) -> Option<bitcoin::util::bip32::ExtendedPubKey>;

/// The address that `bitcoin::Address::from_str` reads from `text`, taken as
/// UTF-8 with a replacement character for what is none; `None` where it
/// reads no address.
pub uninterp spec fn address_read(text: Seq<u8>) -> Option<bitcoin::Address>;

/// The script that the address read from `text` pays to, as its
/// `script_pubkey` gives it; `None` where `text` reads as no address.
pub uninterp spec fn address_script(text: Seq<u8>) -> Option<Seq<u8>>;

/// Asks `bitcoin::PublicKey::from_slice` whether `bytes` are a public key
/// in compressed or uncompressed form.
#[verifier::external_body]
pub(crate) fn is_public_key(bytes: &[u8]) -> (ok: bool)
    ensures
        ok == public_key_decodes(bytes@),
{
    bitcoin::PublicKey::from_slice(bytes).is_ok()
}

/// Asks `bitcoin::EcdsaSig::from_slice` whether `bytes` are a DER signature
/// followed by a standard signature hash type.
#[verifier::external_body]
pub(crate) fn is_ecdsa_sig(bytes: &[u8]) -> (ok: bool)
    ensures
        ok == ecdsa_sig_decodes(bytes@),
{
    bitcoin::EcdsaSig::from_slice(bytes).is_ok()
}

/// Asks `bitcoin::XOnlyPublicKey::from_slice` whether `bytes` are an x-only
/// public key.
#[verifier::external_body]
pub(crate) fn is_xonly_key(bytes: &[u8]) -> (ok: bool)
    ensures
        ok == xonly_key_decodes(bytes@),
{
    bitcoin::XOnlyPublicKey::from_slice(bytes).is_ok()
}

/// Asks `bitcoin::secp256k1::ecdsa::Signature::from_compact` whether
/// `bytes` are a signature in compact form. That function refuses whatever
/// is not 64 bytes long.
#[verifier::external_body]
pub(crate) fn is_compact_sig(bytes: &[u8]) -> (ok: bool)
    ensures
        ok == compact_sig_decodes(bytes@),
        ok ==> bytes@.len() == 64,
{
    bitcoin::secp256k1::ecdsa::Signature::from_compact(bytes).is_ok()
}

/// Reads `text` as an extended public key with
/// `bitcoin::util::bip32::ExtendedPubKey::from_str`, after
/// `String::from_utf8_lossy`. The key is a function of the text alone. Texts
/// of more than `MAX_TEXT` bytes are left out.
#[verifier::external_body]
pub(crate) fn decode_xpub(text: &[u8]) -> (key: Option<bitcoin::util::bip32::ExtendedPubKey>)
    requires
        text@.len() <= MAX_TEXT,
    ensures
        key == xpub_key(text@),
{
    bitcoin::util::bip32::ExtendedPubKey::from_str(&String::from_utf8_lossy(text)).ok()
}

/// Reads `text` as an address with `bitcoin::Address::from_str`, after
/// `String::from_utf8_lossy`, and asks the address for its script with
/// `script_pubkey`. Address and script are functions of the text alone.
/// Texts of more than `MAX_TEXT` bytes are left out.
#[verifier::external_body]
pub(crate) fn decode_address(text: &[u8]) -> (read: Option<(bitcoin::Address, Vec<u8>)>)
    requires
        text@.len() <= MAX_TEXT,
    ensures
        match read {
            Some((address, script)) => address_read(text@) == Some(address) && address_script(
                text@,
            ) == Some(script@),
            None => address_read(text@).is_none() && address_script(text@).is_none(),
        },
{
    match bitcoin::Address::from_str(&String::from_utf8_lossy(text)) {
        Ok(address) => {
            let script = address.script_pubkey().into_bytes();
            Some((address, script))
        },
        Err(_) => None,
    }
}

} // verus!
