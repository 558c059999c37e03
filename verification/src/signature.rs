//! The signatures that the device hands over while it signs a transaction.
//!
//! A signature arrives as the length of a key part, the key part, and the
//! signature itself. A key part of 32 bytes is an x-only public key; one of
//! 64 bytes is an x-only public key and the hash of a script leaf; any
//! other is a public key in compressed or uncompressed form.

use crate::bytes::copy_range;
use crate::primitives::{
    ecdsa_sig_decodes, is_ecdsa_sig, is_public_key, is_xonly_key, public_key_decodes,
    xonly_key_decodes,
};
use vstd::prelude::*;

verus! {

/// A signature for one input of a transaction, with the key that made it.
/// Keys and signatures are held as the bytes that the device sent, checked
/// to decode.
#[derive(Clone, Debug, PartialEq, Eq)]
pub enum PartialSignature {
    /// An ECDSA signature, with its signature hash type, by a public key.
    Sig { key: Vec<u8>, signature: Vec<u8> },
    /// A Schnorr signature by an x-only public key, for the key path where
    /// `leaf_hash` is `None` and for the script leaf with that hash otherwise.
    TapScriptSig { key: Vec<u8>, leaf_hash: Option<Vec<u8>>, signature: Vec<u8> },
}

/// Why bytes are no signature.
#[derive(Clone, Copy, Debug, PartialEq, Eq, Structural)]
pub enum PartialSignatureError {
    /// There is no length byte, or the key part leaves no room for a signature.
    BadKeyAugmentLength,
    /// The key part is no x-only public key.
    XOnlyPubKey,
    /// The signature is no Schnorr signature.
    SchnorrSig,
    /// The key part is no public key.
    PubKey,
    /// The signature is no ECDSA signature.
    EcdsaSig,
}

/// A signature as a mathematical value.
pub enum SignatureView {
    Sig { key: Seq<u8>, signature: Seq<u8> },
    TapScriptSig { key: Seq<u8>, leaf_hash: Option<Seq<u8>>, signature: Seq<u8> },
}

impl View for PartialSignature {
    type V = SignatureView;

    open spec fn view(&self) -> SignatureView {
        match self {
            PartialSignature::Sig { key, signature } => SignatureView::Sig {
                key: key@,
                signature: signature@,
            },
            PartialSignature::TapScriptSig { key, leaf_hash, signature } => {
                SignatureView::TapScriptSig {
                    key: key@,
                    leaf_hash: match leaf_hash {
                        Some(hash) => Some(hash@),
                        None => None,
                    },
                    signature: signature@,
                }
            },
        }
    }
}

/// Whether `byte` names a signature hash type of a Schnorr signature.
pub open spec fn schnorr_sighash_type(byte: u8) -> bool {
    byte <= 0x03 || (0x81 <= byte <= 0x83)
}

/// Whether `bytes` have the form of a Schnorr signature: 64 bytes, or 65
/// bytes of which the last names a signature hash type.
pub open spec fn schnorr_sig_decodes(bytes: Seq<u8>) -> bool {
    bytes.len() == 64 || (bytes.len() == 65 && schnorr_sighash_type(bytes[64]))
}

/// Whether `bytes` have the form of a Schnorr signature.
pub fn is_schnorr_sig(bytes: &[u8]) -> (ok: bool)
    ensures
        ok == schnorr_sig_decodes(bytes@),
{
    if bytes.len() == 64 {
        true
    } else if bytes.len() == 65 {
        let last = bytes[64];
        last <= 0x03 || (0x81 <= last && last <= 0x83)
    } else {
        false
    }
}

/// What `bytes` decode to.
pub open spec fn signature_decoding(bytes: Seq<u8>) -> Result<
    SignatureView,
    PartialSignatureError,
> {
    if bytes.len() == 0 || bytes[0] as int >= bytes.len() {
        Err(PartialSignatureError::BadKeyAugmentLength)
    } else if bytes[0] == 64 {
        if !xonly_key_decodes(bytes.subrange(1, 33)) {
            Err(PartialSignatureError::XOnlyPubKey)
        } else if !schnorr_sig_decodes(bytes.skip(65)) {
            Err(PartialSignatureError::SchnorrSig)
        } else {
            Ok(
                SignatureView::TapScriptSig {
                    key: bytes.subrange(1, 33),
                    leaf_hash: Some(bytes.subrange(33, 65)),
                    signature: bytes.skip(65),
                },
            )
        }
    } else if bytes[0] == 32 {
        if !xonly_key_decodes(bytes.subrange(1, 33)) {
            Err(PartialSignatureError::XOnlyPubKey)
        } else if !schnorr_sig_decodes(bytes.skip(33)) {
            Err(PartialSignatureError::SchnorrSig)
        } else {
            Ok(
                SignatureView::TapScriptSig {
                    key: bytes.subrange(1, 33),
                    leaf_hash: None,
                    signature: bytes.skip(33),
                },
            )
        }
    } else {
        let end = bytes[0] as int + 1;
        if !public_key_decodes(bytes.subrange(1, end)) {
            Err(PartialSignatureError::PubKey)
        } else if !ecdsa_sig_decodes(bytes.skip(end)) {
            Err(PartialSignatureError::EcdsaSig)
        } else {
            Ok(SignatureView::Sig { key: bytes.subrange(1, end), signature: bytes.skip(end) })
        }
    }
}

/// A decoded signature as a mathematical value.
pub open spec fn decoded_view(decoded: Result<PartialSignature, PartialSignatureError>) -> Result<
    SignatureView,
    PartialSignatureError,
> {
    match decoded {
        Ok(signature) => Ok(signature@),
        Err(e) => Err(e),
    }
}

impl PartialSignature {
    /// Decodes a signature as the device sends it.
    pub fn from_slice(slice: &[u8]) -> (decoded: Result<PartialSignature, PartialSignatureError>)
        ensures
            decoded_view(decoded) == signature_decoding(slice@),
    {
        if slice.len() == 0 {
            return Err(PartialSignatureError::BadKeyAugmentLength);
        }
        let key_len = slice[0] as usize;
        if key_len >= slice.len() {
            return Err(PartialSignatureError::BadKeyAugmentLength);
        }
        if key_len == 64 || key_len == 32 {
            let key = copy_range(slice, 1, 33);
            let signature = copy_range(slice, key_len + 1, slice.len());
            assert(signature@ =~= slice@.skip(key_len + 1));
            if !is_xonly_key(key.as_slice()) {
                return Err(PartialSignatureError::XOnlyPubKey);
            }
            if !is_schnorr_sig(signature.as_slice()) {
                return Err(PartialSignatureError::SchnorrSig);
            }
            let leaf_hash = if key_len == 64 {
                Some(copy_range(slice, 33, 65))
            } else {
                None
            };
            Ok(PartialSignature::TapScriptSig { key, leaf_hash, signature })
        } else {
            let key = copy_range(slice, 1, key_len + 1);
            let signature = copy_range(slice, key_len + 1, slice.len());
            assert(signature@ =~= slice@.skip(key_len + 1));
            if !is_public_key(key.as_slice()) {
                return Err(PartialSignatureError::PubKey);
            }
            if !is_ecdsa_sig(signature.as_slice()) {
                return Err(PartialSignatureError::EcdsaSig);
            }
            Ok(PartialSignature::Sig { key, signature })
        }
    }
}

} // verus!
