//! What the device's results mean: the decoding of the payload that ends
//! each operation, and of the fragments that a signing hands over.
//!
//! A result that has not the form of its operation is reported with the
//! operation's instruction byte and the bytes as they came.

use crate::apdu::{
    INS_GET_EXTENDED_PUBKEY, INS_GET_MASTER_FINGERPRINT, INS_GET_VERSION, INS_GET_WALLET_ADDRESS,
    INS_REGISTER_WALLET, INS_SIGN_MESSAGE, INS_SIGN_PSBT,
};
use crate::bytes::{append, clone_bytes, concat, views};
use crate::error::{BitcoinClientError, ErrorView};
use crate::primitives::{
    address_read, address_script, compact_sig_decodes, decode_address, decode_xpub,
    is_compact_sig, xpub_key, MAX_TEXT,
};
use crate::signature::{signature_decoding, PartialSignature, SignatureView};
use crate::varint;
use vstd::prelude::*;

verus! {

/// The failure that reports `data` as no result of the operation `command`.
pub open spec fn unexpected(command: u8, data: Seq<u8>) -> ErrorView {
    ErrorView::UnexpectedResult { command, data }
}

fn unexpected_result(command: u8, data: Vec<u8>) -> (error: BitcoinClientError)
    ensures
        error@ == unexpected(command, data@),
{
    BitcoinClientError::UnexpectedResult { command, data }
}

/// Name, version and state flags of the application: a byte that is one,
/// then two texts and a byte string, each behind its length.
pub open spec fn version_decoding(data: Seq<u8>) -> Option<(Seq<char>, Seq<char>, Seq<u8>)> {
    if data.len() == 0 || data[0] != 1 {
        None
    } else {
        match varint::text_decoding(data.skip(1)) {
            None => None,
            Some((name, i)) => match varint::text_decoding(data.skip(i + 1)) {
                None => None,
                Some((version, j)) => match varint::bytes_decoding(data.skip(i + j + 1)) {
                    None => None,
                    Some((flags, _)) => Some((name, version, flags)),
                },
            },
        }
    }
}

/// Decodes the result of the query for the application's version.
pub fn parse_version(data: Vec<u8>) -> (decoded: Result<
    (String, String, Vec<u8>),
    BitcoinClientError,
>)
    ensures
        match decoded {
            Ok((name, version, flags)) => version_decoding(data@) == Some(
                (name@, version@, flags@),
            ),
            Err(error) => version_decoding(data@).is_none() && error@ == unexpected(
                INS_GET_VERSION,
                data@,
            ),
        },
{
    if data.len() == 0 || data[0] != 1 {
        return Err(unexpected_result(INS_GET_VERSION, data));
    }
    let (name, i) = match varint::decode_string(varint::tail(data.as_slice(), 1)) {
        Some(read) => read,
        None => {
            return Err(unexpected_result(INS_GET_VERSION, data));
        },
    };
    let (version, j) = match varint::decode_string(varint::tail(data.as_slice(), i + 1)) {
        Some(read) => read,
        None => {
            return Err(unexpected_result(INS_GET_VERSION, data));
        },
    };
    let (flags, _) = match varint::decode_bytes(varint::tail(data.as_slice(), i + j + 1)) {
        Some(read) => read,
        None => {
            return Err(unexpected_result(INS_GET_VERSION, data));
        },
    };
    Ok((name, version, flags))
}

/// Decodes the result of the query for the master key's fingerprint: four
/// bytes, no more and no less.
pub fn parse_master_fingerprint(data: Vec<u8>) -> (decoded: Result<[u8; 4], BitcoinClientError>)
    ensures
        match decoded {
            Ok(fingerprint) => data@.len() == 4 && fingerprint@ == data@,
            Err(error) => data@.len() != 4 && error@ == unexpected(
                INS_GET_MASTER_FINGERPRINT,
                data@,
            ),
        },
{
    if data.len() != 4 {
        return Err(unexpected_result(INS_GET_MASTER_FINGERPRINT, data));
    }
    let fingerprint = [data[0], data[1], data[2], data[3]];
    assert(fingerprint@ =~= data@);
    Ok(fingerprint)
}

/// The key that a reply reads as: the extended public key in text form, of
/// `MAX_TEXT` bytes at most.
pub open spec fn xpub_reading(data: Seq<u8>) -> Option<bitcoin::util::bip32::ExtendedPubKey> {
    if data.len() <= MAX_TEXT {
        xpub_key(data)
    } else {
        None
    }
}

/// Decodes the result of the query for an extended public key: the key in
/// its text form. Gives the key that the text reads as.
pub fn parse_extended_pubkey(data: Vec<u8>) -> (decoded: Result<
    bitcoin::util::bip32::ExtendedPubKey,
    BitcoinClientError,
>)
    ensures
        match decoded {
            Ok(key) => xpub_reading(data@) == Some(key),
            Err(error) => xpub_reading(data@).is_none() && error@ == unexpected(
                INS_GET_EXTENDED_PUBKEY,
                data@,
            ),
        },
{
    let read = if data.len() <= MAX_TEXT {
        decode_xpub(data.as_slice())
    } else {
        None
    };
    match read {
        Some(key) => Ok(key),
        None => Err(unexpected_result(INS_GET_EXTENDED_PUBKEY, data)),
    }
}

/// Copies the 32 bytes at `start`.
fn array32(bytes: &[u8], start: usize) -> (out: [u8; 32])
    requires
        start + 32 <= bytes.len(),
    ensures
        out@ == bytes@.subrange(start as int, start + 32),
{
    let mut out = [0u8; 32];
    let mut i: usize = 0;
    while i < 32
        invariant
            i <= 32,
            start + 32 <= bytes.len(),
            forall|j: int| 0 <= j < i ==> out@[j] == bytes@[start + j],
        decreases 32 - i,
    {
        out[i] = bytes[start + i];
        i += 1;
    }
    assert(out@ =~= bytes@.subrange(start as int, start + 32));
    out
}

/// Decodes the result of a wallet's registration: the wallet's id and the
/// tag that authenticates it, 32 bytes each. What follows them is ignored.
pub fn parse_wallet_registration(data: Vec<u8>) -> (decoded: Result<
    ([u8; 32], [u8; 32]),
    BitcoinClientError,
>)
    ensures
        match decoded {
            Ok((id, hmac)) => data@.len() >= 64 && id@ == data@.subrange(0, 32) && hmac@
                == data@.subrange(32, 64),
            Err(error) => data@.len() < 64 && error@ == unexpected(INS_REGISTER_WALLET, data@),
        },
{
    if data.len() < 64 {
        return Err(unexpected_result(INS_REGISTER_WALLET, data));
    }
    let id = array32(data.as_slice(), 0);
    let hmac = array32(data.as_slice(), 32);
    Ok((id, hmac))
}

/// The address that a reply reads as, and the script that it pays to: the
/// address in text form, of `MAX_TEXT` bytes at most.
pub open spec fn address_reading(data: Seq<u8>) -> Option<(bitcoin::Address, Seq<u8>)> {
    if data.len() <= MAX_TEXT && address_read(data).is_some() && address_script(data).is_some() {
        Some((address_read(data).unwrap(), address_script(data).unwrap()))
    } else {
        None
    }
}

/// Decodes the result of the query for an address: the address in its text
/// form. Gives the address that the text reads as, and the script that it
/// pays to.
pub fn parse_wallet_address(data: Vec<u8>) -> (decoded: Result<
    (bitcoin::Address, Vec<u8>),
    BitcoinClientError,
>)
    ensures
        match decoded {
            Ok((address, script)) => address_reading(data@) == Some((address, script@)),
            Err(error) => address_reading(data@).is_none() && error@ == unexpected(
                INS_GET_WALLET_ADDRESS,
                data@,
            ),
        },
{
    let read = if data.len() <= MAX_TEXT {
        decode_address(data.as_slice())
    } else {
        None
    };
    match read {
        Some(found) => Ok(found),
        None => Err(unexpected_result(INS_GET_WALLET_ADDRESS, data)),
    }
}

/// What the cross-check of an address says, given the script that the host
/// derived from the wallet's descriptor, if it could derive one: the host
/// must have a script, and it must be `script`, the script that the
/// device's address pays to.
pub open spec fn address_check(derived: Option<Seq<u8>>, script: Seq<u8>) -> Result<
    (),
    ErrorView,
> {
    match derived {
        None => Err(ErrorView::ClientError("Failed to parse descriptor"@)),
        Some(expected) => if expected == script {
            Ok(())
        } else {
            Err(ErrorView::InvalidResponse("Invalid address"@))
        },
    }
}

/// A result without a value as a mathematical value.
pub open spec fn check_view(checked: Result<(), BitcoinClientError>) -> Result<(), ErrorView> {
    match checked {
        Ok(()) => Ok(()),
        Err(error) => Err(error@),
    }
}

/// Checks an address of the device against the wallet's descriptor.
/// `derived` is the script that the host derived from the descriptor at the
/// address index, or `None` where the descriptor did not parse;
/// `script_pubkey` is the script that the device's address pays to. The
/// check fails unless both are one script.
pub fn check_address(derived: Option<Vec<u8>>, script_pubkey: &[u8]) -> (checked: Result<
    (),
    BitcoinClientError,
>)
    ensures
        check_view(checked) == address_check(
            match derived {
                Some(bytes) => Some(bytes@),
                None => None,
            },
            script_pubkey@,
        ),
{
    match derived {
        None => Err(BitcoinClientError::ClientError("Failed to parse descriptor".to_owned())),
        Some(expected) => {
            if crate::bytes::bytes_eq(expected.as_slice(), script_pubkey) {
                Ok(())
            } else {
                Err(BitcoinClientError::InvalidResponse("Invalid address".to_owned()))
            }
        },
    }
}

/// What one fragment of a signing decodes to: the index of an input, then a
/// signature.
pub open spec fn fragment_decoding(fragment: Seq<u8>) -> Option<(usize, SignatureView)> {
    match varint::decoding(fragment) {
        None => None,
        Some((index, used)) => match signature_decoding(fragment.skip(used)) {
            Ok(signature) => Some((#[verifier::truncate] (index as usize), signature)),
            Err(_) => None,
        },
    }
}

/// What the fragments decode to, one after the other: all signatures, or
/// the first fragment that is none.
pub open spec fn fragments_decoding(fragments: Seq<Seq<u8>>) -> Result<
    Seq<(usize, SignatureView)>,
    Seq<u8>,
>
    decreases fragments.len(),
{
    if fragments.len() == 0 {
        Ok(Seq::empty())
    } else {
        match fragments_decoding(fragments.drop_last()) {
            Err(bad) => Err(bad),
            Ok(signatures) => match fragment_decoding(fragments.last()) {
                Some(signature) => Ok(signatures.push(signature)),
                None => Err(fragments.last()),
            },
        }
    }
}

/// Whether a fragment has one byte at most: an index without a signature.
pub open spec fn has_bare_fragment(fragments: Seq<Seq<u8>>) -> bool {
    exists|i: int| 0 <= i < fragments.len() && (#[trigger] fragments[i]).len() <= 1
}

/// The result of a signing: a signature for each fragment, in the order of
/// the fragments. One fragment of one byte at most fails the whole signing,
/// which then reports all fragments in a row; so does one fragment that
/// does not decode, which is then reported alone.
pub open spec fn signatures_decoding(fragments: Seq<Seq<u8>>) -> Result<
    Seq<(usize, SignatureView)>,
    ErrorView,
> {
    if has_bare_fragment(fragments) {
        Err(unexpected(INS_SIGN_PSBT, concat(fragments)))
    } else {
        match fragments_decoding(fragments) {
            Ok(signatures) => Ok(signatures),
            Err(bad) => Err(unexpected(INS_SIGN_PSBT, bad)),
        }
    }
}

/// Signatures as mathematical values.
pub open spec fn signature_views(signatures: Seq<(usize, PartialSignature)>) -> Seq<
    (usize, SignatureView),
> {
    signatures.map_values(|entry: (usize, PartialSignature)| (entry.0, entry.1@))
}

/// The result of a signing as a mathematical value.
pub open spec fn signatures_view(decoded: Result<Vec<(usize, PartialSignature)>, BitcoinClientError>)
    -> Result<Seq<(usize, SignatureView)>, ErrorView> {
    match decoded {
        Ok(signatures) => Ok(signature_views(signatures@)),
        Err(error) => Err(error@),
    }
}

/// A signing never gives some of its signatures: where one fragment is
/// bare, the result is a failure.
pub proof fn lemma_bare_fragment_fails(fragments: Seq<Seq<u8>>, at: int)
    requires
        0 <= at < fragments.len(),
        fragments[at].len() <= 1,
    ensures
        signatures_decoding(fragments) == Err::<Seq<(usize, SignatureView)>, ErrorView>(
            unexpected(INS_SIGN_PSBT, concat(fragments)),
        ),
{
}

/// Whether one of `fragments` has one byte at most.
fn any_bare(fragments: &Vec<Vec<u8>>) -> (bare: bool)
    ensures
        bare == has_bare_fragment(views(fragments@)),
{
    let mut i: usize = 0;
    while i < fragments.len()
        invariant
            i <= fragments.len(),
            forall|j: int| 0 <= j < i ==> (#[trigger] views(fragments@)[j]).len() > 1,
        decreases fragments.len() - i,
    {
        if fragments[i].len() <= 1 {
            assert(views(fragments@)[i as int].len() <= 1);
            return true;
        }
        i += 1;
    }
    false
}

/// All of `fragments` in a row.
fn join(fragments: &Vec<Vec<u8>>) -> (all: Vec<u8>)
    ensures
        all@ == concat(views(fragments@)),
{
    let mut all: Vec<u8> = Vec::new();
    let mut i: usize = 0;
    assert(all@ =~= concat(views(fragments@).take(0)));
    while i < fragments.len()
        invariant
            i <= fragments.len(),
            all@ == concat(views(fragments@).take(i as int)),
        decreases fragments.len() - i,
    {
        append(&mut all, fragments[i].as_slice());
        proof {
            let next = views(fragments@).take(i + 1);
            assert(next.drop_last() =~= views(fragments@).take(i as int));
            assert(next.last() == fragments@[i as int]@);
        }
        i += 1;
    }
    assert(views(fragments@).take(i as int) =~= views(fragments@));
    all
}

/// Decodes the fragments that the device handed over while it signed a
/// transaction into signatures, each with the index of its input.
pub fn parse_signatures(results: Vec<Vec<u8>>) -> (decoded: Result<
    Vec<(usize, PartialSignature)>,
    BitcoinClientError,
>)
    ensures
        signatures_view(decoded) == signatures_decoding(views(results@)),
{
    if any_bare(&results) {
        let all = join(&results);
        return Err(unexpected_result(INS_SIGN_PSBT, all));
    }
    let ghost fragments = views(results@);
    let mut signatures: Vec<(usize, PartialSignature)> = Vec::new();
    let mut i: usize = 0;
    assert(signature_views(signatures@) =~= Seq::empty());
    while i < results.len()
        invariant
            i <= results.len(),
            fragments == views(results@),
            !has_bare_fragment(fragments),
            fragments_decoding(fragments.take(i as int)) == Ok::<
                Seq<(usize, SignatureView)>,
                Seq<u8>,
            >(signature_views(signatures@)),
        decreases results.len() - i,
    {
        let fragment = results[i].as_slice();
        proof {
            let next = fragments.take(i + 1);
            assert(next.drop_last() =~= fragments.take(i as int));
            assert(next.last() == fragment@);
        }
        let (index, used) = match varint::decode(fragment) {
            Some(read) => read,
            None => {
                proof {
                    assert(fragment_decoding(fragment@).is_none());
                    assert(fragments_decoding(fragments.take(i + 1)) == Err::<
                        Seq<(usize, SignatureView)>,
                        Seq<u8>,
                    >(fragment@));
                    lemma_first_failure_stays(fragments, i + 1);
                }
                return Err(unexpected_result(INS_SIGN_PSBT, clone_bytes(fragment)));
            },
        };
        let signature = match PartialSignature::from_slice(varint::tail(fragment, used)) {
            Ok(signature) => signature,
            Err(_) => {
                proof {
                    assert(fragment_decoding(fragment@).is_none());
                    assert(fragments_decoding(fragments.take(i + 1)) == Err::<
                        Seq<(usize, SignatureView)>,
                        Seq<u8>,
                    >(fragment@));
                    lemma_first_failure_stays(fragments, i + 1);
                }
                return Err(unexpected_result(INS_SIGN_PSBT, clone_bytes(fragment)));
            },
        };
        let ghost before = signature_views(signatures@);
        let input = #[verifier::truncate]
        (index as usize);
        let ghost entry = (input, signature@);
        signatures.push((input, signature));
        assert(signature_views(signatures@) =~= before.push(entry));
        i += 1;
    }
    assert(fragments.take(i as int) =~= fragments);
    Ok(signatures)
}

/// A fragment that fails among the first `count` fails the whole list.
proof fn lemma_first_failure_stays(fragments: Seq<Seq<u8>>, count: int)
    requires
        0 <= count <= fragments.len(),
        fragments_decoding(fragments.take(count)).is_err(),
    ensures
        fragments_decoding(fragments) == fragments_decoding(fragments.take(count)),
    decreases fragments.len() - count,
{
    if count < fragments.len() {
        assert(fragments.take(count + 1).drop_last() =~= fragments.take(count));
        lemma_first_failure_stays(fragments, count + 1);
    } else {
        assert(fragments.take(count) =~= fragments);
    }
}

/// Decodes the result of the signing of a message: a header byte, then the
/// signature in compact form, 64 bytes long.
pub fn parse_message_signature(data: Vec<u8>) -> (decoded: Result<(u8, Vec<u8>), BitcoinClientError>)
    ensures
        match decoded {
            Ok((header, signature)) => data@.len() == 65 && header == data@[0] && signature@
                == data@.skip(1) && compact_sig_decodes(signature@),
            Err(error) => (data@.len() == 0 || !compact_sig_decodes(data@.skip(1))) && error@
                == unexpected(INS_SIGN_MESSAGE, data@),
        },
{
    if data.len() == 0 {
        return Err(unexpected_result(INS_SIGN_MESSAGE, data));
    }
    let signature = clone_bytes(varint::tail(data.as_slice(), 1));
    if is_compact_sig(signature.as_slice()) {
        Ok((data[0], signature))
    } else {
        Err(unexpected_result(INS_SIGN_MESSAGE, data))
    }
}

} // verus!
