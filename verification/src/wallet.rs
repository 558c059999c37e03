//! Wallet policies: a name, a descriptor template and the keys it refers to.
//!
//! The device knows a policy by its id, the hash of its serialization. The
//! serialization itself commits to the template and to the list of keys, so
//! that the device can ask for both.

use crate::bytes::clone_bytes;
use crate::hash::{digest, digest_of};
use crate::mapping::{leaves_of, list_root};
use crate::merkle::MerkleTree;
use crate::varint;
use vstd::prelude::*;
use vstd::utf8::encode_utf8;

verus! {

/// The version of the policy format.
#[derive(Clone, Copy, Debug, PartialEq, Eq, Structural)]
pub enum Version {
    /// The template is serialized as it is.
    V1,
    /// The template is serialized as its hash.
    V2,
}

/// A wallet policy. Each key is held in its text form.
#[derive(Clone, Debug, PartialEq, Eq)]
pub struct WalletPolicy {
    pub name: String,
    pub version: Version,
    pub descriptor_template: String,
    pub keys: Vec<String>,
}

/// The byte that stands for a version.
pub open spec fn version_byte(version: Version) -> u8 {
    match version {
        Version::V1 => 1,
        Version::V2 => 2,
    }
}

/// The bytes of each key's text.
pub open spec fn key_texts(keys: Seq<String>) -> Seq<Seq<u8>> {
    keys.map_values(|key: String| encode_utf8(key@))
}

/// How the template enters the serialization.
pub open spec fn template_part(policy: WalletPolicy) -> Seq<u8> {
    match policy.version {
        Version::V1 => encode_utf8(policy.descriptor_template@),
        Version::V2 => digest(encode_utf8(policy.descriptor_template@))@,
    }
}

/// The serialization of a policy: version, length of the name in one byte,
/// name, length of the template, template or its hash, number of keys, and
/// the commitment to the list of keys.
pub open spec fn serialization(policy: WalletPolicy) -> Seq<u8> {
    let name = encode_utf8(policy.name@);
    seq![version_byte(policy.version), (name.len() % 256) as u8] + name + varint::encoding(
        encode_utf8(policy.descriptor_template@).len() as u64,
    ) + template_part(policy) + varint::encoding(policy.keys@.len() as u64) + list_root(
        key_texts(policy.keys@),
    )@
}

/// The id of a policy.
pub open spec fn policy_id(policy: WalletPolicy) -> [u8; 32] {
    digest(serialization(policy))
}

/// Whether `byte` is a digit of base ten.
pub open spec fn is_digit(byte: u8) -> bool {
    48 <= byte <= 57
}

/// Where the digits end that begin at `from`.
pub open spec fn digits_end(text: Seq<u8>, from: int) -> int
    decreases text.len() - from,
{
    if 0 <= from < text.len() && is_digit(text[from]) {
        digits_end(text, from + 1)
    } else {
        from
    }
}

/// The number that the digits of `text` from `from` up to `to` spell.
pub open spec fn number(text: Seq<u8>, from: int, to: int) -> nat
    decreases to - from,
{
    if to <= from {
        0
    } else {
        number(text, from, to - 1) * 10 + (text[to - 1] - 48) as nat
    }
}

/// `front`, then `rest`, where there is a rest.
pub open spec fn prefixed(front: Seq<u8>, rest: Option<Seq<u8>>) -> Option<Seq<u8>> {
    match rest {
        Some(bytes) => Some(front + bytes),
        None => None,
    }
}

/// The template from `from` on with every key in the place of its
/// placeholder. A placeholder is `@` and the position of a key in base ten,
/// with all the digits that follow the `@`. `None` where an `@` stands
/// without digits or names no key.
pub open spec fn with_keys_from(template: Seq<u8>, keys: Seq<Seq<u8>>, from: int) -> Option<
    Seq<u8>,
>
    decreases template.len() - from,
{
    if from < 0 || from >= template.len() {
        Some(Seq::empty())
    } else if template[from] == 64 {
        let end = digits_end(template, from + 1);
        let which = number(template, from + 1, end);
        if end <= from + 1 || end > template.len() || which >= keys.len() {
            None
        } else {
            prefixed(keys[which as int], with_keys_from(template, keys, end))
        }
    } else {
        prefixed(seq![template[from]], with_keys_from(template, keys, from + 1))
    }
}

/// The step that stands for the receive addresses, or for the change
/// addresses, before a wildcard.
pub open spec fn branch(change: bool) -> Seq<u8> {
    seq![
        47u8,
        if change {
            49u8
        } else {
            48u8
        },
        47u8,
        42u8,
    ]
}

/// The text from `from` on with every `/**` written out as the step of
/// the receive or the change addresses and a wildcard.
pub open spec fn with_branch_from(text: Seq<u8>, change: bool, from: int) -> Seq<u8>
    decreases text.len() - from,
{
    if from < 0 || from >= text.len() {
        Seq::empty()
    } else if from + 3 <= text.len() && text[from] == 47 && text[from + 1] == 42 && text[from + 2]
        == 42 {
        branch(change) + with_branch_from(text, change, from + 3)
    } else {
        seq![text[from]] + with_branch_from(text, change, from + 1)
    }
}

/// The descriptor of a policy for its receive addresses, or for its change
/// addresses: the template with every key in the place of its placeholder,
/// then with every `/**` written out. `None` where a placeholder names no
/// key.
pub open spec fn descriptor_text(policy: WalletPolicy, change: bool) -> Option<Seq<u8>> {
    match with_keys_from(encode_utf8(policy.descriptor_template@), key_texts(policy.keys@), 0) {
        Some(text) => Some(with_branch_from(text, change, 0)),
        None => None,
    }
}

impl WalletPolicy {
    /// A policy of these parts.
    pub fn new(name: String, version: Version, descriptor_template: String, keys: Vec<String>) -> (policy:
        WalletPolicy)
        ensures
            policy.name == name,
            policy.version == version,
            policy.descriptor_template == descriptor_template,
            policy.keys == keys,
    {
        WalletPolicy { name, version, descriptor_template, keys }
    }

    /// The bytes of each key's text, in the order of the keys.
    pub fn key_bytes(&self) -> (texts: Vec<Vec<u8>>)
        ensures
            crate::bytes::views(texts@) == key_texts(self.keys@),
    {
        let mut texts: Vec<Vec<u8>> = Vec::new();
        let mut i: usize = 0;
        while i < self.keys.len()
            invariant
                i <= self.keys.len(),
                crate::bytes::views(texts@) == key_texts(self.keys@.take(i as int)),
            decreases self.keys.len() - i,
        {
            let ghost before = crate::bytes::views(texts@);
            let text = clone_bytes(self.keys[i].as_str().as_bytes());
            texts.push(text);
            proof {
                assert(self.keys@.take(i + 1) =~= self.keys@.take(i as int).push(
                    self.keys@[i as int],
                ));
                assert(crate::bytes::views(texts@) =~= before.push(
                    encode_utf8(self.keys@[i as int]@),
                ));
                assert(crate::bytes::views(texts@) =~= key_texts(self.keys@.take(i + 1)));
            }
            i += 1;
        }
        assert(self.keys@.take(i as int) =~= self.keys@);
        texts
    }

    /// The bytes of the descriptor template.
    pub fn template_bytes(&self) -> (bytes: Vec<u8>)
        ensures
            bytes@ == encode_utf8(self.descriptor_template@),
    {
        clone_bytes(self.descriptor_template.as_str().as_bytes())
    }

    /// The template with every key in the place of its placeholder.
    fn with_keys(&self) -> (text: Option<Vec<u8>>)
        ensures
            match text {
                Some(bytes) => with_keys_from(
                    encode_utf8(self.descriptor_template@),
                    key_texts(self.keys@),
                    0,
                ) == Some(bytes@),
                None => with_keys_from(
                    encode_utf8(self.descriptor_template@),
                    key_texts(self.keys@),
                    0,
                ).is_none(),
            },
    {
        let template = self.descriptor_template.as_str().as_bytes();
        let ghost keys = key_texts(self.keys@);
        let mut out: Vec<u8> = Vec::new();
        let mut i: usize = 0;
        assert(prefixed(out@, with_keys_from(template@, keys, 0)) =~= with_keys_from(
            template@,
            keys,
            0,
        ));
        while i < template.len()
            invariant
                i <= template.len(),
                template@ == encode_utf8(self.descriptor_template@),
                keys == key_texts(self.keys@),
                with_keys_from(template@, keys, 0) == prefixed(
                    out@,
                    with_keys_from(template@, keys, i as int),
                ),
            decreases template.len() - i,
        {
            let ghost shown = out@;
            let ghost here = with_keys_from(template@, keys, i as int);
            if template[i] == 64 {
                let count = self.keys.len();
                let mut which: usize = 0;
                let mut j: usize = i + 1;
                while j < template.len() && template[j] >= 48 && template[j] <= 57
                    invariant
                        i + 1 <= j <= template.len(),
                        count == self.keys@.len(),
                        digits_end(template@, j as int) == digits_end(template@, i + 1),
                        which <= count,
                        which as nat == if number(template@, i + 1, j as int) >= count {
                            count as nat
                        } else {
                            number(template@, i + 1, j as int)
                        },
                    decreases template.len() - j,
                {
                    let digit = (template[j] - 48) as u128;
                    if which < count {
                        let next = which as u128 * 10 + digit;
                        which = if next >= count as u128 {
                            count
                        } else {
                            next as usize
                        };
                    }
                    j += 1;
                }
                assert(digits_end(template@, j as int) == j);
                if j == i + 1 || which >= count {
                    return None;
                }
                let key = self.keys[which].as_str().as_bytes();
                assert(key@ == keys[which as int]);
                out.extend_from_slice(key);
                proof {
                    let rest = with_keys_from(template@, keys, j as int);
                    assert(here == prefixed(keys[which as int], rest));
                    assert(prefixed(out@, rest) =~= prefixed(shown, here));
                }
                i = j;
            } else {
                out.push(template[i]);
                proof {
                    let rest = with_keys_from(template@, keys, i + 1);
                    assert(here == prefixed(seq![template@[i as int]], rest));
                    assert(prefixed(out@, rest) =~= prefixed(shown, here));
                }
                i += 1;
            }
        }
        assert(prefixed(out@, with_keys_from(template@, keys, i as int)) =~= Some(out@));
        Some(out)
    }

    /// The descriptor of the policy for its receive addresses, or for its
    /// change addresses if `change` is set, with a wildcard where the
    /// address index goes. `None` where a placeholder of the template names
    /// no key of the policy.
    pub fn get_descriptor(&self, change: bool) -> (descriptor: Option<Vec<u8>>)
        ensures
            match descriptor {
                Some(bytes) => descriptor_text(*self, change) == Some(bytes@),
                None => descriptor_text(*self, change).is_none(),
            },
    {
        let text = match self.with_keys() {
            Some(text) => text,
            None => {
                return None;
            },
        };
        let mut out: Vec<u8> = Vec::new();
        let mut i: usize = 0;
        assert(out@ + with_branch_from(text@, change, 0) =~= with_branch_from(text@, change, 0));
        while i < text.len()
            invariant
                i <= text.len(),
                with_branch_from(text@, change, 0) == out@ + with_branch_from(
                    text@,
                    change,
                    i as int,
                ),
            decreases text.len() - i,
        {
            let ghost shown = out@;
            if text.len() - i >= 3 && text[i] == 47 && text[i + 1] == 42 && text[i + 2] == 42 {
                out.push(47);
                out.push(if change {
                    49
                } else {
                    48
                });
                out.push(47);
                out.push(42);
                assert(out@ =~= shown + branch(change));
                assert(out@ + with_branch_from(text@, change, i + 3) =~= shown + with_branch_from(
                    text@,
                    change,
                    i as int,
                ));
                i += 3;
            } else {
                out.push(text[i]);
                assert(out@ + with_branch_from(text@, change, i + 1) =~= shown + with_branch_from(
                    text@,
                    change,
                    i as int,
                ));
                i += 1;
            }
        }
        assert(out@ + with_branch_from(text@, change, i as int) =~= out@);
        Some(out)
    }

    /// Serializes the policy.
    pub fn serialize(&self) -> (out: Vec<u8>)
        ensures
            out@ == serialization(*self),
    {
        let name = self.name.as_str().as_bytes();
        let template = self.descriptor_template.as_str().as_bytes();
        let mut out: Vec<u8> = Vec::new();
        out.push(
            match self.version {
                Version::V1 => 1u8,
                Version::V2 => 2u8,
            },
        );
        out.push((name.len() % 256) as u8);
        out.extend_from_slice(name);
        varint::push(&mut out, template.len() as u64);
        match self.version {
            Version::V1 => {
                out.extend_from_slice(template);
            },
            Version::V2 => {
                let hash = digest_of(template);
                out.extend_from_slice(hash.as_slice());
            },
        }
        varint::push(&mut out, self.keys.len() as u64);
        let keys = self.key_bytes();
        let tree = MerkleTree::new(leaves_of(keys.as_slice()));
        out.extend_from_slice(tree.root_hash().as_slice());
        assert(out@ =~= serialization(*self));
        out
    }

    /// The id of the policy: the hash of its serialization.
    pub fn id(&self) -> (id: [u8; 32])
        ensures
            id == policy_id(*self),
    {
        let bytes = self.serialize();
        digest_of(bytes.as_slice())
    }
}

} // verus!
