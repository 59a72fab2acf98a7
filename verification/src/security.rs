//! Machine-bound signatures for system commands.
//!
//! Trigger files are shared between users, so a command that a trigger runs
//! must have been approved on this machine. The machine's identifier, salted
//! with `LogQuest`, is hashed with SHA-512; the first half of the checksum is
//! the seed of an Ed25519 key pair that exists only in memory. An approved
//! command carries a signature of its text made with that key; a signature
//! made on another machine does not verify here.
//!
//! The cryptography is `ring`'s and the text encoding of signatures is
//! `base64`'s (URL-safe alphabet, padded); their results are named below.
use vstd::prelude::*;
use base64::Engine;
use ring::signature::KeyPair;

verus! {

#[verifier::external_type_specification]
#[verifier::external_body]
pub struct ExEd25519KeyPair(ring::signature::Ed25519KeyPair);

/// What `ring::digest::digest(&SHA512, ..)` gives for the UTF-8 bytes of a text.
pub uninterp spec fn sha512_digest(text: Seq<char>) -> Seq<u8>;

/// The Ed25519 signature (64 bytes) of the UTF-8 bytes of `data` under the
/// key pair made from `seed`.
pub uninterp spec fn ed25519_signature(seed: Seq<u8>, data: Seq<char>) -> Seq<u8>;

/// Whether `signature` is a valid Ed25519 signature of the UTF-8 bytes of
/// `data` for the public key of the key pair made from `seed`.
pub uninterp spec fn ed25519_valid(seed: Seq<u8>, data: Seq<char>, signature: Seq<u8>) -> bool;

/// What `base64`'s `URL_SAFE.encode` gives for `bytes`.
pub uninterp spec fn base64_url_encoded(bytes: Seq<u8>) -> Seq<char>;

/// What `base64`'s `URL_SAFE.decode` gives for `text`: the bytes, or `None`
/// on a decoding error.
pub uninterp spec fn base64_url_decoded(text: Seq<char>) -> Option<Seq<u8>>;

/// Calls `machine_uid::get`: the machine's identifier, or `None` when the
/// system does not provide one. It depends on the machine; nothing is stated.
#[verifier::external_body]
fn machine_uid_get() -> (res: Option<String>) {
    machine_uid::get().ok()
}

/// Calls `ring::digest::digest(&SHA512, text.as_bytes())`. The checksum is
/// named; SHA-512 checksums are 64 bytes long.
#[verifier::external_body]
fn sha512(text: &str) -> (res: Vec<u8>)
    ensures
        res@ == sha512_digest(text@),
        res@.len() == 64,
{
    ring::digest::digest(&ring::digest::SHA512, text.as_bytes()).as_ref().to_vec()
}

/// Calls `Ed25519KeyPair::from_seed_unchecked`, which rejects only seeds
/// that are not 32 bytes long.
#[verifier::external_body]
fn ed25519_key_pair(seed: &Vec<u8>) -> (res: ring::signature::Ed25519KeyPair)
    requires
        seed@.len() == 32,
{
    ring::signature::Ed25519KeyPair::from_seed_unchecked(seed.as_slice()).unwrap()
}

/// Calls `Ed25519KeyPair::sign` on the UTF-8 bytes of `data` with the key's
/// pair; Ed25519 signing is deterministic, so the signature is named.
#[verifier::external_body]
fn ed25519_sign(key: &MachineKey, data: &str) -> (res: Vec<u8>)
    ensures
        res@ == ed25519_signature(key@, data@),
        res@.len() == 64,
{
    key.pair.sign(data.as_bytes()).as_ref().to_vec()
}

/// Verifies `signature` for the UTF-8 bytes of `data` with the public key of
/// the key's pair (`UnparsedPublicKey::new(&ED25519, ..).verify(..)`). A
/// signature that the same key pair made of the same data verifies.
#[verifier::external_body]
fn ed25519_verify(key: &MachineKey, data: &str, signature: &Vec<u8>) -> (res: bool)
    ensures
        res == ed25519_valid(key@, data@, signature@),
        signature@ == ed25519_signature(key@, data@) ==> res,
{
    ring::signature::UnparsedPublicKey::new(&ring::signature::ED25519, key.pair.public_key()).verify(
        data.as_bytes(),
        signature.as_slice(),
    ).is_ok()
}

/// Calls `URL_SAFE.encode` (`base64::engine::general_purpose`).
#[verifier::external_body]
fn base64_encode(bytes: &Vec<u8>) -> (res: String)
    requires
        bytes@.len() <= 0x1000_0000,
    ensures
        res@ == base64_url_encoded(bytes@),
{
    base64::engine::general_purpose::URL_SAFE.encode(bytes.as_slice())
}

pub open spec fn bytes_view(o: Option<Vec<u8>>) -> Option<Seq<u8>> {
    match o {
        Some(v) => Some(v@),
        None => None,
    }
}

/// Calls `URL_SAFE.decode`. Decoding gives back the bytes that encoding
/// was given.
#[verifier::external_body]
fn base64_decode(text: &str) -> (res: Option<Vec<u8>>)
    ensures
        bytes_view(res) == base64_url_decoded(text@),
        forall|b: Seq<u8>| #[trigger] base64_url_encoded(b) == text@ ==> bytes_view(res) == Some(b),
{
    base64::engine::general_purpose::URL_SAFE.decode(text).ok()
}

/// The in-memory signing key of this machine: an Ed25519 key pair and the
/// seed it was made from.
pub struct MachineKey {
    seed: Vec<u8>,
    pair: ring::signature::Ed25519KeyPair,
}

impl View for MachineKey {
    type V = Seq<u8>;

    closed spec fn view(&self) -> Seq<u8> {
        self.seed@
    }
}

/// The seed made from a machine identifier: the first 32 bytes of the
/// SHA-512 checksum of the identifier followed by `LogQuest`.
pub open spec fn machine_seed(machine_id: Seq<char>) -> Seq<u8> {
    sha512_digest(machine_id + "LogQuest"@).take(32)
}

impl MachineKey {
    /// The key made from machine identifier `machine_id`.
    pub fn from_machine_id(machine_id: &str) -> (res: MachineKey)
        ensures
            res@ == machine_seed(machine_id@),
    {
        let mut salted = crate::text::string_of(&crate::text::chars_of(machine_id));
        crate::text::append_str(&mut salted, "LogQuest");
        let checksum = sha512(salted.as_str());
        let mut seed: Vec<u8> = Vec::new();
        let mut i: usize = 0;
        while i < 32
            invariant
                checksum@.len() == 64,
                i <= 32,
                seed@ == checksum@.take(i as int),
            decreases 32 - i,
        {
            seed.push(checksum[i]);
            assert(checksum@.take(i + 1) == checksum@.take(i as int).push(checksum@[i as int]));
            i = i + 1;
        }
        let pair = ed25519_key_pair(&seed);
        MachineKey { seed, pair }
    }
}

/// The key of this machine, or `None` when it has no identifier.
pub fn machine_key() -> (res: Option<MachineKey>)
    ensures
        res matches Some(k) ==> exists|id: Seq<char>| k@ == #[trigger] machine_seed(id),
{
    match machine_uid_get() {
        Some(id) => Some(MachineKey::from_machine_id(id.as_str())),
        None => None,
    }
}

/// Whether this machine can sign and verify commands.
pub fn is_crypto_available() -> (res: bool) {
    machine_key().is_some()
}

/// The signature of `data` under `key`, in its text form.
pub open spec fn signature_text(key: Seq<u8>, data: Seq<char>) -> Seq<char> {
    base64_url_encoded(ed25519_signature(key, data))
}

/// Whether text `signature` decodes to a valid signature of `data` under `key`.
pub open spec fn signature_accepted(key: Seq<u8>, data: Seq<char>, signature: Seq<char>) -> bool {
    match base64_url_decoded(signature) {
        Some(bytes) => ed25519_valid(key, data, bytes),
        None => false,
    }
}

/// Signs `data` with `key` and encodes the signature as text.
pub fn sign(key: &MachineKey, data: &str) -> (res: String)
    ensures
        res@ == signature_text(key@, data@),
{
    let signature = ed25519_sign(key, data);
    base64_encode(&signature)
}

/// Whether `signature` is a valid signature of `data` under `key`; text
/// that does not decode is not. What `sign` made with the same key and data
/// is accepted.
pub fn verify(key: &MachineKey, data: &str, signature: &str) -> (res: bool)
    ensures
        res == signature_accepted(key@, data@, signature@),
        signature@ == signature_text(key@, data@) ==> res,
{
    match base64_decode(signature) {
        Some(bytes) => ed25519_verify(key, data, &bytes),
        None => false,
    }
}

} // verus!
