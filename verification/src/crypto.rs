//! The cryptographic primitives, taken from the `dryoc` crate.
//!
//! None of the algorithms is modelled. What each deterministic primitive
//! returns is named and left uninterpreted, so that the envelopes can say
//! exactly which bytes they hand to which primitive. Keys, nonces, tags and
//! signatures are plain byte arrays of the primitive's fixed lengths.

use vstd::prelude::*;
use dryoc::auth::Auth;
use dryoc::dryocbox::DryocBox;
use dryoc::dryocsecretbox::DryocSecretBox;
use dryoc::keypair::KeyPair;
use dryoc::pwhash::{Config, PwHash};
use dryoc::sign::{SignedMessage, SigningKeyPair};
use dryoc::types::NewByteArray;

verus! {

/// Work limit of the key-derivation function at interactive cost.
pub const INTERACTIVE_OPSLIMIT: u64 = 2;

/// Memory limit of the key-derivation function at interactive cost.
pub const INTERACTIVE_MEMLIMIT: usize = 67108864;

/// Work limit of the key-derivation function at sensitive cost.
pub const SENSITIVE_OPSLIMIT: u64 = 4;

/// Memory limit of the key-derivation function at sensitive cost.
pub const SENSITIVE_MEMLIMIT: usize = 1073741824;

/// The tag that `Auth::compute` gives for a message under a key.
pub uninterp spec fn mac_tag(key: Seq<u8>, message: Seq<u8>) -> Seq<u8>;

/// The public and the secret key of the pair that
/// `SigningKeyPair::from_secret_key` derives from a secret key.
pub uninterp spec fn signing_keypair(secret: Seq<u8>) -> (Seq<u8>, Seq<u8>);

/// The signature that `SigningKeyPair::sign` gives for a message under the
/// pair's secret key.
pub uninterp spec fn signature_of(secret: Seq<u8>, message: Seq<u8>) -> Seq<u8>;

/// Whether `SignedMessage::verify` accepts a signature for a message under a
/// public key.
pub uninterp spec fn signature_valid(public: Seq<u8>, message: Seq<u8>, signature: Seq<u8>) -> bool;

/// The tag and the ciphertext that `DryocSecretBox::encrypt` gives, or
/// `None` where it refuses the message.
pub uninterp spec fn sealed(key: Seq<u8>, nonce: Seq<u8>, message: Seq<u8>) -> Option<
    (Seq<u8>, Seq<u8>),
>;

/// The message that `DryocSecretBox::decrypt` gives for a tag and a
/// ciphertext, or `None` where they do not authenticate.
pub uninterp spec fn opened(key: Seq<u8>, nonce: Seq<u8>, mac: Seq<u8>, ciphertext: Seq<u8>) -> Option<
    Seq<u8>,
>;

/// Whether `DryocBox::seal` refuses to seal a message for a recipient.
pub uninterp spec fn seal_refused(recipient: Seq<u8>, message: Seq<u8>) -> bool;

/// The public key that `KeyPair::from_secret_key` derives.
pub uninterp spec fn box_public_key(secret: Seq<u8>) -> Seq<u8>;

/// The message that `DryocBox::open` gives to the holder of a key pair for a
/// sealed box, or `None` where the box does not authenticate.
pub uninterp spec fn box_opened(
    public: Seq<u8>,
    secret: Seq<u8>,
    ephemeral: Seq<u8>,
    mac: Seq<u8>,
    ciphertext: Seq<u8>,
) -> Option<Seq<u8>>;

/// The secret key of the pair that `PwHash::derive_keypair` derives from a
/// password and a salt at the given cost, or `None` where it refuses them.
pub uninterp spec fn password_key(
    password: Seq<u8>,
    salt: Seq<u8>,
    opslimit: u64,
    memlimit: usize,
) -> Option<Seq<u8>>;

/// `Auth::compute`: the HMAC-SHA512-256 tag of `message` under `key`.
#[verifier::external_body]
pub(crate) fn authenticate(key: &[u8; 32], message: &[u8]) -> (tag: [u8; 32])
    ensures
        tag@ == mac_tag(key@, message@),
{
    Auth::compute::<[u8; 32], _, _>(key, message)
}

/// `Auth::compute_and_verify`: computes the tag of `message` under `key` as
/// `Auth::compute` does and compares it with `tag` in constant time.
#[verifier::external_body]
pub(crate) fn authenticate_verify(tag: &[u8; 32], key: &[u8; 32], message: &[u8]) -> (ok: bool)
    ensures
        ok == (tag@ == mac_tag(key@, message@)),
{
    Auth::compute_and_verify(tag, key, message).is_ok()
}

/// `SigningKeyPair::from_secret_key`: the Ed25519 pair that belongs to the
/// seed in the first half of `secret`.
#[verifier::external_body]
pub(crate) fn signing_pair(secret: &[u8; 64]) -> (pair: ([u8; 32], [u8; 64]))
    ensures
        (pair.0@, pair.1@) == signing_keypair(secret@),
{
    let pair = SigningKeyPair::<[u8; 32], [u8; 64]>::from_secret_key(*secret);
    (pair.public_key, pair.secret_key)
}

/// `SigningKeyPair::sign`: the detached Ed25519 signature of `message`. It
/// is computed from the pair's secret key and the message alone.
#[verifier::external_body]
pub(crate) fn sign_message(public: &[u8; 32], secret: &[u8; 64], message: &[u8]) -> (signature: [u8; 64])
    ensures
        signature@ == signature_of(secret@, message@),
{
    let pair = SigningKeyPair::<[u8; 32], [u8; 64]> { public_key: *public, secret_key: *secret };
    pair.sign::<[u8; 64], Vec<u8>>(message.to_vec()).into_parts().0
}

/// `SignedMessage::verify`: whether `signature` is accepted for `message`
/// under `public`.
#[verifier::external_body]
pub(crate) fn verify_message(public: &[u8; 32], message: &[u8], signature: &[u8; 64]) -> (ok: bool)
    ensures
        ok == signature_valid(public@, message@, signature@),
{
    SignedMessage::<[u8; 64], Vec<u8>>::from_parts(*signature, message.to_vec()).verify(public).is_ok()
}

/// `DryocSecretBox::encrypt`: the XSalsa20-Poly1305 box of `message`. What
/// it gives, `DryocSecretBox::decrypt` opens again to the same message.
#[verifier::external_body]
pub(crate) fn secretbox_seal(key: &[u8; 32], nonce: &[u8; 24], message: &[u8]) -> (out: Option<
    ([u8; 16], Vec<u8>),
>)
    ensures
        match out {
            Some(parts) => sealed(key@, nonce@, message@) == Some((parts.0@, parts.1@)) && opened(
                key@,
                nonce@,
                parts.0@,
                parts.1@,
            ) == Some(message@),
            None => sealed(key@, nonce@, message@) is None,
        },
{
    DryocSecretBox::<[u8; 16], Vec<u8>>::encrypt(message, nonce, key).ok().map(|b| b.into_parts())
}

/// `DryocSecretBox::decrypt`: the message of a box, where the tag
/// authenticates the ciphertext under the key and the nonce. The box opens
/// where `mac` equals the tag that the primitive computes from key, nonce
/// and ciphertext; so where it opens, it opens with no other tag.
#[verifier::external_body]
pub(crate) fn secretbox_open(key: &[u8; 32], nonce: &[u8; 24], mac: &[u8; 16], ciphertext: &[u8]) -> (out:
    Option<Vec<u8>>)
    ensures
        match out {
            Some(message) => opened(key@, nonce@, mac@, ciphertext@) == Some(message@)
                && forall|other: Seq<u8>|
                other.len() == 16 && other != mac@ ==> #[trigger] opened(
                    key@,
                    nonce@,
                    other,
                    ciphertext@,
                ) is None,
            None => opened(key@, nonce@, mac@, ciphertext@) is None,
        },
{
    DryocSecretBox::<[u8; 16], Vec<u8>>::from_parts(*mac, ciphertext.to_vec()).decrypt::<Vec<u8>, _, _>(
        nonce,
        key,
    ).ok()
}

/// `DryocBox::seal`: a sealed box for `recipient`, as its ephemeral public
/// key, its tag and its ciphertext. The ephemeral key is drawn at random,
/// so the parts are not named. Two things hold of every draw. Whether the
/// call refuses is a matter of its arguments alone: it refuses a message
/// that is too long and a recipient key of low order. And what it gives,
/// `DryocBox::open` opens again to the same message for every secret key
/// whose public key is `recipient`. Panics if the system has no randomness
/// to give.
#[verifier::external_body]
pub(crate) fn box_seal(recipient: &[u8; 32], message: &[u8]) -> (out: Option<([u8; 32], [u8; 16], Vec<u8>)>)
    ensures
        match out {
            Some(parts) => !seal_refused(recipient@, message@) && forall|secret: Seq<u8>|
                secret.len() == 32 && #[trigger] box_public_key(secret) == recipient@
                    ==> box_opened(recipient@, secret, parts.0@, parts.1@, parts.2@) == Some(
                    message@,
                ),
            None => seal_refused(recipient@, message@),
        },
{
    let sealed = DryocBox::<[u8; 32], [u8; 16], Vec<u8>>::seal(message, recipient).ok()?;
    let (ephemeral, mac, data) = sealed.into_parts();
    Some((ephemeral?, mac, data))
}

/// `KeyPair::from_secret_key`: the public key that belongs to `secret`.
#[verifier::external_body]
pub(crate) fn box_pair(secret: &[u8; 32]) -> (public: [u8; 32])
    ensures
        public@ == box_public_key(secret@),
{
    KeyPair::<[u8; 32], [u8; 32]>::from_secret_key(*secret).public_key
}

/// `DryocBox::open`: the message of a sealed box, where it authenticates
/// for the key pair. The box opens where `mac` equals the tag that the
/// primitive computes from the keys and the ciphertext; so where it opens,
/// it opens with no other tag.
#[verifier::external_body]
pub(crate) fn box_open(
    public: &[u8; 32],
    secret: &[u8; 32],
    ephemeral: &[u8; 32],
    mac: &[u8; 16],
    ciphertext: &[u8],
) -> (out: Option<Vec<u8>>)
    ensures
        match out {
            Some(message) => box_opened(public@, secret@, ephemeral@, mac@, ciphertext@) == Some(
                message@,
            ) && forall|other: Seq<u8>|
                other.len() == 16 && other != mac@ ==> #[trigger] box_opened(
                    public@,
                    secret@,
                    ephemeral@,
                    other,
                    ciphertext@,
                ) is None,
            None => box_opened(public@, secret@, ephemeral@, mac@, ciphertext@) is None,
        },
{
    let pair = KeyPair::<[u8; 32], [u8; 32]> { public_key: *public, secret_key: *secret };
    let data = ciphertext.to_vec();
    let sealed = DryocBox::<[u8; 32], [u8; 16], Vec<u8>>::from_parts(Some(*ephemeral), *mac, data);
    sealed.open::<Vec<u8>, _, _>(&pair).ok()
}

/// `PwHash::derive_keypair` with Argon2id at the given work and memory
/// limits: the secret key of the derived pair. The derivation also gives
/// no key where the machine cannot lend it the memory that `memlimit`
/// asks for; that is left aside here as any other want of memory is.
#[verifier::external_body]
pub(crate) fn derive_key(password: &[u8], salt: &[u8], opslimit: u64, memlimit: usize) -> (out: Option<
    [u8; 32],
>)
    ensures
        match out {
            Some(key) => password_key(password@, salt@, opslimit, memlimit) == Some(key@),
            None => password_key(password@, salt@, opslimit, memlimit) is None,
        },
{
    let config = Config::interactive().with_opslimit(opslimit).with_memlimit(memlimit);
    let pair = PwHash::<Vec<u8>, Vec<u8>>::derive_keypair::<[u8; 32], [u8; 32], Vec<u8>>(
        &password.to_vec(),
        salt.to_vec(),
        config,
    );
    pair.ok().map(|pair| pair.secret_key)
}

/// `NewByteArray::generate`: a nonce drawn at random. Panics if the system
/// has no randomness to give.
#[verifier::external_body]
pub(crate) fn fresh_nonce() -> (nonce: [u8; 24]) {
    <[u8; 24]>::generate()
}

/// Copies a vector of the right length into an array.
pub fn to_array<const N: usize>(bytes: &Vec<u8>) -> (out: Option<[u8; N]>)
    ensures
        match out {
            Some(array) => array@ == bytes@,
            None => bytes@.len() != N,
        },
{
    if bytes.len() != N {
        return None;
    }
    let mut array = [0u8; N];
    let mut i: usize = 0;
    while i < N
        invariant
            0 <= i <= N,
            bytes@.len() == N,
            forall|j: int| 0 <= j < i ==> array@[j] == bytes@[j],
        decreases N - i,
    {
        array[i] = bytes[i];
        i += 1;
    }
    assert(array@ =~= bytes@);
    Some(array)
}

/// Copies an array into a vector.
pub fn to_vec<const N: usize>(array: &[u8; N]) -> (out: Vec<u8>)
    ensures
        out@ == array@,
{
    let mut out: Vec<u8> = Vec::new();
    let mut i: usize = 0;
    while i < N
        invariant
            0 <= i <= N,
            out@.len() == i,
            forall|j: int| 0 <= j < i ==> out@[j] == array@[j],
        decreases N - i,
    {
        out.push(array[i]);
        i += 1;
    }
    assert(out@ =~= array@);
    out
}

} // verus!
