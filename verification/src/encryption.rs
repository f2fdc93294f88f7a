//! Providers that keep a record confidential.

use vstd::prelude::*;
use crate::codec::{decoded, encoding};
use crate::error::Error;
use crate::providers::Provider;
use crate::record::Record;
use crate::value::Fields;

verus! {

/// What opening a box yields: the record read from the plaintext. A box
/// that does not authenticate has no plaintext, and no part of one is ever
/// handed out.
pub open spec fn unboxed(plain: Option<Seq<u8>>) -> Result<Fields, Error> {
    match plain {
        None => Err(Error::AuthenticationFailure),
        Some(bytes) => match decoded(bytes) {
            Some(fields) => Ok(fields),
            None => Err(Error::MalformedRecord),
        },
    }
}

/// A provider that encrypts to a public key: anyone can seal a record for
/// the holder of the secret key, and nothing tells who did.
pub trait EncryptionWaiter: Provider {
    /// What the holder of `secret` finds in the box.
    spec fn opened_with(&self, secret: Seq<u8>) -> Result<Fields, Error>;

    /// Seals `entry` for the holder of the secret key that belongs to
    /// `key`. Fails with `MalformedRecord` exactly where the codec refuses
    /// the record, and with `MalformedKey` where the record has bytes and
    /// the primitive refuses to seal them for `key`.
    fn encrypt(entry: Record, key: [u8; 32]) -> (r: Result<Self, Error>)
        ensures
            match r {
                Ok(_) => encoding(entry@) is Some,
                Err(e) => if encoding(entry@) is None {
                    e == Error::MalformedRecord
                } else {
                    e == Error::MalformedKey
                },
            },
    ;

    /// Opens the box with the secret key and hands back the record in it.
    fn decrypt(self, key: [u8; 32]) -> (r: Result<Record, Error>)
        ensures
            match r {
                Ok(record) => self.opened_with(key@) == Ok::<Fields, Error>(record@),
                Err(e) => self.opened_with(key@) == Err::<Fields, Error>(e),
            },
    ;
}

/// A provider that encrypts under a key that both sides hold.
pub trait EncryptionWaiterSymmetric: Provider {
    /// What the holder of `key` finds in the box.
    spec fn sym_opened(&self, key: Seq<u8>) -> Result<Fields, Error>;

    /// Encrypts `entry` under `key` with a fresh nonce. Fails with
    /// `MalformedRecord` where the codec refuses the record or it is too
    /// long to encrypt. The box opens under the same key to what the codec
    /// reads back from the bytes that it wrote.
    fn encrypt_sym(entry: Record, key: [u8; 32]) -> (r: Result<Self, Error>)
        ensures
            match r {
                Ok(sealed) => encoding(entry@) is Some && sealed.sym_opened(key@) == unboxed(
                    encoding(entry@),
                ),
                Err(e) => e == Error::MalformedRecord,
            },
            encoding(entry@) is None ==> r is Err,
    ;

    /// Opens the box with `key` and hands back the record in it. Fails
    /// with `AuthenticationFailure` where the box does not authenticate
    /// under the key, whatever the reason. No part of a plaintext is handed
    /// out for a box that does not authenticate.
    fn decrypt_sym(self, key: [u8; 32]) -> (r: Result<Record, Error>)
        ensures
            match r {
                Ok(record) => self.sym_opened(key@) == Ok::<Fields, Error>(record@),
                Err(e) => self.sym_opened(key@) == Err::<Fields, Error>(e),
            },
    ;
}

/// A provider that derives a key from data and what it stores itself.
pub trait KeyFrom: Provider {
    /// The key that `data` gives, or `None` where it gives none.
    spec fn derived(&self, data: Seq<u8>) -> Option<Seq<u8>>;

    /// Derives the key. Fails with `MalformedKey` where the derivation
    /// refuses its input.
    fn key_from(&self, data: Vec<u8>) -> (r: Result<[u8; 32], Error>)
        ensures
            match r {
                Ok(key) => self.derived(data@) == Some(key@),
                Err(e) => e == Error::MalformedKey && self.derived(data@) is None,
            },
    ;
}

} // verus!
