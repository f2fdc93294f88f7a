//! Versioned document envelopes: records wrapped by interchangeable
//! providers, with signing and security attestation over a canonical form.

pub mod error;
pub mod value;
pub mod order;
pub mod record;
pub mod canonical;
pub mod names;
pub mod codec;
pub mod crypto;
pub mod clock;
pub mod envelope;
pub mod metadata;
pub mod providers;
pub mod signing;
pub mod encryption;
pub mod laws;
