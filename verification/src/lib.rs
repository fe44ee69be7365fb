use vstd::prelude::*;

pub mod otp;
pub mod store;

verus! {

/// A failure of a key-store or code-generation operation.
#[derive(Clone, Copy, Debug, PartialEq, Eq, Structural)]
pub enum Error {
    /// The stored secret is not valid unpadded lowercase base32.
    InvalidSecretEncoding,
    /// The store file does not hold a JSON object of strings.
    StoreCorrupted,
    /// The named service has no registration.
    ServiceNotFound,
    /// The named service is already registered.
    ServiceAlreadyExists,
}

} // verus!
