//! The error taxonomy of the store.
//!
//! Every failure an operation can report is one of these variants, so a
//! caller can tell which corrective action applies (re-enter the passphrase,
//! recreate the store, pick a valid index, ...).

use vstd::prelude::*;

verus! {

/// The ways an operation on the credential store can fail.
#[derive(Clone, Copy, Debug, PartialEq, Eq, Structural)]
pub enum StoreError {
    /// The passphrase is empty, so no key can be derived from it.
    KeyDerivationError,
    /// A token is not valid text encoding, or its decoded payload is too
    /// short to contain an initialization vector.
    MalformedToken,
    /// The padding was invalid after decryption; this conflates a wrong key
    /// with corrupted ciphertext.
    DecryptionError,
    /// The decrypted bytes are not valid text.
    TextDecodingError,
    /// A decrypted line does not split into exactly three record fields.
    RecordFormatError,
    /// An edit targeted an index outside the stored records.
    IndexOutOfRange,
    /// A list filter names an unknown field or is missing its value.
    InvalidFilter,
    /// The backing file could not be opened, read or written.
    IoError,
}

impl StoreError {
    /// A short description of the failure, for callers that print it.
    pub fn message(&self) -> &'static str {
        match self {
            StoreError::KeyDerivationError => "the passphrase must not be empty",
            StoreError::MalformedToken => "a stored token is malformed",
            StoreError::DecryptionError => "decryption failed: wrong passphrase or corrupted data",
            StoreError::TextDecodingError => "the decrypted bytes are not valid text",
            StoreError::RecordFormatError => "a stored line is not a three-field record",
            StoreError::IndexOutOfRange => "no record has that index",
            StoreError::InvalidFilter => "a filter needs a known field name and a value",
            StoreError::IoError => "the store file could not be accessed",
        }
    }
}

} // verus!
