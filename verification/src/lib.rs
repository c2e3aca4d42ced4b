//! A password-keyed credential store.
//!
//! A master passphrase is stretched into key material, each record is
//! encrypted into a self-contained text token, and the store is an ordered
//! sequence of such tokens, one per line.  The first line is a verification
//! sentinel that gates every other operation.

pub mod cipher;
pub mod codec;
pub mod errors;
pub mod keys;
pub mod outside;
pub mod store;
