//! The trusted boundary of the library.
//!
//! Every call into an outside crate, and the one text-decoding call of std
//! that vstd gives no specification, stands here behind a small wrapper
//! whose contract Verus believes.  Results that are functions of the
//! arguments alone but have no short statement (the block cipher, the
//! radix-64 text encoding) are given opaque names; each wrapper states of
//! its call only what the crate's own source shows.

use block_modes::BlockMode;
use vstd::prelude::*;
use vstd::utf8::{decode_utf8, encode_utf8, valid_utf8};

verus! {

/// The radix-64 text encoding of a byte sequence, as `base64::encode`
/// produces it: the standard alphabet, with padding, without line breaks.
pub uninterp spec fn b64_of(data: Seq<u8>) -> Seq<char>;

/// What `base64::decode` returns for a text: the decoded bytes, or `None`
/// where the text is not valid radix-64.
pub uninterp spec fn b64_dec_of(text: Seq<char>) -> Option<Seq<u8>>;

/// The 128-bit-block cipher-block-chaining encryption of `data` under `key`
/// and `iv`, padded byte-oriented to the block size, as `encrypt_vec`
/// computes it.
pub uninterp spec fn cbc_enc_of(key: Seq<u8>, iv: Seq<u8>, data: Seq<u8>) -> Seq<u8>;

/// What `decrypt_vec` returns for a ciphertext under `key` and `iv`: the
/// unpadded plaintext, or `None` where the length or the padding after
/// decryption is invalid.
pub uninterp spec fn cbc_dec_of(key: Seq<u8>, iv: Seq<u8>, ct: Seq<u8>) -> Option<Seq<u8>>;

/// The outcome `r` of a decryption under `key` and `iv` recovers the
/// payload of every encryption made under the same `key` and `iv`.
pub open spec fn cbc_inverts(key: Seq<u8>, iv: Seq<u8>, ct: Seq<u8>, r: Option<Vec<u8>>) -> bool {
    forall|p: Seq<u8>| ct == #[trigger] cbc_enc_of(key, iv, p) ==> (r matches Some(q) && q@ == p)
}

/// The outcome `r` of decoding `text` recovers the bytes of every encoding
/// that produced `text`.
pub open spec fn b64_inverts(text: Seq<char>, r: Option<Vec<u8>>) -> bool {
    forall|d: Seq<u8>| text == #[trigger] b64_of(d) ==> (r matches Some(q) && q@ == d)
}

/// Relies on `rand::thread_rng` and `Rng::fill`: fills 16 bytes with random
/// data.  Nothing is promised of the bytes beyond their count: to the
/// verifier two calls may differ.
#[verifier::external_body]
pub(crate) fn random_iv() -> (r: Vec<u8>)
    ensures
        r@.len() == 16,
{
    let mut iv = [0u8; 16];
    rand::Rng::fill(&mut rand::thread_rng(), &mut iv);
    iv.to_vec()
}

/// Relies on `block_modes::BlockMode::encrypt_vec` for `Cbc<Aes128, Pkcs7>`:
/// the result is a function of key, initialization vector and plaintext
/// alone, and the byte-oriented padding always extends the plaintext to the
/// next multiple of the 16-byte block.
#[verifier::external_body]
pub(crate) fn aes_cbc_encrypt(key: &[u8], iv: &[u8], data: &[u8]) -> (r: Vec<u8>)
    requires
        key@.len() == 16,
        iv@.len() == 16,
    ensures
        r@ == cbc_enc_of(key@, iv@, data@),
        r@.len() == ((data@.len() / 16) + 1) * 16,
{
    let cipher = block_modes::Cbc::<aes::Aes128, block_padding::Pkcs7>::new_from_slices(key, iv)
        .expect("key and iv are 16 bytes");
    cipher.encrypt_vec(data)
}

/// Relies on `block_modes::BlockMode::decrypt_vec` for `Cbc<Aes128, Pkcs7>`:
/// the result is a function of key, initialization vector and ciphertext
/// alone, it fails exactly where the ciphertext length or the padding after
/// decryption is invalid, and it inverts `encrypt_vec` under the same key
/// and initialization vector.
#[verifier::external_body]
pub(crate) fn aes_cbc_decrypt(key: &[u8], iv: &[u8], ct: &[u8]) -> (r: Option<Vec<u8>>)
    requires
        key@.len() == 16,
        iv@.len() == 16,
    ensures
        r is Some <==> cbc_dec_of(key@, iv@, ct@) is Some,
        r matches Some(p) ==> Some(p@) == cbc_dec_of(key@, iv@, ct@),
        cbc_inverts(key@, iv@, ct@, r),
{
    let cipher = block_modes::Cbc::<aes::Aes128, block_padding::Pkcs7>::new_from_slices(key, iv)
        .expect("key and iv are 16 bytes");
    match cipher.decrypt_vec(ct) {
        Ok(p) => Some(p),
        Err(_) => None,
    }
}

/// Relies on `base64::encode`: the text is a function of the bytes alone.
#[verifier::external_body]
pub(crate) fn b64_encode(data: &[u8]) -> (r: String)
    ensures
        r@ == b64_of(data@),
{
    base64::encode(data)
}

/// Relies on `base64::decode`: the outcome is a function of the text alone,
/// and a text that `base64::encode` produced decodes back to the encoded
/// bytes.
#[verifier::external_body]
pub(crate) fn b64_decode(text: &str) -> (r: Option<Vec<u8>>)
    ensures
        r is Some <==> b64_dec_of(text@) is Some,
        r matches Some(d) ==> Some(d@) == b64_dec_of(text@),
        b64_inverts(text@, r),
{
    match base64::decode(text) {
        Ok(d) => Some(d),
        Err(_) => None,
    }
}

/// Relies on `str::from_utf8` of std: it succeeds exactly on valid UTF-8
/// and returns the text those bytes encode.
#[verifier::external_body]
pub(crate) fn bytes_to_string(b: &[u8]) -> (r: Option<String>)
    ensures
        r is Some <==> valid_utf8(b@),
        r matches Some(s) ==> s@ == decode_utf8(b@) && encode_utf8(s@) == b@,
{
    match std::str::from_utf8(b) {
        Ok(s) => Some(s.to_string()),
        Err(_) => None,
    }
}

} // verus!
