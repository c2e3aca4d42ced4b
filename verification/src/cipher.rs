//! The token codec: sealing a byte payload into a self-describing text
//! token, and opening such a token back into its payload.
//!
//! A token is the radix-64 text of `IV(16) || ciphertext`, where the
//! ciphertext is the block-cipher encryption of the payload under the key
//! the passphrase derives.  There is no authentication: opening under a
//! wrong key fails only through invalid padding or invalid text, and a
//! corrupted token may open to garbage.

use vstd::prelude::*;
use vstd::slice::slice_subrange;
use vstd::utf8::{decode_utf8, encode_utf8, encode_utf8_decode_utf8, encode_utf8_valid_utf8,
    valid_utf8};

use crate::errors::StoreError;
use crate::keys::{generate_key, key16};
use crate::outside::{aes_cbc_decrypt, aes_cbc_encrypt, b64_dec_of, b64_decode, b64_encode,
    b64_of, bytes_to_string, cbc_dec_of, cbc_enc_of, random_iv};

verus! {

/// The token that sealing `data` under passphrase `pass` produces when the
/// random draw gives the initialization vector `iv`.
pub open spec fn seal_spec(pass: Seq<char>, iv: Seq<u8>, data: Seq<u8>) -> Seq<char> {
    b64_of(iv + cbc_enc_of(key16(pass), iv, data))
}

/// `token` is a sealing of the plaintext text `t` under `pass`: some
/// 16-byte initialization vector produces exactly this token.  Opening such
/// a token under `pass` is guaranteed to return `t`.
pub open spec fn opens_to(token: Seq<char>, pass: Seq<char>, t: Seq<char>) -> bool {
    &&& pass.len() > 0
    &&& exists|iv: Seq<u8>|
        iv.len() == 16 && token == #[trigger] seal_spec(pass, iv, encode_utf8(t))
}

/// What opening a token under a 16-byte key yields: the payload bytes, or
/// the exact error.  The decoded bytes must hold at least the 16-byte
/// initialization vector; the remainder must decrypt with valid padding.
pub open spec fn open_bytes_spec(key: Seq<u8>, token: Seq<char>) -> Result<Seq<u8>, StoreError> {
    match b64_dec_of(token) {
        None => Err(StoreError::MalformedToken),
        Some(d) => if d.len() < 16 {
            Err(StoreError::MalformedToken)
        } else {
            match cbc_dec_of(key, d.take(16), d.skip(16)) {
                None => Err(StoreError::DecryptionError),
                Some(p) => Ok(p),
            }
        },
    }
}

/// What opening a token under a passphrase yields as text: the payload must
/// additionally be valid UTF-8.
pub open spec fn open_text_spec(pass: Seq<char>, token: Seq<char>) -> Result<
    Seq<char>,
    StoreError,
> {
    if pass.len() == 0 {
        Err(StoreError::KeyDerivationError)
    } else {
        match open_bytes_spec(key16(pass), token) {
            Err(e) => Err(e),
            Ok(b) => if valid_utf8(b) {
                Ok(decode_utf8(b))
            } else {
                Err(StoreError::TextDecodingError)
            },
        }
    }
}

/// The byte payload a result of `open_bytes` stands for.
pub open spec fn bytes_result_view(r: Result<Vec<u8>, StoreError>) -> Result<Seq<u8>, StoreError> {
    match r {
        Ok(v) => Ok(v@),
        Err(e) => Err(e),
    }
}

/// The text a result of `decrypt_data` stands for.
pub open spec fn text_result_view(r: Result<String, StoreError>) -> Result<Seq<char>, StoreError> {
    match r {
        Ok(s) => Ok(s@),
        Err(e) => Err(e),
    }
}

/// Round trip: a token sealed from the text `t` under a non-empty
/// passphrase opens to `t` under that passphrase, whatever initialization
/// vector the sealing drew.
pub proof fn lemma_round_trip(pass: Seq<char>, iv: Seq<u8>, t: Seq<char>)
    requires
        pass.len() > 0,
        iv.len() == 16,
    ensures
        opens_to(seal_spec(pass, iv, encode_utf8(t)), pass, t),
{
    let token = seal_spec(pass, iv, encode_utf8(t));
    assert(iv.len() == 16 && token == seal_spec(pass, iv, encode_utf8(t)));
}

/// Seal a byte payload under a 16-byte key: draw a fresh initialization
/// vector, encrypt, and text-encode `IV || ciphertext`.
pub(crate) fn seal_bytes(key: &Vec<u8>, data: &[u8]) -> (r: String)
    requires
        key@.len() == 16,
    ensures
        exists|iv: Seq<u8>|
            iv.len() == 16 && r@ == b64_of(iv + #[trigger] cbc_enc_of(key@, iv, data@)),
{
    let iv = random_iv();
    let ghost iv0 = iv@;
    let ct = aes_cbc_encrypt(key.as_slice(), iv.as_slice(), data);
    let mut combined = iv;
    let mut tail = ct;
    combined.append(&mut tail);
    let token = b64_encode(combined.as_slice());
    proof {
        assert(combined@ == iv0 + cbc_enc_of(key@, iv0, data@));
        assert(iv0.len() == 16 && token@ == b64_of(iv0 + cbc_enc_of(key@, iv0, data@)));
    }
    token
}

/// Open a token under a 16-byte key: decode the text, split off the
/// initialization vector, decrypt the remainder.  Returns exactly what
/// `open_bytes_spec` says, and in particular recovers the payload of every
/// sealing under the same key.
pub(crate) fn open_bytes(key: &Vec<u8>, token: &str) -> (r: Result<Vec<u8>, StoreError>)
    requires
        key@.len() == 16,
    ensures
        bytes_result_view(r) == open_bytes_spec(key@, token@),
        forall|iv: Seq<u8>, p: Seq<u8>|
            iv.len() == 16 && token@ == b64_of(iv + #[trigger] cbc_enc_of(key@, iv, p)) ==> r
                is Ok && r->Ok_0@ == p,
{
    let decoded = match b64_decode(token) {
        Some(d) => d,
        None => {
            return Err(StoreError::MalformedToken);
        },
    };
    if decoded.len() < 16 {
        proof {
            assert forall|iv: Seq<u8>, p: Seq<u8>|
                iv.len() == 16 && token@ == b64_of(iv + #[trigger] cbc_enc_of(key@, iv, p))
                implies false by {
                assert(b64_dec_of(token@) == Some(iv + cbc_enc_of(key@, iv, p)));
            }
        }
        return Err(StoreError::MalformedToken);
    }
    let iv_part = slice_subrange(decoded.as_slice(), 0, 16);
    let ct_part = slice_subrange(decoded.as_slice(), 16, decoded.len());
    let r = match aes_cbc_decrypt(key.as_slice(), iv_part, ct_part) {
        Some(p) => Ok(p),
        None => Err(StoreError::DecryptionError),
    };
    proof {
        assert forall|iv: Seq<u8>, p: Seq<u8>|
            iv.len() == 16 && token@ == b64_of(iv + #[trigger] cbc_enc_of(key@, iv, p)) implies r
            is Ok && r->Ok_0@ == p by {
            assert(b64_dec_of(token@) == Some(iv + cbc_enc_of(key@, iv, p)));
            assert(decoded@ == iv + cbc_enc_of(key@, iv, p));
            assert(iv_part@ =~= iv);
            assert(ct_part@ =~= cbc_enc_of(key@, iv, p));
            assert(cbc_dec_of(key@, iv_part@, ct_part@) == Some(p));
        }
    }
    r
}

/// Encrypt a byte payload under the key the passphrase derives, producing
/// one single-line token.  Fails only for an empty passphrase; the token of
/// any UTF-8 payload opens back to its text under the same passphrase.
pub fn encrypt_data(data: &[u8], password: &str) -> (r: Result<String, StoreError>)
    ensures
        r is Err <==> password@.len() == 0,
        r is Err ==> r == Err::<String, StoreError>(StoreError::KeyDerivationError),
        r matches Ok(tok) ==> exists|iv: Seq<u8>|
            iv.len() == 16 && tok@ == #[trigger] seal_spec(password@, iv, data@),
        r matches Ok(tok) ==> forall|t: Seq<char>|
            data@ == encode_utf8(t) ==> opens_to(tok@, password@, t),
{
    let key = match generate_key(password, 16) {
        Ok(k) => k,
        Err(e) => {
            return Err(e);
        },
    };
    let token = seal_bytes(&key, data);
    proof {
        let iv = choose|iv: Seq<u8>|
            iv.len() == 16 && token@ == b64_of(iv + #[trigger] cbc_enc_of(key@, iv, data@));
        assert(token@ == seal_spec(password@, iv, data@));
        assert forall|t: Seq<char>| data@ == encode_utf8(t) implies opens_to(
            token@,
            password@,
            t,
        ) by {
            assert(token@ == seal_spec(password@, iv, encode_utf8(t)));
        }
    }
    Ok(token)
}

/// Decrypt a token under the key the passphrase derives, back to the text
/// it sealed.  Returns exactly what `open_text_spec` says; in particular a
/// token that is a sealing of `t` under this passphrase yields `Ok(t)`.
pub fn decrypt_data(token: &str, password: &str) -> (r: Result<String, StoreError>)
    ensures
        text_result_view(r) == open_text_spec(password@, token@),
        forall|t: Seq<char>| opens_to(token@, password@, t) ==> r is Ok && r->Ok_0@ == t,
{
    broadcast use encode_utf8_valid_utf8, encode_utf8_decode_utf8;

    let key = match generate_key(password, 16) {
        Ok(k) => k,
        Err(e) => {
            return Err(e);
        },
    };
    let opened = open_bytes(&key, token);
    proof {
        assert forall|t: Seq<char>| opens_to(token@, password@, t) implies opened is Ok
            && opened->Ok_0@ == encode_utf8(t) by {
            let iv = choose|iv: Seq<u8>|
                iv.len() == 16 && token@ == #[trigger] seal_spec(password@, iv, encode_utf8(t));
            assert(token@ == b64_of(iv + cbc_enc_of(key@, iv, encode_utf8(t))));
        }
    }
    let payload = match opened {
        Ok(p) => p,
        Err(e) => {
            return Err(e);
        },
    };
    match bytes_to_string(payload.as_slice()) {
        Some(s) => {
            proof {
                assert forall|t: Seq<char>| opens_to(token@, password@, t) implies s@ == t by {
                    assert(payload@ == encode_utf8(t));
                }
            }
            Ok(s)
        },
        None => {
            proof {
                assert forall|t: Seq<char>| opens_to(token@, password@, t) implies false by {
                    assert(payload@ == encode_utf8(t));
                    assert(valid_utf8(payload@));
                }
            }
            Err(StoreError::TextDecodingError)
        },
    }
}

} // verus!

