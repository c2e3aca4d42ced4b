//! Key derivation: a passphrase is stretched into key bytes by repeating its
//! raw bytes cyclically until the requested length is reached.  There is no
//! salt, no iteration and no hashing; the same passphrase always yields the
//! same key.  An empty passphrase has no bytes to repeat and is rejected.

use vstd::prelude::*;
use vstd::string::StrSliceExecFns;
use vstd::utf8::encode_utf8;

use crate::errors::StoreError;

verus! {

/// The key bytes derived from the passphrase bytes `pb`: byte `i` of the key
/// is byte `i % pb.len()` of the passphrase.
pub open spec fn key_spec(pb: Seq<u8>, n: nat) -> Seq<u8> {
    Seq::new(n, |i: int| if pb.len() == 0 { 0u8 } else { pb[i % (pb.len() as int)] })
}

/// The 16-byte key a passphrase derives: the cyclic fill of its text encoding.
pub open spec fn key16(pass: Seq<char>) -> Seq<u8> {
    key_spec(encode_utf8(pass), 16)
}

/// A character sequence is empty exactly when its text encoding is empty.
pub proof fn lemma_encode_utf8_empty(s: Seq<char>)
    ensures
        encode_utf8(s).len() == 0 <==> s.len() == 0,
{
    if s.len() > 0 {
        assert(encode_utf8(s) == vstd::utf8::encode_scalar(s[0] as u32) + encode_utf8(
            s.drop_first(),
        ));
        assert(vstd::utf8::encode_scalar(s[0] as u32).len() >= 1);
    }
}

/// Key determinism: the derived key is a function of the passphrase bytes
/// alone, so two derivations from the same passphrase agree byte for byte.
pub proof fn lemma_key_deterministic(pb: Seq<u8>, n: nat, k1: Seq<u8>, k2: Seq<u8>)
    requires
        k1 == key_spec(pb, n),
        k2 == key_spec(pb, n),
    ensures
        k1 == k2,
{
}

/// Key discrimination: two passphrases whose cyclic byte patterns differ
/// somewhere within the key length derive different keys.
pub proof fn lemma_key_discriminates(pb1: Seq<u8>, pb2: Seq<u8>, n: nat, i: int)
    requires
        pb1.len() > 0,
        pb2.len() > 0,
        0 <= i < n,
        pb1[i % (pb1.len() as int)] != pb2[i % (pb2.len() as int)],
    ensures
        key_spec(pb1, n) != key_spec(pb2, n),
{
    assert(key_spec(pb1, n)[i] != key_spec(pb2, n)[i]);
}

/// Derive `key_size` key bytes from the passphrase by cyclic repetition of
/// its bytes.  Rejects an empty passphrase, for which no byte exists to
/// repeat; succeeds on every other input.
pub fn generate_key(password: &str, key_size: usize) -> (r: Result<Vec<u8>, StoreError>)
    ensures
        r is Err <==> password@.len() == 0,
        r is Err ==> r == Err::<Vec<u8>, StoreError>(StoreError::KeyDerivationError),
        r matches Ok(k) ==> k@ == key_spec(encode_utf8(password@), key_size as nat),
{
    let pb = password.as_bytes_vec();
    proof {
        lemma_encode_utf8_empty(password@);
    }
    if pb.len() == 0 {
        return Err(StoreError::KeyDerivationError);
    }
    let mut key: Vec<u8> = Vec::new();
    let mut i: usize = 0;
    while i < key_size
        invariant
            pb@ == encode_utf8(password@),
            pb@.len() > 0,
            i <= key_size,
            key@.len() == i as nat,
            forall|j: int| 0 <= j < i ==> key@[j] == pb@[j % (pb@.len() as int)],
        decreases key_size - i,
    {
        let b = pb[i % pb.len()];
        key.push(b);
        i = i + 1;
    }
    proof {
        assert(key@ =~= key_spec(encode_utf8(password@), key_size as nat));
    }
    Ok(key)
}

} // verus!
