//! Hashing, authenticated encryption and hex text, as the account store uses them.
use vstd::prelude::*;
use aes_gcm::aead::{Aead, AeadCore, KeyInit, OsRng};
use sha2::Digest;

verus! {

/// SHA-256 of a byte string.
pub uninterp spec fn spec_sha256(data: Seq<u8>) -> Seq<u8>;

/// AES-256-GCM encryption (no associated data) under `key` with `nonce`.
pub uninterp spec fn spec_aes_gcm_encrypt(key: Seq<u8>, nonce: Seq<u8>, plain: Seq<u8>) -> Seq<u8>;

/// AES-256-GCM decryption (no associated data): the plaintext, or none when
/// the ciphertext is shorter than the tag, too long, or does not authenticate.
pub uninterp spec fn spec_aes_gcm_decrypt(key: Seq<u8>, nonce: Seq<u8>, cipher: Seq<u8>) -> Option<Seq<u8>>;

/// The largest plaintext AES-GCM accepts, in bytes (aes-gcm's `P_MAX`).
pub const AES_GCM_P_MAX: u64 = 0x10_0000_0000;

/// `sha2::Sha256` over the bytes: `new`, `update`, `finalize`.
///
/// Claimed: the digest is a function of the input, 32 bytes long.
#[verifier::external_body]
pub(crate) fn sha256(data: &[u8]) -> (r: Vec<u8>)
    ensures
        r@ == spec_sha256(data@),
        r@.len() == 32,
{
    let mut hasher = sha2::Sha256::new();
    hasher.update(data);
    hasher.finalize().to_vec()
}

/// `Aes256Gcm::generate_nonce(&mut OsRng)`: a random 96-bit nonce.
///
/// Claimed: 12 bytes; nothing of their values.
#[verifier::external_body]
pub(crate) fn random_nonce() -> (r: Vec<u8>)
    ensures
        r@.len() == 12,
{
    aes_gcm::Aes256Gcm::generate_nonce(&mut OsRng).to_vec()
}

/// `Aes256Gcm::encrypt` with the key and nonce given as bytes.
///
/// Claimed, from the source of aes-gcm 0.10: the call fails exactly when the
/// plaintext is longer than `P_MAX`; otherwise the ciphertext is a function
/// of key, nonce and plaintext, and decrypting it with the same key and nonce
/// gives the plaintext back (the AEAD's correctness). The error's text is not
/// claimed.
#[verifier::external_body]
pub(crate) fn aes_gcm_encrypt(key: &[u8], nonce: &[u8], plain: &[u8]) -> (r: Result<Vec<u8>, String>)
    requires
        key@.len() == 32,
        nonce@.len() == 12,
    ensures
        r is Err <==> plain@.len() > AES_GCM_P_MAX,
        r matches Ok(c) ==> c@ == spec_aes_gcm_encrypt(key@, nonce@, plain@) && spec_aes_gcm_decrypt(
            key@,
            nonce@,
            c@,
        ) == Some(plain@),
{
    let cipher = aes_gcm::Aes256Gcm::new(aes_gcm::Key::<aes_gcm::Aes256Gcm>::from_slice(key));
    cipher.encrypt(aes_gcm::Nonce::from_slice(nonce), plain).map_err(|e| e.to_string())
}

/// `Aes256Gcm::decrypt` with the key and nonce given as bytes.
///
/// Claimed: the outcome is a function of key, nonce and ciphertext (it fails
/// on a ciphertext shorter than the tag, too long for AES-GCM, or that does
/// not authenticate). The error's text is not claimed.
#[verifier::external_body]
pub(crate) fn aes_gcm_decrypt(key: &[u8], nonce: &[u8], cipher: &[u8]) -> (r: Result<Vec<u8>, String>)
    requires
        key@.len() == 32,
        nonce@.len() == 12,
    ensures
        match r {
            Ok(p) => spec_aes_gcm_decrypt(key@, nonce@, cipher@) == Some(p@),
            Err(_) => spec_aes_gcm_decrypt(key@, nonce@, cipher@) is None,
        },
{
    let c = aes_gcm::Aes256Gcm::new(aes_gcm::Key::<aes_gcm::Aes256Gcm>::from_slice(key));
    c.decrypt(aes_gcm::Nonce::from_slice(nonce), cipher).map_err(|e| e.to_string())
}

// ---------------------------------------------------------------------------
// hex
// ---------------------------------------------------------------------------

pub open spec fn hex_digit(n: nat) -> char {
    if n < 10 {
        ((n + 48) as u8) as char
    } else {
        ((n + 87) as u8) as char
    }
}

/// Lower-case hex of a byte string, two digits per byte (`hex::encode`).
pub open spec fn hex_encode_spec(b: Seq<u8>) -> Seq<char>
    decreases b.len(),
{
    if b.len() == 0 {
        Seq::empty()
    } else {
        hex_encode_spec(b.drop_last()) + seq![hex_digit((b.last() / 16) as nat), hex_digit((b.last() % 16) as nat)]
    }
}

/// The value of a hex digit of either case.
pub open spec fn hex_value(c: char) -> Option<nat> {
    if '0' <= c && c <= '9' {
        Some((c as u32 - 48) as nat)
    } else if 'a' <= c && c <= 'f' {
        Some((c as u32 - 87) as nat)
    } else if 'A' <= c && c <= 'F' {
        Some((c as u32 - 55) as nat)
    } else {
        None
    }
}

/// The bytes a hex text denotes (`hex::decode`): none for an odd length or
/// a character that is not a hex digit.
pub open spec fn hex_decode_spec(s: Seq<char>) -> Option<Seq<u8>>
    decreases s.len(),
{
    if s.len() == 0 {
        Some(Seq::empty())
    } else if s.len() == 1 {
        None
    } else {
        match (hex_decode_spec(s.subrange(0, s.len() - 2)), hex_value(s[s.len() - 2]), hex_value(s.last())) {
            (Some(b), Some(h), Some(l)) => Some(b.push((h * 16 + l) as u8)),
            _ => None,
        }
    }
}

/// `hex::encode`.
///
/// Claimed, from the source of hex 0.4: two lower-case digits per byte, high nibble first.
#[verifier::external_body]
pub(crate) fn hex_encode(b: &[u8]) -> (s: String)
    ensures
        s@ == hex_encode_spec(b@),
{
    hex::encode(b)
}

/// `hex::decode`.
///
/// Claimed, from the source of hex 0.4: it fails on an odd length or on a
/// character that is not a hex digit of either case, and otherwise gives the
/// bytes, two digits per byte. The error's text is not claimed.
#[verifier::external_body]
pub(crate) fn hex_decode(s: &str) -> (r: Result<Vec<u8>, String>)
    ensures
        match r {
            Ok(b) => hex_decode_spec(s@) == Some(b@),
            Err(_) => hex_decode_spec(s@) is None,
        },
{
    hex::decode(s).map_err(|e| e.to_string())
}

proof fn lemma_hex_digit_value(n: nat)
    requires
        n < 16,
    ensures
        hex_value(hex_digit(n)) == Some(n),
{
}

/// Hex text reads back as the bytes it was written from.
pub proof fn lemma_hex_roundtrip(b: Seq<u8>)
    ensures
        hex_decode_spec(hex_encode_spec(b)) == Some(b),
        hex_encode_spec(b).len() == 2 * b.len(),
    decreases b.len(),
{
    if b.len() > 0 {
        lemma_hex_roundtrip(b.drop_last());
        let s = hex_encode_spec(b);
        let pre = hex_encode_spec(b.drop_last());
        let x = b.last();
        lemma_hex_digit_value((x / 16) as nat);
        lemma_hex_digit_value((x % 16) as nat);
        assert(s.subrange(0, s.len() - 2) == pre);
        assert(s[s.len() - 2] == hex_digit((x / 16) as nat));
        assert(s.last() == hex_digit((x % 16) as nat));
        assert(((x / 16) * 16 + x % 16) as u8 == x);
        assert(b.drop_last().push(x) == b);
    }
}

} // verus!
