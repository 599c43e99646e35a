//! Digests, authenticated encryption and key derivation.

use crate::wire::{be16_bytes, law_be16_round_trip, law_big_endian, number};
use aes_gcm::aead::Aead;
use aes_gcm::KeyInit;
use md5::Md5;
use sha2::{Digest, Sha224, Sha256};
use vstd::prelude::*;
use vstd::utf8::encode_utf8;

verus! {

/// The digest that `sha2::Sha256::digest` computes.
pub uninterp spec fn sha256_of(data: Seq<u8>) -> Seq<u8>;

/// The digest that `sha2::Sha224::digest` computes.
pub uninterp spec fn sha224_of(data: Seq<u8>) -> Seq<u8>;

/// The digest that `md5::Md5::digest` computes.
pub uninterp spec fn md5_of(data: Seq<u8>) -> Seq<u8>;

/// What `Aes128Gcm::encrypt` returns: the ciphertext with its tag.
pub uninterp spec fn aes_gcm_sealed(key: Seq<u8>, nonce: Seq<u8>, plain: Seq<u8>, aad: Seq<u8>) -> Seq<
    u8,
>;

/// What `Aes128Gcm::decrypt` returns: the plaintext, if the tag is right.
pub uninterp spec fn aes_gcm_opened(key: Seq<u8>, nonce: Seq<u8>, sealed: Seq<u8>, aad: Seq<u8>) -> Option<
    Seq<u8>,
>;

/// What `ChaCha20Poly1305::encrypt` returns: the ciphertext with its tag.
pub uninterp spec fn chacha_sealed(key: Seq<u8>, nonce: Seq<u8>, plain: Seq<u8>) -> Seq<u8>;

/// What `ChaCha20Poly1305::decrypt` returns: the plaintext, if the tag is right.
pub uninterp spec fn chacha_opened(key: Seq<u8>, nonce: Seq<u8>, sealed: Seq<u8>) -> Option<Seq<u8>>;

/// Calls `sha2::Sha256::digest`, whose output is always 32 bytes.
#[verifier::external_body]
pub(crate) fn sha256(data: &[u8]) -> (digest: Vec<u8>)
    ensures
        digest@ == sha256_of(data@),
        digest@.len() == 32,
{
    Sha256::digest(data).to_vec()
}

/// Calls `sha2::Sha224::digest`, whose output is always 28 bytes.
#[verifier::external_body]
pub(crate) fn sha224(data: &[u8]) -> (digest: Vec<u8>)
    ensures
        digest@ == sha224_of(data@),
        digest@.len() == 28,
{
    Sha224::digest(data).to_vec()
}

/// Calls `md5::Md5::digest`, whose output is always 16 bytes.
#[verifier::external_body]
pub(crate) fn md5(data: &[u8]) -> (digest: Vec<u8>)
    ensures
        digest@ == md5_of(data@),
        digest@.len() == 16,
{
    Md5::digest(data).to_vec()
}

/// Calls `Aes128Gcm::encrypt`. Messages of up to 64 KiB are always encrypted; the result is 16
/// bytes longer than the message, and opens again to the message.
#[verifier::external_body]
pub(crate) fn aes_gcm_seal(key: &[u8], nonce: &[u8], plain: &[u8], aad: &[u8]) -> (sealed: Option<
    Vec<u8>,
>)
    requires
        key@.len() == 16,
        nonce@.len() == 12,
    ensures
        plain@.len() <= 0x1_0000 && aad@.len() <= 0x1_0000 ==> sealed is Some,
        sealed matches Some(s) ==> s@ == aes_gcm_sealed(key@, nonce@, plain@, aad@) && s@.len()
            == plain@.len() + 16 && aes_gcm_opened(key@, nonce@, s@, aad@) == Some(plain@),
{
    let cipher = aes_gcm::Aes128Gcm::new_from_slice(key).ok()?;
    let payload = aes_gcm::aead::Payload { msg: plain, aad };
    cipher.encrypt(aes_gcm::Nonce::from_slice(nonce), payload).ok()
}

/// Calls `Aes128Gcm::decrypt`. A result is 16 bytes shorter than what was decrypted.
#[verifier::external_body]
pub(crate) fn aes_gcm_open(key: &[u8], nonce: &[u8], sealed: &[u8], aad: &[u8]) -> (plain: Option<
    Vec<u8>,
>)
    requires
        key@.len() == 16,
        nonce@.len() == 12,
    ensures
        match plain {
            Some(p) => aes_gcm_opened(key@, nonce@, sealed@, aad@) == Some(p@) && p@.len() + 16
                == sealed@.len(),
            None => aes_gcm_opened(key@, nonce@, sealed@, aad@) is None,
        },
{
    let cipher = aes_gcm::Aes128Gcm::new_from_slice(key).ok()?;
    let payload = aes_gcm::aead::Payload { msg: sealed, aad };
    cipher.decrypt(aes_gcm::Nonce::from_slice(nonce), payload).ok()
}

/// Calls `ChaCha20Poly1305::encrypt`. Messages of up to 64 KiB are always encrypted; the result
/// is 16 bytes longer than the message, and opens again to the message.
#[verifier::external_body]
pub(crate) fn chacha_seal(key: &[u8], nonce: &[u8], plain: &[u8]) -> (sealed: Option<Vec<u8>>)
    requires
        key@.len() == 32,
        nonce@.len() == 12,
    ensures
        plain@.len() <= 0x1_0000 ==> sealed is Some,
        sealed matches Some(s) ==> s@ == chacha_sealed(key@, nonce@, plain@) && s@.len()
            == plain@.len() + 16 && chacha_opened(key@, nonce@, s@) == Some(plain@),
{
    let cipher = chacha20poly1305::ChaCha20Poly1305::new_from_slice(key).ok()?;
    cipher.encrypt(chacha20poly1305::Nonce::from_slice(nonce), plain).ok()
}

/// Calls `ChaCha20Poly1305::decrypt`. A result is 16 bytes shorter than what was decrypted.
#[verifier::external_body]
pub(crate) fn chacha_open(key: &[u8], nonce: &[u8], sealed: &[u8]) -> (plain: Option<Vec<u8>>)
    requires
        key@.len() == 32,
        nonce@.len() == 12,
    ensures
        match plain {
            Some(p) => chacha_opened(key@, nonce@, sealed@) == Some(p@) && p@.len() + 16
                == sealed@.len(),
            None => chacha_opened(key@, nonce@, sealed@) is None,
        },
{
    let cipher = chacha20poly1305::ChaCha20Poly1305::new_from_slice(key).ok()?;
    cipher.decrypt(chacha20poly1305::Nonce::from_slice(nonce), sealed).ok()
}

/// The text that `hex::encode` returns: two lower-case digits for each byte.
pub open spec fn hex_encoded(data: Seq<u8>) -> Seq<char> {
    Seq::new(
        2 * data.len(),
        |i: int|
            crate::ip::hex_digit(
                if i % 2 == 0 {
                    data[i / 2] as int / 16
                } else {
                    data[i / 2] as int % 16
                },
            ),
    )
}

/// Calls `hex::encode`.
#[verifier::external_body]
pub(crate) fn hex_encode(data: &[u8]) -> (text: String)
    ensures
        text@ == hex_encoded(data@),
{
    hex::encode(data)
}

/// The text of an id: hexadecimal digits in groups of eight, four, four, four and twelve.
pub open spec fn id_text(id: u128) -> Seq<char> {
    let h = hex_encoded(be16_bytes(id as int));
    h.subrange(0, 8) + seq!['-'] + h.subrange(8, 12) + seq!['-'] + h.subrange(12, 16) + seq!['-']
        + h.subrange(16, 20) + seq!['-'] + h.subrange(20, 32)
}

/// The number that `uuid::Uuid::parse_str` reads: the big-endian value of the sixteen bytes.
pub uninterp spec fn uuid_of(text: Seq<char>) -> Option<u128>;

/// Calls `uuid::Uuid::parse_str`. An id is read back from its text with hyphens; which other texts are
/// read is left to the named result.
#[verifier::external_body]
pub(crate) fn parse_uuid(text: &str) -> (id: Option<u128>)
    ensures
        id == uuid_of(text@),
        forall|n: u128| text@ == #[trigger] id_text(n) ==> id == Some(n),
{
    uuid::Uuid::parse_str(text).ok().map(|id| id.as_u128())
}

/// A key in a block of 64 bytes, every byte combined with `mask`.
pub open spec fn masked_block(key: Seq<u8>, mask: u8) -> Seq<u8> {
    Seq::new(
        64,
        |i: int|
            (if i < key.len() {
                key[i]
            } else {
                0u8
            }) ^ mask,
    )
}

fn mask_block(key: &[u8], mask: u8) -> (out: Vec<u8>)
    ensures
        out@ == masked_block(key@, mask),
{
    let mut out: Vec<u8> = Vec::new();
    let mut i: usize = 0;
    while i < 64
        invariant
            i <= 64,
            out@.len() == i,
            forall|k: int| 0 <= k < i ==> out@[k] == masked_block(key@, mask)[k],
        decreases 64 - i,
    {
        let b: u8 = if i < key.len() {
            key[i]
        } else {
            0
        };
        out.push(b ^ mask);
        i += 1;
    }
    assert(out@ =~= masked_block(key@, mask));
    out
}

/// SHA-256 wrapped into one HMAC for each key of the path: the first key's HMAC runs over
/// SHA-256, each further one over the function of the keys before it.
pub open spec fn nested_hmac(path: Seq<Seq<u8>>, message: Seq<u8>) -> Seq<u8>
    decreases path.len(),
{
    if path.len() == 0 {
        sha256_of(message)
    } else {
        let inner = path.drop_last();
        let key = if path.last().len() > 64 {
            nested_hmac(inner, path.last())
        } else {
            path.last()
        };
        nested_hmac(
            inner,
            masked_block(key, 0x5c) + nested_hmac(inner, masked_block(key, 0x36) + message),
        )
    }
}

/// The byte strings of a list.
pub open spec fn byte_lists(v: Seq<Vec<u8>>) -> Seq<Seq<u8>> {
    v.map_values(|b: Vec<u8>| b@)
}

fn nested_hmac_of(path: &Vec<Vec<u8>>, n: usize, message: &[u8]) -> (out: Vec<u8>)
    requires
        n <= path@.len(),
    ensures
        out@ == nested_hmac(byte_lists(path@).take(n as int), message@),
        out@.len() == 32,
    decreases n,
{
    if n == 0 {
        return sha256(message);
    }
    let ghost keys = byte_lists(path@).take(n as int);
    assert(keys.drop_last() =~= byte_lists(path@).take(n - 1));
    assert(keys.last() == path@[n - 1]@);
    let last = path[n - 1].as_slice();
    let key = if last.len() > 64 {
        nested_hmac_of(path, n - 1, last)
    } else {
        crate::wire::copy_range(last, 0, last.len())
    };
    assert(last@.subrange(0, last@.len() as int) =~= last@);
    let mut inner = mask_block(key.as_slice(), 0x36);
    crate::wire::put_slice(&mut inner, message);
    let digest = nested_hmac_of(path, n - 1, inner.as_slice());
    let mut outer = mask_block(key.as_slice(), 0x5c);
    crate::wire::put_slice(&mut outer, digest.as_slice());
    nested_hmac_of(path, n - 1, outer.as_slice())
}

/// The VMess key derivation: nested HMACs over a fixed label and the given path.
pub open spec fn vmess_kdf(key: Seq<u8>, path: Seq<Seq<u8>>) -> Seq<u8> {
    nested_hmac(seq![encode_utf8("VMess AEAD KDF"@)] + path, key)
}

/// Derives 32 bytes from `key` and a path.
pub fn derive_key(key: &[u8], path: Vec<Vec<u8>>) -> (out: Vec<u8>)
    ensures
        out@ == vmess_kdf(key@, byte_lists(path@)),
        out@.len() == 32,
{
    let label = "VMess AEAD KDF".as_bytes();
    let mut full: Vec<Vec<u8>> = Vec::new();
    full.push(crate::wire::copy_range(label, 0, label.len()));
    assert(label@.subrange(0, label@.len() as int) =~= label@);
    let mut rest = path;
    full.append(&mut rest);
    assert(byte_lists(full@).take(full@.len() as int) =~= seq![encode_utf8("VMess AEAD KDF"@)]
        + byte_lists(path@));
    nested_hmac_of(&full, full.len(), key)
}

/// In hexadecimal each byte is its two digits in base sixteen, the higher first, in small
/// letters.
pub proof fn law_hexadecimal(b: u8, data: Seq<u8>, more: Seq<u8>)
    ensures
        hex_encoded(seq![b]) == seq![
            "0123456789abcdef"@[b as int / 16],
            "0123456789abcdef"@[b as int % 16],
        ],
        hex_encoded(data + more) == hex_encoded(data) + hex_encoded(more),
        hex_encoded(Seq::empty()) == Seq::<char>::empty(),
{
    reveal_strlit("0123456789abcdef");
    assert(hex_encoded(seq![b]) =~= seq![
        "0123456789abcdef"@[b as int / 16],
        "0123456789abcdef"@[b as int % 16],
    ]);
    let both = hex_encoded(data) + hex_encoded(more);
    assert forall|i: int| 0 <= i < both.len() implies #[trigger] hex_encoded(data + more)[i]
        == both[i] by {
        if i >= 2 * data.len() {
            let k = i - 2 * data.len();
            assert(i / 2 == data.len() + k / 2);
            assert(i % 2 == k % 2);
        }
    }
    assert(hex_encoded(data + more) =~= both);
    assert(hex_encoded(Seq::empty()) =~= Seq::<char>::empty());
}

/// An identifier is written as the hexadecimal digits of its sixteen bytes, with dashes behind
/// the eighth, the twelfth, the sixteenth and the twentieth digit.
pub proof fn law_form_of_an_identifier(id: u128)
    ensures
        ({
            let t = id_text(id);
            &&& t.len() == 36
            &&& t[8] == '-' && t[13] == '-' && t[18] == '-' && t[23] == '-'
            &&& exists|bytes: Seq<u8>|
                bytes.len() == 16 && number(bytes) == id && #[trigger] hex_encoded(bytes)
                    == t.subrange(0, 8) + t.subrange(9, 13) + t.subrange(14, 18) + t.subrange(
                    19,
                    23,
                ) + t.subrange(24, 36)
        }),
{
    let t = id_text(id);
    let bytes = be16_bytes(id as int);
    law_big_endian(id as int, Seq::empty());
    law_be16_round_trip(id as int, Seq::empty());
    let h = hex_encoded(bytes);
    assert(h.len() == 32);
    assert(t.subrange(0, 8) =~= h.subrange(0, 8));
    assert(t.subrange(9, 13) =~= h.subrange(8, 12));
    assert(t.subrange(14, 18) =~= h.subrange(12, 16));
    assert(t.subrange(19, 23) =~= h.subrange(16, 20));
    assert(t.subrange(24, 36) =~= h.subrange(20, 32));
    assert(h =~= t.subrange(0, 8) + t.subrange(9, 13) + t.subrange(14, 18) + t.subrange(19, 23)
        + t.subrange(24, 36));
}

/// A keyed hash is the hash of the key in one mask before the hash of the key in the other mask
/// before the message. The key fills a block of 64 bytes, with zeros behind it, and a longer key
/// is hashed first. Each further key of the path does so over what the path before it makes of
/// a message.
pub proof fn law_keyed_hash(
    path: Seq<Seq<u8>>,
    key: Seq<u8>,
    message: Seq<u8>,
    outer: Seq<u8>,
    inner: Seq<u8>,
)
    requires
        outer.len() == 64,
        inner.len() == 64,
        forall|i: int|
            0 <= i < 64 ==> #[trigger] outer[i] == 0x5cu8 ^ (if i < key.len() {
                key[i]
            } else {
                0u8
            }),
        forall|i: int|
            0 <= i < 64 ==> #[trigger] inner[i] == 0x36u8 ^ (if i < key.len() {
                key[i]
            } else {
                0u8
            }),
    ensures
        key.len() <= 64 ==> nested_hmac(path.push(key), message) == nested_hmac(
            path,
            outer + nested_hmac(path, inner + message),
        ),
        nested_hmac(path, key).len() <= 64 && key.len() > 64 ==> nested_hmac(
            path.push(key),
            message,
        ) == nested_hmac(path.push(nested_hmac(path, key)), message),
        nested_hmac(Seq::empty(), message) == sha256_of(message),
        vmess_kdf(key, path) == nested_hmac(seq![encode_utf8("VMess AEAD KDF"@)] + path, key),
{
    assert(path.push(key).drop_last() =~= path);
    let hashed = nested_hmac(path, key);
    assert(path.push(hashed).drop_last() =~= path);
    assert forall|a: u8, m: u8| #[trigger] (a ^ m) == m ^ a by {
        assert(a ^ m == m ^ a) by (bit_vector);
    }
    if key.len() <= 64 {
        assert(masked_block(key, 0x5c) =~= outer);
        assert(masked_block(key, 0x36) =~= inner);
    }
}

} // verus!
