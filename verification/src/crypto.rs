//! Cryptographic primitives of the STREAM transport: HMAC-SHA256, SHA-256,
//! AES-256-GCM and random tokens, wrapped around `ring` behind exact
//! contracts, plus the key, fulfillment and condition derivations.

use vstd::prelude::*;

use crate::ParseError;

verus! {

/// What `ring::hmac::sign` with HMAC-SHA256 returns: a function of the key
/// and the message alone.
pub uninterp spec fn hmac_sha256_of(key: Seq<u8>, data: Seq<u8>) -> Seq<u8>;

/// What `ring::digest::digest` with SHA-256 returns: a function of the
/// message alone.
pub uninterp spec fn sha256_of(data: Seq<u8>) -> Seq<u8>;

/// What `ring::aead::LessSafeKey::open_in_place` with AES-256-GCM returns for
/// a key, a nonce and a ciphertext-with-trailing-tag: a function of those
/// three alone.
pub uninterp spec fn gcm_open_of(key: Seq<u8>, iv: Seq<u8>, ct_and_tag: Seq<u8>) -> Option<Seq<u8>>;

/// Relies on ring's `hmac::Key::new` and `hmac::sign` with `HMAC_SHA256`: the
/// tag is a deterministic 32-byte function of key and message.
#[verifier::external_body]
pub(crate) fn hmac_sha256(key: &[u8], data: &[u8]) -> (r: [u8; 32])
    ensures
        r@ == hmac_sha256_of(key@, data@),
{
    let k = ring::hmac::Key::new(ring::hmac::HMAC_SHA256, key);
    let tag = ring::hmac::sign(&k, data);
    let mut out = [0u8; 32];
    out.copy_from_slice(tag.as_ref());
    out
}

/// Relies on ring's `digest::digest` with `SHA256`: the digest is a
/// deterministic 32-byte function of the message.
#[verifier::external_body]
fn sha256(data: &[u8]) -> (r: [u8; 32])
    ensures
        r@ == sha256_of(data@),
{
    let d = ring::digest::digest(&ring::digest::SHA256, data);
    let mut out = [0u8; 32];
    out.copy_from_slice(d.as_ref());
    out
}

/// Relies on ring's `rand::SystemRandom::fill`: cryptographically random
/// bytes, of which nothing further can be promised.
#[verifier::external_body]
fn random_bytes<const N: usize>() -> [u8; N] {
    let rng = ring::rand::SystemRandom::new();
    let mut out = [0u8; N];
    ring::rand::SecureRandom::fill(&rng, &mut out).expect("system randomness unavailable");
    out
}

/// Relies on ring's `LessSafeKey::seal_in_place_separate_tag` with
/// `AES_256_GCM`: sealing encrypts `data` in place without changing its
/// length, and `open_in_place` on the ciphertext with the tag appended, under
/// the same key and nonce, gives back the plaintext. Ring refuses inputs
/// beyond AES-GCM's per-nonce bound of ((2^39 - 256) / 8) bytes, so inputs up
/// to that bound are required here.
#[verifier::external_body]
fn gcm_seal(key: &[u8; 32], iv: &[u8; 12], data: &mut Vec<u8>) -> (tag: [u8; 16])
    requires
        old(data)@.len() <= 68_719_476_704,
    ensures
        final(data)@.len() == old(data)@.len(),
        gcm_open_of(key@, iv@, final(data)@ + tag@) == Some(old(data)@),
{
    let unbound = ring::aead::UnboundKey::new(&ring::aead::AES_256_GCM, key)
        .expect("AES-256-GCM key length is fixed at 32 bytes");
    let sealing = ring::aead::LessSafeKey::new(unbound);
    let nonce = ring::aead::Nonce::assume_unique_for_key(*iv);
    let tag = sealing
        .seal_in_place_separate_tag(nonce, ring::aead::Aad::empty(), data.as_mut_slice())
        .expect("sealing cannot fail for in-bounds plaintext");
    let mut out = [0u8; 16];
    out.copy_from_slice(tag.as_ref());
    out
}

/// Relies on ring's `LessSafeKey::open_in_place` with `AES_256_GCM`: opening
/// authenticates the 16-byte tag at the end of `ct_and_tag` and returns the
/// rest decrypted, exactly when key, nonce, ciphertext and tag belong
/// together.
#[verifier::external_body]
fn gcm_open(key: &[u8; 32], iv: &[u8; 12], ct_and_tag: &Vec<u8>) -> (r: Option<Vec<u8>>)
    ensures
        match r {
            Some(p) => gcm_open_of(key@, iv@, ct_and_tag@) == Some(p@) && p@.len() + 16
                == ct_and_tag@.len(),
            None => gcm_open_of(key@, iv@, ct_and_tag@) is None,
        },
{
    let unbound = ring::aead::UnboundKey::new(&ring::aead::AES_256_GCM, key)
        .expect("AES-256-GCM key length is fixed at 32 bytes");
    let opening = ring::aead::LessSafeKey::new(unbound);
    let nonce = ring::aead::Nonce::assume_unique_for_key(*iv);
    let mut buf = ct_and_tag.clone();
    match opening.open_in_place(nonce, ring::aead::Aad::empty(), buf.as_mut_slice()) {
        Ok(plaintext) => Some(plaintext.to_vec()),
        Err(_) => None,
    }
}

/// The bytes of the key-derivation context string `"ilp_stream_encryption"`.
pub open spec fn encryption_string() -> Seq<u8> {
    seq![
        0x69u8, 0x6c, 0x70, 0x5f, 0x73, 0x74, 0x72, 0x65, 0x61, 0x6d, 0x5f, 0x65, 0x6e, 0x63,
        0x72, 0x79, 0x70, 0x74, 0x69, 0x6f, 0x6e,
    ]
}

/// The bytes of the key-derivation context string `"ilp_stream_fulfillment"`.
pub open spec fn fulfillment_string() -> Seq<u8> {
    seq![
        0x69u8, 0x6c, 0x70, 0x5f, 0x73, 0x74, 0x72, 0x65, 0x61, 0x6d, 0x5f, 0x66, 0x75, 0x6c,
        0x66, 0x69, 0x6c, 0x6c, 0x6d, 0x65, 0x6e, 0x74,
    ]
}

/// The bytes of the context string `"ilp_stream_secret_generator"`.
pub open spec fn secret_generator_string() -> Seq<u8> {
    seq![
        0x69u8, 0x6c, 0x70, 0x5f, 0x73, 0x74, 0x72, 0x65, 0x61, 0x6d, 0x5f, 0x73, 0x65, 0x63,
        0x72, 0x65, 0x74, 0x5f, 0x67, 0x65, 0x6e, 0x65, 0x72, 0x61, 0x74, 0x6f, 0x72,
    ]
}

/// Builds `"ilp_stream_encryption"` as bytes.
fn encryption_string_bytes() -> (r: Vec<u8>)
    ensures
        r@ == encryption_string(),
{
    let v: Vec<u8> = vec![
        0x69u8, 0x6c, 0x70, 0x5f, 0x73, 0x74, 0x72, 0x65, 0x61, 0x6d, 0x5f, 0x65, 0x6e, 0x63,
        0x72, 0x79, 0x70, 0x74, 0x69, 0x6f, 0x6e,
    ];
    proof {
        assert(v@ =~= encryption_string());
    }
    v
}

/// Builds `"ilp_stream_fulfillment"` as bytes.
fn fulfillment_string_bytes() -> (r: Vec<u8>)
    ensures
        r@ == fulfillment_string(),
{
    let v: Vec<u8> = vec![
        0x69u8, 0x6c, 0x70, 0x5f, 0x73, 0x74, 0x72, 0x65, 0x61, 0x6d, 0x5f, 0x66, 0x75, 0x6c,
        0x66, 0x69, 0x6c, 0x6c, 0x6d, 0x65, 0x6e, 0x74,
    ];
    proof {
        assert(v@ =~= fulfillment_string());
    }
    v
}

/// Builds `"ilp_stream_secret_generator"` as bytes.
pub(crate) fn secret_generator_string_bytes() -> (r: Vec<u8>)
    ensures
        r@ == secret_generator_string(),
{
    let v: Vec<u8> = vec![
        0x69u8, 0x6c, 0x70, 0x5f, 0x73, 0x74, 0x72, 0x65, 0x61, 0x6d, 0x5f, 0x73, 0x65, 0x63,
        0x72, 0x65, 0x74, 0x5f, 0x67, 0x65, 0x6e, 0x65, 0x72, 0x61, 0x74, 0x6f, 0x72,
    ];
    proof {
        assert(v@ =~= secret_generator_string());
    }
    v
}

/// SHA-256, as the library's public primitive.
pub fn hash_sha256(data: &[u8]) -> (r: [u8; 32])
    ensures
        r@ == sha256_of(data@),
{
    sha256(data)
}

/// A fresh random 18-byte connection token.
pub fn generate_token() -> (r: [u8; 18]) {
    random_bytes::<18>()
}

/// A random 32-byte condition with no known preimage, used on Prepares that
/// must not be fulfillable.
pub fn random_condition() -> (r: [u8; 32]) {
    random_bytes::<32>()
}

/// The AES-256-GCM key protecting STREAM data under `shared_secret`.
pub open spec fn enc_key_of(secret: Seq<u8>) -> Seq<u8> {
    hmac_sha256_of(secret, encryption_string())
}

/// The HMAC key from which fulfillments are derived under `shared_secret`.
pub open spec fn fulfillment_key_of(secret: Seq<u8>) -> Seq<u8> {
    hmac_sha256_of(secret, fulfillment_string())
}

/// The fulfillment (hashlock preimage) for given ILP packet data.
pub open spec fn fulfillment_of(secret: Seq<u8>, data: Seq<u8>) -> Seq<u8> {
    hmac_sha256_of(fulfillment_key_of(secret), data)
}

/// The execution condition for given ILP packet data.
pub open spec fn condition_of(secret: Seq<u8>, data: Seq<u8>) -> Seq<u8> {
    sha256_of(fulfillment_of(secret, data))
}

/// What decrypting `data` under `secret` yields: the layout is a 12-byte IV,
/// a 16-byte authentication tag, then the ciphertext.
pub open spec fn decrypt_spec(secret: Seq<u8>, data: Seq<u8>) -> Option<Seq<u8>> {
    if data.len() < 28 {
        None
    } else {
        gcm_open_of(
            enc_key_of(secret),
            data.subrange(0, 12),
            data.skip(28) + data.subrange(12, 28),
        )
    }
}

/// Derives the 32-byte fulfillment for `data` under `shared_secret`.
pub fn generate_fulfillment(shared_secret: &[u8], data: &[u8]) -> (r: [u8; 32])
    ensures
        r@ == fulfillment_of(shared_secret@, data@),
{
    let fk_str = fulfillment_string_bytes();
    let fk = hmac_sha256(shared_secret, fk_str.as_slice());
    hmac_sha256(fk.as_slice(), data)
}

/// Derives the 32-byte execution condition for `data` under `shared_secret`.
pub fn generate_condition(shared_secret: &[u8], data: &[u8]) -> (r: [u8; 32])
    ensures
        r@ == condition_of(shared_secret@, data@),
{
    let f = generate_fulfillment(shared_secret, data);
    sha256(f.as_slice())
}

/// Encrypts `plaintext` under `shared_secret` with AES-256-GCM and a fresh
/// random IV; the plaintext must lie within AES-GCM's per-nonce input bound.
/// Decrypting the result under the same secret gives the plaintext back; this
/// is the encryption half of the round-trip law.
pub fn encrypt(shared_secret: &[u8], plaintext: Vec<u8>) -> (r: Vec<u8>)
    requires
        plaintext@.len() <= 68_719_476_704,
    ensures
        decrypt_spec(shared_secret@, r@) == Some(plaintext@),
        r@.len() == plaintext@.len() + 28,
{
    let ek_str = encryption_string_bytes();
    let key = hmac_sha256(shared_secret, ek_str.as_slice());
    let iv = random_bytes::<12>();
    let mut buf = plaintext;
    let ghost plain = buf@;
    let tag = gcm_seal(&key, &iv, &mut buf);
    let mut out: Vec<u8> = Vec::new();
    let mut i: usize = 0;
    while i < 12
        invariant
            i <= 12,
            out@ == iv@.take(i as int),
        decreases 12 - i,
    {
        out.push(iv[i]);
        i = i + 1;
        assert(out@ =~= iv@.take(i as int));
    }
    let mut j: usize = 0;
    while j < 16
        invariant
            j <= 16,
            out@ == iv@.take(12) + tag@.take(j as int),
        decreases 16 - j,
    {
        out.push(tag[j]);
        j = j + 1;
        assert(out@ =~= iv@.take(12) + tag@.take(j as int));
    }
    crate::oer::append_bytes(&mut out, &buf);
    proof {
        assert(iv@.take(12) =~= iv@);
        assert(tag@.take(16) =~= tag@);
        assert(out@ =~= iv@ + tag@ + buf@);
        assert(out@.len() == plain.len() + 28);
        assert(out@.subrange(0, 12) =~= iv@);
        assert(out@.subrange(12, 28) =~= tag@);
        assert(out@.skip(28) =~= buf@);
        assert(out@.skip(28) + out@.subrange(12, 28) =~= buf@ + tag@);
        assert(gcm_open_of(enc_key_of(shared_secret@), iv@, buf@ + tag@) == Some(plain));
    }
    out
}

/// Decrypts `data` under `shared_secret`: splits off the 12-byte IV and the
/// 16-byte tag, then opens the ciphertext. Fails exactly when the data is too
/// short or authentication fails.
pub fn decrypt(shared_secret: &[u8], data: Vec<u8>) -> (r: Result<Vec<u8>, ParseError>)
    ensures
        match r {
            Ok(p) => decrypt_spec(shared_secret@, data@) == Some(p@) && p@.len() + 28
                == data@.len(),
            Err(_) => decrypt_spec(shared_secret@, data@) is None,
        },
{
    if data.len() < 28 {
        return Err(ParseError::InvalidPacket);
    }
    let ek_str = encryption_string_bytes();
    let key = hmac_sha256(shared_secret, ek_str.as_slice());
    let mut iv = [0u8; 12];
    let mut i: usize = 0;
    while i < 12
        invariant
            i <= 12,
            data@.len() >= 28,
            iv@.subrange(0, i as int) =~= data@.subrange(0, i as int),
            iv@.len() == 12,
        decreases 12 - i,
    {
        iv[i] = data[i];
        i = i + 1;
        assert(iv@.subrange(0, i as int) =~= data@.subrange(0, i as int));
    }
    proof {
        assert(iv@ =~= data@.subrange(0, 12));
    }
    let ct_and_tag = {
        let mut v = crate::oer::copy_range(&data, 28, data.len());
        let tag_part = crate::oer::copy_range(&data, 12, 28);
        crate::oer::append_bytes(&mut v, &tag_part);
        v
    };
    proof {
        assert(ct_and_tag@ =~= data@.skip(28) + data@.subrange(12, 28));
    }
    match gcm_open(&key, &iv, &ct_and_tag) {
        Some(p) => Ok(p),
        None => Err(ParseError::InvalidPacket),
    }
}

} // verus!
