use vstd::prelude::*;
use crate::hex::{hex_decode, hex_encode, hex_text, hex_text_bytes, is_hex_text, lemma_hex_roundtrip};
use aes_gcm::aead::Aead;
use aes_gcm::{Aes256Gcm, Key, KeyInit, Nonce};
use ecdsa::signature::Verifier;
use hkdf::Hkdf;
use p256::ecdsa::signature::Signer;
use p256::ecdsa::{Signature, SigningKey, VerifyingKey};
use p256::{PublicKey, SecretKey};
use rand_core::OsRng;
use sha2::Sha256;

verus! {

/// A P-256 key pair as hexadecimal text: the secret scalar and the SEC1 public key.
pub struct Keypair {
    pub private_key: String,
    pub public_key: String,
}

/// The SEC1 encoding of the public key of the secret scalar `secret`
/// (`SigningKey::from_slice`, then `VerifyingKey::from`), or `None` when the
/// scalar is rejected.
pub uninterp spec fn p256_public_key(secret: Seq<u8>) -> Option<Seq<u8>>;

/// The raw ECDH shared secret of the secret scalar `secret` and the SEC1 public key
/// `public` (`p256::ecdh::diffie_hellman`), or `None` when either is rejected.
pub uninterp spec fn p256_shared_secret(secret: Seq<u8>, public: Seq<u8>) -> Option<Seq<u8>>;

/// The 32 bytes that HKDF-SHA256 expands from `ikm` with no salt and no info.
pub uninterp spec fn hkdf_sha256_key(ikm: Seq<u8>) -> Seq<u8>;

/// AES-256-GCM encryption of `plaintext` under `key` and `nonce`, or `None` when it fails.
pub uninterp spec fn aes256gcm_seal(key: Seq<u8>, nonce: Seq<u8>, plaintext: Seq<u8>) -> Option<
    Seq<u8>,
>;

/// AES-256-GCM decryption of `ciphertext` under `key` and `nonce`, or `None` when the
/// ciphertext does not authenticate.
pub uninterp spec fn aes256gcm_open(key: Seq<u8>, nonce: Seq<u8>, ciphertext: Seq<u8>) -> Option<
    Seq<u8>,
>;

/// The deterministic (RFC 6979) ECDSA P-256 signature of `message` by the secret
/// scalar `secret`, as 64 bytes, or `None` when signing fails.
pub uninterp spec fn p256_signature(secret: Seq<u8>, message: Seq<u8>) -> Option<Seq<u8>>;

/// Whether `signature` is a valid ECDSA P-256 signature of `message` under the SEC1
/// public key `public`.
pub uninterp spec fn p256_signature_valid(public: Seq<u8>, message: Seq<u8>, signature: Seq<u8>) -> bool;

/// The largest plaintext that AES-GCM accepts, 2^36 bytes.
pub open spec fn aes_gcm_max_plaintext() -> nat {
    0x10_0000_0000
}

/// A freshly drawn random secret scalar (`SigningKey::random` with `OsRng`), as 32
/// bytes. Which scalar comes out is left open; it is always one that
/// `SigningKey::from_slice` accepts.
#[verifier::external_body]
fn random_secret_key() -> (r: Vec<u8>)
    ensures
        r@.len() == 32,
        p256_public_key(r@) is Some,
{
    SigningKey::random(&mut OsRng).to_bytes().to_vec()
}

/// The SEC1 public key of a secret scalar (`VerifyingKey::from` of
/// `SigningKey::from_slice`).
#[verifier::external_body]
fn public_key_of(secret: &[u8]) -> (r: Option<Vec<u8>>)
    ensures
        r matches Some(v) ==> p256_public_key(secret@) == Some(v@),
        r is None <==> p256_public_key(secret@) is None,
{
    match SigningKey::from_slice(secret) {
        Ok(key) => Some(VerifyingKey::from(&key).to_sec1_bytes().to_vec()),
        Err(_) => None,
    }
}

/// The raw ECDH shared secret (`p256::ecdh::diffie_hellman` after
/// `SecretKey::from_slice` and `PublicKey::from_sec1_bytes`); the error is the crate's
/// message. Both parties of an exchange obtain the same secret.
#[verifier::external_body]
fn ecdh_shared_secret(secret: &[u8], public: &[u8]) -> (r: Result<Vec<u8>, String>)
    ensures
        r is Ok <==> p256_shared_secret(secret@, public@) is Some,
        r matches Ok(v) ==> p256_shared_secret(secret@, public@) == Some(v@),
        p256_public_key(secret@) is None ==> r is Err,
        forall|other: Seq<u8>|
            p256_public_key(secret@) is Some && p256_public_key(other) == Some(public@) ==> {
                &&& r is Ok
                &&& #[trigger] p256_shared_secret(other, p256_public_key(secret@)->0) == Some(
                    r->Ok_0@,
                )
            },
{
    let secret_key = match SecretKey::from_slice(secret) {
        Ok(k) => k,
        Err(e) => return Err(e.to_string()),
    };
    let public_key = match PublicKey::from_sec1_bytes(public) {
        Ok(k) => k,
        Err(e) => return Err(e.to_string()),
    };
    let shared = p256::ecdh::diffie_hellman(secret_key.to_nonzero_scalar(), public_key.as_affine());
    Ok(shared.raw_secret_bytes().to_vec())
}

/// HKDF-SHA256 with no salt, expanded with empty info into 32 bytes
/// (`Hkdf::new` and `expand`); expanding 32 bytes never fails.
#[verifier::external_body]
fn hkdf_sha256_expand(ikm: &[u8]) -> (r: Result<[u8; 32], String>)
    ensures
        r is Ok,
        r matches Ok(k) ==> k@ == hkdf_sha256_key(ikm@),
{
    let hk = Hkdf::<Sha256>::new(None, ikm);
    let mut okm = [0u8; 32];
    match hk.expand(&[], &mut okm) {
        Ok(()) => Ok(okm),
        Err(e) => Err(e.to_string()),
    }
}

/// `len` random bytes from the operating system (`OsRng`, `RngCore::fill_bytes`).
/// Only the length is stated: the bytes themselves are chance.
#[verifier::external_body]
pub(crate) fn random_bytes(len: usize) -> (r: Vec<u8>)
    ensures
        r@.len() == len,
{
    let mut buf = vec![0u8; len];
    rand_core::RngCore::fill_bytes(&mut OsRng, &mut buf);
    buf
}

/// AES-256-GCM encryption (`Aes256Gcm::encrypt`); it fails exactly when the plaintext
/// is longer than 2^36 bytes.
#[verifier::external_body]
fn aes_gcm_seal(key: &[u8; 32], nonce: &[u8], plaintext: &[u8]) -> (r: Result<Vec<u8>, String>)
    requires
        nonce@.len() == 12,
    ensures
        r is Ok <==> aes256gcm_seal(key@, nonce@, plaintext@) is Some,
        r is Ok <==> plaintext@.len() <= aes_gcm_max_plaintext(),
        r matches Ok(c) ==> aes256gcm_seal(key@, nonce@, plaintext@) == Some(c@),
{
    let cipher = Aes256Gcm::new(Key::<Aes256Gcm>::from_slice(key));
    match cipher.encrypt(Nonce::from_slice(nonce), plaintext) {
        Ok(c) => Ok(c),
        Err(e) => Err(e.to_string()),
    }
}

/// AES-256-GCM decryption (`Aes256Gcm::decrypt`); a ciphertext that encryption
/// produced under the same key and nonce opens to its plaintext.
#[verifier::external_body]
fn aes_gcm_open(key: &[u8; 32], nonce: &[u8], ciphertext: &[u8]) -> (r: Result<Vec<u8>, String>)
    requires
        nonce@.len() == 12,
    ensures
        r is Ok <==> aes256gcm_open(key@, nonce@, ciphertext@) is Some,
        r matches Ok(p) ==> aes256gcm_open(key@, nonce@, ciphertext@) == Some(p@),
        forall|plaintext: Seq<u8>|
            #[trigger] aes256gcm_seal(key@, nonce@, plaintext) == Some(ciphertext@) ==> r is Ok
                && r->Ok_0@ == plaintext,
{
    let cipher = Aes256Gcm::new(Key::<Aes256Gcm>::from_slice(key));
    match cipher.decrypt(Nonce::from_slice(nonce), ciphertext) {
        Ok(p) => Ok(p),
        Err(e) => Err(e.to_string()),
    }
}

/// An ECDSA P-256 signature (`SigningKey::from_slice`, then `try_sign`), as 64 bytes.
#[verifier::external_body]
fn ecdsa_sign(secret: &[u8], message: &[u8]) -> (r: Result<Vec<u8>, String>)
    ensures
        r is Ok <==> p256_signature(secret@, message@) is Some,
        r matches Ok(s) ==> p256_signature(secret@, message@) == Some(s@),
        p256_public_key(secret@) is None ==> r is Err,
{
    let signing_key = match SigningKey::from_slice(secret) {
        Ok(k) => k,
        Err(e) => return Err(e.to_string()),
    };
    let signature: Signature = match signing_key.try_sign(message) {
        Ok(s) => s,
        Err(e) => return Err(e.to_string()),
    };
    Ok(signature.to_vec())
}

/// ECDSA P-256 verification (`Signature::from_slice`, `VerifyingKey::from_sec1_bytes`,
/// then `verify`); a malformed key or signature verifies nothing, and a signature
/// made with the matching secret key verifies.
#[verifier::external_body]
fn ecdsa_verify(public: &[u8], message: &[u8], signature: &[u8]) -> (r: bool)
    ensures
        r == p256_signature_valid(public@, message@, signature@),
        forall|secret: Seq<u8>|
            p256_public_key(secret) == Some(public@) && #[trigger] p256_signature(secret, message@)
                == Some(signature@) ==> r,
{
    let sig = match Signature::from_slice(signature) {
        Ok(s) => s,
        Err(_) => return false,
    };
    let key = match VerifyingKey::from_sec1_bytes(public) {
        Ok(k) => k,
        Err(_) => return false,
    };
    key.verify(message, &sig).is_ok()
}

/// Whether `private_hex` and `public_hex` are hexadecimal texts of a secret scalar and
/// of its SEC1 public key.
pub open spec fn keypair_matches(private_hex: Seq<char>, public_hex: Seq<char>) -> bool {
    &&& is_hex_text(private_hex)
    &&& is_hex_text(public_hex)
    &&& p256_public_key(hex_text_bytes(private_hex)) == Some(hex_text_bytes(public_hex))
}

/// The symmetric key that a party with secret `private_hex` derives for talking to the
/// holder of `public_hex`: HKDF-SHA256 of their ECDH shared secret.
pub open spec fn derived_key(private_hex: Seq<char>, public_hex: Seq<char>) -> Option<Seq<u8>> {
    if is_hex_text(private_hex) && is_hex_text(public_hex) && p256_shared_secret(
        hex_text_bytes(private_hex),
        hex_text_bytes(public_hex),
    ) is Some {
        Some(
            hkdf_sha256_key(
                p256_shared_secret(hex_text_bytes(private_hex), hex_text_bytes(public_hex))->0,
            ),
        )
    } else {
        None
    }
}

/// Generates a fresh key pair; the public key is the one of the private key.
pub fn generate_keypair() -> (kp: Keypair)
    ensures
        keypair_matches(kp.private_key@, kp.public_key@),
        hex_text_bytes(kp.private_key@).len() == 32,
        kp.private_key@ == hex_text(hex_text_bytes(kp.private_key@)),
        kp.public_key@ == hex_text(hex_text_bytes(kp.public_key@)),
{
    let secret = random_secret_key();
    let public = public_key_of(&secret).unwrap();
    let private_key = hex_encode(&secret);
    let public_key = hex_encode(&public);
    proof {
        lemma_hex_roundtrip(secret@);
        lemma_hex_roundtrip(public@);
    }
    Keypair { private_key, public_key }
}

/// The key that both parties derive: HKDF-SHA256 of the ECDH shared secret.
fn derive_shared_secret(private_key_hex: &str, public_key_hex: &str) -> (r: Result<[u8; 32], String>)
    ensures
        r is Ok <==> derived_key(private_key_hex@, public_key_hex@) is Some,
        r matches Ok(k) ==> derived_key(private_key_hex@, public_key_hex@) == Some(k@),
        forall|sender_hex: Seq<char>|
            keypair_matches(sender_hex, public_key_hex@) && is_hex_text(private_key_hex@)
                && p256_public_key(hex_text_bytes(private_key_hex@)) is Some ==> {
                &&& r is Ok
                &&& #[trigger] derived_key(
                    sender_hex,
                    hex_text(p256_public_key(hex_text_bytes(private_key_hex@))->0),
                ) == Some(r->Ok_0@)
            },
{
    let private_bytes = hex_decode(private_key_hex)?;
    let public_bytes = hex_decode(public_key_hex)?;
    let shared_result = ecdh_shared_secret(&private_bytes, &public_bytes);
    let shared = match shared_result {
        Ok(v) => v,
        Err(e) => {
            proof {
                assert forall|sender_hex: Seq<char>|
                    keypair_matches(sender_hex, public_key_hex@) && is_hex_text(private_key_hex@)
                        && p256_public_key(hex_text_bytes(private_key_hex@)) is Some implies false by {
                    let own_public = p256_public_key(private_bytes@)->0;
                    let other = hex_text_bytes(sender_hex);
                    assert(p256_public_key(other) == Some(public_bytes@));
                    assert(p256_shared_secret(other, own_public) == Some(shared_result->Ok_0@));
                }
            }
            return Err(e);
        },
    };
    let okm = hkdf_sha256_expand(&shared)?;
    proof {
        assert forall|sender_hex: Seq<char>|
            keypair_matches(sender_hex, public_key_hex@) && is_hex_text(private_key_hex@)
                && p256_public_key(hex_text_bytes(private_key_hex@)) is Some implies
            #[trigger] derived_key(
                sender_hex,
                hex_text(p256_public_key(hex_text_bytes(private_key_hex@))->0),
            ) == Some(okm@) by {
            let own_public = p256_public_key(hex_text_bytes(private_key_hex@))->0;
            lemma_hex_roundtrip(own_public);
            assert(p256_shared_secret(hex_text_bytes(sender_hex), own_public) == Some(shared@));
        }
    }
    Ok(okm)
}

/// Encrypts `plaintext` from the holder of `private_key_hex` to the holder of
/// `public_key_hex` with AES-256-GCM under a fresh random nonce; returns the ciphertext
/// and the nonce.
pub fn encrypt(private_key_hex: &str, public_key_hex: &str, plaintext: &[u8]) -> (r: Result<
    (Vec<u8>, Vec<u8>),
    String,
>)
    ensures
        r is Ok <==> derived_key(private_key_hex@, public_key_hex@) is Some && plaintext@.len()
            <= aes_gcm_max_plaintext(),
        r matches Ok((c, n)) ==> {
            &&& n@.len() == 12
            &&& aes256gcm_seal(derived_key(private_key_hex@, public_key_hex@)->0, n@, plaintext@)
                == Some(c@)
        },
{
    let key_material = derive_shared_secret(private_key_hex, public_key_hex)?;
    let nonce = random_bytes(12);
    let ciphertext = aes_gcm_seal(&key_material, nonce.as_slice(), plaintext)?;
    Ok((ciphertext, nonce))
}

/// Decrypts a message to the holder of `private_key_hex` from the holder of
/// `public_key_hex`. A ciphertext that `encrypt` made from the matching private key
/// to this key pair decrypts to its plaintext. A nonce that is not twelve bytes long is
/// refused once the key is derived.
pub fn decrypt(private_key_hex: &str, public_key_hex: &str, ciphertext: &[u8], nonce: &[u8]) -> (r:
    Result<Vec<u8>, String>)
    ensures
        r matches Ok(p) ==> derived_key(private_key_hex@, public_key_hex@) is Some && nonce@.len() == 12
            && aes256gcm_open(derived_key(private_key_hex@, public_key_hex@)->0, nonce@, ciphertext@) == Some(p@),
        derived_key(private_key_hex@, public_key_hex@) is None ==> r is Err,
        nonce@.len() != 12 ==> r is Err,
        derived_key(private_key_hex@, public_key_hex@) is Some && nonce@.len() == 12 ==> (r is Ok <==> aes256gcm_open(
            derived_key(private_key_hex@, public_key_hex@)->0,
            nonce@,
            ciphertext@,
        ) is Some),
        forall|sender_hex: Seq<char>, plaintext: Seq<u8>|
            keypair_matches(sender_hex, public_key_hex@) && is_hex_text(private_key_hex@)
                && p256_public_key(hex_text_bytes(private_key_hex@)) is Some && nonce@.len() == 12
                && #[trigger] aes256gcm_seal(
                derived_key(
                    sender_hex,
                    hex_text(p256_public_key(hex_text_bytes(private_key_hex@))->0),
                )->0,
                nonce@,
                plaintext,
            ) == Some(ciphertext@) ==> r is Ok && r->Ok_0@ == plaintext,
{
    let key_material = derive_shared_secret(private_key_hex, public_key_hex)?;
    if nonce.len() != 12 {
        return Err("nonce must be 12 bytes".to_owned());
    }
    let plaintext = aes_gcm_open(&key_material, nonce, ciphertext)?;
    Ok(plaintext)
}

/// Signs `message` with the secret key `private_key_hex`.
pub fn sign(private_key_hex: &str, message: &[u8]) -> (r: Result<Vec<u8>, String>)
    ensures
        r is Ok <==> is_hex_text(private_key_hex@) && p256_signature(
            hex_text_bytes(private_key_hex@),
            message@,
        ) is Some,
        r matches Ok(s) ==> p256_signature(hex_text_bytes(private_key_hex@), message@) == Some(s@),
{
    let private_bytes = hex_decode(private_key_hex)?;
    ecdsa_sign(&private_bytes, message)
}

/// Whether `signature_bytes` is a valid signature of `message` under the public key
/// `public_key_hex`. A signature that `sign` made with the matching private key
/// verifies.
pub fn verify(public_key_hex: &str, message: &[u8], signature_bytes: &[u8]) -> (r: bool)
    ensures
        r == (is_hex_text(public_key_hex@) && p256_signature_valid(
            hex_text_bytes(public_key_hex@),
            message@,
            signature_bytes@,
        )),
        forall|private_hex: Seq<char>|
            keypair_matches(private_hex, public_key_hex@) && #[trigger] p256_signature(
                hex_text_bytes(private_hex),
                message@,
            ) == Some(signature_bytes@) ==> r,
{
    let public_bytes = match hex_decode(public_key_hex) {
        Ok(bytes) => bytes,
        Err(_) => return false,
    };
    ecdsa_verify(&public_bytes, message, signature_bytes)
}

} // verus!
