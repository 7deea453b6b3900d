use aes_gcm::aead::Aead;
use aes_gcm::{Aes256Gcm, Key, KeyInit, Nonce};
use p256::ecdsa::signature::Verifier;
use p256::ecdsa::{Signature, SigningKey, VerifyingKey};
use tace::keys::{decrypt, encrypt, generate_keypair, sign, verify};

#[test]
fn test_encrypt_decrypt_roundtrip() {
    let sender_keys = generate_keypair();
    let receiver_keys = generate_keypair();
    let original_plaintext = "This is a secret message for testing.";
    let (ciphertext, nonce) = encrypt(
        &sender_keys.private_key,
        &receiver_keys.public_key,
        original_plaintext.as_bytes(),
    )
    .expect("Encryption failed");
    let decrypted_bytes = decrypt(
        &receiver_keys.private_key,
        &sender_keys.public_key,
        &ciphertext,
        &nonce,
    )
    .expect("Decryption failed");
    let decrypted_plaintext =
        String::from_utf8(decrypted_bytes).expect("Failed to convert bytes to string");
    assert_eq!(original_plaintext, decrypted_plaintext);
}

#[test]
fn test_decrypt_fails_with_wrong_key() {
    let sender_keys = generate_keypair();
    let receiver_keys = generate_keypair();
    let malicious_keys = generate_keypair();
    let original_plaintext = "Another secret message.";
    let (ciphertext, nonce) = encrypt(
        &sender_keys.private_key,
        &receiver_keys.public_key,
        original_plaintext.as_bytes(),
    )
    .expect("Encryption failed");
    let result = decrypt(
        &malicious_keys.private_key,
        &sender_keys.public_key,
        &ciphertext,
        &nonce,
    );
    assert!(
        result.is_err(),
        "Decryption should have failed with the wrong key, but it succeeded."
    );
}

#[test]
fn test_sign_verify_roundtrip() {
    let keys = generate_keypair();
    let message = b"this is a test message";
    let signature = sign(&keys.private_key, message).expect("Signing failed");
    let is_valid = verify(&keys.public_key, message, &signature);
    assert!(is_valid, "Signature verification failed for a valid signature.");
}

#[test]
fn test_verify_fails_with_wrong_key() {
    let keys1 = generate_keypair();
    let keys2 = generate_keypair();
    let message = b"another test message";
    let signature = sign(&keys1.private_key, message).expect("Signing failed");
    let is_valid = verify(&keys2.public_key, message, &signature);
    assert!(
        !is_valid,
        "Signature verification should have failed with the wrong public key."
    );
}

#[test]
fn test_verify_fails_with_tampered_message() {
    let keys = generate_keypair();
    let original_message = b"original message";
    let tampered_message = b"tampered message";
    let signature = sign(&keys.private_key, original_message).expect("Signing failed");
    let is_valid = verify(&keys.public_key, tampered_message, &signature);
    assert!(
        !is_valid,
        "Signature verification should have failed for a tampered message."
    );
}

#[test]
fn keypair_is_hex_of_the_right_lengths() {
    let keys = generate_keypair();
    assert_eq!(keys.private_key.len(), 64);
    assert!(keys.private_key.chars().all(|c| c.is_ascii_hexdigit()));
    // an uncompressed SEC1 point is 65 bytes
    assert_eq!(keys.public_key.len(), 130);
}

#[test]
fn encrypt_rejects_malformed_keys() {
    let keys = generate_keypair();
    assert!(encrypt("zz", &keys.public_key, b"x").is_err());
    assert!(encrypt(&keys.private_key, "abc", b"x").is_err());
}

#[test]
fn decrypt_fails_for_tampered_ciphertext() {
    let a = generate_keypair();
    let b = generate_keypair();
    let (mut ciphertext, nonce) = encrypt(&a.private_key, &b.public_key, b"payload").unwrap();
    ciphertext[0] ^= 1;
    assert!(decrypt(&b.private_key, &a.public_key, &ciphertext, &nonce).is_err());
}

#[test]
fn encryption_uses_a_twelve_byte_nonce_and_appends_a_tag() {
    let a = generate_keypair();
    let b = generate_keypair();
    let (ciphertext, nonce) = encrypt(&a.private_key, &b.public_key, b"12345").unwrap();
    assert_eq!(nonce.len(), 12);
    assert_eq!(ciphertext.len(), 5 + 16);
}

#[test]
fn sign_rejects_a_malformed_private_key() {
    assert!(sign("not hex", b"m").is_err());
    assert!(!verify("not hex", b"m", &[0u8; 64]));
}

#[test]
fn public_key_is_the_sec1_key_of_the_private_key() {
    let keys = generate_keypair();
    let signing = SigningKey::from_slice(&hex::decode(&keys.private_key).unwrap()).unwrap();
    let expected = VerifyingKey::from(&signing).to_sec1_bytes().to_vec();
    assert_eq!(hex::decode(&keys.public_key).unwrap(), expected);
}

#[test]
fn encryption_key_is_hkdf_of_the_ecdh_secret() {
    let a = generate_keypair();
    let b = generate_keypair();
    let (ciphertext, nonce) = encrypt(&a.private_key, &b.public_key, b"independent").unwrap();
    let secret = p256::SecretKey::from_slice(&hex::decode(&a.private_key).unwrap()).unwrap();
    let public = p256::PublicKey::from_sec1_bytes(&hex::decode(&b.public_key).unwrap()).unwrap();
    let shared = p256::ecdh::diffie_hellman(secret.to_nonzero_scalar(), public.as_affine());
    let hk = hkdf::Hkdf::<sha2::Sha256>::new(None, shared.raw_secret_bytes().as_ref());
    let mut okm = [0u8; 32];
    hk.expand(&[], &mut okm).unwrap();
    let cipher = Aes256Gcm::new(Key::<Aes256Gcm>::from_slice(&okm));
    let plaintext = cipher.decrypt(Nonce::from_slice(&nonce), ciphertext.as_slice()).unwrap();
    assert_eq!(plaintext, b"independent".to_vec());
}

#[test]
fn signatures_verify_with_the_curve_library() {
    let keys = generate_keypair();
    let signature = sign(&keys.private_key, b"checked elsewhere").unwrap();
    assert_eq!(signature.len(), 64);
    let key = VerifyingKey::from_sec1_bytes(&hex::decode(&keys.public_key).unwrap()).unwrap();
    let sig = Signature::from_slice(&signature).unwrap();
    assert!(key.verify(b"checked elsewhere", &sig).is_ok());
}

#[test]
fn decrypt_refuses_a_nonce_of_the_wrong_length() {
    let a = generate_keypair();
    let b = generate_keypair();
    let (ciphertext, _nonce) = encrypt(&a.private_key, &b.public_key, b"x").unwrap();
    assert!(decrypt(&b.private_key, &a.public_key, &ciphertext, &[0u8; 11]).is_err());
    assert!(decrypt("zz", &a.public_key, &ciphertext, &[0u8; 3]).is_err());
}
