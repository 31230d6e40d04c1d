use psila_stack::ccm::{ccmstar_decrypt, ccmstar_encrypt, SecurityError};

fn kat_key() -> Vec<u8> {
    (0xC0..=0xCF).collect()
}

fn kat_nonce() -> Vec<u8> {
    vec![
        0xA0, 0xA1, 0xA2, 0xA3, 0xA4, 0xA5, 0xA6, 0xA7, 0x03, 0x02, 0x01, 0x00, 0x06,
    ]
}

fn kat_plaintext() -> Vec<u8> {
    (0x08..=0x1E).collect()
}

fn kat_aad() -> Vec<u8> {
    (0x00..=0x07).collect()
}

#[test]
fn known_answer_vector() {
    // Fixed inputs with an eight-byte integrity code give the published
    // ciphertext and code.
    let (ct, mic) = ccmstar_encrypt(&kat_key(), &kat_nonce(), &kat_plaintext(), 8, &kat_aad());
    let expected_ct = [
        0x1A, 0x55, 0xA3, 0x6A, 0xBB, 0x6C, 0x61, 0x0D, 0x06, 0x6B, 0x33, 0x75, 0x64, 0x9C,
        0xEF, 0x10, 0xD4, 0x66, 0x4E, 0xCA, 0xD8, 0x54, 0xA8,
    ];
    let expected_mic = [0x0A, 0x89, 0x5C, 0xC1, 0xD8, 0xFF, 0x94, 0x69];
    assert_eq!(ct, expected_ct);
    assert_eq!(mic, expected_mic);
}

#[test]
fn known_answer_decrypts() {
    let (ct, mic) = ccmstar_encrypt(&kat_key(), &kat_nonce(), &kat_plaintext(), 8, &kat_aad());
    let pt = ccmstar_decrypt(&kat_key(), &kat_nonce(), &ct, &mic, &kat_aad()).unwrap();
    assert_eq!(pt, kat_plaintext());
}

#[test]
fn round_trip_various_shapes() {
    // Round trips across message and associated-data lengths around block
    // boundaries, and across the valid tag lengths.
    let key = [0x42u8; 16];
    let nonce = [0x07u8; 13];
    for msg_len in [0usize, 1, 15, 16, 17, 32, 33] {
        for aad_len in [0usize, 1, 13, 14, 15, 16, 30] {
            for mic_len in [0usize, 4, 8, 16] {
                let message: Vec<u8> = (0..msg_len).map(|i| i as u8).collect();
                let aad: Vec<u8> = (0..aad_len).map(|i| (0x80 + i) as u8).collect();
                let (ct, mic) = ccmstar_encrypt(&key, &nonce, &message, mic_len, &aad);
                assert_eq!(ct.len(), msg_len);
                assert_eq!(mic.len(), mic_len);
                let pt = ccmstar_decrypt(&key, &nonce, &ct, &mic, &aad).unwrap();
                assert_eq!(pt, message);
            }
        }
    }
}

#[test]
fn tamper_ciphertext_fails() {
    // Flipping any single bit of the ciphertext breaks authentication.
    let (ct, mic) = ccmstar_encrypt(&kat_key(), &kat_nonce(), &kat_plaintext(), 8, &kat_aad());
    for byte in 0..ct.len() {
        for bit in 0..8 {
            let mut bad = ct.clone();
            bad[byte] ^= 1u8 << bit;
            let r = ccmstar_decrypt(&kat_key(), &kat_nonce(), &bad, &mic, &kat_aad());
            assert_eq!(r, Err(SecurityError::AuthenticationFailed));
        }
    }
}

#[test]
fn tamper_mic_fails() {
    // Flipping any single bit of the integrity code breaks authentication.
    let (ct, mic) = ccmstar_encrypt(&kat_key(), &kat_nonce(), &kat_plaintext(), 8, &kat_aad());
    for byte in 0..mic.len() {
        for bit in 0..8 {
            let mut bad = mic.clone();
            bad[byte] ^= 1u8 << bit;
            let r = ccmstar_decrypt(&kat_key(), &kat_nonce(), &ct, &bad, &kat_aad());
            assert_eq!(r, Err(SecurityError::AuthenticationFailed));
        }
    }
}

#[test]
fn tamper_aad_fails() {
    // Flipping any single bit of the associated data breaks authentication.
    let (ct, mic) = ccmstar_encrypt(&kat_key(), &kat_nonce(), &kat_plaintext(), 8, &kat_aad());
    for byte in 0..kat_aad().len() {
        for bit in 0..8 {
            let mut bad = kat_aad();
            bad[byte] ^= 1u8 << bit;
            let r = ccmstar_decrypt(&kat_key(), &kat_nonce(), &ct, &mic, &bad);
            assert_eq!(r, Err(SecurityError::AuthenticationFailed));
        }
    }
}

#[test]
fn wrong_key_fails() {
    let (ct, mic) = ccmstar_encrypt(&kat_key(), &kat_nonce(), &kat_plaintext(), 8, &kat_aad());
    let wrong = [0x00u8; 16];
    let r = ccmstar_decrypt(&wrong, &kat_nonce(), &ct, &mic, &kat_aad());
    assert_eq!(r, Err(SecurityError::AuthenticationFailed));
}

#[test]
fn ciphertext_differs_from_plaintext() {
    // The counter-mode mask really transforms the message: the cipher is
    // not handing its input back.
    let (ct, _) = ccmstar_encrypt(&kat_key(), &kat_nonce(), &kat_plaintext(), 8, &kat_aad());
    assert_ne!(ct, kat_plaintext());
}

#[test]
fn empty_aad_omits_aad_block() {
    // Authentication still round-trips with no associated data at all.
    let key = [0x10u8; 16];
    let nonce = [0x01u8; 13];
    let message = [0xAAu8; 5];
    let (ct, mic) = ccmstar_encrypt(&key, &nonce, &message, 4, &[]);
    let pt = ccmstar_decrypt(&key, &nonce, &ct, &mic, &[]).unwrap();
    assert_eq!(pt, message);
    // And tampering is still caught.
    let mut bad = ct.clone();
    bad[0] ^= 0x01;
    assert!(ccmstar_decrypt(&key, &nonce, &bad, &mic, &[]).is_err());
}

#[test]
fn zero_mic_length_disables_authentication() {
    // A zero-length code means encryption only: decryption always passes
    // the (empty) comparison and returns the masked bytes.
    let key = [0x33u8; 16];
    let nonce = [0x02u8; 13];
    let message = [1u8, 2, 3, 4];
    let (ct, mic) = ccmstar_encrypt(&key, &nonce, &message, 0, &[]);
    assert_eq!(mic.len(), 0);
    let pt = ccmstar_decrypt(&key, &nonce, &ct, &mic, &[]).unwrap();
    assert_eq!(pt, message);
}
