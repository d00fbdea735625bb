use secpass::crypto::{
    decrypt, encrypt, encrypt_with_params, seal_with, CryptoError, EncryptedBlob, KdfParams,
};

fn fast_params() -> KdfParams {
    KdfParams { m_cost: 19_456, t_cost: 1, p_cost: 1 }
}

#[test]
fn roundtrip_encrypt_decrypt() {
    let blob = encrypt(b"hello", "correct horse battery staple").unwrap();
    let plaintext = decrypt(&blob, "correct horse battery staple").unwrap();
    assert_eq!(plaintext, b"hello");
}

#[test]
fn wrong_password_fails() {
    let blob = encrypt(b"hello", "right password").unwrap();
    assert!(matches!(
        decrypt(&blob, "wrong password"),
        Err(CryptoError::DecryptionFailed)
    ));
}

#[test]
fn rejects_bad_nonce_length_without_panic() {
    let blob = EncryptedBlob::from_raw_parts(
        KdfParams::interactive_default(),
        vec![0u8; 32],
        vec![0u8; 1],
        vec![0u8; 16],
    );

    assert!(matches!(
        decrypt(&blob, "password"),
        Err(CryptoError::InvalidFormat)
    ));
}

#[test]
fn rejects_empty_ciphertext_without_panic() {
    let blob = EncryptedBlob::from_raw_parts(
        KdfParams::interactive_default(),
        vec![0u8; 32],
        vec![0u8; 12],
        vec![],
    );

    assert!(matches!(
        decrypt(&blob, "password"),
        Err(CryptoError::InvalidFormat)
    ));
}

#[test]
fn default_kdf_params_are_the_documented_ones() {
    let k = KdfParams::interactive_default();
    assert_eq!(k, KdfParams { m_cost: 65_536, t_cost: 3, p_cost: 4 });
    assert_eq!(KdfParams::default(), k);
}

#[test]
fn encrypt_rejects_out_of_range_kdf_params() {
    for bad in [
        KdfParams { m_cost: 19_455, t_cost: 1, p_cost: 1 },
        KdfParams { m_cost: 1_048_577, t_cost: 1, p_cost: 1 },
        KdfParams { m_cost: 19_456, t_cost: 0, p_cost: 1 },
        KdfParams { m_cost: 19_456, t_cost: 21, p_cost: 1 },
        KdfParams { m_cost: 19_456, t_cost: 1, p_cost: 0 },
        KdfParams { m_cost: 19_456, t_cost: 1, p_cost: 17 },
    ] {
        assert!(matches!(
            encrypt_with_params(b"x", "pw", bad),
            Err(CryptoError::InvalidFormat)
        ));
    }
}

#[test]
fn encryption_hides_the_plaintext_and_adds_a_tag() {
    let plaintext = b"attack at dawn, bring snacks";
    let blob = encrypt_with_params(plaintext, "pw", fast_params()).unwrap();
    assert_eq!(blob.kdf_params(), fast_params());
    assert_eq!(blob.salt().len(), 32);
    assert_eq!(blob.nonce().len(), 12);
    assert_eq!(blob.ciphertext().len(), plaintext.len() + 16);
    assert_ne!(&blob.ciphertext()[..plaintext.len()], &plaintext[..]);
    assert_eq!(decrypt(&blob, "pw").unwrap(), plaintext.to_vec());
}

#[test]
fn each_encryption_uses_fresh_salt_and_nonce() {
    let a = encrypt_with_params(b"same", "pw", fast_params()).unwrap();
    let b = encrypt_with_params(b"same", "pw", fast_params()).unwrap();
    assert_ne!(a.salt(), b.salt());
    assert_ne!(a.nonce(), b.nonce());
}

#[test]
fn tampered_ciphertext_fails_to_decrypt() {
    let blob = encrypt_with_params(b"secret data", "pw", fast_params()).unwrap();
    let mut ct = blob.ciphertext().to_vec();
    ct[0] ^= 1;
    let tampered = EncryptedBlob::from_raw_parts(
        blob.kdf_params(),
        blob.salt().to_vec(),
        blob.nonce().to_vec(),
        ct,
    );
    assert!(matches!(decrypt(&tampered, "pw"), Err(CryptoError::DecryptionFailed)));
}

#[test]
fn base64_roundtrip_gives_the_blob_back() {
    let blob = encrypt_with_params(b"payload", "pw", fast_params()).unwrap();
    let text = blob.to_base64();
    assert!(text.bytes().all(|b| b.is_ascii_alphanumeric() || b == b'+' || b == b'/' || b == b'='));
    let back = EncryptedBlob::from_base64(&format!("  {}\n", text)).unwrap();
    assert_eq!(back.kdf_params(), blob.kdf_params());
    assert_eq!(back.salt(), blob.salt());
    assert_eq!(back.nonce(), blob.nonce());
    assert_eq!(back.ciphertext(), blob.ciphertext());
    assert_eq!(decrypt(&back, "pw").unwrap(), b"payload".to_vec());
}

#[test]
fn binary_format_is_the_documented_layout() {
    let blob = EncryptedBlob::from_raw_parts(
        KdfParams { m_cost: 0x0001_0203, t_cost: 4, p_cost: 5 },
        vec![7u8; 32],
        vec![9u8; 12],
        vec![1u8; 16],
    );
    let bytes = blob.to_bytes();
    assert_eq!(&bytes[..4], b"SPB2");
    assert_eq!(bytes[4], 2);
    assert_eq!(&bytes[5..9], &[0, 1, 2, 3]);
    assert_eq!(&bytes[9..13], &[0, 0, 0, 4]);
    assert_eq!(&bytes[13..17], &[0, 0, 0, 5]);
    assert_eq!(&bytes[17..49], &[7u8; 32][..]);
    assert_eq!(&bytes[49..61], &[9u8; 12][..]);
    assert_eq!(&bytes[61..], &[1u8; 16][..]);
    assert_eq!(bytes.len(), 77);
}

#[test]
fn base64_text_is_the_padded_standard_encoding() {
    let zeros = EncryptedBlob::from_raw_parts(
        KdfParams::interactive_default(),
        vec![0u8; 32],
        vec![0u8; 12],
        vec![0u8; 16],
    );
    assert_eq!(
        zeros.to_base64(),
        "U1BCMgIAAQAAAAAAAwAAAAQAAAAAAAAAAAAAAAAAAAAAAAAAAAAAAAAAAAAAAAAAAAAAAAAAAAAAAAAAAAAAAAAAAAAAAAAAAAAAAAA="
    );
    let counting = EncryptedBlob::from_raw_parts(
        KdfParams::interactive_default(),
        (0u8..32).collect(),
        (0u8..12).collect(),
        (0u8..17).collect(),
    );
    let text = counting.to_base64();
    assert_eq!(
        text,
        "U1BCMgIAAQAAAAAAAwAAAAQAAQIDBAUGBwgJCgsMDQ4PEBESExQVFhcYGRobHB0eHwABAgMEBQYHCAkKCwABAgMEBQYHCAkKCwwNDg8Q"
    );
    let back = EncryptedBlob::from_base64(&text).unwrap();
    assert_eq!(back.ciphertext(), &(0u8..17).collect::<Vec<u8>>()[..]);
    // Text that is no padded encoding is refused.
    assert!(EncryptedBlob::from_base64(&format!("{}=", text)).is_err());
    // A last group whose leftover bits are not zero is refused.
    let padded = EncryptedBlob::from_raw_parts(
        KdfParams::interactive_default(),
        (0u8..32).collect(),
        (0u8..12).collect(),
        (0u8..18).collect(),
    )
    .to_base64();
    assert!(padded.ends_with("EQ=="));
    assert!(EncryptedBlob::from_base64(&padded).is_ok());
    let loose = format!("{}ER==", &padded[..padded.len() - 4]);
    assert!(matches!(EncryptedBlob::from_base64(&loose), Err(CryptoError::InvalidFormat)));
}

#[test]
fn v2_bytes_read_back() {
    let blob = EncryptedBlob::from_raw_parts(
        KdfParams { m_cost: 20_000, t_cost: 2, p_cost: 3 },
        vec![3u8; 32],
        vec![4u8; 12],
        vec![5u8; 20],
    );
    let back = EncryptedBlob::from_decoded(&blob.to_bytes()).unwrap();
    assert_eq!(back.kdf_params(), KdfParams { m_cost: 20_000, t_cost: 2, p_cost: 3 });
    assert_eq!(back.salt(), &[3u8; 32][..]);
    assert_eq!(back.nonce(), &[4u8; 12][..]);
    assert_eq!(back.ciphertext(), &[5u8; 20][..]);
}

#[test]
fn v2_with_wrong_version_or_short_input_is_refused() {
    let blob = EncryptedBlob::from_raw_parts(
        KdfParams::interactive_default(),
        vec![3u8; 32],
        vec![4u8; 12],
        vec![5u8; 16],
    );
    let mut bytes = blob.to_bytes();
    bytes[4] = 3;
    assert!(matches!(EncryptedBlob::from_decoded(&bytes), Err(CryptoError::InvalidFormat)));
    let bytes = blob.to_bytes();
    assert!(matches!(
        EncryptedBlob::from_decoded(&bytes[..76]),
        Err(CryptoError::InvalidFormat)
    ));
}

#[test]
fn v2_with_invalid_kdf_params_is_refused() {
    let blob = EncryptedBlob::from_raw_parts(
        KdfParams { m_cost: 10, t_cost: 1, p_cost: 1 },
        vec![3u8; 32],
        vec![4u8; 12],
        vec![5u8; 16],
    );
    assert!(matches!(
        EncryptedBlob::from_decoded(&blob.to_bytes()),
        Err(CryptoError::InvalidFormat)
    ));
}

#[test]
fn legacy_format_is_read_with_default_params() {
    let mut legacy = vec![32u8];
    legacy.extend_from_slice(&[1u8; 32]);
    legacy.push(12);
    legacy.extend_from_slice(&[2u8; 12]);
    legacy.extend_from_slice(&[3u8; 16]);
    let blob = EncryptedBlob::from_decoded(&legacy).unwrap();
    assert_eq!(blob.kdf_params(), KdfParams::interactive_default());
    assert_eq!(blob.salt(), &[1u8; 32][..]);
    assert_eq!(blob.nonce(), &[2u8; 12][..]);
    assert_eq!(blob.ciphertext(), &[3u8; 16][..]);
}

#[test]
fn legacy_format_with_wrong_lengths_is_refused() {
    let mut legacy = vec![16u8];
    legacy.extend_from_slice(&[1u8; 16]);
    legacy.push(12);
    legacy.extend_from_slice(&[2u8; 12]);
    legacy.extend_from_slice(&[3u8; 16]);
    assert!(matches!(EncryptedBlob::from_decoded(&legacy), Err(CryptoError::InvalidFormat)));
    assert!(matches!(EncryptedBlob::from_decoded(&[]), Err(CryptoError::InvalidFormat)));
    assert!(matches!(EncryptedBlob::from_decoded(&[200u8, 1, 2]), Err(CryptoError::InvalidFormat)));
}

#[test]
fn from_base64_refuses_empty_and_invalid_text() {
    assert!(matches!(EncryptedBlob::from_base64(""), Err(CryptoError::InvalidFormat)));
    assert!(matches!(EncryptedBlob::from_base64("   \n"), Err(CryptoError::InvalidFormat)));
    assert!(matches!(EncryptedBlob::from_base64("not base64!"), Err(CryptoError::InvalidFormat)));
    assert!(matches!(EncryptedBlob::from_base64("AAAA"), Err(CryptoError::InvalidFormat)));
}

#[test]
fn crypto_error_messages() {
    assert_eq!(CryptoError::EncryptionFailed.message(), "Encryption failed");
    assert_eq!(CryptoError::DecryptionFailed.message(), "Wrong password or corrupted vault");
    assert_eq!(CryptoError::InvalidFormat.message(), "Invalid vault format");
    assert_eq!(CryptoError::KeyDerivationFailed.message(), "Key derivation failed");
}

#[test]
fn sealing_with_given_salt_and_nonce_is_deterministic() {
    let salt = [5u8; 32];
    let nonce = [6u8; 12];
    let a = seal_with(b"payload", "pw", fast_params(), &salt, &nonce).unwrap();
    let b = seal_with(b"payload", "pw", fast_params(), &salt, &nonce).unwrap();
    assert_eq!(a.salt(), &salt[..]);
    assert_eq!(a.nonce(), &nonce[..]);
    assert_eq!(a.kdf_params(), fast_params());
    assert_eq!(a.ciphertext(), b.ciphertext());
    assert_eq!(a.ciphertext().len(), 7 + 16);
    assert_ne!(&a.ciphertext()[..7], b"payload");
    assert_eq!(decrypt(&a, "pw").unwrap(), b"payload");
    // Another salt gives another key, so another ciphertext.
    let c = seal_with(b"payload", "pw", fast_params(), &[7u8; 32], &nonce).unwrap();
    assert_ne!(a.ciphertext(), c.ciphertext());
}

#[test]
fn sealing_checks_its_parts() {
    let bad_kdf = KdfParams { m_cost: 1, t_cost: 1, p_cost: 1 };
    assert!(matches!(
        seal_with(b"x", "pw", bad_kdf, &[0u8; 32], &[0u8; 12]),
        Err(CryptoError::InvalidFormat)
    ));
    assert!(matches!(
        seal_with(b"x", "pw", fast_params(), &[0u8; 31], &[0u8; 12]),
        Err(CryptoError::InvalidFormat)
    ));
    assert!(matches!(
        seal_with(b"x", "pw", fast_params(), &[0u8; 32], &[0u8; 11]),
        Err(CryptoError::InvalidFormat)
    ));
}
