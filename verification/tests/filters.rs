//! Crypto and compression filters: round trips, tampering, and failure paths.

use fastproto::compression::CompressionProvider;
use fastproto::crypto::CryptoProvider;
use fastproto::error::ProtocolError;
use rand::Rng;

#[test]
fn test_aes_encryption() {
    let key = CryptoProvider::generate_key();
    let crypto = CryptoProvider::new_aes(&key);

    let plaintext = b"Hello, World!";
    let ciphertext = crypto.encrypt(plaintext).unwrap();
    let decrypted = crypto.decrypt(&ciphertext).unwrap();

    assert_eq!(plaintext, &decrypted[..]);
}

#[test]
fn test_chacha_encryption() {
    let key = CryptoProvider::generate_key();
    let crypto = CryptoProvider::new_chacha(&key);

    let plaintext = b"Hello, World!";
    let ciphertext = crypto.encrypt(plaintext).unwrap();
    let decrypted = crypto.decrypt(&ciphertext).unwrap();

    assert_eq!(plaintext, &decrypted[..]);
}

#[test]
fn ciphertext_is_nonce_plus_tag_longer_and_differs() {
    let key = CryptoProvider::generate_key();
    let crypto = CryptoProvider::new_aes(&key);
    let plaintext = b"some payload";
    let ciphertext = crypto.encrypt(plaintext).unwrap();
    assert_eq!(ciphertext.len(), plaintext.len() + 28);
    assert_ne!(&ciphertext[12..12 + plaintext.len()], &plaintext[..]);
}

#[test]
fn nonces_are_distinct_across_calls() {
    let key = CryptoProvider::generate_key();
    let crypto = CryptoProvider::new_chacha(&key);
    let a = crypto.encrypt(b"same input").unwrap();
    let b = crypto.encrypt(b"same input").unwrap();
    assert_ne!(a[..12], b[..12]);
    assert_ne!(a, b);
}

#[test]
fn tampering_any_ciphertext_byte_fails_authentication() {
    let key = CryptoProvider::generate_key();
    let crypto = CryptoProvider::new_aes(&key);
    let ciphertext = crypto.encrypt(b"authenticated").unwrap();
    for i in 0..ciphertext.len() {
        let mut bad = ciphertext.clone();
        bad[i] ^= 0x01;
        assert!(matches!(
            crypto.decrypt(&bad),
            Err(ProtocolError::Encryption(_))
        ));
    }
}

#[test]
fn short_ciphertext_is_an_encryption_error() {
    let key = CryptoProvider::generate_key();
    let crypto = CryptoProvider::new_aes(&key);
    assert!(matches!(
        crypto.decrypt(&[0u8; 11]),
        Err(ProtocolError::Encryption(_))
    ));
}

#[test]
fn wrong_key_fails_authentication() {
    let crypto_a = CryptoProvider::new_aes(&CryptoProvider::generate_key());
    let crypto_b = CryptoProvider::new_aes(&CryptoProvider::generate_key());
    let ciphertext = crypto_a.encrypt(b"secret").unwrap();
    assert!(matches!(
        crypto_b.decrypt(&ciphertext),
        Err(ProtocolError::Encryption(_))
    ));
}

#[test]
fn empty_plaintext_round_trips_under_both_ciphers() {
    let key = CryptoProvider::generate_key();
    for crypto in [CryptoProvider::new_aes(&key), CryptoProvider::new_chacha(&key)] {
        let ciphertext = crypto.encrypt(b"").unwrap();
        assert_eq!(ciphertext.len(), 28);
        assert_eq!(crypto.decrypt(&ciphertext).unwrap(), Vec::<u8>::new());
    }
}

#[test]
fn test_zstd_compression() {
    let compressor = CompressionProvider::new_zstd(3);
    let data = b"Hello, World! This is a test message for compression.";

    let compressed = compressor.compress(data).unwrap();
    let decompressed = compressor.decompress(&compressed).unwrap();

    assert_eq!(data, &decompressed[..]);
}

#[test]
fn test_lz4_compression() {
    let compressor = CompressionProvider::new_lz4(4);
    let data = b"Hello, World! This is a test message for compression.";

    let compressed = compressor.compress(data).unwrap();
    let decompressed = compressor.decompress(&compressed).unwrap();

    assert_eq!(data, &decompressed[..]);
}

#[test]
fn empty_input_round_trips_under_both_codecs() {
    for provider in [CompressionProvider::new_zstd(3), CompressionProvider::new_lz4(1)] {
        let compressed = provider.compress(b"").unwrap();
        assert_eq!(provider.decompress(&compressed).unwrap(), Vec::<u8>::new());
    }
}

#[test]
fn one_mebibyte_of_random_bytes_round_trips() {
    let mut data = vec![0u8; 1 << 20];
    rand::thread_rng().fill(&mut data[..]);
    for provider in [CompressionProvider::new_zstd(3), CompressionProvider::new_lz4(1)] {
        let compressed = provider.compress(&data).unwrap();
        let decompressed = provider.decompress(&compressed).unwrap();
        assert_eq!(decompressed, data);
    }
}

#[test]
fn compressible_data_shrinks_and_garbage_fails() {
    let data = vec![b'z'; 100_000];
    let provider = CompressionProvider::new_zstd(3);
    let compressed = provider.compress(&data).unwrap();
    assert!(compressed.len() < data.len());
    assert!(matches!(
        provider.decompress(b"not a zstd frame"),
        Err(ProtocolError::Compression(_))
    ));
    let lz4 = CompressionProvider::new_lz4(1);
    assert!(matches!(
        lz4.decompress(b"not an lz4 frame"),
        Err(ProtocolError::Compression(_))
    ));
}
