use loco_protocol::secure::crypto::CryptoStore;

#[test]
pub fn cfb128_known_vector() {
    // AES-128-CFB128 test vector: the ciphertext is a fixed function of
    // key, IV and plaintext, and differs from the plaintext.
    let store = CryptoStore::new_with_key(*b"This is the key!");
    let iv = *b"This is 16 bytes";
    let plaintext = b"This is plain text for AES";
    let expected: &[u8] = &[
        0x16, 0x94, 0x9e, 0xe0, 0x7c, 0x4b, 0x7a, 0xc2, 0x83, 0xca, 0x96, 0x4f, 0xae, 0x6a,
        0x35, 0xbc, 0x8e, 0xdb, 0x19, 0x0a, 0x4d, 0x8d, 0x19, 0x59, 0x0f, 0x2a,
    ];

    let ciphertext = store.encrypt_aes(plaintext, &iv).unwrap();
    assert_eq!(ciphertext, expected);

    let decrypted = store.decrypt_aes(&ciphertext, &iv).unwrap();
    assert_eq!(decrypted, plaintext);
}

#[test]
pub fn cfb128_round_trip() {
    // decrypt(K, iv, encrypt(K, iv, P)) == P, and the ciphertext keeps the
    // plaintext's length.
    let store = CryptoStore::new();
    let iv = [5u8; 16];
    let plaintext = vec![9u8, 8, 7, 6, 5, 4, 3, 2, 1, 0];

    let ciphertext = store.encrypt_aes(&plaintext, &iv).unwrap();
    assert_eq!(ciphertext.len(), plaintext.len());
    assert_ne!(ciphertext, plaintext);

    let decrypted = store.decrypt_aes(&ciphertext, &iv).unwrap();
    assert_eq!(decrypted, plaintext);
}

#[test]
pub fn gen_random_lengths() {
    let store = CryptoStore::new();
    assert_eq!(store.gen_random(0).len(), 0);
    assert_eq!(store.gen_random(16).len(), 16);
    // Two 16-byte draws from a CSPRNG collide with negligible probability.
    assert_ne!(store.gen_random(16), store.gen_random(16));
}
