use adb_pairing_auth::aes_128_gcm::{Aes128GcmCipher, Aes128GcmError};

#[test]
fn aes_128_gcm_test_aes_128_gcm_init_empty_material() {
    let material = &[];
    let result = Aes128GcmCipher::new(material);
    assert!(matches!(result, Err(Aes128GcmError::KeyMaterialEmpty)));
}

#[test]
fn aes_128_gcm_test_aes_128_gcm_encrypt_decrypt() {
    let msg = b"alice and bob, sitting in a binary tree";
    let material = b"test material";

    let mut alice = Aes128GcmCipher::new(material).unwrap();
    let mut bob = Aes128GcmCipher::new(material).unwrap();

    let encrypted = alice.encrypt(msg).unwrap();
    let decrypted = bob.decrypt(&encrypted).unwrap();

    assert_eq!(msg.to_vec(), decrypted);
}

#[test]
fn aes_128_gcm_ciphertext_layout() {
    // A ciphertext is the payload plus the 16-byte tag, and is never the
    // plaintext itself.
    let msg = b"some payload";
    let mut cipher = Aes128GcmCipher::new(b"material").unwrap();
    let encrypted = cipher.encrypt(msg).unwrap();
    assert_eq!(encrypted.len(), msg.len() + 16);
    assert_ne!(&encrypted[..msg.len()], msg.as_slice());
}

#[test]
fn aes_128_gcm_deterministic_at_same_index() {
    // Two ciphers derived from the same key material produce bit-identical
    // ciphertexts at the same sequence index, and never at different ones.
    let msg = b"same message";
    let material = b"shared material";

    let mut first = Aes128GcmCipher::new(material).unwrap();
    let mut second = Aes128GcmCipher::new(material).unwrap();

    let ct_index0_a = first.encrypt(msg).unwrap();
    let ct_index0_b = second.encrypt(msg).unwrap();
    assert_eq!(ct_index0_a, ct_index0_b);

    let ct_index1 = first.encrypt(msg).unwrap();
    assert_ne!(ct_index0_a, ct_index1);
}

#[test]
fn aes_128_gcm_decryption_counter_advances_in_lockstep() {
    // After N encryptions on one side, the peer decrypts the N ciphertexts
    // in order; decrypting one of them twice fails because the counter moved.
    let material = b"lockstep material";
    let mut sender = Aes128GcmCipher::new(material).unwrap();
    let mut receiver = Aes128GcmCipher::new(material).unwrap();

    let messages: [&[u8]; 3] = [b"one", b"two", b"three"];
    let mut cts = Vec::new();
    for m in messages.iter() {
        cts.push(sender.encrypt(m).unwrap());
    }
    for (m, ct) in messages.iter().zip(cts.iter()) {
        assert_eq!(receiver.decrypt(ct).unwrap(), m.to_vec());
    }
    assert!(matches!(
        receiver.decrypt(&cts[2]),
        Err(Aes128GcmError::DecryptionFailed)
    ));
}

#[test]
fn aes_128_gcm_empty_plaintext_round_trip() {
    let material = b"material for empties";
    let mut a = Aes128GcmCipher::new(material).unwrap();
    let mut b = Aes128GcmCipher::new(material).unwrap();
    let ct = a.encrypt(b"").unwrap();
    assert_eq!(ct.len(), 16);
    assert_eq!(b.decrypt(&ct).unwrap(), Vec::<u8>::new());
}

#[test]
fn aes_128_gcm_key_depends_on_material() {
    // Different key material must give a cipher that cannot read the other's
    // traffic: the derivation is not the identity on its input.
    let mut a = Aes128GcmCipher::new(b"material one").unwrap();
    let mut b = Aes128GcmCipher::new(b"material two").unwrap();
    let ct = a.encrypt(b"hello").unwrap();
    assert!(matches!(
        b.decrypt(&ct),
        Err(Aes128GcmError::DecryptionFailed)
    ));
}
