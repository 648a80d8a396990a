use adb_pairing_auth::android_pubkey::encode_android_pubkey;

#[test]
fn android_pubkey_layout() {
    let modulus = [0xaa_u8; 256];
    let rr = [0xbb_u8; 256];
    let encoded = encode_android_pubkey(0x1234_5678, &modulus, &rr, 65537);
    assert_eq!(encoded.len(), 524);
    // Word count of the 2048-bit modulus, little-endian.
    assert_eq!(&encoded[0..4], &[64, 0, 0, 0]);
    // n0inv, little-endian.
    assert_eq!(&encoded[4..8], &[0x78, 0x56, 0x34, 0x12]);
    // The modulus and rr bodies.
    assert_eq!(&encoded[8..264], &modulus[..]);
    assert_eq!(&encoded[264..520], &rr[..]);
    // The exponent 65537, little-endian.
    assert_eq!(&encoded[520..524], &[0x01, 0x00, 0x01, 0x00]);
}
