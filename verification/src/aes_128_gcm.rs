use vstd::prelude::*;
use aes_gcm::aead::Aead;
use aes_gcm::KeyInit;

verus! {

use vstd::bytes::spec_u64_to_le_bytes;
use vstd::bytes::u64_to_le_bytes;
use vstd::string::StringSliceAdditionalSpecFns;

/// Error taxonomy of the AES-128-GCM pairing cipher.
#[derive(Debug, Clone, Copy, PartialEq, Eq, Structural)]
pub enum Aes128GcmError {
    /// Cipher construction was given zero-length key material.
    KeyMaterialEmpty,
    /// HKDF could not produce the requested key length.
    HkdfInvalidLength,
    /// The AEAD primitive reported a failure on encryption.
    EncryptionFailed,
    /// Authentication-tag verification failed on decryption.
    DecryptionFailed,
}

/// Length in bytes of the GCM authentication tag that every ciphertext
/// carries after its payload.
pub open spec fn tag_len() -> nat {
    16
}

/// Largest plaintext length in bytes that one AES-GCM encryption accepts
/// (the NIST SP 800-38D limit of 2^36 - 32 bytes).
pub open spec fn max_plaintext_len() -> nat {
    0xF_FFFF_FFE0
}

/// The info string bound into the HKDF expansion of the pairing key.
pub open spec fn pairing_info() -> Seq<u8> {
    "adb pairing_auth aes-128-gcm key".spec_bytes()
}

/// The ciphertext (payload followed by the 16-byte tag) that AES-128-GCM
/// produces from `key`, `nonce` and `plaintext`. The primitive is a pure
/// function of these three arguments, so the sealing can be given a name.
pub uninterp spec fn aes128_gcm_seal(key: Seq<u8>, nonce: Seq<u8>, plaintext: Seq<u8>) -> Seq<u8>;

/// The 16-byte key that HKDF-SHA256 (extract with no salt, then expand with
/// `info`) derives from the key material `ikm`.
pub uninterp spec fn hkdf_sha256_key16(ikm: Seq<u8>, info: Seq<u8>) -> Seq<u8>;

#[verifier::external_type_specification]
#[verifier::external_body]
pub struct ExHkdfInvalidLength(hkdf::InvalidLength);

#[verifier::external_type_specification]
#[verifier::external_body]
pub struct ExAeadError(aes_gcm::aead::Error);

/// Relies on hkdf::Hkdf::<Sha256>::new (HKDF-Extract with no salt) and
/// hkdf::Hkdf::expand: the output keying material is a function of `ikm` and
/// `info` alone, and expand reports InvalidLength only for requests longer
/// than 255 hash outputs, so a 16-byte request always succeeds.
#[verifier::external_body]
fn hkdf_derive_key16(ikm: &[u8], info: &[u8]) -> (r: Result<[u8; 16], hkdf::InvalidLength>)
    ensures
        match r {
            Ok(okm) => okm@ == hkdf_sha256_key16(ikm@, info@),
            Err(_) => false,
        },
{
    let hk = hkdf::Hkdf::<sha2::Sha256>::new(None, ikm);
    let mut okm = [0u8; 16];
    match hk.expand(info, &mut okm) {
        Ok(()) => Ok(okm),
        Err(e) => Err(e),
    }
}

/// Relies on aes_gcm::Aes128Gcm through aead::Aead::encrypt: AES-128-GCM is
/// deterministic in key, nonce and plaintext, appends the 16-byte tag to the
/// payload, and fails exactly when the plaintext exceeds the GCM length bound
/// (there is no associated data here).
#[verifier::external_body]
fn aes128_gcm_encrypt(key: &[u8; 16], nonce: &Vec<u8>, data: &[u8]) -> (r: Result<
    Vec<u8>,
    aes_gcm::aead::Error,
>)
    requires
        nonce@.len() == 12,
    ensures
        match r {
            Ok(ct) => {
                &&& ct@ == aes128_gcm_seal(key@, nonce@, data@)
                &&& ct@.len() == data@.len() + tag_len()
                &&& data@.len() <= max_plaintext_len()
            },
            Err(_) => data@.len() > max_plaintext_len(),
        },
{
    let cipher = aes_gcm::Aes128Gcm::new(&(*key).into());
    let nonce_arr = aes_gcm::Nonce::try_from(&nonce[..]).expect("nonce is 12 bytes");
    cipher.encrypt(&nonce_arr, data)
}

/// Relies on aes_gcm::Aes128Gcm through aead::Aead::decrypt: decrypting the
/// sealing of a plaintext under the same key and nonce recovers exactly that
/// plaintext, and a byte string that is not the sealing of any plaintext of
/// the matching length is reported as an error.
#[verifier::external_body]
fn aes128_gcm_decrypt(key: &[u8; 16], nonce: &Vec<u8>, data: &[u8]) -> (r: Result<
    Vec<u8>,
    aes_gcm::aead::Error,
>)
    requires
        nonce@.len() == 12,
    ensures
        match r {
            Ok(pt) => {
                &&& data@ == aes128_gcm_seal(key@, nonce@, pt@)
                &&& data@.len() == pt@.len() + tag_len()
                &&& pt@.len() <= max_plaintext_len()
                &&& forall|q: Seq<u8>|
                    q.len() == pt@.len() && data@ == aes128_gcm_seal(key@, nonce@, q) ==> q =~= pt@
            },
            Err(_) => forall|q: Seq<u8>|
                q.len() + tag_len() == data@.len() && q.len() <= max_plaintext_len()
                    ==> data@ != aes128_gcm_seal(key@, nonce@, q),
        },
{
    let cipher = aes_gcm::Aes128Gcm::new(&(*key).into());
    let nonce_arr = aes_gcm::Nonce::try_from(&nonce[..]).expect("nonce is 12 bytes");
    cipher.decrypt(&nonce_arr, data)
}

impl From<hkdf::InvalidLength> for Aes128GcmError {
    /// The HKDF length error folded into the cipher error taxonomy.
    fn from(e: hkdf::InvalidLength) -> (r: Self) {
        Aes128GcmError::HkdfInvalidLength
    }
}

impl vstd::std_specs::convert::FromSpecImpl<hkdf::InvalidLength> for Aes128GcmError {
    open spec fn obeys_from_spec() -> bool {
        true
    }

    open spec fn from_spec(e: hkdf::InvalidLength) -> Self {
        Aes128GcmError::HkdfInvalidLength
    }
}

/// The 12-byte nonce used for the operation numbered `counter` in one
/// direction: the counter in little-endian order in bytes 0 to 7, zeros in
/// bytes 8 to 11.
pub open spec fn nonce_for(counter: u64) -> Seq<u8> {
    spec_u64_to_le_bytes(counter) + seq![0u8, 0u8, 0u8, 0u8]
}

/// The nonce layout: twelve bytes, the counter little-endian in the low
/// eight bytes, zeros in the remaining four — so the nonce of the operation
/// numbered N carries N itself.
pub proof fn lemma_nonce_layout(counter: u64)
    ensures
        nonce_for(counter).len() == 12,
        nonce_for(counter).subrange(0, 8) == spec_u64_to_le_bytes(counter),
        forall|i: int| 8 <= i < 12 ==> nonce_for(counter)[i] == 0u8,
{
    vstd::bytes::lemma_auto_spec_u64_to_from_le_bytes();
    assert(nonce_for(counter).subrange(0, 8) =~= spec_u64_to_le_bytes(counter));
}

/// Distinct counters yield distinct nonces, so a cipher whose counters only
/// grow never hands the same (key, nonce) pair to GCM twice in one direction.
pub proof fn lemma_nonce_injective(a: u64, b: u64)
    ensures
        nonce_for(a) == nonce_for(b) ==> a == b,
{
    vstd::bytes::lemma_auto_spec_u64_to_from_le_bytes();
    if nonce_for(a) == nonce_for(b) {
        assert(spec_u64_to_le_bytes(a) =~= nonce_for(a).subrange(0, 8));
        assert(spec_u64_to_le_bytes(b) =~= nonce_for(b).subrange(0, 8));
    }
}

fn nonce_bytes(counter: u64) -> (v: Vec<u8>)
    ensures
        v@ == nonce_for(counter),
        v@.len() == 12,
{
    let mut v = u64_to_le_bytes(counter);
    v.push(0);
    v.push(0);
    v.push(0);
    v.push(0);
    proof {
        vstd::bytes::lemma_auto_spec_u64_to_from_le_bytes();
        assert(v@ =~= nonce_for(counter));
    }
    v
}

/// An AES-128-GCM session cipher: the derived key plus one monotonically
/// increasing sequence counter per direction. The counter of a direction
/// determines the nonce of the next operation in that direction, so no
/// (key, nonce) pair is ever reused while the counters only grow.
pub struct Aes128GcmCipher {
    key: [u8; 16],
    enc_sequence: u64,
    dec_sequence: u64,
}

impl Aes128GcmCipher {
    /// The derived AES-128 key.
    pub closed spec fn key(self) -> Seq<u8> {
        self.key@
    }

    /// How many encryptions have succeeded; the nonce the next one will use.
    pub closed spec fn enc_sequence(self) -> u64 {
        self.enc_sequence
    }

    /// How many decryptions have succeeded; the nonce the next one will use.
    pub closed spec fn dec_sequence(self) -> u64 {
        self.dec_sequence
    }

    /// Derives the session key from `key_material` and starts both sequence
    /// counters at zero. Rejects empty key material before any derivation is
    /// attempted; accepts everything else.
    pub fn new(key_material: &[u8]) -> (r: Result<Self, Aes128GcmError>)
        ensures
            match r {
                Ok(c) => {
                    &&& key_material@.len() > 0
                    &&& c.key() == hkdf_sha256_key16(key_material@, pairing_info())
                    &&& c.enc_sequence() == 0
                    &&& c.dec_sequence() == 0
                },
                Err(e) => {
                    &&& e == Aes128GcmError::KeyMaterialEmpty
                    &&& key_material@.len() == 0
                },
            },
    {
        if key_material.len() == 0 {
            return Err(Aes128GcmError::KeyMaterialEmpty);
        }
        let info: &[u8] = "adb pairing_auth aes-128-gcm key".as_bytes();
        match hkdf_derive_key16(key_material, info) {
            Ok(okm) => Ok(Aes128GcmCipher { key: okm, enc_sequence: 0, dec_sequence: 0 }),
            Err(_) => Err(Aes128GcmError::HkdfInvalidLength),
        }
    }

    /// Encrypts one whole plaintext with the nonce of the current encryption
    /// counter and advances that counter by exactly one on success; a failed
    /// encryption leaves the cipher unchanged. The decryption counter never
    /// moves.
    pub fn encrypt(&mut self, data: &[u8]) -> (r: Result<Vec<u8>, Aes128GcmError>)
        requires
            old(self).enc_sequence() < u64::MAX,
        ensures
            match r {
                Ok(ct) => {
                    &&& ct@ == aes128_gcm_seal(
                        old(self).key(),
                        nonce_for(old(self).enc_sequence()),
                        data@,
                    )
                    &&& ct@.len() == data@.len() + tag_len()
                    &&& data@.len() <= max_plaintext_len()
                    &&& final(self).key() == old(self).key()
                    &&& final(self).enc_sequence() == old(self).enc_sequence() + 1
                    &&& final(self).dec_sequence() == old(self).dec_sequence()
                },
                Err(e) => {
                    &&& e == Aes128GcmError::EncryptionFailed
                    &&& data@.len() > max_plaintext_len()
                    &&& *final(self) == *old(self)
                },
            },
    {
        let nonce = nonce_bytes(self.enc_sequence);
        match aes128_gcm_encrypt(&self.key, &nonce, data) {
            Ok(ct) => {
                self.enc_sequence = self.enc_sequence + 1;
                Ok(ct)
            },
            Err(_) => Err(Aes128GcmError::EncryptionFailed),
        }
    }

    /// Decrypts one whole ciphertext with the nonce of the current decryption
    /// counter and advances that counter by exactly one on success. A failed
    /// verification reports DecryptionFailed and leaves the cipher unchanged,
    /// so a later ciphertext for the same sequence position can still be
    /// decrypted. The encryption counter never moves.
    pub fn decrypt(&mut self, data: &[u8]) -> (r: Result<Vec<u8>, Aes128GcmError>)
        requires
            old(self).dec_sequence() < u64::MAX,
        ensures
            match r {
                Ok(pt) => {
                    &&& data@ == aes128_gcm_seal(
                        old(self).key(),
                        nonce_for(old(self).dec_sequence()),
                        pt@,
                    )
                    &&& data@.len() == pt@.len() + tag_len()
                    &&& forall|q: Seq<u8>|
                        q.len() == pt@.len() && data@ == aes128_gcm_seal(
                            old(self).key(),
                            nonce_for(old(self).dec_sequence()),
                            q,
                        ) ==> q =~= pt@
                    &&& final(self).key() == old(self).key()
                    &&& final(self).dec_sequence() == old(self).dec_sequence() + 1
                    &&& final(self).enc_sequence() == old(self).enc_sequence()
                },
                Err(e) => {
                    &&& e == Aes128GcmError::DecryptionFailed
                    &&& *final(self) == *old(self)
                    &&& forall|q: Seq<u8>|
                        q.len() + tag_len() == data@.len() && q.len() <= max_plaintext_len()
                            ==> data@ != aes128_gcm_seal(
                            old(self).key(),
                            nonce_for(old(self).dec_sequence()),
                            q,
                        )
                },
            },
    {
        let nonce = nonce_bytes(self.dec_sequence);
        match aes128_gcm_decrypt(&self.key, &nonce, data) {
            Ok(pt) => {
                self.dec_sequence = self.dec_sequence + 1;
                Ok(pt)
            },
            Err(_) => Err(Aes128GcmError::DecryptionFailed),
        }
    }
}

/// What a matched pair of ciphers guarantees: if two ciphers hold the same
/// key and the receiver's decryption counter equals the sender's encryption
/// counter, then decrypting what encrypt produced recovers the plaintext
/// exactly, and both counters advance in lockstep by one.
pub fn round_trip(sender: &mut Aes128GcmCipher, receiver: &mut Aes128GcmCipher, data: &[u8]) -> (r:
    Result<Vec<u8>, Aes128GcmError>)
    requires
        old(sender).key() == old(receiver).key(),
        old(receiver).dec_sequence() == old(sender).enc_sequence(),
        old(sender).enc_sequence() < u64::MAX,
    ensures
        match r {
            Ok(pt) => {
                &&& pt@ == data@
                &&& final(sender).enc_sequence() == old(sender).enc_sequence() + 1
                &&& final(receiver).dec_sequence() == old(receiver).dec_sequence() + 1
            },
            Err(e) => {
                &&& e == Aes128GcmError::EncryptionFailed
                &&& data@.len() > max_plaintext_len()
            },
        },
{
    let ct = match sender.encrypt(data) {
        Ok(ct) => ct,
        Err(e) => {
            return Err(e);
        },
    };
    let pt = match receiver.decrypt(ct.as_slice()) {
        Ok(pt) => pt,
        Err(e) => {
            proof {
                let key = old(sender).key();
                let nonce = nonce_for(old(sender).enc_sequence());
                assert(data@.len() + tag_len() == ct@.len() && data@.len()
                    <= max_plaintext_len());
                assert(ct@ != aes128_gcm_seal(key, nonce, data@));
                assert(false);
            }
            return Err(e);
        },
    };
    proof {
        let key = old(sender).key();
        let nonce = nonce_for(old(sender).enc_sequence());
        assert(pt@.len() == data@.len());
        assert(ct@ == aes128_gcm_seal(key, nonce, data@));
        assert(data@ =~= pt@);
    }
    Ok(pt)
}

} // verus!
