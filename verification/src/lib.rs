pub mod aes_128_gcm;
pub mod android_pubkey;
pub mod protocol_io;
pub mod trace;
pub mod types;

use vstd::prelude::*;

verus! {

use crate::aes_128_gcm::Aes128GcmCipher;
use crate::aes_128_gcm::Aes128GcmError;
use crate::aes_128_gcm::aes128_gcm_seal;
use crate::aes_128_gcm::max_plaintext_len;
use crate::aes_128_gcm::nonce_for;
use crate::aes_128_gcm::tag_len;

/// Error taxonomy of the pairing authentication protocol.
#[derive(Debug, Clone, Copy, PartialEq, Eq, Structural)]
pub enum PairingAuthError {
    /// The SPAKE2 primitive rejected the peer's exchange message.
    Spake2Error,
    /// The AES-128-GCM cipher reported an error.
    CipherError(Aes128GcmError),
    /// The password was empty.
    PasswordEmpty,
    /// Encrypt or decrypt was called before the exchange finished.
    CipherNotInitialized,
    /// The exchange was finished once already.
    AlreadyInitialized,
}

/// The role of the pairing participant. It selects which protocol-fixed
/// identity this side presents to SPAKE2 and which message-start variant is
/// used; the client is always SPAKE2's side A, the server side B.
pub enum Role {
    /// The client role.
    Client,
    /// The server role.
    Server,
}

/// Opaque SPAKE2 protocol state over the Ed25519 group. The struct only
/// carries the outside crate's state machine through the library; nothing
/// about a value of it is claimed. It is a wrapper of the library's own
/// because spake2::Spake2 is generic over spake2's Group trait, which a
/// direct type declaration cannot name.
#[verifier::external_body]
struct ExchangeState {
    inner: spake2::Spake2<spake2::Ed25519Group>,
}

#[verifier::external_type_specification]
#[verifier::external_body]
pub struct ExSpake2Error(spake2::Error);

/// Byte length of a SPAKE2 exchange message over the Ed25519 group: one side
/// byte followed by the 32-byte compressed group element.
pub open spec fn exchange_msg_len() -> nat {
    33
}

/// Relies on spake2::Spake2::<Ed25519Group>::start_a: it returns the protocol
/// state together with the outbound message, which is the side byte followed
/// by the 32-byte group element. The message embeds a random scalar, so
/// nothing beyond its length can be promised.
#[verifier::external_body]
fn spake2_start_client(pswd: &[u8], client_id: &[u8], server_id: &[u8]) -> (r: (
    ExchangeState,
    Vec<u8>,
))
    ensures
        r.1@.len() == exchange_msg_len(),
{
    let password = spake2::Password::new(pswd);
    let id_a = spake2::Identity::new(client_id);
    let id_b = spake2::Identity::new(server_id);
    let (state, msg) = spake2::Spake2::<spake2::Ed25519Group>::start_a(&password, &id_a, &id_b);
    (ExchangeState { inner: state }, msg)
}

/// Relies on spake2::Spake2::<Ed25519Group>::start_b: the side B counterpart
/// of start_a, with the same shape of result.
#[verifier::external_body]
fn spake2_start_server(pswd: &[u8], client_id: &[u8], server_id: &[u8]) -> (r: (
    ExchangeState,
    Vec<u8>,
))
    ensures
        r.1@.len() == exchange_msg_len(),
{
    let password = spake2::Password::new(pswd);
    let id_a = spake2::Identity::new(client_id);
    let id_b = spake2::Identity::new(server_id);
    let (state, msg) = spake2::Spake2::<spake2::Ed25519Group>::start_b(&password, &id_a, &id_b);
    (ExchangeState { inner: state }, msg)
}

/// Relies on spake2::Spake2::finish: it consumes the protocol state, rejects
/// any peer message that is not exactly 1 + 32 bytes (and may reject one with
/// a wrong side byte or a byte string that is no curve point), and on success
/// returns the 32-byte SHA-256 transcript hash as the shared key material.
#[verifier::external_body]
fn spake2_finish(state: ExchangeState, their_msg: &[u8]) -> (r: Result<
    Vec<u8>,
    spake2::Error,
>)
    ensures
        match r {
            Ok(k) => k@.len() == 32 && their_msg@.len() == exchange_msg_len(),
            Err(_) => true,
        },
        their_msg@.len() != exchange_msg_len() ==> r is Err,
{
    state.inner.finish(their_msg)
}

impl From<Aes128GcmError> for PairingAuthError {
    /// A cipher error carried into the pairing error taxonomy.
    fn from(e: Aes128GcmError) -> (r: Self) {
        PairingAuthError::CipherError(e)
    }
}

impl vstd::std_specs::convert::FromSpecImpl<Aes128GcmError> for PairingAuthError {
    open spec fn obeys_from_spec() -> bool {
        true
    }

    open spec fn from_spec(e: Aes128GcmError) -> Self {
        PairingAuthError::CipherError(e)
    }
}

impl From<spake2::Error> for PairingAuthError {
    /// Every SPAKE2 failure folds into the one key-exchange error, so that
    /// the kind of rejection leaks nothing.
    fn from(e: spake2::Error) -> (r: Self) {
        PairingAuthError::Spake2Error
    }
}

impl vstd::std_specs::convert::FromSpecImpl<spake2::Error> for PairingAuthError {
    open spec fn obeys_from_spec() -> bool {
        true
    }

    open spec fn from_spec(e: spake2::Error) -> Self {
        PairingAuthError::Spake2Error
    }
}

/// A pairing context built with the builder pattern: the exchange state and
/// the outbound message, and nothing else. Finishing the exchange consumes
/// the builder, so a second finish is impossible by construction.
pub struct PairingAuthCtxBuilder {
    state: ExchangeState,
    our_msg: Vec<u8>,
}

impl PairingAuthCtxBuilder {
    /// The outbound exchange message.
    pub closed spec fn msg_view(self) -> Seq<u8> {
        self.our_msg@
    }

    /// Creates a new builder: rejects an empty password before any exchange
    /// state is created, and otherwise starts a SPAKE2 exchange over Ed25519
    /// with the protocol-fixed client and server identities.
    pub fn new(pswd: &[u8], role: Role) -> (r: Result<Self, PairingAuthError>)
        ensures
            match r {
                Ok(b) => pswd@.len() > 0 && b.msg_view().len() == exchange_msg_len(),
                Err(e) => e == PairingAuthError::PasswordEmpty && pswd@.len() == 0,
            },
    {
        if pswd.len() == 0 {
            return Err(PairingAuthError::PasswordEmpty);
        }
        let client_id: &[u8] = "adb pair client".as_bytes();
        let server_id: &[u8] = "adb pair server".as_bytes();
        let (state, our_msg) = match role {
            Role::Client => spake2_start_client(pswd, client_id, server_id),
            Role::Server => spake2_start_server(pswd, client_id, server_id),
        };
        Ok(PairingAuthCtxBuilder { state, our_msg })
    }

    /// Returns the message to be sent to the other party; pure and callable
    /// any number of times.
    pub fn msg(&self) -> (m: &[u8])
        ensures
            m@ == self.msg_view(),
    {
        self.our_msg.as_slice()
    }

    /// Finishes the exchange with the peer's message and initializes the
    /// cipher, consuming the builder. The key material SPAKE2 yields is 32
    /// bytes, so the cipher construction itself cannot fail; every failure
    /// here is the SPAKE2 primitive rejecting the peer message.
    pub fn init_cipher(self, their_msg: &[u8]) -> (r: Result<PairingAuthCtx, PairingAuthError>)
        ensures
            match r {
                Ok(ctx) => {
                    &&& their_msg@.len() == exchange_msg_len()
                    &&& ctx.is_ready()
                    &&& !ctx.exchange_pending()
                    &&& ctx.enc_sequence() == 0
                    &&& ctx.dec_sequence() == 0
                    &&& ctx.msg_view() == self.msg_view()
                },
                Err(e) => e == PairingAuthError::Spake2Error,
            },
            their_msg@.len() != exchange_msg_len() ==> r is Err,
    {
        let key_material = match spake2_finish(self.state, their_msg) {
            Ok(k) => k,
            Err(_) => {
                return Err(PairingAuthError::Spake2Error);
            },
        };
        let cipher = match Aes128GcmCipher::new(key_material.as_slice()) {
            Ok(c) => c,
            Err(e) => {
                return Err(PairingAuthError::CipherError(e));
            },
        };
        Ok(PairingAuthCtx { state: None, our_msg: self.our_msg, cipher: Some(cipher) })
    }
}

/// A pairing authentication context. Freshly constructed it holds only the
/// exchange state and the outbound message; finishing the exchange swaps the
/// state for a ready cipher, exactly once.
pub struct PairingAuthCtx {
    state: Option<ExchangeState>,
    our_msg: Vec<u8>,
    cipher: Option<Aes128GcmCipher>,
}

impl PairingAuthCtx {
    /// The outbound exchange message.
    pub closed spec fn msg_view(self) -> Seq<u8> {
        self.our_msg@
    }

    /// Whether the exchange may still be finished.
    pub closed spec fn exchange_pending(self) -> bool {
        self.state is Some
    }

    /// Whether the cipher is initialized, so encrypt and decrypt work.
    pub closed spec fn is_ready(self) -> bool {
        self.cipher is Some
    }

    /// The derived session key, once ready.
    pub closed spec fn key(self) -> Seq<u8> {
        self.cipher->Some_0.key()
    }

    /// The encryption counter, once ready; zero before that.
    pub closed spec fn enc_sequence(self) -> u64 {
        if self.cipher is Some {
            self.cipher->Some_0.enc_sequence()
        } else {
            0
        }
    }

    /// The decryption counter, once ready; zero before that.
    pub closed spec fn dec_sequence(self) -> u64 {
        if self.cipher is Some {
            self.cipher->Some_0.dec_sequence()
        } else {
            0
        }
    }

    /// Creates a new pairing context: rejects an empty password before any
    /// exchange state is created, and otherwise starts a SPAKE2 exchange over
    /// Ed25519 with the protocol-fixed client and server identities.
    pub fn new(pswd: &[u8], role: Role) -> (r: Result<Self, PairingAuthError>)
        ensures
            match r {
                Ok(c) => {
                    &&& pswd@.len() > 0
                    &&& c.exchange_pending()
                    &&& !c.is_ready()
                    &&& c.msg_view().len() == exchange_msg_len()
                },
                Err(e) => e == PairingAuthError::PasswordEmpty && pswd@.len() == 0,
            },
    {
        if pswd.len() == 0 {
            return Err(PairingAuthError::PasswordEmpty);
        }
        let client_id: &[u8] = "adb pair client".as_bytes();
        let server_id: &[u8] = "adb pair server".as_bytes();
        let (state, our_msg) = match role {
            Role::Client => spake2_start_client(pswd, client_id, server_id),
            Role::Server => spake2_start_server(pswd, client_id, server_id),
        };
        Ok(PairingAuthCtx { state: Some(state), our_msg, cipher: None })
    }

    /// Returns the message to be sent to the other party; pure and callable
    /// any number of times.
    pub fn msg(&self) -> (m: &[u8])
        ensures
            m@ == self.msg_view(),
    {
        self.our_msg.as_slice()
    }

    /// Finishes the exchange with the peer's message and initializes the
    /// cipher. The exchange state is consumed even when the peer message is
    /// rejected, so this transition can be attempted only once; a second call
    /// reports AlreadyInitialized.
    pub fn init_cipher(&mut self, their_msg: &[u8]) -> (r: Result<(), PairingAuthError>)
        ensures
            final(self).msg_view() == old(self).msg_view(),
            !final(self).exchange_pending(),
            match r {
                Ok(()) => {
                    &&& old(self).exchange_pending()
                    &&& their_msg@.len() == exchange_msg_len()
                    &&& final(self).is_ready()
                    &&& final(self).enc_sequence() == 0
                    &&& final(self).dec_sequence() == 0
                },
                Err(e) => {
                    &&& final(self).is_ready() == old(self).is_ready()
                    &&& final(self).key() == old(self).key()
                    &&& final(self).enc_sequence() == old(self).enc_sequence()
                    &&& final(self).dec_sequence() == old(self).dec_sequence()
                    &&& if old(self).exchange_pending() {
                        e == PairingAuthError::Spake2Error
                    } else {
                        e == PairingAuthError::AlreadyInitialized
                    }
                },
            },
            old(self).exchange_pending() && their_msg@.len() != exchange_msg_len() ==> r is Err,
    {
        let state = match self.state.take() {
            Some(s) => s,
            None => {
                return Err(PairingAuthError::AlreadyInitialized);
            },
        };
        let key_material = match spake2_finish(state, their_msg) {
            Ok(k) => k,
            Err(_) => {
                return Err(PairingAuthError::Spake2Error);
            },
        };
        let cipher = match Aes128GcmCipher::new(key_material.as_slice()) {
            Ok(c) => c,
            Err(e) => {
                return Err(PairingAuthError::CipherError(e));
            },
        };
        self.cipher = Some(cipher);
        Ok(())
    }

    /// Encrypts one payload with the ready cipher; before the exchange is
    /// finished it reports CipherNotInitialized and changes nothing.
    pub fn encrypt(&mut self, data: &[u8]) -> (r: Result<Vec<u8>, PairingAuthError>)
        requires
            old(self).enc_sequence() < u64::MAX,
        ensures
            final(self).msg_view() == old(self).msg_view(),
            final(self).is_ready() == old(self).is_ready(),
            final(self).exchange_pending() == old(self).exchange_pending(),
            match r {
                Ok(ct) => {
                    &&& old(self).is_ready()
                    &&& ct@ == aes128_gcm_seal(
                        old(self).key(),
                        nonce_for(old(self).enc_sequence()),
                        data@,
                    )
                    &&& ct@.len() == data@.len() + tag_len()
                    &&& data@.len() <= max_plaintext_len()
                    &&& final(self).key() == old(self).key()
                    &&& final(self).enc_sequence() == old(self).enc_sequence() + 1
                    &&& final(self).dec_sequence() == old(self).dec_sequence()
                },
                Err(e) => {
                    &&& *final(self) == *old(self)
                    &&& if old(self).is_ready() {
                        e == PairingAuthError::CipherError(Aes128GcmError::EncryptionFailed)
                            && data@.len() > max_plaintext_len()
                    } else {
                        e == PairingAuthError::CipherNotInitialized
                    }
                },
            },
    {
        match &mut self.cipher {
            Some(cipher) => match cipher.encrypt(data) {
                Ok(ct) => Ok(ct),
                Err(e) => Err(PairingAuthError::CipherError(e)),
            },
            None => Err(PairingAuthError::CipherNotInitialized),
        }
    }

    /// Decrypts one ciphertext with the ready cipher; before the exchange is
    /// finished it reports CipherNotInitialized and changes nothing, and a
    /// failed authentication leaves the decryption counter where it was.
    pub fn decrypt(&mut self, data: &[u8]) -> (r: Result<Vec<u8>, PairingAuthError>)
        requires
            old(self).dec_sequence() < u64::MAX,
        ensures
            final(self).msg_view() == old(self).msg_view(),
            final(self).is_ready() == old(self).is_ready(),
            final(self).exchange_pending() == old(self).exchange_pending(),
            match r {
                Ok(pt) => {
                    &&& old(self).is_ready()
                    &&& data@ == aes128_gcm_seal(
                        old(self).key(),
                        nonce_for(old(self).dec_sequence()),
                        pt@,
                    )
                    &&& data@.len() == pt@.len() + tag_len()
                    &&& forall|q: Seq<u8>|
                        q.len() == pt@.len() && data@ == aes128_gcm_seal(
                            old(self).key(),
                            nonce_for(old(self).dec_sequence()),
                            q,
                        ) ==> q =~= pt@
                    &&& final(self).key() == old(self).key()
                    &&& final(self).dec_sequence() == old(self).dec_sequence() + 1
                    &&& final(self).enc_sequence() == old(self).enc_sequence()
                },
                Err(e) => {
                    &&& *final(self) == *old(self)
                    &&& if old(self).is_ready() {
                        e == PairingAuthError::CipherError(Aes128GcmError::DecryptionFailed)
                            && (forall|q: Seq<u8>|
                            q.len() + tag_len() == data@.len() && q.len() <= max_plaintext_len()
                                ==> data@ != aes128_gcm_seal(
                                old(self).key(),
                                nonce_for(old(self).dec_sequence()),
                                q,
                            ))
                    } else {
                        e == PairingAuthError::CipherNotInitialized
                    }
                },
            },
    {
        match &mut self.cipher {
            Some(cipher) => match cipher.decrypt(data) {
                Ok(pt) => Ok(pt),
                Err(e) => Err(PairingAuthError::CipherError(e)),
            },
            None => Err(PairingAuthError::CipherNotInitialized),
        }
    }
}

/// What a finished pairing guarantees on a faithful channel: if both sides
/// derived the same session key and the receiver's decryption counter stands
/// where the sender's encryption counter stands, then the receiver decrypts
/// exactly the bytes the sender encrypted, and both counters advance in
/// lockstep by one. Whether the two keys agree is what the SPAKE2 exchange
/// decides: it makes them agree exactly when both sides hold the same
/// password.
pub fn pairing_round_trip(
    sender: &mut PairingAuthCtx,
    receiver: &mut PairingAuthCtx,
    data: &[u8],
) -> (r: Result<Vec<u8>, PairingAuthError>)
    requires
        old(sender).is_ready(),
        old(receiver).is_ready(),
        old(sender).key() == old(receiver).key(),
        old(receiver).dec_sequence() == old(sender).enc_sequence(),
        old(sender).enc_sequence() < u64::MAX,
    ensures
        match r {
            Ok(pt) => {
                &&& pt@ == data@
                &&& final(sender).enc_sequence() == old(sender).enc_sequence() + 1
                &&& final(receiver).dec_sequence() == old(receiver).dec_sequence() + 1
            },
            Err(e) => {
                &&& e == PairingAuthError::CipherError(Aes128GcmError::EncryptionFailed)
                &&& data@.len() > max_plaintext_len()
            },
        },
{
    let ct = match sender.encrypt(data) {
        Ok(ct) => ct,
        Err(e) => {
            return Err(e);
        },
    };
    match receiver.decrypt(ct.as_slice()) {
        Ok(pt) => {
            proof {
                let key = old(sender).key();
                let nonce = nonce_for(old(sender).enc_sequence());
                assert(ct@ == aes128_gcm_seal(key, nonce, data@));
                assert(pt@.len() == data@.len());
                assert(data@ =~= pt@);
            }
            Ok(pt)
        },
        Err(e) => {
            proof {
                let key = old(sender).key();
                let nonce = nonce_for(old(sender).enc_sequence());
                assert(data@.len() + tag_len() == ct@.len() && data@.len() <= max_plaintext_len());
                assert(ct@ != aes128_gcm_seal(key, nonce, data@));
                assert(false);
            }
            Err(e)
        },
    }
}

} // verus!
