use vstd::prelude::*;

use ring::aead::{Aad, LessSafeKey, Nonce, UnboundKey, CHACHA20_POLY1305};
use ring::agreement::{self, EphemeralPrivateKey, UnparsedPublicKey};
use ring::error::Unspecified;
use ring::rand::{SecureRandom, SystemRandom};

use crate::message::Message;

verus! {

#[verifier::external_type_specification]
#[verifier::external_body]
pub struct ExEphemeralPrivateKey(EphemeralPrivateKey);

#[verifier::external_type_specification]
#[verifier::external_body]
pub struct ExUnspecified(Unspecified);

/// Why a cryptographic step did not succeed.
#[derive(Clone, Copy, Debug, PartialEq, Eq, Structural)]
pub enum CryptoError {
    /// No key pair could be made.
    KeyGeneration,
    /// The peer's public key was refused.
    KeyAgreement,
    /// No random nonce could be drawn.
    Randomness,
    /// The message could not be sealed.
    Sealing,
}

/// The largest input, in bytes, that ChaCha20-Poly1305 seals under one nonce.
pub const SEAL_MAX_INPUT: u64 = 274_877_906_880u64;

/// What ChaCha20-Poly1305 makes of `plaintext` under `key` and `nonce`, with
/// no additional data: the ciphertext followed by the tag.
pub uninterp spec fn chacha20_poly1305_seal(key: Seq<u8>, nonce: Seq<u8>, plaintext: Seq<u8>) -> Seq<u8>;

/// A fresh X25519 key pair: `EphemeralPrivateKey::generate` with `X25519` and
/// the system's random source, and the bytes of the public key that
/// `compute_public_key` gives for it (through `PublicKey`'s `AsRef<[u8]>`).
///
/// The two calls stand together because the fact stated holds of X25519 keys
/// only, and only this body fixes the algorithm.
///
/// Trusted: on success the public key is 32 bytes long (ring's X25519 public
/// key length; its X25519 `compute_public_key` cannot fail for a generated
/// key). Whether generation succeeds, and which pair it makes, rests on the
/// random source; how the public bytes belong to the private key is not said,
/// since the private key is opaque here.
#[verifier::external_body]
fn generate_key_pair() -> (r: Result<(EphemeralPrivateKey, Vec<u8>), Unspecified>)
    ensures
        r is Ok ==> r->Ok_0.1@.len() == 32,
{
    let private = EphemeralPrivateKey::generate(&agreement::X25519, &SystemRandom::new())?;
    let public = private.compute_public_key()?.as_ref().to_vec();
    Ok((private, public))
}

/// The first 32 bytes of the key material that the key agreement hands over,
/// zero-filled where there are fewer.
fn shared_secret_from(material: &[u8]) -> (r: [u8; 32])
    ensures
        forall|i: int| 0 <= i < 32 && i < material@.len() ==> r@[i] == material@[i],
        forall|i: int| material@.len() <= i < 32 ==> r@[i] == 0,
{
    let mut out = [0u8; 32];
    let n = if material.len() < 32 {
        material.len()
    } else {
        32
    };
    for i in 0..n
        invariant
            n <= 32,
            n <= material@.len(),
            n == material@.len() || n == 32,
            forall|j: int| 0 <= j < i ==> out@[j] == material@[j],
            forall|j: int| i <= j < 32 ==> out@[j] == 0,
    {
        out[i] = material[i];
    }
    out
}

/// Whether ring accepts a peer's X25519 public key for key agreement: 32 bytes
/// that do not encode a point of small order.
pub uninterp spec fn x25519_peer_valid(peer: Seq<u8>) -> bool;

/// X25519 key agreement of our private key with the peer's public key bytes:
/// `agreement::agree_ephemeral`, its key material handed to `shared_secret_from`.
///
/// Trusted: the agreement succeeds exactly when ring accepts the peer key, the
/// named result `x25519_peer_valid` of its bytes. ring documents that
/// `agree_ephemeral` fails only where the peer key does not match the private
/// key's algorithm or is not a valid key for it. The algorithms match: every
/// private key this crate holds is made by `generate_key_pair`, which fixes
/// X25519, and Verus code can make one no other way. Validity is then a matter
/// of the peer bytes alone: ring refuses a key that is not 32 bytes long and an
/// agreement that comes out all zeros, which for X25519's clamped scalars
/// happens exactly for peer points of small order, whatever the private key.
/// A secret handed back is therefore never all zeros (ring hands the 32 bytes
/// of its output to the closure). Which secret it is rests on the private key,
/// which is opaque here, so nothing more is said of it.
#[verifier::external_body]
fn agree(private: EphemeralPrivateKey, peer_public_key: &[u8]) -> (r: Result<[u8; 32], Unspecified>)
    ensures
        r is Ok <==> x25519_peer_valid(peer_public_key@),
        peer_public_key@.len() != 32 ==> r is Err,
        r is Ok ==> r->Ok_0@ != Seq::new(32, |i: int| 0u8),
{
    let peer = UnparsedPublicKey::new(&agreement::X25519, peer_public_key);
    agreement::agree_ephemeral(private, &peer, Unspecified, |m| Ok(shared_secret_from(m)))
}

/// `n` random bytes from the system's random source: `SecureRandom::fill` of
/// `SystemRandom` on a zeroed buffer of that length.
///
/// Trusted: on success the bytes are `n` long. Which bytes they are, and
/// whether the source answers, rests on the operating system.
#[verifier::external_body]
pub(crate) fn random_bytes(n: usize) -> (r: Result<Vec<u8>, Unspecified>)
    ensures
        r is Ok ==> r->Ok_0@.len() == n,
{
    let mut bytes = vec![0u8; n];
    SystemRandom::new().fill(&mut bytes)?;
    Ok(bytes)
}

/// A twelve-byte nonce drawn from the system's random source.
fn random_nonce() -> (r: Result<[u8; 12], CryptoError>)
    ensures
        r is Err ==> r == Err::<[u8; 12], CryptoError>(CryptoError::Randomness),
{
    let bytes = match random_bytes(12) {
        Ok(b) => b,
        Err(_) => {
            return Err(CryptoError::Randomness);
        },
    };
    let mut nonce = [0u8; 12];
    for i in 0..12
        invariant
            bytes@.len() == 12,
    {
        nonce[i] = bytes[i];
    }
    Ok(nonce)
}

/// The tag length of ChaCha20-Poly1305: `Algorithm::tag_len`.
///
/// Trusted: ring's tag is one 16-byte block.
#[verifier::external_body]
fn tag_len() -> (r: usize)
    ensures
        r == 16,
{
    CHACHA20_POLY1305.tag_len()
}

/// ChaCha20-Poly1305 sealing with no additional data:
/// `LessSafeKey::seal_in_place_append_tag`, on a key made by `UnboundKey::new`
/// from the 32 key bytes and a nonce made by `Nonce::assume_unique_for_key`.
///
/// Trusted: the result is the named result `chacha20_poly1305_seal` of the
/// key, nonce and input, 16 bytes longer than the input; ring refuses exactly
/// the inputs longer than `SEAL_MAX_INPUT` bytes (and a 32-byte key is always
/// accepted).
#[verifier::external_body]
fn seal(key: &[u8; 32], nonce: [u8; 12], data: Vec<u8>) -> (r: Result<Vec<u8>, Unspecified>)
    ensures
        r is Err <==> data@.len() > SEAL_MAX_INPUT,
        r is Ok ==> r->Ok_0@ == chacha20_poly1305_seal(key@, nonce@, data@),
        r is Ok ==> r->Ok_0@.len() == data@.len() + 16,
{
    let key = LessSafeKey::new(UnboundKey::new(&CHACHA20_POLY1305, key)?);
    let mut data = data;
    key.seal_in_place_append_tag(Nonce::assume_unique_for_key(nonce), Aad::empty(), &mut data)?;
    Ok(data)
}

/// A key pair for one key agreement: the private key, and the bytes of its
/// public key, read once when the pair is made.
pub struct Keys {
    private: EphemeralPrivateKey,
    public: Vec<u8>,
}

/// A copy of a byte vector.
fn copy_bytes(v: &Vec<u8>) -> (r: Vec<u8>)
    ensures
        r@ == v@,
{
    let mut out: Vec<u8> = Vec::new();
    let n = v.len();
    for i in 0..n
        invariant
            n == v@.len(),
            out@ == v@.take(i as int),
    {
        out.push(v[i]);
        proof {
            assert(v@.take(i + 1) =~= v@.take(i as int).push(v@[i as int]));
        }
    }
    proof {
        assert(v@.take(n as int) =~= v@);
    }
    out
}

impl Keys {
    /// A fresh X25519 key pair.
    pub fn new() -> (r: Result<Keys, CryptoError>)
        ensures
            r is Err ==> r == Err::<Keys, CryptoError>(CryptoError::KeyGeneration),
            r matches Ok(k) ==> k.public_bytes().len() == 32,
    {
        match generate_key_pair() {
            Ok((private, public)) => Ok(Keys { private, public }),
            Err(_) => Err(CryptoError::KeyGeneration),
        }
    }

    /// The bytes of the public key of this pair.
    pub closed spec fn public_bytes(&self) -> Seq<u8> {
        self.public@
    }

    /// The public key, as the bytes to hand to the peer.
    pub fn public_key(&self) -> (r: Vec<u8>)
        ensures
            r@ == self.public_bytes(),
    {
        copy_bytes(&self.public)
    }
}

/// The plaintext that is sealed for a message: its UTF-8 bytes followed by
/// sixteen zero bytes.
pub open spec fn padded_plaintext(text: Seq<char>) -> Seq<u8> {
    vstd::utf8::encode_utf8(text) + Seq::new(16, |i: int| 0u8)
}

/// What is sent for a message: the nonce followed by the sealed plaintext.
pub open spec fn sealed_message(secret: Seq<u8>, nonce: Seq<u8>, text: Seq<char>) -> Seq<u8> {
    nonce + chacha20_poly1305_seal(secret, nonce, padded_plaintext(text))
}

/// Our key pair and the message to send.
pub struct Encryptor {
    key: Keys,
    message: Message,
}

impl Encryptor {
    /// A fresh key pair for the message `msg`.
    pub fn new(msg: Message) -> (r: Result<Encryptor, CryptoError>)
        ensures
            match r {
                Ok(e) => e.message() == msg.text() && e.sent_at() == msg.sent_at()
                    && e.public_bytes().len() == 32,
                Err(e) => e == CryptoError::KeyGeneration,
            },
    {
        let key = Keys::new()?;
        let message = msg;
        Ok(Encryptor { key, message })
    }

    /// The text of the message.
    pub closed spec fn message(&self) -> Seq<char> {
        self.message.text()
    }

    /// When the message was written.
    pub closed spec fn sent_at(&self) -> crate::message::SendTime {
        self.message.sent_at()
    }

    /// The bytes of the public key of our key pair.
    pub closed spec fn public_bytes(&self) -> Seq<u8> {
        self.key.public_bytes()
    }

    /// The public key to hand to the peer.
    pub fn public_key(&self) -> (r: Vec<u8>)
        ensures
            r@ == self.public_bytes(),
    {
        self.key.public_key()
    }

    /// The secret shared with the peer whose 32-byte X25519 public key is
    /// `peer_public_key`, spending our private key: handed back exactly when
    /// ring accepts the peer key; `KeyAgreement` where it refuses it (a peer
    /// point of small order).
    pub fn compute_sahred_secret(self, peer_public_key: &[u8]) -> (r: Result<[u8; 32], CryptoError>)
        requires
            peer_public_key@.len() == 32,
        ensures
            r is Ok <==> x25519_peer_valid(peer_public_key@),
            r is Err ==> r == Err::<[u8; 32], CryptoError>(CryptoError::KeyAgreement),
            r is Ok ==> r->Ok_0@ != Seq::new(32, |i: int| 0u8),
    {
        match agree(self.key.private, peer_public_key) {
            Ok(secret) => Ok(secret),
            Err(_) => Err(CryptoError::KeyAgreement),
        }
    }

    /// The message sealed under `shared_secret` with this nonce: the nonce
    /// followed by the ChaCha20-Poly1305 sealing of the message's bytes and
    /// sixteen zero bytes.
    pub fn encrypt_message_with_nonce(&self, shared_secret: &[u8; 32], nonce: [u8; 12]) -> (r:
        Result<Vec<u8>, CryptoError>)
        ensures
            padded_plaintext(self.message()).len() <= SEAL_MAX_INPUT ==> (r matches Ok(v) && v@
                == sealed_message(shared_secret@, nonce@, self.message())),
            r is Ok ==> r->Ok_0@.len() == 12 + padded_plaintext(self.message()).len() + 16,
            r is Ok ==> r->Ok_0@ == nonce@ + chacha20_poly1305_seal(
                shared_secret@,
                nonce@,
                vstd::utf8::encode_utf8(self.message()) + Seq::new(16, |i: int| 0u8),
            ),
            r is Ok ==> r->Ok_0@.len() == 12 + vstd::utf8::encode_utf8(self.message()).len() + 32,
            padded_plaintext(self.message()).len() > SEAL_MAX_INPUT ==> r == Err::<
                Vec<u8>,
                CryptoError,
            >(CryptoError::Sealing),
    {
        let text = self.message.as_text();
        let bytes = text.as_bytes();
        let mut data: Vec<u8> = Vec::new();
        let n = bytes.len();
        for i in 0..n
            invariant
                n == bytes@.len(),
                data@ == bytes@.take(i as int),
        {
            data.push(bytes[i]);
            proof {
                assert(bytes@.take(i + 1) =~= bytes@.take(i as int).push(bytes@[i as int]));
            }
        }
        proof {
            assert(bytes@.take(n as int) =~= bytes@);
        }
        let pad = tag_len();
        for i in 0..pad
            invariant
                pad == 16,
                data@ == bytes@ + Seq::new(i as nat, |k: int| 0u8),
        {
            data.push(0u8);
            proof {
                assert(data@ =~= bytes@ + Seq::new((i + 1) as nat, |k: int| 0u8));
            }
        }
        proof {
            assert(data@ =~= padded_plaintext(self.message()));
        }
        let sealed = match seal(shared_secret, nonce, data) {
            Ok(v) => v,
            Err(_) => {
                return Err(CryptoError::Sealing);
            },
        };
        let mut out: Vec<u8> = Vec::new();
        for i in 0..12
            invariant
                out@ == nonce@.take(i as int),
        {
            out.push(nonce[i]);
            proof {
                assert(nonce@.take(i + 1) =~= nonce@.take(i as int).push(nonce@[i as int]));
            }
        }
        let m = sealed.len();
        for i in 0..m
            invariant
                m == sealed@.len(),
                out@ == nonce@ + sealed@.take(i as int),
        {
            out.push(sealed[i]);
            proof {
                assert(out@ =~= nonce@ + sealed@.take(i + 1));
            }
        }
        proof {
            assert(sealed@.take(m as int) =~= sealed@);
        }
        Ok(out)
    }

    /// The message sealed under `shared_secret` with a fresh random nonce, as
    /// `encrypt_message_with_nonce` seals it.
    pub fn encrypt_message(&self, shared_secret: &[u8; 32]) -> (r: Result<Vec<u8>, CryptoError>)
        ensures
            r is Ok ==> r->Ok_0@.len() >= 12 && r->Ok_0@ == sealed_message(
                shared_secret@,
                r->Ok_0@.take(12),
                self.message(),
            ),
            padded_plaintext(self.message()).len() > SEAL_MAX_INPUT ==> r is Err,
            r is Err ==> r == Err::<Vec<u8>, CryptoError>(CryptoError::Randomness) || r == Err::<
                Vec<u8>,
                CryptoError,
            >(CryptoError::Sealing),
            r == Err::<Vec<u8>, CryptoError>(CryptoError::Sealing) ==> padded_plaintext(
                self.message(),
            ).len() > SEAL_MAX_INPUT,
            r is Ok ==> r->Ok_0@.len() == 12 + padded_plaintext(self.message()).len() + 16,
    {
        let nonce = random_nonce()?;
        let r = self.encrypt_message_with_nonce(shared_secret, nonce);
        proof {
            if r is Ok {
                let v = r->Ok_0;
                assert(v@.take(12) =~= nonce@);
            }
        }
        r
    }
}

/// The plaintext sealed for a message is the whole of the message's UTF-8
/// bytes, in order, followed by sixteen zero bytes: its length is the
/// message's byte length and sixteen, every byte of the message stands at its
/// own place in it, and nothing but zeros follows.
pub proof fn law_whole_message_is_sealed(text: Seq<char>)
    ensures
        padded_plaintext(text).len() == vstd::utf8::encode_utf8(text).len() + 16,
        forall|i: int|
            0 <= i < vstd::utf8::encode_utf8(text).len() ==> #[trigger] padded_plaintext(text)[i]
                == vstd::utf8::encode_utf8(text)[i],
        forall|i: int|
            vstd::utf8::encode_utf8(text).len() <= i < padded_plaintext(text).len()
                ==> #[trigger] padded_plaintext(text)[i] == 0u8,
{
}

} // verus!
