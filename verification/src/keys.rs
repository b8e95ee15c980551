use crate::peer::PeerId;
use vstd::prelude::*;
use vstd::utf8::encode_utf8;

verus! {

/// Whether libp2p's `secp256k1::SecretKey::try_from_bytes` accepts these
/// bytes as a secret key.
pub uninterp spec fn secp256k1_secret_accepts(bytes: Seq<u8>) -> bool;

/// The compressed (33-byte) public key of a 32-byte secp256k1 secret key,
/// as libp2p's `secp256k1::Keypair::from(secret).public().to_bytes()` gives it.
pub uninterp spec fn secp256k1_public_of(secret: Seq<u8>) -> Seq<u8>;

/// Whether libp2p's `secp256k1::PublicKey::try_from_bytes` accepts these
/// bytes as a public key.
pub uninterp spec fn secp256k1_public_accepts(public: Seq<u8>) -> bool;

/// Whether libp2p's `secp256k1::PublicKey::verify` accepts `sig` as the
/// signature of `msg` under the public key decoded from `public`.
pub uninterp spec fn secp256k1_verifies(public: Seq<u8>, msg: Seq<u8>, sig: Seq<u8>) -> bool;

/// The signature that libp2p's `secp256k1::SecretKey::sign` makes of `msg`
/// with the secret key of these bytes (deterministic ECDSA, DER-encoded).
pub uninterp spec fn secp256k1_signature(secret: Seq<u8>, msg: Seq<u8>) -> Seq<u8>;

/// The bytes of the libp2p peer id (`PeerId::from_public_key(..).to_bytes()`)
/// of the holder of the secp256k1 public key decoded from `public`.
pub uninterp spec fn secp256k1_peer_of(public: Seq<u8>) -> Seq<u8>;

/// The bytes left-padded with zeros to 32 bytes.
pub open spec fn left_pad_32(bytes: Seq<u8>) -> Seq<u8> {
    Seq::new((32 - bytes.len()) as nat, |i: int| 0u8) + bytes
}

/// Calls `libp2p::identity::secp256k1::SecretKey::try_from_bytes` on a copy of
/// `bytes`, then `Keypair::from` on the key, and returns the secret key's
/// bytes and the compressed public key. Trusted: the source accepts slices of
/// 24 to 32 bytes (shorter ones are left-padded with zeros) that make a valid
/// scalar (named `secp256k1_secret_accepts`); the secret bytes it returns are
/// the padded input, which it accepts again, and the public key is the one
/// named `secp256k1_public_of`, 33 bytes long, in the compressed form that
/// `PublicKey::try_from_bytes` reads back.
#[verifier::external_body]
fn keypair_from_bytes(bytes: &[u8]) -> (r: Option<(Vec<u8>, Vec<u8>)>)
    ensures
        r is Some <==> (24 <= bytes@.len() <= 32 && secp256k1_secret_accepts(bytes@)),
        r matches Some(kp) ==> kp.0@ == left_pad_32(bytes@) && secp256k1_secret_accepts(kp.0@)
            && kp.1@ == secp256k1_public_of(kp.0@) && kp.1@.len() == 33 && secp256k1_public_accepts(kp.1@),
{
    let mut copy = bytes.to_vec();
    match libp2p::identity::secp256k1::SecretKey::try_from_bytes(&mut copy) {
        Ok(sk) => {
            let kp = libp2p::identity::secp256k1::Keypair::from(sk);
            Some((kp.secret().to_bytes().to_vec(), kp.public().to_bytes().to_vec()))
        },
        Err(_) => None,
    }
}

/// Calls `libp2p::identity::secp256k1::Keypair::generate` and returns the
/// secret key's bytes and the compressed public key. Trusted: the secret is
/// 32 bytes that `try_from_bytes` accepts and the public key is the one named
/// `secp256k1_public_of`, which `PublicKey::try_from_bytes` reads back.
/// Which key comes out is chance and is not stated.
#[verifier::external_body]
fn generate_keypair() -> (kp: (Vec<u8>, Vec<u8>))
    ensures
        kp.0@.len() == 32,
        secp256k1_secret_accepts(kp.0@),
        kp.1@ == secp256k1_public_of(kp.0@),
        kp.1@.len() == 33,
        secp256k1_public_accepts(kp.1@),
{
    let kp = libp2p::identity::secp256k1::Keypair::generate();
    (kp.secret().to_bytes().to_vec(), kp.public().to_bytes().to_vec())
}

/// Calls `libp2p::identity::secp256k1::PublicKey::try_from_bytes` on
/// `public` and, when it decodes, `PublicKey::verify(msg, sig)`. Trusted:
/// the result is `None` exactly when the key does not decode (named
/// `secp256k1_public_accepts`), else whether the signature verifies (named
/// `secp256k1_verifies`).
#[verifier::external_body]
fn verify_signature(public: &[u8], msg: &[u8], sig: &[u8]) -> (r: Option<bool>)
    ensures
        r is Some <==> secp256k1_public_accepts(public@),
        r matches Some(b) ==> b == secp256k1_verifies(public@, msg@, sig@),
{
    match libp2p::identity::secp256k1::PublicKey::try_from_bytes(public) {
        Ok(key) => Some(key.verify(msg, sig)),
        Err(_) => None,
    }
}

/// Calls `libp2p::identity::secp256k1::PublicKey::try_from_bytes` on
/// `public` and, when it decodes, `libp2p::PeerId::from_public_key` on the
/// key and `to_bytes` on the peer id. Trusted: `None` exactly when the key
/// does not decode, else the peer id's bytes (named `secp256k1_peer_of`).
#[verifier::external_body]
fn peer_bytes_of_public(public: &[u8]) -> (r: Option<Vec<u8>>)
    ensures
        r is Some <==> secp256k1_public_accepts(public@),
        r matches Some(p) ==> p@ == secp256k1_peer_of(public@),
{
    match libp2p::identity::secp256k1::PublicKey::try_from_bytes(public) {
        Ok(key) => Some(libp2p::PeerId::from_public_key(&key.into()).to_bytes()),
        Err(_) => None,
    }
}

/// Calls `libp2p::identity::secp256k1::SecretKey::try_from_bytes` on a copy
/// of the 32 bytes `secret`, which it accepts, and `SecretKey::sign(msg)`.
/// Trusted: the signature is the one named `secp256k1_signature` (the
/// signing is deterministic, RFC 6979), and `PublicKey::verify` accepts it
/// for `msg` under the secret's public key.
#[verifier::external_body]
fn sign_with_secret(secret: &[u8], msg: &[u8]) -> (sig: Vec<u8>)
    requires
        secret@.len() == 32,
        secp256k1_secret_accepts(secret@),
    ensures
        sig@ == secp256k1_signature(secret@, msg@),
        secp256k1_verifies(secp256k1_public_of(secret@), msg@, sig@),
{
    let mut copy = secret.to_vec();
    let sk = libp2p::identity::secp256k1::SecretKey::try_from_bytes(&mut copy).expect("accepted secret");
    sk.sign(msg)
}

/// A secp256k1 key pair: the 32 bytes of the secret key and the compressed
/// public key that belongs to it.
pub struct Keypair {
    secret: Vec<u8>,
    public: Vec<u8>,
}

impl Keypair {
    #[verifier::type_invariant]
    spec fn consistent(self) -> bool {
        &&& self.secret@.len() == 32
        &&& secp256k1_secret_accepts(self.secret@)
        &&& self.public@ == secp256k1_public_of(self.secret@)
        &&& self.public@.len() == 33
        &&& secp256k1_public_accepts(self.public@)
    }

    /// The secret key's bytes.
    pub closed spec fn secret_bytes(&self) -> Seq<u8> {
        self.secret@
    }

    /// The compressed public key.
    pub closed spec fn public_bytes(&self) -> Seq<u8> {
        self.public@
    }

    /// The secret key's 32 bytes.
    pub fn secret(&self) -> (r: &Vec<u8>)
        ensures
            r@ == self.secret_bytes(),
            r@.len() == 32,
            secp256k1_secret_accepts(r@),
    {
        proof {
            use_type_invariant(self);
        }
        &self.secret
    }

    /// The signature of `msg` with this key pair's secret key; it verifies
    /// for `msg` under this key pair's public key.
    pub fn sign(&self, msg: &[u8]) -> (sig: Vec<u8>)
        ensures
            sig@ == secp256k1_signature(self.secret_bytes(), msg@),
            secp256k1_verifies(self.public_bytes(), msg@, sig@),
    {
        proof {
            use_type_invariant(self);
        }
        sign_with_secret(self.secret.as_slice(), msg)
    }

    /// The compressed public key (33 bytes), the one that belongs to the secret.
    pub fn public(&self) -> (r: &Vec<u8>)
        ensures
            r@ == self.public_bytes(),
            r@ == secp256k1_public_of(self.secret_bytes()),
            r@.len() == 33,
            secp256k1_public_accepts(r@),
    {
        proof {
            use_type_invariant(self);
        }
        &self.public
    }
}

impl Keypair {
    /// The key pair whose secret key is made of `bytes` (24 to 32 bytes,
    /// left-padded with zeros), or `None` when they are not a secp256k1
    /// secret key.
    pub fn from_secret_bytes(bytes: &[u8]) -> (r: Option<Keypair>)
        ensures
            r is Some <==> (24 <= bytes@.len() <= 32 && secp256k1_secret_accepts(bytes@)),
            r matches Some(k) ==> k.secret_bytes() == left_pad_32(bytes@) && secp256k1_secret_accepts(
                k.secret_bytes(),
            ) && k.public_bytes() == secp256k1_public_of(k.secret_bytes()),
    {
        match keypair_from_bytes(bytes) {
            Some((secret, public)) => {
                proof {
                    assert(left_pad_32(bytes@).len() == 32);
                }
                Some(Keypair { secret, public })
            },
            None => None,
        }
    }
}

/// A key pair: a fresh random one when `gen` is `None`, else the one whose
/// secret key is made of the UTF-8 bytes of `gen`, or `None` when those bytes
/// are not a secp256k1 secret key.
pub fn gen_key(gen: Option<&str>) -> (r: Option<Keypair>)
    ensures
        gen is None ==> r is Some,
        gen matches Some(s) ==> (r is Some <==> (24 <= encode_utf8(s@).len() <= 32
            && secp256k1_secret_accepts(encode_utf8(s@)))),
        gen matches Some(s) ==> (r matches Some(k) ==> k.secret_bytes() == left_pad_32(encode_utf8(s@))),
        r matches Some(k) ==> k.secret_bytes().len() == 32 && secp256k1_secret_accepts(k.secret_bytes())
            && k.public_bytes() == secp256k1_public_of(k.secret_bytes()),
{
    match gen {
        None => {
            let (secret, public) = generate_keypair();
            Some(Keypair { secret, public })
        },
        Some(s) => Keypair::from_secret_bytes(s.as_bytes()),
    }
}

/// Whether `sig` is the signature of `msg` by the holder of the public key
/// `sender`; `None` when `sender` is not a secp256k1 public key.
pub fn verify_transaction_sig(sender: &[u8], msg: &[u8], sig: &[u8]) -> (r: Option<bool>)
    ensures
        r is Some <==> secp256k1_public_accepts(sender@),
        r matches Some(b) ==> b == secp256k1_verifies(sender@, msg@, sig@),
{
    verify_signature(sender, msg, sig)
}

/// The ledger account (the peer id) of the holder of the public key
/// `public`; `None` when `public` is not a secp256k1 public key.
pub fn peer_of_public(public: &[u8]) -> (r: Option<PeerId>)
    ensures
        r is Some <==> secp256k1_public_accepts(public@),
        r matches Some(p) ==> p@ == secp256k1_peer_of(public@),
{
    match peer_bytes_of_public(public) {
        Some(bytes) => Some(PeerId { bytes }),
        None => None,
    }
}

} // verus!
