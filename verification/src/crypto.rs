//! Ed25519 identities: key generation, signing and signature verification,
//! with base64 renderings of keys and signatures.
//!
//! The cryptographic calls go to outside code behind a small set of trusted
//! wrappers; everything around them — length checks, base64 round trips, the
//! canonical bytes being signed — is verified.

use base64::Engine as Base64Engine;
use ring::signature::KeyPair as RingKeyPair;
use vstd::prelude::*;

verus! {

/// Length in bytes of an Ed25519 signature.
pub const ED25519_SIGNATURE_LEN: usize = 64;

/// Length in bytes of an Ed25519 public key.
pub const ED25519_PUBLIC_KEY_LEN: usize = 32;

/// What base64's standard engine encodes the given bytes to.
pub uninterp spec fn b64_of(b: Seq<u8>) -> Seq<char>;

/// What base64's standard engine decodes the given string to, if anything.
pub uninterp spec fn b64_decoded(s: Seq<char>) -> Option<Seq<u8>>;

/// The public half of the Ed25519 key pair held in a pkcs8 document.
pub uninterp spec fn ed_public_of(doc: Seq<u8>) -> Seq<u8>;

/// The Ed25519 signature over a message by the key pair held in a pkcs8
/// document; Ed25519 signing is deterministic.
pub uninterp spec fn ed_signature_of(doc: Seq<u8>, msg: Seq<u8>) -> Seq<u8>;

/// Whether Ed25519 verification accepts the signature over the message under
/// the public key.
pub uninterp spec fn ed_verifies(pk: Seq<u8>, msg: Seq<u8>, sig: Seq<u8>) -> bool;

/// Relies on base64's standard engine `encode`: the result is a pure function
/// of the input bytes, and `decode` of the result returns exactly the input.
#[verifier::external_body]
fn b64_encode(b: &[u8]) -> (r: String)
    ensures
        r@ == b64_of(b@),
        b64_decoded(r@) == Some(b@),
{
    base64::prelude::BASE64_STANDARD.encode(b)
}

/// Relies on base64's standard engine `decode`: the result is a pure function
/// of the input string; malformed input is rejected.
#[verifier::external_body]
fn b64_decode(s: &str) -> (r: Option<Vec<u8>>)
    ensures
        match r {
            Some(v) => b64_decoded(s@) == Some(v@),
            None => b64_decoded(s@) is None,
        },
{
    match base64::prelude::BASE64_STANDARD.decode(s.as_bytes()) {
        Ok(v) => Some(v),
        Err(_) => None,
    }
}

/// An Ed25519 signature.
pub struct Signature {
    bytes: Vec<u8>,
}

impl View for Signature {
    type V = Seq<u8>;

    closed spec fn view(&self) -> Seq<u8> {
        self.bytes@
    }
}

/// The bytes a signature string decodes to, when it decodes to a signature of
/// the right length.
pub open spec fn spec_signature_from_b64(s: Seq<char>) -> Option<Seq<u8>> {
    match b64_decoded(s) {
        Some(b) => if b.len() == ED25519_SIGNATURE_LEN {
            Some(b)
        } else {
            None
        },
        None => None,
    }
}

/// The bytes a key string decodes to, when it decodes to a public key of the
/// right length.
pub open spec fn spec_key_from_b64(s: Seq<char>) -> Option<Seq<u8>> {
    match b64_decoded(s) {
        Some(b) => if b.len() == ED25519_PUBLIC_KEY_LEN {
            Some(b)
        } else {
            None
        },
        None => None,
    }
}

impl Signature {
    /// A well-formed signature holds exactly the Ed25519 signature length.
    pub open spec fn wf(&self) -> bool {
        self@.len() == ED25519_SIGNATURE_LEN
    }

    /// Renders the signature as base64.
    pub fn to_base64(&self) -> (r: String)
        ensures
            r@ == b64_of(self@),
            b64_decoded(r@) == Some(self@),
    {
        b64_encode(self.bytes.as_slice())
    }

    /// Reads a signature back from base64; undersized or malformed encodings
    /// are rejected.
    pub fn from_base64(s: &str) -> (r: Option<Signature>)
        ensures
            match r {
                Some(sig) => sig.wf() && spec_signature_from_b64(s@) == Some(sig@),
                None => spec_signature_from_b64(s@) is None,
            },
    {
        match b64_decode(s) {
            Some(bytes) => {
                if bytes.len() == ED25519_SIGNATURE_LEN {
                    Some(Signature { bytes })
                } else {
                    None
                }
            },
            None => None,
        }
    }
}

/// An Ed25519 public key, used to verify signatures.
pub struct PublicKey {
    bytes: Vec<u8>,
}

impl View for PublicKey {
    type V = Seq<u8>;

    closed spec fn view(&self) -> Seq<u8> {
        self.bytes@
    }
}

impl PublicKey {
    /// A well-formed public key holds exactly the Ed25519 key length.
    pub open spec fn wf(&self) -> bool {
        self@.len() == ED25519_PUBLIC_KEY_LEN
    }

    /// Renders the key as base64.
    pub fn to_base64(&self) -> (r: String)
        ensures
            r@ == b64_of(self@),
            b64_decoded(r@) == Some(self@),
    {
        b64_encode(self.bytes.as_slice())
    }

    /// Reads a key back from base64; undersized or malformed encodings are
    /// rejected.
    pub fn from_base64(s: &str) -> (r: Option<PublicKey>)
        ensures
            match r {
                Some(pk) => pk.wf() && spec_key_from_b64(s@) == Some(pk@),
                None => spec_key_from_b64(s@) is None,
            },
    {
        match b64_decode(s) {
            Some(bytes) => {
                if bytes.len() == ED25519_PUBLIC_KEY_LEN {
                    Some(PublicKey { bytes })
                } else {
                    None
                }
            },
            None => None,
        }
    }

    /// Relies on ring's Ed25519 verification (`UnparsedPublicKey::verify`):
    /// acceptance is a pure function of key bytes, message and signature.
    #[verifier::external_body]
    pub fn verify(&self, message: &[u8], signature: &Signature) -> (r: bool)
        ensures
            r == ed_verifies(self@, message@, signature@),
    {
        let key = ring::signature::UnparsedPublicKey::new(
            &ring::signature::ED25519,
            self.bytes.as_slice(),
        );
        key.verify(message, signature.bytes.as_slice()).is_ok()
    }
}

#[verifier::external_type_specification]
#[verifier::external_body]
pub struct ExEd25519KeyPair(ring::signature::Ed25519KeyPair);

/// An Ed25519 key pair, together with the pkcs8 document it was read from.
pub struct KeyPair {
    inner: ring::signature::Ed25519KeyPair,
    doc: Vec<u8>,
}

impl View for KeyPair {
    type V = Seq<u8>;

    closed spec fn view(&self) -> Seq<u8> {
        self.doc@
    }
}

impl KeyPair {
    /// Relies on ring's `Ed25519KeyPair::generate_pkcs8`: a fresh key pair
    /// from the system's entropy source. Nothing can be promised of a random
    /// document; failure means the entropy source failed.
    #[verifier::external_body]
    pub fn generate_pkcs8() -> Option<Vec<u8>> {
        let rng = ring::rand::SystemRandom::new();
        match ring::signature::Ed25519KeyPair::generate_pkcs8(&rng) {
            Ok(doc) => Some(doc.as_ref().to_vec()),
            Err(_) => None,
        }
    }

    /// Relies on ring's `Ed25519KeyPair::from_pkcs8_maybe_unchecked`: reads a
    /// key pair out of a pkcs8 document; the key is a function of the
    /// document alone.
    #[verifier::external_body]
    pub fn from_pkcs8(document: &[u8]) -> (r: Option<KeyPair>)
        ensures
            match r {
                Some(kp) => kp@ == document@,
                None => true,
            },
    {
        match ring::signature::Ed25519KeyPair::from_pkcs8_maybe_unchecked(document) {
            Ok(inner) => Some(KeyPair { inner, doc: document.to_vec() }),
            Err(_) => None,
        }
    }

    /// Relies on ring's `Ed25519KeyPair::sign`: Ed25519 signing is
    /// deterministic in the key and message, always yields a 64-byte
    /// signature, and that signature verifies under the pair's public key.
    #[verifier::external_body]
    pub fn sign(&self, data: &[u8]) -> (r: Option<Signature>)
        ensures
            r is Some,
            r matches Some(sig) ==> sig.wf() && sig@ == ed_signature_of(self@, data@)
                && ed_verifies(ed_public_of(self@), data@, sig@),
    {
        let signature = self.inner.sign(data);
        let bytes: Vec<u8> = signature.as_ref().to_vec();
        if bytes.len() == ED25519_SIGNATURE_LEN {
            Some(Signature { bytes })
        } else {
            None
        }
    }

    /// Relies on ring's `KeyPair::public_key`: the 32-byte public half, a
    /// function of the key document alone.
    #[verifier::external_body]
    pub fn public_key(&self) -> (r: Option<PublicKey>)
        ensures
            r is Some,
            r matches Some(pk) ==> pk.wf() && pk@ == ed_public_of(self@),
    {
        let bytes: Vec<u8> = self.inner.public_key().as_ref().to_vec();
        if bytes.len() == ED25519_PUBLIC_KEY_LEN {
            Some(PublicKey { bytes })
        } else {
            None
        }
    }
}

} // verus!
