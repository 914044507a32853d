//! Signed-envelope protocol and relay synchronization semantics for a
//! pseudonymous message relay: participants are identified only by a public
//! key, publish signed posts and profile records, and poll the relay for
//! state.

pub mod channel;
pub mod client;

pub mod codec;
pub mod crypto;
pub mod metadata;
pub mod profile;
pub mod resource;
pub mod store;
pub mod text;

use crate::codec::{push_str_bytes, push_u64_bytes, spec_enc_str, spec_u64_bytes};
use crate::crypto::{
    b64_of, ed_public_of, ed_signature_of, ed_verifies, spec_key_from_b64, spec_signature_from_b64,
    KeyPair, PublicKey, Signature,
};
use vstd::prelude::*;
use vstd::string::StringExecFns;

verus! {

/// A payload that can be carried in a signed envelope: it renders its fields
/// to canonical bytes, deterministically in its logical content.
pub trait Payload: Sized {
    /// The mathematical value of the payload.
    type V;

    /// The payload's logical content.
    spec fn pview(&self) -> Self::V;

    /// The canonical bytes of the payload's fields.
    spec fn spec_field_bytes(&self) -> Seq<u8>;

    /// Structural well-formedness (canonically stored metadata, for payloads
    /// that carry any).
    spec fn inv(&self) -> bool;

    /// Appends the canonical bytes of the payload's fields to `out`.
    fn push_field_bytes(&self, out: &mut Vec<u8>)
        ensures
            final(out)@ == old(out)@ + self.spec_field_bytes(),
    ;

    /// A copy of the payload with the same logical content.
    fn dup(&self) -> (r: Self)
        ensures
            r.pview() == self.pview(),
            r.spec_field_bytes() == self.spec_field_bytes(),
            r.inv() == self.inv(),
    ;
}

/// Whether two envelopes carry the same logical content: equal in every
/// field view, and alike in validity.
pub open spec fn same_envelope<T: Payload>(a: &Signed<T>, b: &Signed<T>) -> bool {
    &&& a.key@ == b.key@
    &&& a.server@ == b.server@
    &&& a.timestamp == b.timestamp
    &&& a.data.pview() == b.data.pview()
    &&& a.signature@ == b.signature@
    &&& a.spec_valid() == b.spec_valid()
    &&& a.data.inv() == b.data.inv()
}

/// A signed envelope: a payload wrapped with the submitter's public key, an
/// origin server identifier, a caller-supplied timestamp, and a signature
/// over the canonical encoding of all of the above.
pub struct Signed<T> {
    /// The submitter's public key, base64-encoded; the only identity.
    pub key: String,
    /// The origin server identifier.
    pub server: String,
    /// Caller-supplied timestamp; never interpreted as server time.
    pub timestamp: u64,
    /// The payload.
    pub data: T,
    /// Base64 Ed25519 signature over the canonical bytes with the signature
    /// itself treated as empty.
    pub signature: String,
}

/// The canonical signable bytes of an envelope: key, server, timestamp, then
/// the payload's fields, each length-prefixed in a fixed order. The signature
/// field takes no part.
pub open spec fn spec_signable_bytes<T: Payload>(
    key: Seq<char>,
    server: Seq<char>,
    timestamp: u64,
    data: &T,
) -> Seq<u8> {
    spec_enc_str(key) + spec_enc_str(server) + spec_u64_bytes(timestamp) + data.spec_field_bytes()
}

/// Builds the canonical signable bytes from the envelope parts.
fn signable_from_parts<T: Payload>(key: &str, server: &str, timestamp: u64, data: &T) -> (r: Vec<
    u8,
>)
    ensures
        r@ == spec_signable_bytes(key@, server@, timestamp, data),
{
    let mut out: Vec<u8> = Vec::new();
    push_str_bytes(&mut out, key);
    push_str_bytes(&mut out, server);
    push_u64_bytes(&mut out, timestamp);
    data.push_field_bytes(&mut out);
    proof {
        assert(out@ =~= spec_signable_bytes(key@, server@, timestamp, data));
    }
    out
}

impl<T: Payload> Signed<T> {
    /// The canonical bytes this envelope's signature is computed over.
    pub open spec fn spec_signable(&self) -> Seq<u8> {
        spec_signable_bytes(self.key@, self.server@, self.timestamp, &self.data)
    }

    /// Whether the envelope carries a valid signature: the key and signature
    /// decode from base64 at their exact lengths, and Ed25519 verification
    /// accepts the signature over the canonical bytes. Malformed or
    /// undersized encodings are never valid.
    pub open spec fn spec_valid(&self) -> bool {
        &&& spec_key_from_b64(self.key@) is Some
        &&& spec_signature_from_b64(self.signature@) is Some
        &&& ed_verifies(
            spec_key_from_b64(self.key@).unwrap(),
            self.spec_signable(),
            spec_signature_from_b64(self.signature@).unwrap(),
        )
    }

    /// The canonical signable bytes of this envelope.
    pub fn signable_bytes(&self) -> (r: Vec<u8>)
        ensures
            r@ == self.spec_signable(),
    {
        signable_from_parts(self.key.as_str(), self.server.as_str(), self.timestamp, &self.data)
    }

    /// Builds and signs an envelope: the key field is the signer's public
    /// key, and the signature is computed over the canonical bytes. An
    /// honestly signed envelope always verifies.
    pub fn new(key_pair: &KeyPair, server: String, timestamp: u64, data: T) -> (r: Option<
        Signed<T>,
    >)
        ensures
            r is Some,
            r matches Some(env) ==> {
                &&& env.key@ == b64_of(ed_public_of(key_pair@))
                &&& env.server == server
                &&& env.timestamp == timestamp
                &&& env.data == data
                &&& env.signature@ == b64_of(
                    ed_signature_of(key_pair@, env.spec_signable()),
                )
                &&& env.spec_valid()
            },
    {
        let public_key = match key_pair.public_key() {
            Some(pk) => pk,
            None => {
                return None;
            },
        };
        let key = public_key.to_base64();
        let msg = signable_from_parts(key.as_str(), server.as_str(), timestamp, &data);
        let signature = match key_pair.sign(msg.as_slice()) {
            Some(s) => s,
            None => {
                return None;
            },
        };
        let signature_b64 = signature.to_base64();
        Some(Signed { key, server, timestamp, data, signature: signature_b64 })
    }

    /// Recomputes the canonical bytes and checks the signature against the
    /// envelope's key. Never panics: malformed base64 in the key or the
    /// signature verifies as false.
    pub fn verify(&self) -> (r: bool)
        ensures
            r == self.spec_valid(),
    {
        let public_key = match PublicKey::from_base64(self.key.as_str()) {
            Some(pk) => pk,
            None => {
                return false;
            },
        };
        let signature = match Signature::from_base64(self.signature.as_str()) {
            Some(s) => s,
            None => {
                return false;
            },
        };
        let msg = self.signable_bytes();
        public_key.verify(msg.as_slice(), &signature)
    }

    /// A copy of the envelope with the same logical content.
    pub fn dup(&self) -> (r: Self)
        ensures
            same_envelope(&r, self),
    {
        Signed {
            key: self.key.clone(),
            server: self.server.clone(),
            timestamp: self.timestamp,
            data: self.data.dup(),
            signature: self.signature.clone(),
        }
    }
}

/// The relay's error taxonomy. The first three arise in the store itself;
/// undecodable wire payloads and persistence failures belong to the process
/// boundary around the library.
#[derive(Clone, Copy, Debug, PartialEq, Eq, Structural)]
pub enum RelayError {
    /// The envelope's signature is malformed or does not match.
    SignatureInvalid,
    /// A query's timestamp is not strictly greater than the last seen for
    /// its key.
    ReplayedTimestamp,
    /// No profile is stored under the requested key.
    ProfileNotFound,
    /// The wire payload could not be decoded into an envelope.
    MalformedEnvelope,
    /// The underlying persistence failed.
    StoreUnavailable,
}

/// A structured error response: a status code, a human-readable message, and
/// optional details.
pub struct Error {
    /// The status code of the error kind.
    pub status: String,
    /// A human-readable description.
    pub message: String,
    /// Optional free-form details.
    pub details: Option<String>,
}

impl Error {
    /// The wire status and message for each relay error kind.
    pub fn from_relay(e: &RelayError) -> (r: Error)
        ensures
            r.details is None,
            e is SignatureInvalid ==> r.status@ == "FAILED_VERIFY_SIGNATURE"@ && r.message@
                == "Signature verification failed!"@,
            e is ReplayedTimestamp ==> r.status@ == "IMPOSSIBLE_TIMESTAMP"@ && r.message@
                == "Non-unique timestamp for request!"@,
            e is ProfileNotFound ==> r.status@ == "PROFILE_NOT_FOUND"@ && r.message@
                == "Requested profile does not exist!"@,
            e is MalformedEnvelope ==> r.status@ == "MALFORMED_ENVELOPE"@,
            e is StoreUnavailable ==> r.status@ == "STORE_UNAVAILABLE"@,
    {
        match e {
            RelayError::SignatureInvalid => Error {
                status: String::from_str("FAILED_VERIFY_SIGNATURE"),
                message: String::from_str("Signature verification failed!"),
                details: None,
            },
            RelayError::ReplayedTimestamp => Error {
                status: String::from_str("IMPOSSIBLE_TIMESTAMP"),
                message: String::from_str("Non-unique timestamp for request!"),
                details: None,
            },
            RelayError::ProfileNotFound => Error {
                status: String::from_str("PROFILE_NOT_FOUND"),
                message: String::from_str("Requested profile does not exist!"),
                details: None,
            },
            RelayError::MalformedEnvelope => Error {
                status: String::from_str("MALFORMED_ENVELOPE"),
                message: String::from_str("Envelope could not be decoded!"),
                details: None,
            },
            RelayError::StoreUnavailable => Error {
                status: String::from_str("STORE_UNAVAILABLE"),
                message: String::from_str("Persistence failure!"),
                details: None,
            },
        }
    }

    /// A one-line rendering of the error.
    pub fn render(&self) -> (r: String)
        ensures
            r@ == self.status@ + ": '"@ + self.message@ + "'"@,
    {
        let mut out = self.status.clone();
        out.append(": '");
        out.append(self.message.as_str());
        out.append("'");
        out
    }
}

} // verus!
