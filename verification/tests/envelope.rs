use lay::crypto::{KeyPair, PublicKey, Signature};
use lay::metadata::Metadata;
use lay::profile::{Profile, ProfileRequest};
use lay::text::Post;
use lay::{Error, Payload, RelayError, Signed};

fn make_key_pair() -> KeyPair {
    let doc = KeyPair::generate_pkcs8().expect("entropy source");
    KeyPair::from_pkcs8(&doc).expect("fresh document parses")
}

fn post(channel: &str, content: &str) -> Post {
    Post { channel: channel.to_string(), content: content.to_string(), metadata: None }
}

fn flip_first_char(s: &str) -> String {
    let mut chars: Vec<char> = s.chars().collect();
    chars[0] = if chars[0] == 'A' { 'B' } else { 'A' };
    chars.into_iter().collect()
}

#[test]
fn sign_then_verify_succeeds() {
    let kp = make_key_pair();
    let env = Signed::new(&kp, "origin".to_string(), 1, post("general", "hello")).unwrap();
    assert!(env.verify());
    // a 32-byte public key renders as 44 base64 characters, a 64-byte
    // signature as 88
    assert_eq!(env.key.len(), 44);
    assert_eq!(env.signature.len(), 88);
}

#[test]
fn tampered_signature_fails_verification() {
    let kp = make_key_pair();
    let mut env = Signed::new(&kp, "origin".to_string(), 1, post("general", "hello")).unwrap();
    env.signature = flip_first_char(&env.signature);
    assert!(!env.verify());
}

#[test]
fn tampered_key_fails_verification() {
    let kp = make_key_pair();
    let mut env = Signed::new(&kp, "origin".to_string(), 1, post("general", "hello")).unwrap();
    env.key = flip_first_char(&env.key);
    assert!(!env.verify());
}

#[test]
fn tampered_payload_fails_verification() {
    let kp = make_key_pair();
    let mut env = Signed::new(&kp, "origin".to_string(), 1, post("general", "hello")).unwrap();
    env.data.content = "hellp".to_string();
    assert!(!env.verify());
}

#[test]
fn tampered_timestamp_fails_verification() {
    let kp = make_key_pair();
    let mut env = Signed::new(&kp, "origin".to_string(), 7, post("general", "hello")).unwrap();
    env.timestamp = 8;
    assert!(!env.verify());
}

#[test]
fn undersized_signature_is_invalid_not_a_crash() {
    let kp = make_key_pair();
    let mut env = Signed::new(&kp, "origin".to_string(), 1, post("general", "hello")).unwrap();
    env.signature = "c2hvcnQ=".to_string();
    assert!(!env.verify());
    env.signature = "not base64 at all!".to_string();
    assert!(!env.verify());
}

#[test]
fn canonical_encoding_ignores_metadata_insertion_order() {
    let kp = make_key_pair();
    let mut m1 = Metadata::new();
    m1.insert("colour".to_string(), "teal".to_string());
    m1.insert("avatar".to_string(), "cat".to_string());
    let mut m2 = Metadata::new();
    m2.insert("avatar".to_string(), "dog".to_string());
    m2.insert("colour".to_string(), "teal".to_string());
    m2.insert("avatar".to_string(), "cat".to_string());
    let p1 = Post {
        channel: "general".to_string(),
        content: "hi".to_string(),
        metadata: Some(m1),
    };
    let p2 = Post {
        channel: "general".to_string(),
        content: "hi".to_string(),
        metadata: Some(m2),
    };
    let e1 = Signed::new(&kp, "origin".to_string(), 3, p1).unwrap();
    let e2 = Signed::new(&kp, "origin".to_string(), 3, p2).unwrap();
    assert_eq!(e1.signable_bytes(), e2.signable_bytes());
    // Ed25519 signing is deterministic, so the envelopes agree entirely.
    assert_eq!(e1.signature, e2.signature);
}

#[test]
fn canonical_encoding_is_stable_across_calls() {
    let kp = make_key_pair();
    let env = Signed::new(&kp, "origin".to_string(), 3, post("general", "hi")).unwrap();
    assert_eq!(env.signable_bytes(), env.signable_bytes());
}

#[test]
fn payload_fields_are_length_prefixed() {
    let req = ProfileRequest { target_key: "ab".to_string() };
    let mut out: Vec<u8> = Vec::new();
    req.push_field_bytes(&mut out);
    assert_eq!(out, vec![4u8, 0, 0, 0, 0, 0, 0, 0, 2, b'a', b'b']);
}

#[test]
fn metadata_lookup_follows_last_insert() {
    let mut m = Metadata::new();
    m.insert("name".to_string(), "first".to_string());
    m.insert("name".to_string(), "second".to_string());
    assert_eq!(m.get(&"name".to_string()).map(|v| v.as_str()), Some("second"));
    assert_eq!(m.get(&"missing".to_string()), None);
    assert_eq!(m.len(), 1);
}

#[test]
fn metadata_entries_come_out_sorted() {
    let mut m = Metadata::new();
    m.insert("zeta".to_string(), "1".to_string());
    m.insert("alpha".to_string(), "2".to_string());
    m.insert("mid".to_string(), "3".to_string());
    assert_eq!(m.len(), 3);
    assert_eq!(m.entry(0).0.as_str(), "alpha");
    assert_eq!(m.entry(1).0.as_str(), "mid");
    assert_eq!(m.entry(2).0.as_str(), "zeta");
}

#[test]
fn public_key_base64_round_trip() {
    let encoded: String = "A".repeat(43) + "=";
    let pk = PublicKey::from_base64(&encoded).expect("32 zero bytes decode");
    assert_eq!(pk.to_base64(), encoded);
    // the encoding is a real transformation: the rendered form is not the
    // raw bytes, so a wrong-length string is rejected
    assert!(PublicKey::from_base64("AAAA").is_none());
}

#[test]
fn signature_base64_round_trip() {
    let encoded: String = "A".repeat(86) + "==";
    let sig = Signature::from_base64(&encoded).expect("64 zero bytes decode");
    assert_eq!(sig.to_base64(), encoded);
    assert!(Signature::from_base64(&("A".repeat(43) + "=")).is_none());
}

#[test]
fn profile_envelopes_verify_too() {
    let kp = make_key_pair();
    let profile = Profile { name: "Carol".to_string(), metadata: None };
    let env = Signed::new(&kp, "origin".to_string(), 2, profile).unwrap();
    assert!(env.verify());
    assert_eq!(env.data.name, "Carol");
}

#[test]
fn error_statuses_match_the_wire_protocol() {
    let e = Error::from_relay(&RelayError::SignatureInvalid);
    assert_eq!(e.status, "FAILED_VERIFY_SIGNATURE");
    assert_eq!(e.message, "Signature verification failed!");
    let e = Error::from_relay(&RelayError::ReplayedTimestamp);
    assert_eq!(e.status, "IMPOSSIBLE_TIMESTAMP");
    assert_eq!(e.message, "Non-unique timestamp for request!");
    let e = Error::from_relay(&RelayError::ProfileNotFound);
    assert_eq!(e.status, "PROFILE_NOT_FOUND");
    assert_eq!(e.message, "Requested profile does not exist!");
    let e = Error::from_relay(&RelayError::MalformedEnvelope);
    assert_eq!(e.status, "MALFORMED_ENVELOPE");
    let e = Error::from_relay(&RelayError::StoreUnavailable);
    assert_eq!(e.status, "STORE_UNAVAILABLE");
    assert_eq!(
        Error::from_relay(&RelayError::ProfileNotFound).render(),
        "PROFILE_NOT_FOUND: 'Requested profile does not exist!'"
    );
}
