use lay::client::{resolve_profile, ClientState, Message, ProfileDisplay};
use lay::crypto::KeyPair;
use lay::profile::{Profile, ProfileRequest};
use lay::store::RelayStore;
use lay::text::{Post, PostRequest};
use lay::{RelayError, Signed};

fn expect_err<T>(r: Result<T, RelayError>) -> RelayError {
    match r {
        Err(e) => e,
        Ok(_) => panic!("expected an error"),
    }
}

fn make_key_pair() -> KeyPair {
    let doc = KeyPair::generate_pkcs8().expect("entropy source");
    KeyPair::from_pkcs8(&doc).expect("fresh document parses")
}

fn post(channel: &str, content: &str) -> Post {
    Post { channel: channel.to_string(), content: content.to_string(), metadata: None }
}

fn post_request(kp: &KeyPair, t: u64) -> Signed<PostRequest> {
    let req = PostRequest { channel: "general".to_string(), metadata: None };
    Signed::new(kp, "origin".to_string(), t, req).unwrap()
}

fn profile_request(kp: &KeyPair, t: u64, target: &str) -> Signed<ProfileRequest> {
    let req = ProfileRequest { target_key: target.to_string() };
    Signed::new(kp, "origin".to_string(), t, req).unwrap()
}

#[test]
fn duplicate_post_is_stored_once() {
    let kp = make_key_pair();
    let mut store = RelayStore::new();
    let env = Signed::new(&kp, "origin".to_string(), 1, post("general", "hi")).unwrap();
    let copy = env.dup();
    assert_eq!(store.accept_post(env), Ok(()));
    assert_eq!(store.accept_post(copy), Ok(()));
    let posts = store.query_posts(&post_request(&kp, 10)).unwrap();
    assert_eq!(posts.len(), 1);
    assert_eq!(posts[0].data.content, "hi");
}

#[test]
fn invalid_post_signature_is_rejected() {
    let kp = make_key_pair();
    let mut store = RelayStore::new();
    let mut env = Signed::new(&kp, "origin".to_string(), 1, post("general", "hi")).unwrap();
    env.data.content = "altered".to_string();
    assert_eq!(store.accept_post(env), Err(RelayError::SignatureInvalid));
    let posts = store.query_posts(&post_request(&kp, 10)).unwrap();
    assert_eq!(posts.len(), 0);
}

#[test]
fn replayed_query_timestamps_are_rejected() {
    let kp = make_key_pair();
    let mut store = RelayStore::new();
    assert!(store.query_posts(&post_request(&kp, 5)).is_ok());
    assert_eq!(
        expect_err(store.query_posts(&post_request(&kp, 5))),
        RelayError::ReplayedTimestamp
    );
    assert_eq!(
        expect_err(store.query_posts(&post_request(&kp, 4))),
        RelayError::ReplayedTimestamp
    );
    assert!(store.query_posts(&post_request(&kp, 6)).is_ok());
    // the ledger is per key: a different identity is not blocked
    let other = make_key_pair();
    assert!(store.query_posts(&post_request(&other, 5)).is_ok());
}

#[test]
fn profile_upsert_is_last_write_wins() {
    let kp = make_key_pair();
    let mut store = RelayStore::new();
    let alice = Signed::new(
        &kp,
        "origin".to_string(),
        1,
        Profile { name: "Alice".to_string(), metadata: None },
    )
    .unwrap();
    let bob = Signed::new(
        &kp,
        "origin".to_string(),
        2,
        Profile { name: "Bob".to_string(), metadata: None },
    )
    .unwrap();
    let key = alice.key.clone();
    assert_eq!(store.accept_profile(alice), Ok(()));
    assert_eq!(store.accept_profile(bob), Ok(()));
    let fetched = store.query_profile(&profile_request(&kp, 3, &key)).unwrap();
    assert_eq!(fetched.data.name, "Bob");
    assert!(fetched.verify());
}

#[test]
fn missing_profile_is_an_error_not_empty_success() {
    let kp = make_key_pair();
    let store = RelayStore::new();
    let req = profile_request(&kp, 1, "nobody-has-this-key");
    assert_eq!(expect_err(store.query_profile(&req)), RelayError::ProfileNotFound);
}

#[test]
fn end_to_end_post_is_seen_verified_by_another_client() {
    let ka = make_key_pair();
    let kb = make_key_pair();
    let mut store = RelayStore::new();
    let env = Signed::new(&ka, "origin".to_string(), 1, post("general", "hello")).unwrap();
    let ka_key = env.key.clone();
    assert_eq!(store.accept_post(env), Ok(()));
    let results = store.query_posts(&post_request(&kb, 2)).unwrap();
    assert!(results.iter().any(|m| m.key == ka_key && m.data.content == "hello" && m.verify()));
}

#[test]
fn unknown_sender_displays_guest_then_resolved_name() {
    let kx = make_key_pair();
    let kb = make_key_pair();
    let mut store = RelayStore::new();
    let env = Signed::new(&kx, "origin".to_string(), 1, post("general", "hey")).unwrap();
    let kx_key = env.key.clone();
    store.accept_post(env).unwrap();

    let mut client = ClientState::new();
    let results = store.query_posts(&post_request(&kb, 2)).unwrap();
    let messages: Vec<Message> = results
        .iter()
        .map(|m| Message { sender: m.key.clone(), content: m.data.content.clone() })
        .collect();
    client.observe_messages(messages);
    assert_eq!(client.display_name(&kx_key), "Guest");

    // the unknown key was queued exactly once
    let pending = client.drain_unknown();
    assert_eq!(pending, vec![kx_key.clone()]);

    // profile resolution succeeds and later renders use the resolved name
    let carol = Signed::new(
        &kx,
        "origin".to_string(),
        3,
        Profile { name: "Carol".to_string(), metadata: None },
    )
    .unwrap();
    store.accept_profile(carol).unwrap();
    let fetched = store.query_profile(&profile_request(&kb, 4, &kx_key)).unwrap();
    let display = resolve_profile(&kx_key, Some(&fetched));
    assert!(display.verified);
    client.record_profile(display);
    assert_eq!(client.display_name(&kx_key), "Carol");
}

#[test]
fn failed_profile_resolution_caches_guest_placeholder() {
    let target = "some-unknown-key".to_string();
    let display = resolve_profile(&target, None);
    assert_eq!(display.key, target);
    assert_eq!(display.name, "Guest");
    assert!(!display.verified);

    let mut client = ClientState::new();
    client.record_profile(display);
    // the placeholder is cached, so the key is not re-queried every tick
    client.observe_messages(vec![Message { sender: target.clone(), content: "x".to_string() }]);
    assert_eq!(client.drain_unknown(), Vec::<String>::new());
    assert_eq!(client.display_name(&target), "Guest");
}

#[test]
fn retry_policy_requeues_placeholder_keys() {
    let target = "still-unknown".to_string();
    let mut client = ClientState::new();
    client.set_retry_unresolved(true);
    client.record_profile(resolve_profile(&target, None));
    client.observe_messages(vec![Message { sender: target.clone(), content: "x".to_string() }]);
    // with retrying switched on, the placeholder does not suppress re-query
    assert_eq!(client.drain_unknown(), vec![target.clone()]);
    // a genuinely resolved name is never re-queried
    client.record_profile(ProfileDisplay {
        key: target.clone(),
        name: "Dee".to_string(),
        verified: true,
    });
    client.observe_messages(vec![Message { sender: target.clone(), content: "y".to_string() }]);
    assert_eq!(client.drain_unknown(), Vec::<String>::new());
}

#[test]
fn found_but_unverified_profile_keeps_name_without_trust() {
    let kx = make_key_pair();
    let mut env = Signed::new(
        &kx,
        "origin".to_string(),
        1,
        Profile { name: "Mallory".to_string(), metadata: None },
    )
    .unwrap();
    env.data.name = "Mallory!".to_string();
    let display = resolve_profile(&env.key.clone(), Some(&env));
    assert_eq!(display.name, "Mallory!");
    assert!(!display.verified);
}

#[test]
fn observation_batch_queues_each_unknown_key_once() {
    let mut client = ClientState::new();
    client.record_profile(ProfileDisplay {
        key: "known".to_string(),
        name: "Kay".to_string(),
        verified: true,
    });
    client.observe_messages(vec![
        Message { sender: "mystery".to_string(), content: "a".to_string() },
        Message { sender: "mystery".to_string(), content: "b".to_string() },
        Message { sender: "known".to_string(), content: "c".to_string() },
        Message { sender: "stranger".to_string(), content: "d".to_string() },
    ]);
    let mut pending = client.drain_unknown();
    pending.sort();
    assert_eq!(pending, vec!["mystery".to_string(), "stranger".to_string()]);
    // draining empties the queue
    assert_eq!(client.drain_unknown(), Vec::<String>::new());
}

#[test]
fn refresh_profiles_clears_the_cache() {
    let mut client = ClientState::new();
    client.record_profile(ProfileDisplay {
        key: "k".to_string(),
        name: "Kay".to_string(),
        verified: true,
    });
    assert_eq!(client.display_name(&"k".to_string()), "Kay");
    client.refresh_profiles();
    assert_eq!(client.display_name(&"k".to_string()), "Guest");
}

#[test]
fn input_buffer_editing_moves_the_cursor() {
    let mut client = ClientState::new();
    client.insert_char('h');
    client.insert_char('i');
    client.insert_char('!');
    client.move_cursor_left();
    client.delete_char();
    client.insert_char('e');
    client.insert_char('y');
    // "hi!" -> delete 'i' before '!' -> "h!" -> insert "ey" -> "hey!"
    assert_eq!(client.take_input(), "hey!");
    let mut client = ClientState::new();
    client.delete_char();
    client.move_cursor_left();
    client.move_cursor_right();
    client.reset_cursor();
    assert_eq!(client.take_input(), "");
}
