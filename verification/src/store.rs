//! The relay store: accepts signed envelopes, deduplicates posts, enforces
//! anti-replay on queries, and answers profile lookups.
//!
//! Every operation is a single atomic transition over three tables: the
//! append-only post log (unique by signature), the profile table (keyed by
//! submitter key, last write wins), and the anti-replay ledger (highest
//! timestamp seen per key on a post query).

use crate::profile::{Profile, ProfileRequest};
use crate::text::{Post, PostRequest};
use crate::{same_envelope, RelayError, Signed};
use vstd::prelude::*;

verus! {

/// Whether the post log already holds an envelope with this signature.
pub open spec fn contains_signature(posts: Seq<Signed<Post>>, sig: Seq<char>) -> bool {
    exists|i: int| 0 <= i < posts.len() && posts[i].signature@ == sig
}

/// The post log after an insertion: envelopes are keyed by signature, so a
/// signature already present leaves the log unchanged.
pub open spec fn spec_insert_post(posts: Seq<Signed<Post>>, env: Signed<Post>) -> Seq<
    Signed<Post>,
> {
    if contains_signature(posts, env.signature@) {
        posts
    } else {
        posts.push(env)
    }
}

/// Whether a profile is stored under this key.
pub open spec fn has_profile(profiles: Seq<Signed<Profile>>, key: Seq<char>) -> bool {
    exists|i: int| 0 <= i < profiles.len() && profiles[i].key@ == key
}

/// The profile table after an upsert: the entry under the envelope's key is
/// replaced unconditionally, or appended if none exists.
pub open spec fn spec_upsert_profile(profiles: Seq<Signed<Profile>>, env: Signed<Profile>) -> Seq<
    Signed<Profile>,
> {
    if has_profile(profiles, env.key@) {
        Seq::new(
            profiles.len(),
            |i: int|
                if profiles[i].key@ == env.key@ {
                    env
                } else {
                    profiles[i]
                },
        )
    } else {
        profiles.push(env)
    }
}

/// The stored profile under a key, if any.
pub open spec fn spec_profile_lookup(profiles: Seq<Signed<Profile>>, key: Seq<char>) -> Option<
    Signed<Profile>,
>
    decreases profiles.len(),
{
    if profiles.len() == 0 {
        None
    } else if profiles[0].key@ == key {
        Some(profiles[0])
    } else {
        spec_profile_lookup(profiles.drop_first(), key)
    }
}

/// The highest timestamp recorded for a key, if any.
pub open spec fn spec_ledger_lookup(l: Seq<(Seq<char>, u64)>, key: Seq<char>) -> Option<u64>
    decreases l.len(),
{
    if l.len() == 0 {
        None
    } else if l[0].0 == key {
        Some(l[0].1)
    } else {
        spec_ledger_lookup(l.drop_first(), key)
    }
}

/// Whether a ledger entry exists for a key.
pub open spec fn has_ledger(l: Seq<(Seq<char>, u64)>, key: Seq<char>) -> bool {
    exists|i: int| 0 <= i < l.len() && l[i].0 == key
}

/// The ledger after recording a timestamp for a key.
pub open spec fn spec_ledger_record(l: Seq<(Seq<char>, u64)>, key: Seq<char>, t: u64) -> Seq<
    (Seq<char>, u64),
> {
    if has_ledger(l, key) {
        Seq::new(
            l.len(),
            |i: int|
                if l[i].0 == key {
                    (key, t)
                } else {
                    l[i]
                },
        )
    } else {
        l.push((key, t))
    }
}

/// Whether a query at this timestamp passes the anti-replay check: the
/// timestamp must be strictly greater than the last one recorded for the
/// key, and a first query always passes.
pub open spec fn spec_replay_ok(l: Seq<(Seq<char>, u64)>, key: Seq<char>, t: u64) -> bool {
    match spec_ledger_lookup(l, key) {
        None => true,
        Some(prev) => t > prev,
    }
}

/// No two post-log entries share a signature.
pub open spec fn distinct_signatures(posts: Seq<Signed<Post>>) -> bool {
    forall|i: int, j: int|
        0 <= i < j < posts.len() ==> #[trigger] posts[i].signature@ != #[trigger] posts[j].signature@
}

/// No two profile entries share a key.
pub open spec fn distinct_profile_keys(profiles: Seq<Signed<Profile>>) -> bool {
    forall|i: int, j: int|
        0 <= i < j < profiles.len() ==> #[trigger] profiles[i].key@ != #[trigger] profiles[j].key@
}

/// No two ledger entries share a key.
pub open spec fn distinct_ledger_keys(l: Seq<(Seq<char>, u64)>) -> bool {
    forall|i: int, j: int| 0 <= i < j < l.len() ==> #[trigger] l[i].0 != #[trigger] l[j].0
}

/// The relay store.
pub struct RelayStore {
    posts: Vec<Signed<Post>>,
    profiles: Vec<Signed<Profile>>,
    ledger: Vec<(String, u64)>,
}

impl RelayStore {
    /// The append-only post log.
    pub closed spec fn spec_posts(&self) -> Seq<Signed<Post>> {
        self.posts@
    }

    /// The profile table.
    pub closed spec fn spec_profiles(&self) -> Seq<Signed<Profile>> {
        self.profiles@
    }

    /// The anti-replay ledger.
    pub closed spec fn spec_ledger(&self) -> Seq<(Seq<char>, u64)> {
        Seq::new(self.ledger@.len(), |i: int| (self.ledger@[i].0@, self.ledger@[i].1))
    }

    /// Store invariant: posts unique by signature, profiles and ledger
    /// unique by key.
    pub open spec fn wf(&self) -> bool {
        &&& distinct_signatures(self.spec_posts())
        &&& distinct_profile_keys(self.spec_profiles())
        &&& distinct_ledger_keys(self.spec_ledger())
    }

    /// An empty store.
    pub fn new() -> (r: RelayStore)
        ensures
            r.wf(),
            r.spec_posts() == Seq::<Signed<Post>>::empty(),
            r.spec_profiles() == Seq::<Signed<Profile>>::empty(),
            r.spec_ledger() == Seq::<(Seq<char>, u64)>::empty(),
    {
        let r = RelayStore { posts: Vec::new(), profiles: Vec::new(), ledger: Vec::new() };
        proof {
            assert(r.spec_ledger() =~= Seq::<(Seq<char>, u64)>::empty());
        }
        r
    }

    /// The position of a key in the anti-replay ledger, if any.
    #[verifier::loop_isolation(false)]
    fn ledger_index_of(&self, key: &String) -> (r: Option<usize>)
        ensures
            match r {
                Some(i) => i < self.spec_ledger().len() && self.spec_ledger()[i as int].0 == key@,
                None => forall|j: int|
                    0 <= j < self.spec_ledger().len() ==> #[trigger] self.spec_ledger()[j].0
                        != key@,
            },
    {
        let n = self.ledger.len();
        let mut i: usize = 0;
        while i < n
            invariant
                i <= n,
                forall|j: int| 0 <= j < i ==> #[trigger] self.ledger@[j].0@ != key@,
            decreases n - i,
        {
            if self.ledger[i].0 == *key {
                return Some(i);
            }
            i = i + 1;
        }
        None
    }

    /// Accepts a post envelope: rejected if and only if its signature is
    /// invalid; otherwise inserted into the log keyed by signature, a
    /// re-submission of an identical envelope being a no-op success.
    #[verifier::loop_isolation(false)]
    pub fn accept_post(&mut self, env: Signed<Post>) -> (r: Result<(), RelayError>)
        requires
            old(self).wf(),
        ensures
            final(self).wf(),
            final(self).spec_profiles() == old(self).spec_profiles(),
            final(self).spec_ledger() == old(self).spec_ledger(),
            !env.spec_valid() ==> r == Err::<(), RelayError>(RelayError::SignatureInvalid)
                && final(self).spec_posts() == old(self).spec_posts(),
            env.spec_valid() ==> r == Ok::<(), RelayError>(()) && final(self).spec_posts()
                == spec_insert_post(old(self).spec_posts(), env),
    {
        if !env.verify() {
            return Err(RelayError::SignatureInvalid);
        }
        let n = self.posts.len();
        let mut i: usize = 0;
        while i < n
            invariant
                self == old(self),
                n == self.posts@.len(),
                i <= n,
                forall|j: int| 0 <= j < i ==> #[trigger] self.posts@[j].signature@ != env.signature@,
            decreases n - i,
        {
            if self.posts[i].signature == env.signature {
                proof {
                    assert(contains_signature(self.spec_posts(), env.signature@));
                }
                return Ok(());
            }
            i = i + 1;
        }
        proof {
            assert(!contains_signature(self.spec_posts(), env.signature@));
        }
        self.posts.push(env);
        Ok(())
    }

    /// Accepts a profile envelope: rejected if and only if its signature is
    /// invalid; otherwise upserted under the envelope's key, the last
    /// accepted submission winning unconditionally.
    #[verifier::loop_isolation(false)]
    pub fn accept_profile(&mut self, env: Signed<Profile>) -> (r: Result<(), RelayError>)
        requires
            old(self).wf(),
        ensures
            final(self).wf(),
            final(self).spec_posts() == old(self).spec_posts(),
            final(self).spec_ledger() == old(self).spec_ledger(),
            !env.spec_valid() ==> r == Err::<(), RelayError>(RelayError::SignatureInvalid)
                && final(self).spec_profiles() == old(self).spec_profiles(),
            env.spec_valid() ==> r == Ok::<(), RelayError>(()) && final(self).spec_profiles()
                == spec_upsert_profile(old(self).spec_profiles(), env),
    {
        if !env.verify() {
            return Err(RelayError::SignatureInvalid);
        }
        let n = self.profiles.len();
        let mut i: usize = 0;
        while i < n
            invariant
                self == old(self),
                n == self.profiles@.len(),
                i <= n,
                forall|j: int| 0 <= j < i ==> #[trigger] self.profiles@[j].key@ != env.key@,
            decreases n - i,
        {
            if self.profiles[i].key == env.key {
                proof {
                    assert(has_profile(self.spec_profiles(), env.key@));
                }
                self.profiles.remove(i);
                self.profiles.insert(i, env);
                proof {
                    let ghost s0 = old(self).spec_profiles();
                    assert forall|k: int| 0 <= k < s0.len() && k != i implies #[trigger] s0[k].key@
                        != env.key@ by {
                        if k < i {
                            assert(s0[k].key@ != s0[i as int].key@);
                        } else {
                            assert(s0[i as int].key@ != s0[k].key@);
                        }
                    }
                    assert(self.spec_profiles() =~= spec_upsert_profile(s0, env)) by {
                        assert(forall|k: int|
                            0 <= k < s0.len() && k != i ==> #[trigger] self.spec_profiles()[k]
                                == s0[k]);
                        assert(self.spec_profiles()[i as int] == env);
                    }
                }
                return Ok(());
            }
            i = i + 1;
        }
        proof {
            assert(!has_profile(self.spec_profiles(), env.key@));
        }
        self.profiles.push(env);
        Ok(())
    }

    /// Answers a post query: rejected on an invalid signature, rejected as
    /// replayed when the timestamp is not strictly greater than the last
    /// recorded for the key, and otherwise records the timestamp and returns
    /// every stored post.
    #[verifier::loop_isolation(false)]
    pub fn query_posts(&mut self, req: &Signed<PostRequest>) -> (r: Result<
        Vec<Signed<Post>>,
        RelayError,
    >)
        requires
            old(self).wf(),
        ensures
            final(self).wf(),
            final(self).spec_posts() == old(self).spec_posts(),
            final(self).spec_profiles() == old(self).spec_profiles(),
            !req.spec_valid() ==> r == Err::<Vec<Signed<Post>>, RelayError>(
                RelayError::SignatureInvalid,
            ) && final(self).spec_ledger() == old(self).spec_ledger(),
            req.spec_valid() && !spec_replay_ok(old(self).spec_ledger(), req.key@, req.timestamp)
                ==> r == Err::<Vec<Signed<Post>>, RelayError>(RelayError::ReplayedTimestamp)
                && final(self).spec_ledger() == old(self).spec_ledger(),
            req.spec_valid() && spec_replay_ok(old(self).spec_ledger(), req.key@, req.timestamp)
                ==> final(self).spec_ledger() == spec_ledger_record(
                old(self).spec_ledger(),
                req.key@,
                req.timestamp,
            ) && (r matches Ok(v) && v@.len() == old(self).spec_posts().len() && (forall|i: int|
                0 <= i < v@.len() ==> same_envelope(&v@[i], &old(self).spec_posts()[i]))),
    {
        if !req.verify() {
            return Err(RelayError::SignatureInvalid);
        }
        let found = self.ledger_index_of(&req.key);
        if let Some(i) = found {
            proof {
                lemma_ledger_lookup_index(self.spec_ledger(), i as int);
            }
            let last = self.ledger[i].1;
            if req.timestamp <= last {
                return Err(RelayError::ReplayedTimestamp);
            }
            self.ledger.remove(i);
            self.ledger.insert(i, (req.key.clone(), req.timestamp));
            proof {
                let ghost l0 = old(self).spec_ledger();
                assert(has_ledger(l0, req.key@));
                assert forall|k: int| 0 <= k < l0.len() && k != i implies #[trigger] l0[k].0
                    != req.key@ by {
                    if k < i {
                        assert(l0[k].0 != l0[i as int].0);
                    } else {
                        assert(l0[i as int].0 != l0[k].0);
                    }
                }
                assert(self.spec_ledger() =~= spec_ledger_record(l0, req.key@, req.timestamp)) by {
                    assert(forall|k: int|
                        0 <= k < l0.len() && k != i ==> #[trigger] self.spec_ledger()[k] == l0[k]);
                    assert(self.spec_ledger()[i as int] == (req.key@, req.timestamp));
                }
            }
        } else {
            proof {
                lemma_ledger_lookup_absent(self.spec_ledger(), req.key@);
                assert(!has_ledger(self.spec_ledger(), req.key@));
            }
            self.ledger.push((req.key.clone(), req.timestamp));
            proof {
                assert(self.spec_ledger() =~= spec_ledger_record(
                    old(self).spec_ledger(),
                    req.key@,
                    req.timestamp,
                ));
            }
        }
        proof {
            lemma_ledger_record_distinct(old(self).spec_ledger(), req.key@, req.timestamp);
        }
        let mut result: Vec<Signed<Post>> = Vec::new();
        let mut k: usize = 0;
        let m = self.posts.len();
        while k < m
            invariant
                m == self.posts@.len(),
                self.posts@ == old(self).spec_posts(),
                k <= m,
                result@.len() == k,
                forall|j: int| 0 <= j < k ==> same_envelope(&result@[j], &self.posts@[j]),
            decreases m - k,
        {
            result.push(self.posts[k].dup());
            k = k + 1;
        }
        Ok(result)
    }

    /// Answers a profile query: rejected on an invalid signature; the stored
    /// profile under the requested key is returned unmodified, and a missing
    /// profile is an error, never an empty success.
    #[verifier::loop_isolation(false)]
    pub fn query_profile(&self, req: &Signed<ProfileRequest>) -> (r: Result<
        Signed<Profile>,
        RelayError,
    >)
        requires
            self.wf(),
        ensures
            !req.spec_valid() ==> r == Err::<Signed<Profile>, RelayError>(
                RelayError::SignatureInvalid,
            ),
            req.spec_valid() && spec_profile_lookup(self.spec_profiles(), req.data.target_key@)
                is None ==> r == Err::<Signed<Profile>, RelayError>(RelayError::ProfileNotFound),
            req.spec_valid() && spec_profile_lookup(self.spec_profiles(), req.data.target_key@)
                is Some ==> (r matches Ok(env) && same_envelope(
                &env,
                &spec_profile_lookup(self.spec_profiles(), req.data.target_key@).unwrap(),
            )),
    {
        if !req.verify() {
            return Err(RelayError::SignatureInvalid);
        }
        let n = self.profiles.len();
        let mut i: usize = 0;
        while i < n
            invariant
                self.wf(),
                n == self.profiles@.len(),
                i <= n,
                forall|j: int|
                    0 <= j < i ==> #[trigger] self.profiles@[j].key@ != req.data.target_key@,
            decreases n - i,
        {
            if self.profiles[i].key == req.data.target_key {
                proof {
                    lemma_profile_lookup_index(self.spec_profiles(), i as int);
                }
                return Ok(self.profiles[i].dup());
            }
            i = i + 1;
        }
        proof {
            lemma_profile_lookup_absent(self.spec_profiles(), req.data.target_key@);
        }
        Err(RelayError::ProfileNotFound)
    }
}

/// A ledger with distinct keys answers a lookup of a stored key with the
/// timestamp stored at its index.
pub proof fn lemma_ledger_lookup_index(l: Seq<(Seq<char>, u64)>, i: int)
    requires
        distinct_ledger_keys(l),
        0 <= i < l.len(),
    ensures
        spec_ledger_lookup(l, l[i].0) == Some(l[i].1),
    decreases l.len(),
{
    if i > 0 {
        assert(forall|p: int, q: int|
            0 <= p < q < l.drop_first().len() ==> #[trigger] l.drop_first()[p].0
                != #[trigger] l.drop_first()[q].0) by {
            assert(forall|p: int| 0 <= p < l.drop_first().len() ==> l.drop_first()[p] == l[p + 1]);
        }
        lemma_ledger_lookup_index(l.drop_first(), i - 1);
        assert(l.drop_first()[i - 1] == l[i]);
        assert(l[0].0 != l[i].0);
    }
}

/// A lookup of a key that no ledger entry holds answers nothing.
pub proof fn lemma_ledger_lookup_absent(l: Seq<(Seq<char>, u64)>, key: Seq<char>)
    requires
        forall|i: int| 0 <= i < l.len() ==> #[trigger] l[i].0 != key,
    ensures
        spec_ledger_lookup(l, key) is None,
    decreases l.len(),
{
    if l.len() > 0 {
        assert(forall|i: int| 0 <= i < l.drop_first().len() ==> l.drop_first()[i] == l[i + 1]);
        lemma_ledger_lookup_absent(l.drop_first(), key);
    }
}

/// Recording a timestamp keeps ledger keys distinct.
pub proof fn lemma_ledger_record_distinct(l: Seq<(Seq<char>, u64)>, key: Seq<char>, t: u64)
    requires
        distinct_ledger_keys(l),
    ensures
        distinct_ledger_keys(spec_ledger_record(l, key, t)),
{
    let l2 = spec_ledger_record(l, key, t);
    if has_ledger(l, key) {
        assert forall|i: int, j: int| 0 <= i < j < l2.len() implies #[trigger] l2[i].0
            != #[trigger] l2[j].0 by {
            assert(l[i].0 != l[j].0);
        }
    } else {
        assert forall|i: int, j: int| 0 <= i < j < l2.len() implies #[trigger] l2[i].0
            != #[trigger] l2[j].0 by {
            if j < l.len() {
                assert(l[i].0 != l[j].0);
            }
        }
    }
}

/// A profile table with distinct keys answers a lookup of a stored key with
/// the envelope stored at its index.
pub proof fn lemma_profile_lookup_index(profiles: Seq<Signed<Profile>>, i: int)
    requires
        distinct_profile_keys(profiles),
        0 <= i < profiles.len(),
    ensures
        spec_profile_lookup(profiles, profiles[i].key@) == Some(profiles[i]),
    decreases profiles.len(),
{
    if i > 0 {
        let t = profiles.drop_first();
        assert(forall|p: int, q: int|
            0 <= p < q < t.len() ==> #[trigger] t[p].key@ != #[trigger] t[q].key@) by {
            assert(forall|p: int| 0 <= p < t.len() ==> t[p] == profiles[p + 1]);
        }
        lemma_profile_lookup_index(t, i - 1);
        assert(t[i - 1] == profiles[i]);
        assert(profiles[0].key@ != profiles[i].key@);
    }
}

/// A lookup of a key that no profile entry holds answers nothing.
pub proof fn lemma_profile_lookup_absent(profiles: Seq<Signed<Profile>>, key: Seq<char>)
    requires
        forall|i: int| 0 <= i < profiles.len() ==> #[trigger] profiles[i].key@ != key,
    ensures
        spec_profile_lookup(profiles, key) is None,
    decreases profiles.len(),
{
    if profiles.len() > 0 {
        assert(forall|i: int|
            0 <= i < profiles.drop_first().len() ==> profiles.drop_first()[i] == profiles[i + 1]);
        lemma_profile_lookup_absent(profiles.drop_first(), key);
    }
}

/// Idempotence of post submission: inserting the same signed post envelope
/// a second time leaves the log exactly as the first insertion left it, so
/// the store holds one copy.
pub proof fn lemma_insert_post_idempotent(posts: Seq<Signed<Post>>, env: Signed<Post>)
    ensures
        spec_insert_post(spec_insert_post(posts, env), env) == spec_insert_post(posts, env),
{
    let once = spec_insert_post(posts, env);
    if !contains_signature(posts, env.signature@) {
        assert(once[posts.len() as int].signature@ == env.signature@);
        assert(contains_signature(once, env.signature@));
    }
}

/// Upserting a profile stores it under its key, whatever was there before.
pub proof fn lemma_upsert_profile_lookup(profiles: Seq<Signed<Profile>>, env: Signed<Profile>)
    requires
        distinct_profile_keys(profiles),
    ensures
        distinct_profile_keys(spec_upsert_profile(profiles, env)),
        spec_profile_lookup(spec_upsert_profile(profiles, env), env.key@) == Some(env),
{
    let p2 = spec_upsert_profile(profiles, env);
    if has_profile(profiles, env.key@) {
        let w = choose|i: int| 0 <= i < profiles.len() && profiles[i].key@ == env.key@;
        assert forall|i: int, j: int| 0 <= i < j < p2.len() implies #[trigger] p2[i].key@
            != #[trigger] p2[j].key@ by {
            assert(profiles[i].key@ != profiles[j].key@);
        }
        assert(p2[w].key@ == env.key@);
        lemma_profile_lookup_index(p2, w);
        assert(p2[w] == env);
    } else {
        assert forall|i: int, j: int| 0 <= i < j < p2.len() implies #[trigger] p2[i].key@
            != #[trigger] p2[j].key@ by {
            if j < profiles.len() {
                assert(profiles[i].key@ != profiles[j].key@);
            }
        }
        assert(p2[profiles.len() as int] == env);
        lemma_profile_lookup_index(p2, profiles.len() as int);
    }
}

/// Last write wins: storing a profile for a key and then another for the
/// same key leaves the second as the stored profile for that key.
pub proof fn lemma_profile_last_write_wins(
    profiles: Seq<Signed<Profile>>,
    e1: Signed<Profile>,
    e2: Signed<Profile>,
)
    requires
        distinct_profile_keys(profiles),
        e1.key@ == e2.key@,
    ensures
        spec_profile_lookup(
            spec_upsert_profile(spec_upsert_profile(profiles, e1), e2),
            e1.key@,
        ) == Some(e2),
{
    lemma_upsert_profile_lookup(profiles, e1);
    lemma_upsert_profile_lookup(spec_upsert_profile(profiles, e1), e2);
}

/// Anti-replay: once a query from a key is accepted at timestamp `t`, a
/// further query from that key passes the replay check if and only if its
/// timestamp is strictly greater than `t`; any timestamp at or below `t` is
/// rejected as replayed.
pub proof fn lemma_replay_rejected(l: Seq<(Seq<char>, u64)>, key: Seq<char>, t: u64, t2: u64)
    requires
        distinct_ledger_keys(l),
    ensures
        spec_replay_ok(spec_ledger_record(l, key, t), key, t2) <==> t2 > t,
{
    let l2 = spec_ledger_record(l, key, t);
    lemma_ledger_record_distinct(l, key, t);
    if has_ledger(l, key) {
        let w = choose|i: int| 0 <= i < l.len() && l[i].0 == key;
        assert(l2[w].0 == key);
        lemma_ledger_lookup_index(l2, w);
        assert(l2[w] == (key, t));
    } else {
        assert(l2[l.len() as int] == (key, t));
        lemma_ledger_lookup_index(l2, l.len() as int);
    }
}

} // verus!
