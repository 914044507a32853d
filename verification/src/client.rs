//! The sync client's local state: the message view, the profile display
//! cache, the pending profile fetches, and the input buffer.
//!
//! The view is disposable and non-authoritative: every poll replaces it
//! wholesale. Senders whose key is not yet cached are queued for profile
//! resolution exactly once per unknown key per observation batch, and display
//! as "Guest" until a response arrives.

use crate::profile::Profile;
use crate::Signed;
use vstd::prelude::*;
use vstd::string::StringExecFns;

verus! {

/// A rendered message: the sender's key and the message text.
pub struct Message {
    /// The sender's public key, base64-encoded.
    pub sender: String,
    /// The message text.
    pub content: String,
}

/// A cached display record for an identity.
pub struct ProfileDisplay {
    /// The identity's public key, base64-encoded.
    pub key: String,
    /// The display name to render for it.
    pub name: String,
    /// Whether the profile it came from carried a valid signature.
    pub verified: bool,
}

/// The cached display record under a key, if any.
pub open spec fn spec_cache_lookup(users: Seq<ProfileDisplay>, key: Seq<char>) -> Option<
    ProfileDisplay,
>
    decreases users.len(),
{
    if users.len() == 0 {
        None
    } else if users[0].key@ == key {
        Some(users[0])
    } else {
        spec_cache_lookup(users.drop_first(), key)
    }
}

/// The cache after recording a display record: the entry under its key is
/// replaced, or appended if none exists.
pub open spec fn spec_cache_upsert(users: Seq<ProfileDisplay>, pd: ProfileDisplay) -> Seq<
    ProfileDisplay,
> {
    if exists|i: int| 0 <= i < users.len() && users[i].key@ == pd.key@ {
        Seq::new(
            users.len(),
            |i: int|
                if users[i].key@ == pd.key@ {
                    pd
                } else {
                    users[i]
                },
        )
    } else {
        users.push(pd)
    }
}

/// No two cache entries share a key.
pub open spec fn distinct_cache_keys(users: Seq<ProfileDisplay>) -> bool {
    forall|i: int, j: int|
        0 <= i < j < users.len() ==> #[trigger] users[i].key@ != #[trigger] users[j].key@
}

/// Whether a list of keys holds this key.
pub open spec fn keys_contain(keys: Seq<String>, key: Seq<char>) -> bool {
    exists|i: int| 0 <= i < keys.len() && keys[i]@ == key
}

/// No key occurs twice in a list of keys.
pub open spec fn distinct_keys(keys: Seq<String>) -> bool {
    forall|i: int, j: int| 0 <= i < j < keys.len() ==> #[trigger] keys[i]@ != #[trigger] keys[j]@
}

/// Whether a message batch holds a message from this sender.
pub open spec fn senders_contain(msgs: Seq<Message>, key: Seq<char>) -> bool {
    exists|i: int| 0 <= i < msgs.len() && msgs[i].sender@ == key
}

/// Whether a cached record is the negative-cache placeholder left behind by
/// a failed profile resolution.
pub open spec fn is_placeholder(pd: &ProfileDisplay) -> bool {
    !pd.verified && pd.name@ == "Guest"@
}

/// The sync client's local, rebuildable state.
pub struct ClientState {
    messages: Vec<Message>,
    users: Vec<ProfileDisplay>,
    unknown_users: Vec<String>,
    input: Vec<char>,
    cursor_position: usize,
    retry_unresolved: bool,
}

impl ClientState {
    /// The current message view.
    pub closed spec fn spec_messages(&self) -> Seq<Message> {
        self.messages@
    }

    /// The profile display cache.
    pub closed spec fn spec_users(&self) -> Seq<ProfileDisplay> {
        self.users@
    }

    /// The keys queued for profile resolution.
    pub closed spec fn spec_unknown(&self) -> Seq<String> {
        self.unknown_users@
    }

    /// The input buffer being edited, by characters.
    pub closed spec fn spec_input(&self) -> Seq<char> {
        self.input@
    }

    /// The cursor position within the input buffer.
    pub closed spec fn spec_cursor(&self) -> usize {
        self.cursor_position
    }

    /// Whether a negative resolution result is retried on later batches
    /// instead of staying cached for good.
    pub closed spec fn spec_retry_unresolved(&self) -> bool {
        self.retry_unresolved
    }

    /// Whether a sender key still needs profile resolution under the
    /// configured policy: an uncached key always does; a cached placeholder
    /// does exactly when retrying is switched on.
    pub open spec fn spec_needs_resolution(&self, k: Seq<char>) -> bool {
        match spec_cache_lookup(self.spec_users(), k) {
            None => true,
            Some(pd) => self.spec_retry_unresolved() && is_placeholder(&pd),
        }
    }

    /// Client invariant: cache keys unique, queued keys unique, cursor within
    /// the input buffer.
    pub open spec fn wf(&self) -> bool {
        &&& distinct_cache_keys(self.spec_users())
        &&& distinct_keys(self.spec_unknown())
        &&& self.spec_cursor() <= self.spec_input().len()
    }

    /// A fresh client with nothing cached and nothing pending.
    pub fn new() -> (r: ClientState)
        ensures
            r.wf(),
            r.spec_messages() == Seq::<Message>::empty(),
            r.spec_users() == Seq::<ProfileDisplay>::empty(),
            r.spec_unknown() == Seq::<String>::empty(),
            r.spec_input() == Seq::<char>::empty(),
            r.spec_cursor() == 0,
            !r.spec_retry_unresolved(),
    {
        ClientState {
            messages: Vec::new(),
            users: Vec::new(),
            unknown_users: Vec::new(),
            input: Vec::new(),
            cursor_position: 0,
            retry_unresolved: false,
        }
    }

    /// Chooses whether failed resolutions are retried on later observation
    /// batches or stay cached as placeholders for good.
    pub fn set_retry_unresolved(&mut self, retry: bool)
        requires
            old(self).wf(),
        ensures
            final(self).wf(),
            final(self).spec_retry_unresolved() == retry,
            final(self).spec_messages() == old(self).spec_messages(),
            final(self).spec_users() == old(self).spec_users(),
            final(self).spec_unknown() == old(self).spec_unknown(),
            final(self).spec_input() == old(self).spec_input(),
            final(self).spec_cursor() == old(self).spec_cursor(),
    {
        self.retry_unresolved = retry;
    }

    /// Whether this sender key should be queued for resolution.
    fn needs_resolution(&self, key: &String) -> (r: bool)
        requires
            self.wf(),
        ensures
            r == self.spec_needs_resolution(key@),
    {
        match self.cache_index_of(key) {
            None => {
                proof {
                    lemma_cache_lookup_absent(self.spec_users(), key@);
                }
                true
            },
            Some(i) => {
                proof {
                    lemma_cache_lookup_index(self.spec_users(), i as int);
                }
                if !self.retry_unresolved {
                    return false;
                }
                let guest = String::from_str("Guest");
                !self.users[i].verified && self.users[i].name == guest
            },
        }
    }

    /// The position of a key in the cache, if any.
    #[verifier::loop_isolation(false)]
    fn cache_index_of(&self, key: &String) -> (r: Option<usize>)
        ensures
            match r {
                Some(i) => i < self.spec_users().len() && self.spec_users()[i as int].key@ == key@,
                None => forall|j: int|
                    0 <= j < self.spec_users().len() ==> #[trigger] self.spec_users()[j].key@
                        != key@,
            },
    {
        let n = self.users.len();
        let mut i: usize = 0;
        while i < n
            invariant
                i <= n,
                forall|j: int| 0 <= j < i ==> #[trigger] self.users@[j].key@ != key@,
            decreases n - i,
        {
            if self.users[i].key == *key {
                return Some(i);
            }
            i = i + 1;
        }
        None
    }

    /// The name to render for a sender: the cached display name, or the
    /// placeholder "Guest" while the key is unresolved.
    pub fn display_name(&self, key: &String) -> (r: String)
        requires
            self.wf(),
        ensures
            match spec_cache_lookup(self.spec_users(), key@) {
                Some(pd) => r@ == pd.name@,
                None => r@ == "Guest"@,
            },
    {
        match self.cache_index_of(key) {
            Some(i) => {
                proof {
                    lemma_cache_lookup_index(self.spec_users(), i as int);
                }
                self.users[i].name.clone()
            },
            None => {
                proof {
                    lemma_cache_lookup_absent(self.spec_users(), key@);
                }
                String::from_str("Guest")
            },
        }
    }

    /// Replaces the message view with a freshly polled batch and queues each
    /// sender whose key is not cached, exactly once per unknown key in the
    /// batch.
    #[verifier::loop_isolation(false)]
    pub fn observe_messages(&mut self, msgs: Vec<Message>)
        requires
            old(self).wf(),
        ensures
            final(self).wf(),
            final(self).spec_messages() == msgs@,
            final(self).spec_users() == old(self).spec_users(),
            final(self).spec_input() == old(self).spec_input(),
            final(self).spec_cursor() == old(self).spec_cursor(),
            forall|k: Seq<char>|
                keys_contain(#[trigger] final(self).spec_unknown(), k) <==> (senders_contain(
                    msgs@,
                    k,
                ) && old(self).spec_needs_resolution(k)),
            final(self).spec_retry_unresolved() == old(self).spec_retry_unresolved(),
    {
        let mut pending: Vec<String> = Vec::new();
        let n = msgs.len();
        let mut i: usize = 0;
        while i < n
            invariant
                self == old(self),
                i <= n,
                n == msgs@.len(),
                distinct_keys(pending@),
                forall|x: int|
                    0 <= x < pending@.len() ==> self.spec_needs_resolution(
                        #[trigger] pending@[x]@,
                    ) && senders_contain(msgs@.take(i as int), pending@[x]@),
                forall|y: int|
                    0 <= y < i ==> !self.spec_needs_resolution(#[trigger] msgs@[y].sender@)
                        || keys_contain(pending@, msgs@[y].sender@),
            decreases n - i,
        {
            let ghost pending0 = pending@;
            let sender = &msgs[i].sender;
            let needed = self.needs_resolution(sender);
            if needed {
                let queued = self.pending_contains(&pending, sender);
                if !queued {
                    pending.push(sender.clone());
                }
            }
            proof {
                assert(forall|x: int|
                    0 <= x < pending0.len() ==> #[trigger] pending@[x] == pending0[x]);
                assert forall|x: int|
                    0 <= x < pending@.len() implies senders_contain(
                    msgs@.take(i + 1),
                    #[trigger] pending@[x]@,
                ) by {
                    if x < pending0.len() {
                        let y = choose|y: int|
                            0 <= y < msgs@.take(i as int).len() && msgs@.take(i as int)[y].sender@
                                == pending0[x]@;
                        assert(msgs@.take(i + 1)[y].sender@ == pending@[x]@);
                    } else {
                        assert(pending@[x]@ == sender@);
                        assert(msgs@.take(i + 1)[i as int].sender@ == sender@);
                    }
                }
                assert forall|y: int|
                    0 <= y < i + 1 implies !self.spec_needs_resolution(
                    #[trigger] msgs@[y].sender@,
                ) || keys_contain(pending@, msgs@[y].sender@) by {
                    if y < i {
                        if self.spec_needs_resolution(msgs@[y].sender@) {
                            let w = choose|x: int|
                                0 <= x < pending0.len() && pending0[x]@ == msgs@[y].sender@;
                            assert(pending@[w]@ == msgs@[y].sender@);
                        }
                    } else {
                        if needed {
                            if keys_contain(pending0, sender@) {
                                let w = choose|x: int|
                                    0 <= x < pending0.len() && pending0[x]@ == sender@;
                                assert(pending@[w]@ == sender@);
                            } else {
                                assert(pending@[pending0.len() as int]@ == sender@);
                            }
                        }
                    }
                }
            }
            i = i + 1;
        }
        self.messages = msgs;
        self.unknown_users = pending;
        proof {
            assert(msgs@.take(n as int) =~= msgs@);
            assert forall|k: Seq<char>|
                keys_contain(#[trigger] self.spec_unknown(), k) implies (senders_contain(msgs@, k)
                && old(self).spec_needs_resolution(k)) by {
                let x = choose|x: int|
                    0 <= x < self.spec_unknown().len() && self.spec_unknown()[x]@ == k;
                assert(old(self).spec_needs_resolution(self.spec_unknown()[x]@));
                assert(senders_contain(msgs@.take(n as int), self.spec_unknown()[x]@));
            }
            assert forall|k: Seq<char>|
                senders_contain(msgs@, k) && old(self).spec_needs_resolution(
                    k,
                ) implies keys_contain(#[trigger] self.spec_unknown(), k) by {
                let y = choose|y: int| 0 <= y < msgs@.len() && #[trigger] msgs@[y].sender@ == k;
                assert(!old(self).spec_needs_resolution(msgs@[y].sender@) || keys_contain(
                    self.spec_unknown(),
                    msgs@[y].sender@,
                ));
            }
        }
    }

    /// Whether a key is already queued.
    #[verifier::loop_isolation(false)]
    fn pending_contains(&self, pending: &Vec<String>, key: &String) -> (r: bool)
        ensures
            r == keys_contain(pending@, key@),
    {
        let n = pending.len();
        let mut i: usize = 0;
        while i < n
            invariant
                i <= n,
                forall|j: int| 0 <= j < i ==> #[trigger] pending@[j]@ != key@,
            decreases n - i,
        {
            if pending[i] == *key {
                return true;
            }
            i = i + 1;
        }
        false
    }

    /// Hands out the queued profile fetches and clears the queue.
    pub fn drain_unknown(&mut self) -> (r: Vec<String>)
        requires
            old(self).wf(),
        ensures
            final(self).wf(),
            r@ == old(self).spec_unknown(),
            final(self).spec_unknown() == Seq::<String>::empty(),
            final(self).spec_messages() == old(self).spec_messages(),
            final(self).spec_users() == old(self).spec_users(),
            final(self).spec_input() == old(self).spec_input(),
            final(self).spec_cursor() == old(self).spec_cursor(),
            final(self).spec_retry_unresolved() == old(self).spec_retry_unresolved(),
    {
        let mut drained: Vec<String> = Vec::new();
        core::mem::swap(&mut drained, &mut self.unknown_users);
        drained
    }

    /// Records a resolved (or placeholder) display record, replacing any
    /// prior record for the same key.
    pub fn record_profile(&mut self, pd: ProfileDisplay)
        requires
            old(self).wf(),
        ensures
            final(self).wf(),
            final(self).spec_users() == spec_cache_upsert(old(self).spec_users(), pd),
            final(self).spec_messages() == old(self).spec_messages(),
            final(self).spec_unknown() == old(self).spec_unknown(),
            final(self).spec_input() == old(self).spec_input(),
            final(self).spec_cursor() == old(self).spec_cursor(),
            final(self).spec_retry_unresolved() == old(self).spec_retry_unresolved(),
    {
        match self.cache_index_of(&pd.key) {
            Some(i) => {
                self.users.remove(i);
                self.users.insert(i, pd);
                proof {
                    let ghost s0 = old(self).spec_users();
                    assert forall|k: int| 0 <= k < s0.len() && k != i implies #[trigger] s0[k].key@
                        != self.users@[i as int].key@ by {
                        if k < i {
                            assert(s0[k].key@ != s0[i as int].key@);
                        } else {
                            assert(s0[i as int].key@ != s0[k].key@);
                        }
                    }
                    assert(self.spec_users() =~= spec_cache_upsert(s0, self.users@[i as int]));
                }
            },
            None => {
                self.users.push(pd);
            },
        }
    }

    /// Empties the profile cache, forcing every name to resolve afresh.
    pub fn refresh_profiles(&mut self)
        requires
            old(self).wf(),
        ensures
            final(self).wf(),
            final(self).spec_users() == Seq::<ProfileDisplay>::empty(),
            final(self).spec_messages() == old(self).spec_messages(),
            final(self).spec_unknown() == old(self).spec_unknown(),
            final(self).spec_input() == old(self).spec_input(),
            final(self).spec_cursor() == old(self).spec_cursor(),
            final(self).spec_retry_unresolved() == old(self).spec_retry_unresolved(),
    {
        self.users.clear();
    }

    /// The number of cached messages.
    pub fn message_count(&self) -> (r: usize)
        ensures
            r == self.spec_messages().len(),
    {
        self.messages.len()
    }

    /// The message at a position.
    pub fn message_at(&self, i: usize) -> (r: (&String, &String))
        requires
            i < self.spec_messages().len(),
        ensures
            r.0@ == self.spec_messages()[i as int].sender@,
            r.1@ == self.spec_messages()[i as int].content@,
    {
        (&self.messages[i].sender, &self.messages[i].content)
    }

    /// The number of characters in the input buffer.
    pub fn input_len(&self) -> (r: usize)
        ensures
            r == self.spec_input().len(),
    {
        self.input.len()
    }

    /// Clamps a cursor position into the input buffer.
    pub fn clamp_cursor(&self, position: usize) -> (r: usize)
        ensures
            r == if position <= self.spec_input().len() {
                position as int
            } else {
                self.spec_input().len() as int
            },
    {
        let len = self.input.len();
        if position <= len {
            position
        } else {
            len
        }
    }

    /// Moves the cursor one place left, stopping at the start.
    pub fn move_cursor_left(&mut self)
        requires
            old(self).wf(),
        ensures
            final(self).wf(),
            final(self).spec_input() == old(self).spec_input(),
            final(self).spec_cursor() == if old(self).spec_cursor() > 0 {
                old(self).spec_cursor() - 1
            } else {
                0int
            },
            final(self).spec_messages() == old(self).spec_messages(),
            final(self).spec_users() == old(self).spec_users(),
            final(self).spec_unknown() == old(self).spec_unknown(),
            final(self).spec_retry_unresolved() == old(self).spec_retry_unresolved(),
    {
        let left = if self.cursor_position > 0 {
            self.cursor_position - 1
        } else {
            0
        };
        self.cursor_position = self.clamp_cursor(left);
    }

    /// Moves the cursor one place right, stopping at the end of the buffer.
    pub fn move_cursor_right(&mut self)
        requires
            old(self).wf(),
        ensures
            final(self).wf(),
            final(self).spec_input() == old(self).spec_input(),
            final(self).spec_cursor() == vstd::math::min(
                old(self).spec_cursor() + 1,
                old(self).spec_input().len() as int,
            ),
            final(self).spec_messages() == old(self).spec_messages(),
            final(self).spec_users() == old(self).spec_users(),
            final(self).spec_unknown() == old(self).spec_unknown(),
            final(self).spec_retry_unresolved() == old(self).spec_retry_unresolved(),
    {
        let len = self.input.len();
        let right = if self.cursor_position < len {
            self.cursor_position + 1
        } else {
            self.cursor_position
        };
        self.cursor_position = self.clamp_cursor(right);
    }

    /// Inserts a character at the cursor and moves the cursor past it.
    pub fn insert_char(&mut self, c: char)
        requires
            old(self).wf(),
            old(self).spec_input().len() < usize::MAX,
        ensures
            final(self).wf(),
            final(self).spec_input() == old(self).spec_input().insert(old(self).spec_cursor() as int, c),
            final(self).spec_cursor() == old(self).spec_cursor() + 1,
            final(self).spec_messages() == old(self).spec_messages(),
            final(self).spec_users() == old(self).spec_users(),
            final(self).spec_unknown() == old(self).spec_unknown(),
            final(self).spec_retry_unresolved() == old(self).spec_retry_unresolved(),
    {
        self.input.insert(self.cursor_position, c);
        self.move_cursor_right();
    }

    /// Deletes the character before the cursor, if any, and moves the cursor
    /// back over it.
    pub fn delete_char(&mut self)
        requires
            old(self).wf(),
        ensures
            final(self).wf(),
            old(self).spec_cursor() == 0 ==> final(self).spec_input() == old(self).spec_input()
                && final(self).spec_cursor() == 0,
            old(self).spec_cursor() != 0 ==> final(self).spec_input() == old(self).spec_input().remove(
                old(self).spec_cursor() - 1,
            ) && final(self).spec_cursor() == old(self).spec_cursor() - 1,
            final(self).spec_messages() == old(self).spec_messages(),
            final(self).spec_users() == old(self).spec_users(),
            final(self).spec_unknown() == old(self).spec_unknown(),
            final(self).spec_retry_unresolved() == old(self).spec_retry_unresolved(),
    {
        if self.cursor_position != 0 {
            self.input.remove(self.cursor_position - 1);
            self.cursor_position = self.cursor_position - 1;
        }
    }

    /// The cursor position, for rendering.
    pub fn cursor(&self) -> (r: usize)
        ensures
            r == self.spec_cursor(),
    {
        self.cursor_position
    }

    /// The typed line so far, for rendering.
    #[verifier::loop_isolation(false)]
    pub fn input_text(&self) -> (r: String)
        ensures
            r@ == self.spec_input(),
    {
        let mut out = String::new();
        let n = self.input.len();
        let mut i: usize = 0;
        while i < n
            invariant
                n == self.spec_input().len(),
                i <= n,
                out@ == self.spec_input().take(i as int),
            decreases n - i,
        {
            push_char(&mut out, self.input[i]);
            proof {
                assert(self.spec_input().take(i + 1) =~= self.spec_input().take(i as int) + seq![
                    self.spec_input()[i as int],
                ]);
            }
            i = i + 1;
        }
        proof {
            assert(self.spec_input().take(n as int) =~= self.spec_input());
        }
        out
    }

    /// Hands the typed line out as a string and clears the buffer, as a
    /// submission does.
    #[verifier::loop_isolation(false)]
    pub fn take_input(&mut self) -> (r: String)
        requires
            old(self).wf(),
        ensures
            final(self).wf(),
            r@ == old(self).spec_input(),
            final(self).spec_input() == Seq::<char>::empty(),
            final(self).spec_cursor() == 0,
            final(self).spec_messages() == old(self).spec_messages(),
            final(self).spec_users() == old(self).spec_users(),
            final(self).spec_unknown() == old(self).spec_unknown(),
            final(self).spec_retry_unresolved() == old(self).spec_retry_unresolved(),
    {
        let out = self.input_text();
        self.input.clear();
        self.cursor_position = 0;
        out
    }

    /// Puts the cursor back at the start of the buffer.
    pub fn reset_cursor(&mut self)
        requires
            old(self).wf(),
        ensures
            final(self).wf(),
            final(self).spec_input() == old(self).spec_input(),
            final(self).spec_cursor() == 0,
            final(self).spec_messages() == old(self).spec_messages(),
            final(self).spec_users() == old(self).spec_users(),
            final(self).spec_unknown() == old(self).spec_unknown(),
            final(self).spec_retry_unresolved() == old(self).spec_retry_unresolved(),
    {
        self.cursor_position = 0;
    }
}

/// Relies on `String::push`: appends exactly the one character.
#[verifier::external_body]
fn push_char(s: &mut String, c: char)
    ensures
        final(s)@ == old(s)@ + seq![c],
{
    s.push(c);
}

/// The display record a profile response resolves to: a found profile is
/// cached under the response's key with its claimed name, marked verified
/// exactly when its signature checks out; a missing profile or failed fetch
/// is cached as the "Guest" placeholder so the key is not re-queried every
/// tick.
pub fn resolve_profile(target: &String, response: Option<&Signed<Profile>>) -> (r: ProfileDisplay)
    ensures
        match response {
            Some(env) => r.key@ == env.key@ && r.name@ == env.data.name@ && r.verified
                == env.spec_valid(),
            None => r.key@ == target@ && r.name@ == "Guest"@ && !r.verified,
        },
{
    match response {
        Some(env) => {
            let verified = env.verify();
            ProfileDisplay { key: env.key.clone(), name: env.data.name.clone(), verified }
        },
        None => ProfileDisplay {
            key: target.clone(),
            name: String::from_str("Guest"),
            verified: false,
        },
    }
}

/// A cache with distinct keys answers a lookup of a stored key with the
/// record stored at its index.
pub proof fn lemma_cache_lookup_index(users: Seq<ProfileDisplay>, i: int)
    requires
        distinct_cache_keys(users),
        0 <= i < users.len(),
    ensures
        spec_cache_lookup(users, users[i].key@) == Some(users[i]),
    decreases users.len(),
{
    if i > 0 {
        let t = users.drop_first();
        assert(forall|p: int, q: int|
            0 <= p < q < t.len() ==> #[trigger] t[p].key@ != #[trigger] t[q].key@) by {
            assert(forall|p: int| 0 <= p < t.len() ==> t[p] == users[p + 1]);
        }
        lemma_cache_lookup_index(t, i - 1);
        assert(t[i - 1] == users[i]);
        assert(users[0].key@ != users[i].key@);
    }
}

/// A lookup of a key that no cache entry holds answers nothing.
pub proof fn lemma_cache_lookup_absent(users: Seq<ProfileDisplay>, key: Seq<char>)
    requires
        forall|i: int| 0 <= i < users.len() ==> #[trigger] users[i].key@ != key,
    ensures
        spec_cache_lookup(users, key) is None,
    decreases users.len(),
{
    if users.len() > 0 {
        assert(forall|i: int|
            0 <= i < users.drop_first().len() ==> users.drop_first()[i] == users[i + 1]);
        lemma_cache_lookup_absent(users.drop_first(), key);
    }
}

/// Once a profile response for a key is recorded, that key resolves to the
/// recorded name: renders move from the "Guest" placeholder to the resolved
/// display record.
pub proof fn lemma_display_after_record(users: Seq<ProfileDisplay>, pd: ProfileDisplay)
    requires
        distinct_cache_keys(users),
    ensures
        spec_cache_lookup(spec_cache_upsert(users, pd), pd.key@) == Some(pd),
{
    let u2 = spec_cache_upsert(users, pd);
    if exists|i: int| 0 <= i < users.len() && users[i].key@ == pd.key@ {
        let w = choose|i: int| 0 <= i < users.len() && users[i].key@ == pd.key@;
        assert forall|i: int, j: int| 0 <= i < j < u2.len() implies #[trigger] u2[i].key@
            != #[trigger] u2[j].key@ by {
            assert(users[i].key@ != users[j].key@);
        }
        assert(u2[w] == pd);
        lemma_cache_lookup_index(u2, w);
    } else {
        assert forall|i: int, j: int| 0 <= i < j < u2.len() implies #[trigger] u2[i].key@
            != #[trigger] u2[j].key@ by {
            if j < users.len() {
                assert(users[i].key@ != users[j].key@);
            }
        }
        assert(u2[users.len() as int] == pd);
        lemma_cache_lookup_index(u2, users.len() as int);
    }
}

} // verus!
