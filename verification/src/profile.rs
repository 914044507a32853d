//! Profile records and profile queries.

use crate::codec::{push_str_bytes, spec_enc_str};
use crate::metadata::{
    dup_opt_meta, lemma_metadata_encoding_deterministic, opt_meta_wf, push_opt_meta,
    spec_enc_opt_meta, spec_opt_meta_map, spec_opt_meta_pairs, Metadata,
};
use crate::{Payload, Signed};
use vstd::prelude::*;

verus! {

/// Tag byte separating profile encodings from other payload kinds.
pub const TAG_PROFILE: u8 = 3;

/// Tag byte separating profile-query encodings from other payload kinds.
pub const TAG_PROFILE_REQUEST: u8 = 4;

/// A display record for an identity, keyed by the submitter's public key.
/// The latest accepted write replaces the prior record for that key.
pub struct Profile {
    /// The display name claimed for the key.
    pub name: String,
    /// Optional free-form metadata.
    pub metadata: Option<Metadata>,
}

/// The logical content of a profile.
pub struct ProfileView {
    /// The name, as characters.
    pub name: Seq<char>,
    /// The metadata entries, in canonical order.
    pub metadata: Option<Seq<(Seq<char>, Seq<char>)>>,
}

impl Payload for Profile {
    type V = ProfileView;

    open spec fn pview(&self) -> ProfileView {
        ProfileView { name: self.name@, metadata: spec_opt_meta_pairs(&self.metadata) }
    }

    open spec fn spec_field_bytes(&self) -> Seq<u8> {
        seq![TAG_PROFILE] + spec_enc_str(self.name@) + spec_enc_opt_meta(&self.metadata)
    }

    open spec fn inv(&self) -> bool {
        opt_meta_wf(&self.metadata)
    }

    fn push_field_bytes(&self, out: &mut Vec<u8>) {
        out.push(TAG_PROFILE);
        push_str_bytes(out, self.name.as_str());
        push_opt_meta(out, &self.metadata);
        proof {
            assert(out@ =~= old(out)@ + self.spec_field_bytes());
        }
    }

    fn dup(&self) -> (r: Self) {
        Profile { name: self.name.clone(), metadata: dup_opt_meta(&self.metadata) }
    }
}

/// A query for the profile stored under another identity's key.
pub struct ProfileRequest {
    /// The public key whose profile is asked for.
    pub target_key: String,
}

/// The logical content of a profile query.
pub struct ProfileRequestView {
    /// The target key, as characters.
    pub target_key: Seq<char>,
}

impl Payload for ProfileRequest {
    type V = ProfileRequestView;

    open spec fn pview(&self) -> ProfileRequestView {
        ProfileRequestView { target_key: self.target_key@ }
    }

    open spec fn spec_field_bytes(&self) -> Seq<u8> {
        seq![TAG_PROFILE_REQUEST] + spec_enc_str(self.target_key@)
    }

    open spec fn inv(&self) -> bool {
        true
    }

    fn push_field_bytes(&self, out: &mut Vec<u8>) {
        out.push(TAG_PROFILE_REQUEST);
        push_str_bytes(out, self.target_key.as_str());
        proof {
            assert(out@ =~= old(out)@ + self.spec_field_bytes());
        }
    }

    fn dup(&self) -> (r: Self) {
        ProfileRequest { target_key: self.target_key.clone() }
    }
}

/// Canonical encoding is deterministic for profile envelopes as well: equal
/// logical content gives byte-identical canonical signable encodings.
pub proof fn lemma_profile_signable_deterministic(e1: Signed<Profile>, e2: Signed<Profile>)
    requires
        e1.data.inv(),
        e2.data.inv(),
        e1.key@ == e2.key@,
        e1.server@ == e2.server@,
        e1.timestamp == e2.timestamp,
        e1.data.name@ == e2.data.name@,
        spec_opt_meta_map(&e1.data.metadata) == spec_opt_meta_map(&e2.data.metadata),
    ensures
        e1.spec_signable() == e2.spec_signable(),
{
    match (e1.data.metadata, e2.data.metadata) {
        (Some(m1), Some(m2)) => {
            lemma_metadata_encoding_deterministic(m1, m2);
        },
        (Some(m1), None) => {
            assert(false);
        },
        (None, Some(m2)) => {
            assert(false);
        },
        (None, None) => {
        },
    }
}

} // verus!
