//! Posts and post queries.

use crate::codec::{push_str_bytes, spec_enc_str};
use crate::metadata::{
    dup_opt_meta, lemma_metadata_encoding_deterministic, opt_meta_wf, push_opt_meta,
    spec_enc_opt_meta, spec_opt_meta_map, spec_opt_meta_pairs, Metadata,
};
use crate::{Payload, Signed};
use vstd::prelude::*;

verus! {

/// Tag byte separating post encodings from other payload kinds.
pub const TAG_POST: u8 = 1;

/// Tag byte separating post-query encodings from other payload kinds.
pub const TAG_POST_REQUEST: u8 = 2;

/// A message published to a channel. Append-only: once accepted it is never
/// updated or deleted.
pub struct Post {
    /// The channel the post belongs to.
    pub channel: String,
    /// The message text.
    pub content: String,
    /// Optional free-form metadata.
    pub metadata: Option<Metadata>,
}

/// The logical content of a post.
pub struct PostView {
    /// The channel, as characters.
    pub channel: Seq<char>,
    /// The content, as characters.
    pub content: Seq<char>,
    /// The metadata entries, in canonical order.
    pub metadata: Option<Seq<(Seq<char>, Seq<char>)>>,
}

impl Payload for Post {
    type V = PostView;

    open spec fn pview(&self) -> PostView {
        PostView {
            channel: self.channel@,
            content: self.content@,
            metadata: spec_opt_meta_pairs(&self.metadata),
        }
    }

    open spec fn spec_field_bytes(&self) -> Seq<u8> {
        seq![TAG_POST] + spec_enc_str(self.channel@) + spec_enc_str(self.content@)
            + spec_enc_opt_meta(&self.metadata)
    }

    open spec fn inv(&self) -> bool {
        opt_meta_wf(&self.metadata)
    }

    fn push_field_bytes(&self, out: &mut Vec<u8>) {
        out.push(TAG_POST);
        push_str_bytes(out, self.channel.as_str());
        push_str_bytes(out, self.content.as_str());
        push_opt_meta(out, &self.metadata);
        proof {
            assert(out@ =~= old(out)@ + self.spec_field_bytes());
        }
    }

    fn dup(&self) -> (r: Self) {
        Post {
            channel: self.channel.clone(),
            content: self.content.clone(),
            metadata: dup_opt_meta(&self.metadata),
        }
    }
}

/// A query for stored posts.
pub struct PostRequest {
    /// The channel asked about; a forward-looking filter, not yet applied.
    pub channel: String,
    /// Optional free-form metadata.
    pub metadata: Option<Metadata>,
}

/// The logical content of a post query.
pub struct PostRequestView {
    /// The channel, as characters.
    pub channel: Seq<char>,
    /// The metadata entries, in canonical order.
    pub metadata: Option<Seq<(Seq<char>, Seq<char>)>>,
}

impl Payload for PostRequest {
    type V = PostRequestView;

    open spec fn pview(&self) -> PostRequestView {
        PostRequestView { channel: self.channel@, metadata: spec_opt_meta_pairs(&self.metadata) }
    }

    open spec fn spec_field_bytes(&self) -> Seq<u8> {
        seq![TAG_POST_REQUEST] + spec_enc_str(self.channel@) + spec_enc_opt_meta(&self.metadata)
    }

    open spec fn inv(&self) -> bool {
        opt_meta_wf(&self.metadata)
    }

    fn push_field_bytes(&self, out: &mut Vec<u8>) {
        out.push(TAG_POST_REQUEST);
        push_str_bytes(out, self.channel.as_str());
        push_opt_meta(out, &self.metadata);
        proof {
            assert(out@ =~= old(out)@ + self.spec_field_bytes());
        }
    }

    fn dup(&self) -> (r: Self) {
        PostRequest { channel: self.channel.clone(), metadata: dup_opt_meta(&self.metadata) }
    }
}

/// Canonical encoding is deterministic: two post envelopes with the same
/// logical content — equal key, server, timestamp, channel and content, and
/// metadata with the same entries whatever order they were inserted in —
/// have byte-identical canonical signable encodings.
pub proof fn lemma_post_signable_deterministic(e1: Signed<Post>, e2: Signed<Post>)
    requires
        e1.data.inv(),
        e2.data.inv(),
        e1.key@ == e2.key@,
        e1.server@ == e2.server@,
        e1.timestamp == e2.timestamp,
        e1.data.channel@ == e2.data.channel@,
        e1.data.content@ == e2.data.content@,
        spec_opt_meta_map(&e1.data.metadata) == spec_opt_meta_map(&e2.data.metadata),
    ensures
        e1.spec_signable() == e2.spec_signable(),
{
    match (e1.data.metadata, e2.data.metadata) {
        (Some(m1), Some(m2)) => {
            lemma_metadata_encoding_deterministic(m1, m2);
        },
        (Some(m1), None) => {
            assert(false);
        },
        (None, Some(m2)) => {
            assert(false);
        },
        (None, None) => {
        },
    }
}

} // verus!
