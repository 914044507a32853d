//! Channel queries.

use crate::metadata::{
    dup_opt_meta, opt_meta_wf, push_opt_meta, spec_enc_opt_meta, spec_opt_meta_pairs, Metadata,
};
use crate::Payload;
use vstd::prelude::*;

verus! {

/// Tag byte separating channel-query encodings from other payload kinds.
pub const TAG_CHANNEL_REQUEST: u8 = 5;

/// A query about channels.
pub struct ChannelRequest {
    /// Optional free-form metadata.
    pub metadata: Option<Metadata>,
}

/// The logical content of a channel query.
pub struct ChannelRequestView {
    /// The metadata entries, in canonical order.
    pub metadata: Option<Seq<(Seq<char>, Seq<char>)>>,
}

impl Payload for ChannelRequest {
    type V = ChannelRequestView;

    open spec fn pview(&self) -> ChannelRequestView {
        ChannelRequestView { metadata: spec_opt_meta_pairs(&self.metadata) }
    }

    open spec fn spec_field_bytes(&self) -> Seq<u8> {
        seq![TAG_CHANNEL_REQUEST] + spec_enc_opt_meta(&self.metadata)
    }

    open spec fn inv(&self) -> bool {
        opt_meta_wf(&self.metadata)
    }

    fn push_field_bytes(&self, out: &mut Vec<u8>) {
        out.push(TAG_CHANNEL_REQUEST);
        push_opt_meta(out, &self.metadata);
        proof {
            assert(out@ =~= old(out)@ + self.spec_field_bytes());
        }
    }

    fn dup(&self) -> (r: Self) {
        ChannelRequest { metadata: dup_opt_meta(&self.metadata) }
    }
}

} // verus!
