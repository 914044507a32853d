//! Generic identified resources.

use crate::codec::{push_str_bytes, spec_enc_str};
use crate::metadata::{
    dup_opt_meta, opt_meta_wf, push_opt_meta, spec_enc_opt_meta, spec_opt_meta_pairs, Metadata,
};
use crate::Payload;
use vstd::prelude::*;

verus! {

/// Tag byte separating resource encodings from other payload kinds.
pub const TAG_RESOURCE: u8 = 6;

/// Tag byte separating resource-query encodings from other payload kinds.
pub const TAG_RESOURCE_REQUEST: u8 = 7;

/// A generic identified resource.
pub struct Resource {
    /// The resource identifier.
    pub id: String,
    /// Optional free-form metadata.
    pub metadata: Option<Metadata>,
}

/// The logical content of a resource.
pub struct ResourceView {
    /// The identifier, as characters.
    pub id: Seq<char>,
    /// The metadata entries, in canonical order.
    pub metadata: Option<Seq<(Seq<char>, Seq<char>)>>,
}

impl Payload for Resource {
    type V = ResourceView;

    open spec fn pview(&self) -> ResourceView {
        ResourceView { id: self.id@, metadata: spec_opt_meta_pairs(&self.metadata) }
    }

    open spec fn spec_field_bytes(&self) -> Seq<u8> {
        seq![TAG_RESOURCE] + spec_enc_str(self.id@) + spec_enc_opt_meta(&self.metadata)
    }

    open spec fn inv(&self) -> bool {
        opt_meta_wf(&self.metadata)
    }

    fn push_field_bytes(&self, out: &mut Vec<u8>) {
        out.push(TAG_RESOURCE);
        push_str_bytes(out, self.id.as_str());
        push_opt_meta(out, &self.metadata);
        proof {
            assert(out@ =~= old(out)@ + self.spec_field_bytes());
        }
    }

    fn dup(&self) -> (r: Self) {
        Resource { id: self.id.clone(), metadata: dup_opt_meta(&self.metadata) }
    }
}

/// A query for a resource by identifier.
pub struct ResourceRequest {
    /// The identifier asked for.
    pub id: String,
}

/// The logical content of a resource query.
pub struct ResourceRequestView {
    /// The identifier, as characters.
    pub id: Seq<char>,
}

impl Payload for ResourceRequest {
    type V = ResourceRequestView;

    open spec fn pview(&self) -> ResourceRequestView {
        ResourceRequestView { id: self.id@ }
    }

    open spec fn spec_field_bytes(&self) -> Seq<u8> {
        seq![TAG_RESOURCE_REQUEST] + spec_enc_str(self.id@)
    }

    open spec fn inv(&self) -> bool {
        true
    }

    fn push_field_bytes(&self, out: &mut Vec<u8>) {
        out.push(TAG_RESOURCE_REQUEST);
        push_str_bytes(out, self.id.as_str());
        proof {
            assert(out@ =~= old(out)@ + self.spec_field_bytes());
        }
    }

    fn dup(&self) -> (r: Self) {
        ResourceRequest { id: self.id.clone() }
    }
}

} // verus!
