//! The trust-anchor record: subject, public-key info and optional name
//! constraints, each an opaque DER byte string.

use vstd::prelude::*;

verus! {

/// Largest encoded trust anchor expected, in bytes.
pub const MAX_OTA_BYTES: usize = 1028;

/// The mathematical view of a trust anchor.
pub struct AnchorView {
    pub subject: Seq<u8>,
    pub spki: Seq<u8>,
    pub name_constraints: Option<Seq<u8>>,
}

/// A trust anchor as it is stored: the raw encodings, kept unchanged.
#[derive(Debug)]
pub struct OwnedTrustAnchor {
    pub subject: Vec<u8>,
    pub spki: Vec<u8>,
    pub name_constraints: Option<Vec<u8>>,
}

pub open spec fn opt_bytes_view(o: Option<Vec<u8>>) -> Option<Seq<u8>> {
    match o {
        Some(v) => Some(v@),
        None => None,
    }
}

impl View for OwnedTrustAnchor {
    type V = AnchorView;

    open spec fn view(&self) -> AnchorView {
        AnchorView {
            subject: self.subject@,
            spki: self.spki@,
            name_constraints: opt_bytes_view(self.name_constraints),
        }
    }
}

impl OwnedTrustAnchor {
    /// Builds an anchor from its three raw parts.
    pub fn from_subject_spki_name_constraints(
        subject: Vec<u8>,
        spki: Vec<u8>,
        name_constraints: Option<Vec<u8>>,
    ) -> (r: Self)
        ensures
            r.subject@ == subject@,
            r.spki@ == spki@,
            r.name_constraints == name_constraints,
            r@.name_constraints == opt_bytes_view(name_constraints),
    {
        OwnedTrustAnchor { subject, spki, name_constraints }
    }
}

} // verus!
