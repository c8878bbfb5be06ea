//! The decisions of the trust-anchor store: which keys may be written, what
//! bytes a save writes, what a read returns, and what a bulk delete reports.
//! The storage collaborator itself performs the reads, writes and deletes.

use vstd::prelude::*;
use vstd::string::*;

use crate::anchor::OwnedTrustAnchor;
use crate::codec::{archive_fits, decode_record, decoded, encode_record, stored_form};
use crate::error::StoreError;

verus! {

/// Namespace that holds the trusted anchors.
pub const TLS_TRUSTED_DICT: &'static str = "tls.trusted";

/// Reserved key of the namespace's schema-version marker.
pub const CURRENT_VERSION_KEY: &'static str = "__version";

/// Keys that start with `__` are reserved for namespace metadata.
pub open spec fn is_reserved(key: Seq<char>) -> bool {
    key.len() >= 2 && key[0] == '_' && key[1] == '_'
}

/// Whether `key` starts with the reserved prefix `__`.
pub fn is_reserved_key(key: &str) -> (r: bool)
    ensures
        r == is_reserved(key@),
{
    let n = key.unicode_len();
    n >= 2 && key.get_char(0) == '_' && key.get_char(1) == '_'
}

/// The bytes that saving `ta` under `key` writes as the entry's whole contents.
/// A reserved key is refused before anything is written.
pub fn save_contents(key: &str, ta: &OwnedTrustAnchor) -> (r: Result<Vec<u8>, StoreError>)
    ensures
        is_reserved(key@) ==> r == Err::<Vec<u8>, StoreError>(StoreError::ReservedKey),
        !is_reserved(key@) && archive_fits(ta@) ==> (r matches Ok(v) && v@ == stored_form(ta@)),
        !is_reserved(key@) && !archive_fits(ta@) ==> r == Err::<Vec<u8>, StoreError>(
            StoreError::SizeLimitExceeded,
        ),
        r matches Ok(v) ==> decoded(v@) == Some(ta@),
{
    if is_reserved_key(key) {
        Err(StoreError::ReservedKey)
    } else {
        encode_record(ta)
    }
}

/// The anchor that a read returns for an entry's contents: none for an absent
/// entry and for contents that do not decode.
pub fn read_contents(contents: Option<Vec<u8>>) -> (r: Option<OwnedTrustAnchor>)
    ensures
        contents is None ==> r is None,
        contents matches Some(b) ==> match r {
            Some(a) => decoded(b@) == Some(a@),
            None => decoded(b@) is None,
        },
{
    match contents {
        None => None,
        Some(bytes) => decode_record(&bytes),
    }
}

/// Number of `true` outcomes.
pub open spec fn count_true(s: Seq<bool>) -> nat
    decreases s.len(),
{
    if s.len() == 0 {
        0
    } else {
        count_true(s.drop_last()) + if s.last() {
            1nat
        } else {
            0nat
        }
    }
}

/// What a bulk delete reports: the number of keys whose deletion succeeded.
pub fn deleted_count(outcomes: &Vec<bool>) -> (r: usize)
    ensures
        r == count_true(outcomes@),
{
    let mut count: usize = 0;
    let mut i: usize = 0;
    while i < outcomes.len()
        invariant
            i <= outcomes@.len(),
            count == count_true(outcomes@.take(i as int)),
            count <= i,
        decreases outcomes@.len() - i,
    {
        assert(outcomes@.take(i + 1).drop_last() =~= outcomes@.take(i as int));
        if outcomes[i] {
            count = count + 1;
        }
        i = i + 1;
    }
    assert(outcomes@.take(i as int) =~= outcomes@);
    count
}

/// When every deletion succeeds, a bulk delete reports every key.
pub proof fn lemma_all_deleted_counted(outcomes: Seq<bool>)
    requires
        forall|i: int| 0 <= i < outcomes.len() ==> outcomes[i],
    ensures
        count_true(outcomes) == outcomes.len(),
    decreases outcomes.len(),
{
    if outcomes.len() > 0 {
        lemma_all_deleted_counted(outcomes.drop_last());
    }
}

} // verus!
