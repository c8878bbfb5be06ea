//! The stored form of a trust anchor: an rkyv archive of its three parts,
//! followed by the archive's root position as a 16-bit big-endian integer.

use rkyv::ser::Serializer;
use rkyv::Deserialize;
use vstd::prelude::*;

use crate::anchor::{opt_bytes_view, AnchorView, OwnedTrustAnchor};
use crate::error::StoreError;

verus! {

/// The archive that rkyv writes for an anchor's parts, and the position of its root.
pub uninterp spec fn archived(a: AnchorView) -> (Seq<u8>, nat);

/// What rkyv's checked read makes of an archive whose root is at `pos`.
pub uninterp spec fn unarchived(bytes: Seq<u8>, pos: nat) -> Option<AnchorView>;

/// Largest archive, and largest root position, that the trailing field can describe.
pub const MAX_ARCHIVE_BYTES: usize = 0xFFFF;

/// Total length of an anchor's three parts, in bytes.
pub open spec fn parts_len(a: AnchorView) -> nat {
    a.subject.len() + a.spki.len() + match a.name_constraints {
        Some(nc) => nc.len(),
        None => 0,
    }
}

/// Relies on rkyv's `AllocSerializer::serialize_value` on the tuple of the
/// anchor's parts. Its scratch space is unbounded, so it does not fail; it
/// panics only when a relative offset exceeds 32 bits, which parts this small
/// never reach. The archive and its root position depend on the value alone,
/// and rkyv's checked read of that archive at that position gives the value
/// back.
#[verifier::external_body]
fn archive_parts(ta: &OwnedTrustAnchor) -> (r: Option<(Vec<u8>, usize)>)
    requires
        parts_len(ta@) <= MAX_ARCHIVE_BYTES,
    ensures
        r is Some,
        r matches Some((b, p)) ==> (b@, p as nat) == archived(ta@) && unarchived(b@, p as nat)
            == Some(ta@),
{
    let value = (ta.subject.clone(), ta.spki.clone(), ta.name_constraints.clone());
    let mut serializer = rkyv::ser::serializers::AllocSerializer::<256>::default();
    match serializer.serialize_value(&value) {
        Ok(pos) => Some((serializer.into_serializer().into_inner().to_vec(), pos)),
        Err(_) => None,
    }
}

/// Relies on rkyv's `check_archived_value` and `Deserialize` for the tuple of
/// an anchor's parts: the outcome depends on the bytes and the position alone.
#[verifier::external_body]
fn unarchive_parts(bytes: &Vec<u8>, pos: usize) -> (r: Option<OwnedTrustAnchor>)
    ensures
        match r {
            Some(a) => unarchived(bytes@, pos as nat) == Some(a@),
            None => unarchived(bytes@, pos as nat) is None,
        },
{
    let mut aligned = rkyv::AlignedVec::new();
    aligned.extend_from_slice(bytes.as_slice());
    let archived = rkyv::check_archived_value::<(Vec<u8>, Vec<u8>, Option<Vec<u8>>)>(&aligned, pos)
        .ok()?;
    let parts: (Vec<u8>, Vec<u8>, Option<Vec<u8>>) = archived.deserialize(&mut rkyv::Infallible)
        .ok()?;
    Some(OwnedTrustAnchor { subject: parts.0, spki: parts.1, name_constraints: parts.2 })
}

/// `v` as two big-endian bytes.
pub open spec fn be16(v: nat) -> Seq<u8> {
    seq![(v / 256) as u8, (v % 256) as u8]
}

/// An archive and its root position fit the trailing 16-bit field.
pub open spec fn frame_fits(archive: Seq<u8>, root: nat) -> bool {
    archive.len() <= MAX_ARCHIVE_BYTES && root <= MAX_ARCHIVE_BYTES
}

/// The archive followed by its root position.
pub open spec fn framed(archive: Seq<u8>, root: nat) -> Seq<u8> {
    archive + be16(root)
}

/// The archive and root position of a stored record; none when fewer than
/// two bytes are stored.
pub open spec fn unframed(bytes: Seq<u8>) -> Option<(Seq<u8>, nat)> {
    if bytes.len() < 2 {
        None
    } else {
        Some(
            (
                bytes.take(bytes.len() - 2),
                (bytes[bytes.len() - 2] as nat) * 256 + bytes[bytes.len() - 1] as nat,
            ),
        )
    }
}

/// The anchor's parts, and their archive with its root position, fit the
/// 16-bit trailing field.
pub open spec fn archive_fits(a: AnchorView) -> bool {
    parts_len(a) <= MAX_ARCHIVE_BYTES && frame_fits(archived(a).0, archived(a).1)
}

/// Whether the anchor's parts together take at most `MAX_ARCHIVE_BYTES` bytes.
fn parts_fit(ta: &OwnedTrustAnchor) -> (r: bool)
    ensures
        r == (parts_len(ta@) <= MAX_ARCHIVE_BYTES),
{
    let s = ta.subject.len();
    let p = ta.spki.len();
    let c = match &ta.name_constraints {
        Some(nc) => nc.len(),
        None => 0,
    };
    s <= MAX_ARCHIVE_BYTES && p <= MAX_ARCHIVE_BYTES - s && c <= MAX_ARCHIVE_BYTES - s - p
}

/// The bytes stored for an anchor.
pub open spec fn stored_form(a: AnchorView) -> Seq<u8> {
    framed(archived(a).0, archived(a).1)
}

/// The anchor read back from stored bytes, if any.
pub open spec fn decoded(bytes: Seq<u8>) -> Option<AnchorView> {
    match unframed(bytes) {
        Some((archive, root)) => unarchived(archive, root),
        None => None,
    }
}

/// Splitting the stored form gives back the archive and its root position.
pub proof fn lemma_unframe_framed(archive: Seq<u8>, root: nat)
    requires
        root <= MAX_ARCHIVE_BYTES,
    ensures
        unframed(framed(archive, root)) == Some((archive, root)),
{
    let b = framed(archive, root);
    assert(b.take(b.len() - 2) =~= archive);
    assert(b[b.len() - 2] == (root / 256) as u8);
    assert(b[b.len() - 1] == (root % 256) as u8);
    assert((((root / 256) as u8) as nat) * 256 + ((root % 256) as u8) as nat == root) by (nonlinear_arith)
        requires
            root <= 0xFFFF,
    ;
}

/// Appends the root position to the archive; fails when either does not fit
/// the 16-bit field.
pub fn frame_archive(archive: Vec<u8>, root: usize) -> (r: Result<Vec<u8>, StoreError>)
    ensures
        frame_fits(archive@, root as nat) ==> (r matches Ok(v) && v@ == framed(archive@, root as nat)),
        !frame_fits(archive@, root as nat) ==> r == Err::<Vec<u8>, StoreError>(
            StoreError::SizeLimitExceeded,
        ),
{
    if archive.len() > MAX_ARCHIVE_BYTES || root > MAX_ARCHIVE_BYTES {
        return Err(StoreError::SizeLimitExceeded);
    }
    let mut out = archive;
    out.push((root / 256) as u8);
    out.push((root % 256) as u8);
    assert(out@ =~= framed(archive@, root as nat));
    Ok(out)
}

/// Splits stored bytes into the archive and its root position.
pub fn unframe(bytes: &Vec<u8>) -> (r: Option<(Vec<u8>, usize)>)
    ensures
        match r {
            Some((a, p)) => unframed(bytes@) == Some((a@, p as nat)),
            None => unframed(bytes@) is None,
        },
{
    let n = bytes.len();
    if n < 2 {
        return None;
    }
    let mut archive: Vec<u8> = Vec::new();
    let mut i: usize = 0;
    while i < n - 2
        invariant
            n == bytes@.len(),
            n >= 2,
            i <= n - 2,
            archive@ =~= bytes@.take(i as int),
        decreases n - 2 - i,
    {
        archive.push(bytes[i]);
        i = i + 1;
    }
    let root = (bytes[n - 2] as usize) * 256 + (bytes[n - 1] as usize);
    Some((archive, root))
}

/// The stored form of `ta`, which reads back as `ta`; `SizeLimitExceeded`
/// when it does not fit the 16-bit trailing field.
pub fn encode_record(ta: &OwnedTrustAnchor) -> (r: Result<Vec<u8>, StoreError>)
    ensures
        archive_fits(ta@) ==> (r matches Ok(v) && v@ == stored_form(ta@)),
        !archive_fits(ta@) ==> r == Err::<Vec<u8>, StoreError>(StoreError::SizeLimitExceeded),
        r matches Ok(v) ==> decoded(v@) == Some(ta@),
{
    if !parts_fit(ta) {
        return Err(StoreError::SizeLimitExceeded);
    }
    match archive_parts(ta) {
        None => Err(StoreError::SizeLimitExceeded),
        Some((archive, root)) => {
            let ghost a = archive@;
            let r = frame_archive(archive, root);
            proof {
                if frame_fits(a, root as nat) {
                    lemma_unframe_framed(a, root as nat);
                }
            }
            r
        },
    }
}

/// The anchor held by stored bytes; none when they are too short or do not
/// hold a valid archive.
pub fn decode_record(bytes: &Vec<u8>) -> (r: Option<OwnedTrustAnchor>)
    ensures
        match r {
            Some(a) => decoded(bytes@) == Some(a@),
            None => decoded(bytes@) is None,
        },
{
    match unframe(bytes) {
        None => None,
        Some((archive, root)) => unarchive_parts(&archive, root),
    }
}

} // verus!
