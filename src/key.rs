//! Derivation of a bounded, human-legible storage key from an anchor's
//! subject and public-key info.

use vstd::prelude::*;
use vstd::string::*;
use vstd::utf8::*;

use crate::anchor::{AnchorView, OwnedTrustAnchor};
use crate::text::{
    find_from, find_text, hex_digit, hex_upper, lemma_encode_len_ascii, lemma_encode_len_concat, lemma_truncate_fits, lemma_truncate_noop, lossy_text, push_char, push_hex, truncate_text,
    truncate_utf8, utf8_lossy, utf8_text,
};

verus! {

/// Bytes a storage entry name may take: 127 less the entry's fixed metadata
/// (address, length and reserved words of 8 bytes, flags and age of 4).
pub const KEY_NAME_LEN: usize = 127 - 8 - 8 - 8 - 4 - 4;

/// Longest derived key, in bytes: one byte of the name is kept for the terminator.
pub const MAX_KEY_BYTES: usize = KEY_NAME_LEN - 1;

pub open spec fn cn_marker() -> Seq<char> {
    seq!['C', 'N', '=']
}

pub open spec fn ou_marker() -> Seq<char> {
    seq!['O', 'U', '=']
}

pub open spec fn comma() -> Seq<char> {
    seq![',']
}

/// Where the `CN=` marker starts in `t`, else where `OU=` does.
pub open spec fn marker_start(t: Seq<char>) -> Option<int> {
    match find_from(t, cn_marker(), 0) {
        Some(b) => Some(b),
        None => find_from(t, ou_marker(), 0),
    }
}

/// The label read from a subject's text: what follows the marker up to the
/// next comma or the end; the whole text where no marker occurs.
pub open spec fn text_label(t: Seq<char>) -> Seq<char> {
    match marker_start(t) {
        Some(b) => {
            let s = b + 3;
            let e = match find_from(t, comma(), s) {
                Some(e) => e,
                None => t.len() as int,
            };
            t.subrange(s, e)
        },
        None => t,
    }
}

/// The label of a raw subject: read from its text when it is valid UTF-8,
/// else the bytes themselves, decoded lossily.
pub open spec fn subject_label(subject: Seq<u8>) -> Seq<char> {
    if valid_utf8(subject) {
        text_label(decode_utf8(subject))
    } else {
        utf8_lossy(subject)
    }
}

/// A space, then bytes 6 to 9 of the public-key info, two hexadecimal digits each.
pub open spec fn spki_suffix(spki: Seq<u8>) -> Seq<char> {
    seq![' '] + hex_upper(spki[6]) + hex_upper(spki[7]) + hex_upper(spki[8]) + hex_upper(spki[9])
}

/// The key before it is bounded.
pub open spec fn full_key(subject: Seq<u8>, spki: Seq<u8>) -> Seq<char> {
    subject_label(subject) + spki_suffix(spki)
}

/// The storage key of an anchor with this subject and public-key info.
pub open spec fn derived_key(subject: Seq<u8>, spki: Seq<u8>) -> Seq<char> {
    truncate_utf8(full_key(subject, spki), MAX_KEY_BYTES as int)
}

fn label_of_text(t: &str) -> (r: String)
    ensures
        r@ == text_label(t@),
{
    let cn = "CN=";
    let ou = "OU=";
    let sep = ",";
    proof {
        reveal_strlit("CN=");
        reveal_strlit("OU=");
        reveal_strlit(",");
        assert(cn@ =~= cn_marker());
        assert(ou@ =~= ou_marker());
        assert(sep@ =~= comma());
    }
    let n = t.unicode_len();
    let begin = match find_text(t, cn, 0) {
        Some(b) => Some(b),
        None => find_text(t, ou, 0),
    };
    match begin {
        Some(b) => {
            let s = b + 3;
            let e = match find_text(t, sep, s) {
                Some(e) => e,
                None => n,
            };
            t.substring_char(s, e).to_owned()
        },
        None => t.to_owned(),
    }
}

fn label_of_subject(subject: &Vec<u8>) -> (r: String)
    ensures
        r@ == subject_label(subject@),
{
    match utf8_text(subject) {
        Some(t) => label_of_text(t.as_str()),
        None => lossy_text(subject),
    }
}

impl OwnedTrustAnchor {
    /// The storage key of this anchor: the label of its subject, a space and
    /// four bytes of its public-key info in hexadecimal, cut to the longest
    /// prefix that fits `MAX_KEY_BYTES` bytes.
    pub fn pddb_key(&self) -> (r: String)
        requires
            self.spki@.len() >= 10,
        ensures
            r@ == derived_key(self.subject@, self.spki@),
            encode_utf8(r@).len() <= MAX_KEY_BYTES,
    {
        let mut key = label_of_subject(&self.subject);
        push_char(&mut key, ' ');
        push_hex(&mut key, self.spki[6]);
        push_hex(&mut key, self.spki[7]);
        push_hex(&mut key, self.spki[8]);
        push_hex(&mut key, self.spki[9]);
        assert(key@ =~= full_key(self.subject@, self.spki@));
        truncate_text(key.as_str(), MAX_KEY_BYTES)
    }
}

/// A derived key never takes more than `MAX_KEY_BYTES` bytes, however long the subject.
pub proof fn lemma_key_within_budget(subject: Seq<u8>, spki: Seq<u8>)
    ensures
        encode_utf8(derived_key(subject, spki)).len() <= MAX_KEY_BYTES,
{
    lemma_truncate_fits(full_key(subject, spki), MAX_KEY_BYTES as int);
}

/// Anchors with the same subject and public-key info derive the same key.
pub proof fn lemma_key_deterministic(a: AnchorView, b: AnchorView)
    requires
        a.subject == b.subject,
        a.spki == b.spki,
    ensures
        derived_key(a.subject, a.spki) == derived_key(b.subject, b.spki),
{
}

proof fn lemma_hex_digit_injective(x: u8, y: u8)
    requires
        x < 16,
        y < 16,
        hex_digit(x) == hex_digit(y),
    ensures
        x == y,
{
    assert(hex_digit(x) as u32 == (if x < 10 { 48 + x } else { 55 + x }) as u32);
    assert(hex_digit(y) as u32 == (if y < 10 { 48 + y } else { 55 + y }) as u32);
}

proof fn lemma_hex_pair_injective(x: u8, y: u8)
    requires
        hex_upper(x) == hex_upper(y),
    ensures
        x == y,
{
    assert(hex_upper(x)[0] == hex_upper(y)[0]);
    assert(hex_upper(x)[1] == hex_upper(y)[1]);
    lemma_hex_digit_injective(x / 16, y / 16);
    lemma_hex_digit_injective(x % 16, y % 16);
}

/// Public-key infos that differ in bytes 6 to 9 give different suffixes.
pub proof fn lemma_suffix_distinguishes(p1: Seq<u8>, p2: Seq<u8>)
    requires
        p1.len() >= 10,
        p2.len() >= 10,
        p1.subrange(6, 10) != p2.subrange(6, 10),
    ensures
        spki_suffix(p1) != spki_suffix(p2),
{
    if spki_suffix(p1) == spki_suffix(p2) {
        let a = spki_suffix(p1);
        let b = spki_suffix(p2);
        assert forall|i: int| 6 <= i < 10 implies p1[i] == p2[i] by {
            let k = 1 + 2 * (i - 6);
            assert(hex_upper(p1[i]) =~= a.subrange(k, k + 2));
            assert(hex_upper(p2[i]) =~= b.subrange(k, k + 2));
            lemma_hex_pair_injective(p1[i], p2[i]);
        }
        assert(p1.subrange(6, 10) =~= p2.subrange(6, 10));
    }
}

/// The suffix is nine ASCII characters, so it takes nine bytes.
pub proof fn lemma_suffix_len(p: Seq<u8>)
    requires
        p.len() >= 10,
    ensures
        spki_suffix(p).len() == 9,
        encode_utf8(spki_suffix(p)).len() == 9,
{
    let s = spki_suffix(p);
    assert forall|i: int| 0 <= i < s.len() implies ((#[trigger] s[i]) as u32) < 0x80 by {
        if i > 0 {
            let b = p[6 + (i - 1) / 2];
            let d = if (i - 1) % 2 == 0 { b / 16 } else { b % 16 };
            assert(s[i] == hex_digit(d));
            assert(hex_digit(d) as u32 == (if d < 10 { 48 + d } else { 55 + d }) as u32);
        }
    }
    lemma_encode_len_ascii(s);
}

/// Two anchors with the same label whose public-key info differs in bytes 6
/// to 9 derive different keys, which share the label and differ in the
/// hexadecimal suffix, provided the label leaves room for the suffix in the
/// length budget.
pub proof fn lemma_key_disambiguates(s1: Seq<u8>, p1: Seq<u8>, s2: Seq<u8>, p2: Seq<u8>)
    requires
        p1.len() >= 10,
        p2.len() >= 10,
        subject_label(s1) == subject_label(s2),
        p1.subrange(6, 10) != p2.subrange(6, 10),
        encode_utf8(subject_label(s1)).len() + 9 <= MAX_KEY_BYTES,
    ensures
        derived_key(s1, p1) != derived_key(s2, p2),
        derived_key(s1, p1).take(subject_label(s1).len() as int) == subject_label(s1),
        derived_key(s2, p2).take(subject_label(s2).len() as int) == subject_label(s2),
        derived_key(s1, p1).skip(subject_label(s1).len() as int) == spki_suffix(p1),
        derived_key(s2, p2).skip(subject_label(s2).len() as int) == spki_suffix(p2),
        spki_suffix(p1) != spki_suffix(p2),
{
    let l = subject_label(s1);
    let n = l.len() as int;
    lemma_suffix_distinguishes(p1, p2);
    lemma_suffix_len(p1);
    lemma_suffix_len(p2);
    lemma_encode_len_concat(l, spki_suffix(p1));
    lemma_encode_len_concat(l, spki_suffix(p2));
    lemma_truncate_noop(full_key(s1, p1), MAX_KEY_BYTES as int);
    lemma_truncate_noop(full_key(s2, p2), MAX_KEY_BYTES as int);
    assert(full_key(s1, p1).take(n) =~= l);
    assert(full_key(s2, p2).take(n) =~= l);
    assert(full_key(s1, p1).skip(n) =~= spki_suffix(p1));
    assert(full_key(s2, p2).skip(n) =~= spki_suffix(p2));
}

} // verus!
