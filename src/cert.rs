//! Candidate certificates: what the DER parser reads from them, the filter to
//! certificate authorities, and the lines of the checklist shown to the user.

use vstd::prelude::*;
use vstd::string::*;
use x509_parser::prelude::{FromDer, X509Certificate, X509Name};

use crate::anchor::OwnedTrustAnchor;
use crate::text::push_char;

verus! {

/// The DER bytes parse as an X.509 certificate.
pub uninterp spec fn parses_as_certificate(der: Seq<u8>) -> bool;

/// Raw encoded subject name of the certificate in `der`.
pub uninterp spec fn cert_subject_raw(der: Seq<u8>) -> Seq<u8>;

/// Subject name of the certificate in `der`, decoded for display.
pub uninterp spec fn cert_subject_text(der: Seq<u8>) -> Seq<char>;

/// Raw encoded subject-public-key info of the certificate in `der`.
pub uninterp spec fn cert_spki(der: Seq<u8>) -> Seq<u8>;

/// Raw serial number of the certificate in `der`.
pub uninterp spec fn cert_serial(der: Seq<u8>) -> Seq<u8>;

/// The certificate in `der` is marked as a certificate authority.
pub uninterp spec fn cert_is_ca(der: Seq<u8>) -> bool;

/// A raw distinguished name decoded for display; none when it does not parse.
pub uninterp spec fn decoded_name(raw: Seq<u8>) -> Option<Seq<char>>;

/// Lower-case hexadecimal digit of `d`.
pub open spec fn lower_hex_digit(d: u8) -> char {
    if d < 10 {
        (48 + d) as char
    } else {
        (87 + d) as char
    }
}

/// A serial number as two lower-case hexadecimal digits per byte, separated by colons.
pub open spec fn serial_text(raw: Seq<u8>) -> Seq<char>
    decreases raw.len(),
{
    if raw.len() == 0 {
        seq![]
    } else {
        let pair = seq![lower_hex_digit(raw[0] / 16), lower_hex_digit(raw[0] % 16)];
        if raw.len() == 1 {
            pair
        } else {
            pair + seq![':'] + serial_text(raw.drop_first())
        }
    }
}

/// What the parser reads from one certificate.
#[derive(Debug)]
pub struct CertificateInfo {
    pub subject_raw: Vec<u8>,
    pub subject: String,
    pub spki: Vec<u8>,
    pub serial: String,
    pub is_ca: bool,
}

/// `c` holds what the parser reads from `der`.
pub open spec fn read_from(c: CertificateInfo, der: Seq<u8>) -> bool {
    &&& c.subject_raw@ == cert_subject_raw(der)
    &&& c.subject@ == cert_subject_text(der)
    &&& c.spki@ == cert_spki(der)
    &&& c.serial@ == serial_text(cert_serial(der))
    &&& c.is_ca == cert_is_ca(der)
}

/// Relies on x509-parser's `X509Certificate::from_der`, and on the
/// certificate's `subject` (raw and displayed), `public_key().raw`,
/// `raw_serial_as_string` and `is_ca`, each a function of the DER bytes.
#[verifier::external_body]
fn parse_certificate(der: &Vec<u8>) -> (r: Option<CertificateInfo>)
    ensures
        r is Some <==> parses_as_certificate(der@),
        r matches Some(c) ==> c.subject_raw@ == cert_subject_raw(der@),
        r matches Some(c) ==> c.subject@ == cert_subject_text(der@),
        r matches Some(c) ==> c.spki@ == cert_spki(der@),
        r matches Some(c) ==> c.serial@ == serial_text(cert_serial(der@)),
        r matches Some(c) ==> c.is_ca == cert_is_ca(der@),
{
    match X509Certificate::from_der(der.as_slice()) {
        Ok((_, x509)) => Some(CertificateInfo {
            subject_raw: x509.subject().as_raw().to_vec(),
            subject: x509.subject().to_string(),
            spki: x509.public_key().raw.to_vec(),
            serial: x509.raw_serial_as_string(),
            is_ca: x509.is_ca(),
        }),
        Err(_) => None,
    }
}

/// Relies on x509-parser's `X509Name::from_der` and the name's `Display`:
/// the text depends on the raw name alone.
#[verifier::external_body]
fn decode_name(raw: &Vec<u8>) -> (r: Option<String>)
    ensures
        match r {
            Some(s) => decoded_name(raw@) == Some(s@),
            None => decoded_name(raw@) is None,
        },
{
    match X509Name::from_der(raw.as_slice()) {
        Ok((_, name)) => Some(name.to_string()),
        Err(_) => None,
    }
}

/// Shown in place of a subject that does not decode.
pub open spec fn undecodable_subject() -> Seq<char> {
    seq!['d', 'e', 'r', ' ', 'd', 'e', 'c', 'o', 'd', 'e', ' ', 'f', 'a', 'i', 'l', 'e', 'd']
}

/// The display text of an anchor's subject.
pub open spec fn subject_display(raw: Seq<u8>) -> Seq<char> {
    match decoded_name(raw) {
        Some(t) => t,
        None => undecodable_subject(),
    }
}

impl OwnedTrustAnchor {
    /// The subject decoded for display, or `der decode failed`.
    pub fn subject(&self) -> (r: String)
        ensures
            r@ == subject_display(self.subject@),
    {
        match decode_name(&self.subject) {
            Some(s) => s,
            None => {
                let s = "der decode failed";
                proof {
                    reveal_strlit("der decode failed");
                    assert(s@ =~= undecodable_subject());
                }
                s.to_owned()
            },
        }
    }
}

/// The DER strings among `ders` that parse as certificate-authority certificates, in order.
pub open spec fn ca_selection(ders: Seq<Seq<u8>>) -> Seq<Seq<u8>>
    decreases ders.len(),
{
    if ders.len() == 0 {
        seq![]
    } else {
        let rest = ca_selection(ders.drop_last());
        let d = ders.last();
        if parses_as_certificate(d) && cert_is_ca(d) {
            rest.push(d)
        } else {
            rest
        }
    }
}

pub open spec fn ders_view(ders: Seq<Vec<u8>>) -> Seq<Seq<u8>> {
    ders.map_values(|d: Vec<u8>| d@)
}

/// The candidates offered for trust: the certificate authorities among
/// `ders`, in their order; strings that do not parse and leaf certificates
/// are left out.
pub fn ca_candidates(ders: &Vec<Vec<u8>>) -> (r: Vec<CertificateInfo>)
    ensures
        r@.len() == ca_selection(ders_view(ders@)).len(),
        forall|i: int|
            0 <= i < r@.len() ==> #[trigger] read_from(r@[i], ca_selection(ders_view(ders@))[i]),
        forall|i: int| 0 <= i < r@.len() ==> #[trigger] r@[i].is_ca,
{
    let mut out: Vec<CertificateInfo> = Vec::new();
    let mut i: usize = 0;
    while i < ders.len()
        invariant
            i <= ders@.len(),
            out@.len() == ca_selection(ders_view(ders@.take(i as int))).len(),
            forall|k: int|
                0 <= k < out@.len() ==> #[trigger] read_from(
                    out@[k],
                    ca_selection(ders_view(ders@.take(i as int)))[k],
                ),
            forall|k: int| 0 <= k < out@.len() ==> #[trigger] out@[k].is_ca,
        decreases ders@.len() - i,
    {
        let ghost prev = ders_view(ders@.take(i as int));
        proof {
            assert(ders_view(ders@.take(i + 1)).drop_last() =~= prev);
            assert(ders_view(ders@.take(i + 1)).last() == ders@[i as int]@);
        }
        match parse_certificate(&ders[i]) {
            Some(c) => {
                if c.is_ca {
                    out.push(c);
                }
            },
            None => {},
        }
        i = i + 1;
    }
    assert(ders@.take(i as int) =~= ders@);
    out
}

/// Marks a certificate authority in the checklist.
pub open spec fn authority_marker() -> Seq<char> {
    seq!['\u{1F3DB}', ' ']
}

/// Characters of the serial number shown on the first of its two lines.
pub const SERIAL_SPLIT: usize = 24;

pub open spec fn serial_split(serial: Seq<char>) -> int {
    if serial.len() < SERIAL_SPLIT {
        serial.len() as int
    } else {
        SERIAL_SPLIT as int
    }
}

/// The checklist line of a candidate: the authority marker and the subject,
/// then the serial number over two lines.
pub open spec fn checklist_line(subject: Seq<char>, serial: Seq<char>) -> Seq<char> {
    let k = serial_split(serial);
    authority_marker() + subject + seq!['\n'] + serial.take(k) + seq!['\n'] + serial.skip(k)
}

/// The checklist line of one candidate.
pub fn checklist_entry(c: &CertificateInfo) -> (r: String)
    ensures
        r@ == checklist_line(c.subject@, c.serial@),
{
    let marker = "\u{1F3DB} ";
    proof {
        reveal_strlit("\u{1F3DB} ");
        assert(marker@ =~= authority_marker());
    }
    let serial = c.serial.as_str();
    let n = serial.unicode_len();
    let k = if n < SERIAL_SPLIT {
        n
    } else {
        SERIAL_SPLIT
    };
    let mut line = String::new();
    line.append(marker);
    line.append(c.subject.as_str());
    push_char(&mut line, '\n');
    line.append(serial.substring_char(0, k));
    push_char(&mut line, '\n');
    line.append(serial.substring_char(k, n));
    assert(line@ =~= checklist_line(c.subject@, c.serial@));
    line
}

/// The checklist shown to the user: one line per candidate, in order.
pub fn checklist_lines(candidates: &Vec<CertificateInfo>) -> (r: Vec<String>)
    ensures
        r@.len() == candidates@.len(),
        forall|i: int|
            0 <= i < r@.len() ==> #[trigger] r@[i]@ == checklist_line(
                candidates@[i].subject@,
                candidates@[i].serial@,
            ),
{
    let mut out: Vec<String> = Vec::new();
    let mut i: usize = 0;
    while i < candidates.len()
        invariant
            i <= candidates@.len(),
            out@.len() == i,
            forall|k: int|
                0 <= k < i ==> #[trigger] out@[k]@ == checklist_line(
                    candidates@[k].subject@,
                    candidates@[k].serial@,
                ),
        decreases candidates@.len() - i,
    {
        out.push(checklist_entry(&candidates[i]));
        i = i + 1;
    }
    out
}

/// The candidates offered are exactly the certificate authorities of the
/// batch: each one parses as a CA certificate of the batch, and every CA
/// certificate of the batch is offered.
pub proof fn lemma_only_authorities_offered(ders: Seq<Seq<u8>>)
    ensures
        forall|i: int|
            0 <= i < ca_selection(ders).len() ==> {
                let d = #[trigger] ca_selection(ders)[i];
                parses_as_certificate(d) && cert_is_ca(d) && ders.contains(d)
            },
        forall|j: int|
            0 <= j < ders.len() && parses_as_certificate(#[trigger] ders[j]) && cert_is_ca(ders[j])
                ==> ca_selection(ders).contains(ders[j]),
    decreases ders.len(),
{
    if ders.len() > 0 {
        let init = ders.drop_last();
        lemma_only_authorities_offered(init);
        let sel = ca_selection(ders);
        assert forall|i: int| 0 <= i < sel.len() implies {
            let d = #[trigger] sel[i];
            parses_as_certificate(d) && cert_is_ca(d) && ders.contains(d)
        } by {
            if i < ca_selection(init).len() {
                let d = ca_selection(init)[i];
                let k = choose|k: int| 0 <= k < init.len() && init[k] == d;
                assert(ders[k] == d);
            } else {
                assert(ders[ders.len() - 1] == sel[i]);
            }
        }
        assert forall|j: int|
            0 <= j < ders.len() && parses_as_certificate(#[trigger] ders[j]) && cert_is_ca(ders[j])
                implies sel.contains(ders[j]) by {
            if j < ders.len() - 1 {
                assert(init[j] == ders[j]);
                let k = choose|k: int| 0 <= k < ca_selection(init).len() && ca_selection(init)[k] == ders[j];
                assert(sel[k] == ders[j]);
            } else {
                assert(sel[sel.len() - 1] == ders[j]);
            }
        }
    }
}

} // verus!
