use tls::anchor::OwnedTrustAnchor;
use tls::cert::{ca_candidates, checklist_entry, checklist_lines, CertificateInfo};
use tls::error::StoreError;
use tls::trust::TrustWorkflow;

fn ca_der() -> Vec<u8> {
    vec![0x30, 0x82, 0x01, 0x03, 0x30, 0x81, 0xe9, 0xa0, 0x03, 0x02, 0x01, 0x02, 0x02, 0x14, 0x01, 0x02, 0x03, 0x04, 0x05, 0x06, 0x07, 0x08, 0x09, 0x0a, 0x0b, 0x0c, 0x0d, 0x0e, 0x0f, 0x10, 0x11, 0x12, 0x13, 0x14, 0x30, 0x0a, 0x06, 0x08, 0x2a, 0x86, 0x48, 0xce, 0x3d, 0x04, 0x03, 0x02, 0x30, 0x17, 0x31, 0x15, 0x30, 0x13, 0x06, 0x03, 0x55, 0x04, 0x03, 0x0c, 0x0c, 0x54, 0x65, 0x73, 0x74, 0x20, 0x52, 0x6f, 0x6f, 0x74, 0x20, 0x43, 0x41, 0x30, 0x1e, 0x17, 0x0d, 0x32, 0x35, 0x30, 0x31, 0x30, 0x31, 0x30, 0x30, 0x30, 0x30, 0x30, 0x30, 0x5a, 0x17, 0x0d, 0x33, 0x35, 0x30, 0x31, 0x30, 0x31, 0x30, 0x30, 0x30, 0x30, 0x30, 0x30, 0x5a, 0x30, 0x17, 0x31, 0x15, 0x30, 0x13, 0x06, 0x03, 0x55, 0x04, 0x03, 0x0c, 0x0c, 0x54, 0x65, 0x73, 0x74, 0x20, 0x52, 0x6f, 0x6f, 0x74, 0x20, 0x43, 0x41, 0x30, 0x59, 0x30, 0x13, 0x06, 0x07, 0x2a, 0x86, 0x48, 0xce, 0x3d, 0x02, 0x01, 0x06, 0x08, 0x2a, 0x86, 0x48, 0xce, 0x3d, 0x03, 0x01, 0x07, 0x03, 0x42, 0x00, 0x04, 0x10, 0x11, 0x12, 0x13, 0x14, 0x15, 0x16, 0x17, 0x18, 0x19, 0x1a, 0x1b, 0x1c, 0x1d, 0x1e, 0x1f, 0x20, 0x21, 0x22, 0x23, 0x24, 0x25, 0x26, 0x27, 0x28, 0x29, 0x2a, 0x2b, 0x2c, 0x2d, 0x2e, 0x2f, 0x30, 0x31, 0x32, 0x33, 0x34, 0x35, 0x36, 0x37, 0x38, 0x39, 0x3a, 0x3b, 0x3c, 0x3d, 0x3e, 0x3f, 0x40, 0x41, 0x42, 0x43, 0x44, 0x45, 0x46, 0x47, 0x48, 0x49, 0x4a, 0x4b, 0x4c, 0x4d, 0x4e, 0x4f, 0xa3, 0x13, 0x30, 0x11, 0x30, 0x0f, 0x06, 0x03, 0x55, 0x1d, 0x13, 0x01, 0x01, 0xff, 0x04, 0x05, 0x30, 0x03, 0x01, 0x01, 0xff, 0x30, 0x0a, 0x06, 0x08, 0x2a, 0x86, 0x48, 0xce, 0x3d, 0x04, 0x03, 0x02, 0x03, 0x09, 0x00, 0x30, 0x06, 0x02, 0x01, 0x01, 0x02, 0x01, 0x01]
}

fn leaf_der() -> Vec<u8> {
    vec![0x30, 0x81, 0xfc, 0x30, 0x81, 0xe2, 0xa0, 0x03, 0x02, 0x01, 0x02, 0x02, 0x10, 0x21, 0x22, 0x23, 0x24, 0x25, 0x26, 0x27, 0x28, 0x29, 0x2a, 0x2b, 0x2c, 0x2d, 0x2e, 0x2f, 0x30, 0x30, 0x0a, 0x06, 0x08, 0x2a, 0x86, 0x48, 0xce, 0x3d, 0x04, 0x03, 0x02, 0x30, 0x17, 0x31, 0x15, 0x30, 0x13, 0x06, 0x03, 0x55, 0x04, 0x03, 0x0c, 0x0c, 0x6c, 0x65, 0x61, 0x66, 0x2e, 0x65, 0x78, 0x61, 0x6d, 0x70, 0x6c, 0x65, 0x30, 0x1e, 0x17, 0x0d, 0x32, 0x35, 0x30, 0x31, 0x30, 0x31, 0x30, 0x30, 0x30, 0x30, 0x30, 0x30, 0x5a, 0x17, 0x0d, 0x33, 0x35, 0x30, 0x31, 0x30, 0x31, 0x30, 0x30, 0x30, 0x30, 0x30, 0x30, 0x5a, 0x30, 0x17, 0x31, 0x15, 0x30, 0x13, 0x06, 0x03, 0x55, 0x04, 0x03, 0x0c, 0x0c, 0x6c, 0x65, 0x61, 0x66, 0x2e, 0x65, 0x78, 0x61, 0x6d, 0x70, 0x6c, 0x65, 0x30, 0x59, 0x30, 0x13, 0x06, 0x07, 0x2a, 0x86, 0x48, 0xce, 0x3d, 0x02, 0x01, 0x06, 0x08, 0x2a, 0x86, 0x48, 0xce, 0x3d, 0x03, 0x01, 0x07, 0x03, 0x42, 0x00, 0x04, 0x10, 0x11, 0x12, 0x13, 0x14, 0x15, 0x16, 0x17, 0x18, 0x19, 0x1a, 0x1b, 0x1c, 0x1d, 0x1e, 0x1f, 0x20, 0x21, 0x22, 0x23, 0x24, 0x25, 0x26, 0x27, 0x28, 0x29, 0x2a, 0x2b, 0x2c, 0x2d, 0x2e, 0x2f, 0x30, 0x31, 0x32, 0x33, 0x34, 0x35, 0x36, 0x37, 0x38, 0x39, 0x3a, 0x3b, 0x3c, 0x3d, 0x3e, 0x3f, 0x40, 0x41, 0x42, 0x43, 0x44, 0x45, 0x46, 0x47, 0x48, 0x49, 0x4a, 0x4b, 0x4c, 0x4d, 0x4e, 0x4f, 0xa3, 0x10, 0x30, 0x0e, 0x30, 0x0c, 0x06, 0x03, 0x55, 0x1d, 0x13, 0x01, 0x01, 0xff, 0x04, 0x02, 0x30, 0x00, 0x30, 0x0a, 0x06, 0x08, 0x2a, 0x86, 0x48, 0xce, 0x3d, 0x04, 0x03, 0x02, 0x03, 0x09, 0x00, 0x30, 0x06, 0x02, 0x01, 0x01, 0x02, 0x01, 0x01]
}

fn ca_spki() -> Vec<u8> {
    vec![0x30, 0x59, 0x30, 0x13, 0x06, 0x07, 0x2a, 0x86, 0x48, 0xce, 0x3d, 0x02, 0x01, 0x06, 0x08, 0x2a, 0x86, 0x48, 0xce, 0x3d, 0x03, 0x01, 0x07, 0x03, 0x42, 0x00, 0x04, 0x10, 0x11, 0x12, 0x13, 0x14, 0x15, 0x16, 0x17, 0x18, 0x19, 0x1a, 0x1b, 0x1c, 0x1d, 0x1e, 0x1f, 0x20, 0x21, 0x22, 0x23, 0x24, 0x25, 0x26, 0x27, 0x28, 0x29, 0x2a, 0x2b, 0x2c, 0x2d, 0x2e, 0x2f, 0x30, 0x31, 0x32, 0x33, 0x34, 0x35, 0x36, 0x37, 0x38, 0x39, 0x3a, 0x3b, 0x3c, 0x3d, 0x3e, 0x3f, 0x40, 0x41, 0x42, 0x43, 0x44, 0x45, 0x46, 0x47, 0x48, 0x49, 0x4a, 0x4b, 0x4c, 0x4d, 0x4e, 0x4f]
}

fn root_name() -> Vec<u8> {
    vec![0x30, 0x17, 0x31, 0x15, 0x30, 0x13, 0x06, 0x03, 0x55, 0x04, 0x03, 0x0c, 0x0c, 0x54, 0x65, 0x73, 0x74, 0x20, 0x52, 0x6f, 0x6f, 0x74, 0x20, 0x43, 0x41]
}

fn info(subject: &str, serial: &str) -> CertificateInfo {
    CertificateInfo {
        subject_raw: subject.as_bytes().to_vec(),
        subject: subject.to_string(),
        spki: vec![0, 1, 2, 3, 4, 5, 6, 7, 8, 9],
        serial: serial.to_string(),
        is_ca: true,
    }
}

#[test]
fn ca_filter_keeps_only_authorities() {
    let batch = vec![leaf_der(), vec![1, 2, 3], ca_der(), leaf_der()];
    let offered = ca_candidates(&batch);
    assert_eq!(offered.len(), 1);
    let c = &offered[0];
    assert!(c.is_ca);
    assert_eq!(c.subject, "CN=Test Root CA");
    assert_eq!(c.subject_raw, root_name());
    assert_eq!(c.spki, ca_spki());
    assert_eq!(c.serial, "01:02:03:04:05:06:07:08:09:0a:0b:0c:0d:0e:0f:10:11:12:13:14");
    let lines = checklist_lines(&offered);
    assert_eq!(lines.len(), 1);
    assert_eq!(
        lines[0],
        "\u{1F3DB} CN=Test Root CA\n01:02:03:04:05:06:07:08:\n09:0a:0b:0c:0d:0e:0f:10:11:12:13:14"
    );
}

#[test]
fn leaf_only_batch_offers_nothing() {
    let batch = vec![leaf_der(), leaf_der()];
    assert!(ca_candidates(&batch).is_empty());
    assert!(checklist_lines(&ca_candidates(&batch)).is_empty());
}

#[test]
fn unparsable_entries_are_dropped() {
    let batch = vec![vec![], vec![0x30, 0x03, 0x02, 0x01, 0x01], vec![0xff; 40]];
    assert!(ca_candidates(&batch).is_empty());
}

#[test]
fn checklist_line_with_short_serial() {
    let line = checklist_entry(&info("CN=Short", "01:02"));
    assert_eq!(line, "\u{1F3DB} CN=Short\n01:02\n");
}

#[test]
fn anchor_from_parsed_authority_has_expected_key() {
    let offered = ca_candidates(&vec![ca_der()]);
    let c = &offered[0];
    let a = OwnedTrustAnchor::from_subject_spki_name_constraints(c.subject_raw.clone(), c.spki.clone(), None);
    assert_eq!(a.subject(), "CN=Test Root CA");
    assert_eq!(a.pddb_key(), "0\u{17}1\u{15}0\u{13}\u{6}\u{3}U\u{4}\u{3}\u{c}\u{c}Test Root CA 2A8648CE");
}

#[test]
fn workflow_counts_selection_despite_failed_save() {
    let cands = vec![info("CN=A", "aa"), info("CN=B", "bb"), info("CN=C", "cc")];
    let mut w = TrustWorkflow::new(&cands, Some(vec![0, 1, 2]));
    let mut keys = Vec::new();
    let mut notices = Vec::new();
    let mut n = 0;
    while let Some((k, _)) = w.next_save() {
        keys.push(k.clone());
        let outcome = if n == 1 { Err(StoreError::IoFailure) } else { Ok(()) };
        if let Some(m) = w.record_save(outcome) {
            notices.push(m);
        }
        n += 1;
    }
    assert!(w.is_done());
    assert_eq!(keys, vec!["aa".to_string(), "bb".to_string(), "cc".to_string()]);
    assert_eq!(notices, vec!["failed to save: der decode failed".to_string()]);
    assert_eq!(w.trusted_count(), 3);
}

#[test]
fn workflow_saves_selected_anchor() {
    let offered = ca_candidates(&vec![leaf_der(), ca_der()]);
    let mut w = TrustWorkflow::new(&offered, Some(vec![0]));
    let (key, anchor) = w.next_save().unwrap();
    assert_eq!(key, "01:02:03:04:05:06:07:08:09:0a:0b:0c:0d:0e:0f:10:11:12:13:14");
    assert_eq!(anchor.subject, root_name());
    assert_eq!(anchor.spki, ca_spki());
    assert!(anchor.name_constraints.is_none());
    let notice = w.record_save(Err(StoreError::IoFailure));
    assert_eq!(notice, Some("failed to save: CN=Test Root CA".to_string()));
    assert!(w.next_save().is_none());
    assert_eq!(w.trusted_count(), 1);
}

#[test]
fn workflow_ui_failure_trusts_nothing() {
    let cands = vec![info("CN=A", "aa")];
    let w = TrustWorkflow::new(&cands, None);
    assert!(w.next_save().is_none());
    assert!(w.is_done());
    assert_eq!(w.trusted_count(), 0);
}

#[test]
fn workflow_bad_index_trusts_nothing() {
    let cands = vec![info("CN=A", "aa")];
    let w = TrustWorkflow::new(&cands, Some(vec![0, 3]));
    assert!(w.next_save().is_none());
    assert_eq!(w.trusted_count(), 0);
}

#[test]
fn workflow_empty_selection() {
    let cands = vec![info("CN=A", "aa")];
    let w = TrustWorkflow::new(&cands, Some(vec![]));
    assert!(w.is_done());
    assert_eq!(w.trusted_count(), 0);
}
