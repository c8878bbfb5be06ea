//! The trust-establishment workflow, as a state machine: from the user's
//! selection it plans one save per chosen candidate, then takes the outcome
//! of each save in turn. The caller performs the saves and shows the notices.

use vstd::prelude::*;
use vstd::string::*;

use crate::anchor::{AnchorView, OwnedTrustAnchor};
use crate::cert::{subject_display, CertificateInfo};
use crate::error::StoreError;

verus! {

/// The selection names only existing candidates.
pub open spec fn selection_valid(n: nat, sel: Seq<usize>) -> bool {
    forall|i: int| 0 <= i < sel.len() ==> (#[trigger] sel[i]) < n
}

/// The anchor that trusting candidate `c` records: its subject and public-key
/// info, without name constraints.
pub open spec fn anchor_of(c: CertificateInfo) -> AnchorView {
    AnchorView { subject: c.subject_raw@, spki: c.spki@, name_constraints: None }
}

/// The notice shown when saving an anchor fails.
pub open spec fn failure_notice(subject: Seq<u8>) -> Seq<char> {
    seq!['f', 'a', 'i', 'l', 'e', 'd', ' ', 't', 'o', ' ', 's', 'a', 'v', 'e', ':', ' ']
        + subject_display(subject)
}

/// The state of the workflow: the saves it planned and how many of them were done.
pub struct TrustWorkflowView {
    pub keys: Seq<Seq<char>>,
    pub anchors: Seq<AnchorView>,
    pub next: nat,
}

/// The workflow after one more save, whatever its outcome.
pub open spec fn after_save(w: TrustWorkflowView) -> TrustWorkflowView {
    TrustWorkflowView { next: w.next + 1, ..w }
}

/// The workflow after a run of saves.
pub open spec fn after_saves(w: TrustWorkflowView, n: nat) -> TrustWorkflowView
    decreases n,
{
    if n == 0 {
        w
    } else {
        after_save(after_saves(w, (n - 1) as nat))
    }
}

/// Number of anchors the user chose to trust.
pub open spec fn selected_count(w: TrustWorkflowView) -> nat {
    w.keys.len()
}

/// The saves planned from the user's selection, and the next one to perform.
pub struct TrustWorkflow {
    keys: Vec<String>,
    anchors: Vec<OwnedTrustAnchor>,
    next: usize,
}

impl View for TrustWorkflow {
    type V = TrustWorkflowView;

    closed spec fn view(&self) -> TrustWorkflowView {
        TrustWorkflowView {
            keys: self.keys@.map_values(|k: String| k@),
            anchors: self.anchors@.map_values(|a: OwnedTrustAnchor| a@),
            next: self.next as nat,
        }
    }
}

impl TrustWorkflow {
    pub closed spec fn wf(&self) -> bool {
        &&& self.keys@.len() == self.anchors@.len()
        &&& self.next <= self.keys@.len()
    }

    /// Plans one save per selected candidate, keyed by its serial number.
    /// A failed interaction (`None`) or a selection that names a candidate
    /// that does not exist plans nothing.
    pub fn new(candidates: &Vec<CertificateInfo>, selection: Option<Vec<usize>>) -> (r: Self)
        ensures
            r.wf(),
            r@.next == 0,
            match selection {
                Some(sel) if selection_valid(candidates@.len(), sel@) => {
                    &&& r@.keys.len() == sel@.len()
                    &&& r@.anchors.len() == sel@.len()
                    &&& forall|i: int|
                        0 <= i < sel@.len() ==> #[trigger] r@.keys[i]
                            == candidates@[sel@[i] as int].serial@
                    &&& forall|i: int|
                        0 <= i < sel@.len() ==> #[trigger] r@.anchors[i] == anchor_of(
                            candidates@[sel@[i] as int],
                        )
                },
                _ => r@.keys.len() == 0,
            },
    {
        let mut keys: Vec<String> = Vec::new();
        let mut anchors: Vec<OwnedTrustAnchor> = Vec::new();
        let sel = match selection {
            Some(sel) => sel,
            None => {
                return TrustWorkflow { keys, anchors, next: 0 };
            },
        };
        let mut j: usize = 0;
        while j < sel.len()
            invariant
                j <= sel@.len(),
                selection == Some(sel),
                keys@.len() == 0,
                anchors@.len() == 0,
                forall|k: int| 0 <= k < j ==> (#[trigger] sel@[k]) < candidates@.len(),
            decreases sel@.len() - j,
        {
            if sel[j] >= candidates.len() {
                proof {
                    assert(!selection_valid(candidates@.len(), sel@));
                }
                return TrustWorkflow { keys, anchors, next: 0 };
            }
            j = j + 1;
        }
        let mut i: usize = 0;
        while i < sel.len()
            invariant
                i <= sel@.len(),
                selection == Some(sel),
                selection_valid(candidates@.len(), sel@),
                keys@.len() == i,
                anchors@.len() == i,
                forall|k: int|
                    0 <= k < i ==> #[trigger] keys@[k]@ == candidates@[sel@[k] as int].serial@,
                forall|k: int|
                    0 <= k < i ==> #[trigger] anchors@[k]@ == anchor_of(
                        candidates@[sel@[k] as int],
                    ),
            decreases sel@.len() - i,
        {
            let c = &candidates[sel[i]];
            keys.push(c.serial.clone());
            anchors.push(
                OwnedTrustAnchor::from_subject_spki_name_constraints(
                    c.subject_raw.clone(),
                    c.spki.clone(),
                    None,
                ),
            );
            i = i + 1;
        }
        let r = TrustWorkflow { keys, anchors, next: 0 };
        assert(r@.keys.len() == sel@.len());
        r
    }

    /// The next save to perform: the key and the anchor to write under it.
    pub fn next_save(&self) -> (r: Option<(&String, &OwnedTrustAnchor)>)
        requires
            self.wf(),
        ensures
            (self@.next < self@.keys.len()) == (r is Some),
            r matches Some((k, a)) ==> k@ == self@.keys[self@.next as int] && a@
                == self@.anchors[self@.next as int],
    {
        if self.next < self.keys.len() {
            Some((&self.keys[self.next], &self.anchors[self.next]))
        } else {
            None
        }
    }

    /// Takes the outcome of the next save. A failure does not stop the run:
    /// it yields the notice to show the user.
    pub fn record_save(&mut self, outcome: Result<(), StoreError>) -> (r: Option<String>)
        requires
            old(self).wf(),
            old(self)@.next < old(self)@.keys.len(),
        ensures
            final(self).wf(),
            final(self)@ == after_save(old(self)@),
            outcome is Ok ==> r is None,
            outcome is Err ==> (r matches Some(m) && m@ == failure_notice(
                old(self)@.anchors[old(self)@.next as int].subject,
            )),
    {
        let notice = match outcome {
            Ok(()) => None,
            Err(_) => {
                let prefix = "failed to save: ";
                proof {
                    reveal_strlit("failed to save: ");
                }
                let mut m = prefix.to_owned();
                let subject = self.anchors[self.next].subject();
                m.append(subject.as_str());
                assert(m@ =~= failure_notice(old(self)@.anchors[old(self)@.next as int].subject));
                Some(m)
            },
        };
        let n = self.keys.len();
        assert(self.next < n);
        self.next = self.next + 1;
        assert(self@.keys =~= old(self)@.keys);
        assert(self@.anchors =~= old(self)@.anchors);
        notice
    }

    /// All planned saves were performed.
    pub fn is_done(&self) -> (r: bool)
        requires
            self.wf(),
        ensures
            r == (self@.next == self@.keys.len()),
    {
        self.next == self.keys.len()
    }

    /// What the workflow reports: the number of anchors the user selected,
    /// whether or not their saves succeeded.
    pub fn trusted_count(&self) -> (r: usize)
        requires
            self.wf(),
        ensures
            r == selected_count(self@),
    {
        self.keys.len()
    }
}

/// Failed saves do not change the count the workflow reports: after any run
/// of saves, whatever their outcomes, it is still the number selected.
pub proof fn lemma_count_ignores_save_outcomes(w: TrustWorkflowView, n: nat)
    ensures
        selected_count(after_saves(w, n)) == selected_count(w),
        after_saves(w, n).next == w.next + n,
    decreases n,
{
    if n > 0 {
        lemma_count_ignores_save_outcomes(w, (n - 1) as nat);
    }
}

} // verus!
