//! Undo analysis: journal entries are read in reverse; an entry can be
//! undone exactly when it succeeded, its destination still exists and its
//! source does not. The filesystem answers are passed in, one per entry, so
//! the classification itself is checked for every possible disk state.

use vstd::prelude::*;
use crate::journal::{JournalEntry, ResultKind};

verus! {

/// Whether entry `i` can be undone: it succeeded, its destination exists,
/// its source does not.
pub open spec fn undoable_at(
    entries: Seq<JournalEntry>,
    dest_exists: Seq<bool>,
    source_exists: Seq<bool>,
    i: int,
) -> bool {
    entries[i].result == ResultKind::Done && dest_exists[i] && !source_exists[i]
}

/// The undoable indices below `i`, highest first: the order an undo run
/// reverses operations in.
pub open spec fn undoable_down(
    entries: Seq<JournalEntry>,
    dest_exists: Seq<bool>,
    source_exists: Seq<bool>,
    i: int,
) -> Seq<int>
    decreases i,
{
    if i <= 0 {
        Seq::empty()
    } else {
        (if undoable_at(entries, dest_exists, source_exists, i - 1) {
            seq![i - 1]
        } else {
            Seq::<int>::empty()
        }) + undoable_down(entries, dest_exists, source_exists, i - 1)
    }
}

/// Whether a successful entry is blocked, and must be reported instead.
pub open spec fn blocked_at(
    entries: Seq<JournalEntry>,
    dest_exists: Seq<bool>,
    source_exists: Seq<bool>,
    i: int,
) -> bool {
    entries[i].result == ResultKind::Done && !(dest_exists[i] && !source_exists[i])
}

/// The text reported for a blocked entry: a vanished destination wins over a
/// reappeared source.
pub open spec fn issue_text(e: JournalEntry, dest_exists: bool) -> Seq<char> {
    if !dest_exists {
        "Destination no longer exists: "@ + e.dest@
    } else {
        "Source already exists: "@ + e.source@
    }
}

/// The issue texts of the blocked entries from `i` on, in journal order.
pub open spec fn issues_from(
    entries: Seq<JournalEntry>,
    dest_exists: Seq<bool>,
    source_exists: Seq<bool>,
    i: int,
) -> Seq<Seq<char>>
    decreases entries.len() - i,
{
    if i < 0 || i >= entries.len() {
        Seq::empty()
    } else {
        (if blocked_at(entries, dest_exists, source_exists, i) {
            seq![issue_text(entries[i], dest_exists[i])]
        } else {
            Seq::<Seq<char>>::empty()
        }) + issues_from(entries, dest_exists, source_exists, i + 1)
    }
}

/// Classifies a journal for undo. `dest_exists` and `source_exists` answer,
/// entry by entry, whether the destination and the source currently exist on
/// disk. Returns the undoable entry indices, last operation first, and one
/// issue line per blocked successful entry, in journal order.
pub fn analyze_undo_feasibility(
    entries: &Vec<JournalEntry>,
    dest_exists: &Vec<bool>,
    source_exists: &Vec<bool>,
) -> (r: (Vec<usize>, Vec<String>))
    requires
        dest_exists@.len() == entries@.len(),
        source_exists@.len() == entries@.len(),
    ensures
        ({
            let undo = undoable_down(entries@, dest_exists@, source_exists@, entries@.len() as int);
            &&& r.0@.len() == undo.len()
            &&& forall|k: int| 0 <= k < undo.len() ==> (#[trigger] r.0@[k]) as int == undo[k]
        }),
        r.1.deep_view() == issues_from(entries@, dest_exists@, source_exists@, 0),
{
    let n = entries.len();
    let mut undoable: Vec<usize> = Vec::new();
    let mut i: usize = n;
    while i > 0
        invariant
            i <= n,
            n == entries@.len(),
            dest_exists@.len() == n,
            source_exists@.len() == n,
            ({
                let full = undoable_down(entries@, dest_exists@, source_exists@, n as int);
                let done = undoable_down(entries@, dest_exists@, source_exists@, i as int);
                &&& undoable@.len() + done.len() == full.len()
                &&& (forall|k: int|
                    0 <= k < undoable@.len() ==> (#[trigger] undoable@[k]) as int == full[k])
                &&& (forall|k: int|
                    0 <= k < done.len() ==> done[k] == full[undoable@.len() + k])
            }),
        decreases i,
    {
        let ghost full = undoable_down(entries@, dest_exists@, source_exists@, n as int);
        let ghost done_before = undoable_down(entries@, dest_exists@, source_exists@, i as int);
        let idx = i - 1;
        let e = &entries[idx];
        if matches!(e.result, ResultKind::Done) && dest_exists[idx] && !source_exists[idx] {
            proof {
                assert(done_before == seq![idx as int] + undoable_down(
                    entries@,
                    dest_exists@,
                    source_exists@,
                    idx as int,
                ));
                assert(done_before[0] == idx as int);
                assert(full[undoable@.len() as int] == idx as int);
            }
            undoable.push(idx);
            proof {
                let done = undoable_down(entries@, dest_exists@, source_exists@, idx as int);
                assert forall|k: int| 0 <= k < done.len() implies done[k] == full[undoable@.len()
                    + k] by {
                    assert(done[k] == done_before[k + 1]);
                }
            }
        } else {
            proof {
                assert(done_before == undoable_down(
                    entries@,
                    dest_exists@,
                    source_exists@,
                    idx as int,
                ));
            }
        }
        i = idx;
    }
    let mut issues: Vec<String> = Vec::new();
    let mut j: usize = 0;
    while j < n
        invariant
            j <= n,
            n == entries@.len(),
            dest_exists@.len() == n,
            source_exists@.len() == n,
            issues.deep_view() + issues_from(entries@, dest_exists@, source_exists@, j as int)
                == issues_from(entries@, dest_exists@, source_exists@, 0),
        decreases n - j,
    {
        let ghost issues_before = issues.deep_view();
        let e = &entries[j];
        if matches!(e.result, ResultKind::Done) {
            if !dest_exists[j] {
                let text = "Destination no longer exists: ".to_owned().concat(e.dest.as_str());
                issues.push(text);
                proof {
                    assert(issues.deep_view() =~= issues_before.push(
                        issue_text(entries@[j as int], dest_exists@[j as int]),
                    ));
                }
            } else if source_exists[j] {
                let text = "Source already exists: ".to_owned().concat(e.source.as_str());
                issues.push(text);
                proof {
                    assert(issues.deep_view() =~= issues_before.push(
                        issue_text(entries@[j as int], dest_exists@[j as int]),
                    ));
                }
            }
        }
        j = j + 1;
        proof {
            assert(issues.deep_view() + issues_from(
                entries@,
                dest_exists@,
                source_exists@,
                j as int,
            ) =~= issues_before + issues_from(entries@, dest_exists@, source_exists@, j - 1));
        }
    }
    proof {
        assert(issues.deep_view() =~= issues.deep_view() + issues_from(
            entries@,
            dest_exists@,
            source_exists@,
            n as int,
        ));
    }
    (undoable, issues)
}

/// What a journal holds, summarized for review before an undo run.
#[derive(Debug, Clone, PartialEq)]
pub struct JournalValidation {
    pub is_valid: bool,
    pub total_entries: u64,
    pub successful_entries: u64,
    pub failed_entries: u64,
    pub skipped_entries: u64,
    pub undoable_entries: u64,
    pub issues: Vec<String>,
}

/// The number of entries from `i` on whose result is `k`.
pub open spec fn count_result_from(entries: Seq<JournalEntry>, i: int, k: ResultKind) -> int
    decreases entries.len() - i,
{
    if i < 0 || i >= entries.len() {
        0
    } else {
        (if entries[i].result == k {
            1int
        } else {
            0int
        }) + count_result_from(entries, i + 1, k)
    }
}

proof fn lemma_count_result_bound(entries: Seq<JournalEntry>, i: int, k: ResultKind)
    requires
        0 <= i <= entries.len(),
    ensures
        0 <= count_result_from(entries, i, k) <= entries.len() - i,
    decreases entries.len() - i,
{
    if i < entries.len() {
        lemma_count_result_bound(entries, i + 1, k);
    }
}

/// Summarizes a journal for undo: how its entries ended, how many can be
/// undone under the given existence answers, and the issues blocking the
/// rest.
pub fn validate_journal(
    entries: &Vec<JournalEntry>,
    dest_exists: &Vec<bool>,
    source_exists: &Vec<bool>,
) -> (r: JournalValidation)
    requires
        dest_exists@.len() == entries@.len(),
        source_exists@.len() == entries@.len(),
        entries@.len() <= 0xffff_ffff,
    ensures
        r.is_valid,
        r.total_entries == entries@.len(),
        r.successful_entries as int == count_result_from(entries@, 0, ResultKind::Done),
        r.failed_entries as int == count_result_from(entries@, 0, ResultKind::Failed),
        r.skipped_entries as int == count_result_from(entries@, 0, ResultKind::Skip),
        r.undoable_entries as int == undoable_down(
            entries@,
            dest_exists@,
            source_exists@,
            entries@.len() as int,
        ).len(),
        r.issues.deep_view() == issues_from(entries@, dest_exists@, source_exists@, 0),
{
    let n = entries.len();
    let mut done: u64 = 0;
    let mut failed: u64 = 0;
    let mut skipped: u64 = 0;
    let mut i: usize = 0;
    proof {
        lemma_count_result_bound(entries@, 0, ResultKind::Done);
        lemma_count_result_bound(entries@, 0, ResultKind::Failed);
        lemma_count_result_bound(entries@, 0, ResultKind::Skip);
    }
    while i < n
        invariant
            i <= n,
            n == entries@.len(),
            n <= 0xffff_ffff,
            done + count_result_from(entries@, i as int, ResultKind::Done) == count_result_from(
                entries@,
                0,
                ResultKind::Done,
            ),
            failed + count_result_from(entries@, i as int, ResultKind::Failed)
                == count_result_from(entries@, 0, ResultKind::Failed),
            skipped + count_result_from(entries@, i as int, ResultKind::Skip)
                == count_result_from(entries@, 0, ResultKind::Skip),
            done <= i,
            failed <= i,
            skipped <= i,
        decreases n - i,
    {
        proof {
            lemma_count_result_bound(entries@, i + 1, ResultKind::Done);
            lemma_count_result_bound(entries@, i + 1, ResultKind::Failed);
            lemma_count_result_bound(entries@, i + 1, ResultKind::Skip);
        }
        match entries[i].result {
            ResultKind::Done => {
                done = done + 1;
            },
            ResultKind::Failed => {
                failed = failed + 1;
            },
            ResultKind::Skip => {
                skipped = skipped + 1;
            },
        }
        i = i + 1;
    }
    let (undoable, issues) = analyze_undo_feasibility(entries, dest_exists, source_exists);
    JournalValidation {
        is_valid: true,
        total_entries: n as u64,
        successful_entries: done,
        failed_entries: failed,
        skipped_entries: skipped,
        undoable_entries: undoable.len() as u64,
        issues,
    }
}

} // verus!
