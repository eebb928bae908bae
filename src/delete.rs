use vstd::prelude::*;

use crate::scan::saturate;

verus! {

/// One object beneath a deletion root, as the single enumeration pass saw it.
pub struct WalkedEntry {
    pub path: String,
    pub size: u64,
    pub is_file: bool,
}

/// The outcome of one deletion.
pub struct DeleteResult {
    /// Bytes of the files actually removed.
    pub total_bytes: u64,
    /// Objects actually removed: files, directories and the root.
    pub total_files: u64,
    pub errors: Vec<String>,
}

pub open spec fn entry_message(path: Seq<char>) -> Seq<char> {
    "Failed to delete "@ + path
}

pub open spec fn root_message(reason: Seq<char>) -> Seq<char> {
    "Failed to remove root directory: "@ + reason
}

/// Bytes freed by the removals in `outcomes`, each an entry and whether its removal succeeded.
pub open spec fn freed_bytes(outcomes: Seq<(WalkedEntry, bool)>) -> nat
    decreases outcomes.len(),
{
    if outcomes.len() == 0 {
        0
    } else {
        let (e, ok) = outcomes.last();
        freed_bytes(outcomes.drop_last()) + if ok && e.is_file {
            e.size as nat
        } else {
            0nat
        }
    }
}

pub open spec fn removed_count(outcomes: Seq<(WalkedEntry, bool)>) -> nat
    decreases outcomes.len(),
{
    if outcomes.len() == 0 {
        0
    } else {
        removed_count(outcomes.drop_last()) + if outcomes.last().1 {
            1nat
        } else {
            0nat
        }
    }
}

/// One message for each failed removal, in the order of the attempts.
pub open spec fn failure_messages(outcomes: Seq<(WalkedEntry, bool)>) -> Seq<Seq<char>>
    decreases outcomes.len(),
{
    if outcomes.len() == 0 {
        Seq::empty()
    } else {
        let prev = failure_messages(outcomes.drop_last());
        if outcomes.last().1 {
            prev
        } else {
            prev.push(entry_message(outcomes.last().0.path@))
        }
    }
}

/// The outcome of removing the entries as `outcomes` records, then the root, whose
/// removal failed with `root_error` or succeeded when that is `None`.
pub open spec fn result_matches(
    r: DeleteResult,
    outcomes: Seq<(WalkedEntry, bool)>,
    root_error: Option<Seq<char>>,
) -> bool {
    &&& r.total_bytes == saturate(freed_bytes(outcomes))
    &&& r.total_files == saturate(removed_count(outcomes) + if root_error is None {
        1nat
    } else {
        0nat
    })
    &&& r.errors@.map_values(|m: String| m@) == match root_error {
        Some(reason) => failure_messages(outcomes).push(root_message(reason)),
        None => failure_messages(outcomes),
    }
}

/// A deletion in progress: the entries beneath the root are removed in the reverse of the
/// order in which a depth-first enumeration saw them, so every directory is emptied before
/// its own removal is attempted; the root comes last. A failed removal is recorded and the
/// run goes on with the next entry.
pub struct DeleteRun {
    plan: Vec<WalkedEntry>,
    next: usize,
    total_bytes: u64,
    total_files: u64,
    errors: Vec<String>,
    outcomes: Ghost<Seq<(WalkedEntry, bool)>>,
}

impl DeleteRun {
    /// The entries in the order in which their removal is attempted.
    pub closed spec fn plan(&self) -> Seq<WalkedEntry> {
        self.plan@
    }

    /// Each attempted entry with whether its removal succeeded.
    pub closed spec fn outcomes(&self) -> Seq<(WalkedEntry, bool)> {
        self.outcomes@
    }

    pub closed spec fn wf(&self) -> bool {
        &&& self.next as int == self.outcomes@.len()
        &&& self.next <= self.plan@.len()
        &&& forall|i: int| 0 <= i < self.next ==> (#[trigger] self.outcomes@[i]).0 == self.plan@[i]
        &&& self.total_bytes == saturate(freed_bytes(self.outcomes@))
        &&& self.total_files == saturate(removed_count(self.outcomes@))
        &&& self.errors@.map_values(|m: String| m@) == failure_messages(self.outcomes@)
    }

    /// Starts a deletion of the entries beneath the root, given in enumeration order
    /// (the root itself left out).
    pub fn new(walked: Vec<WalkedEntry>) -> (r: DeleteRun)
        ensures
            r.wf(),
            r.plan() == walked@.reverse(),
            r.outcomes() == Seq::<(WalkedEntry, bool)>::empty(),
    {
        let ghost w = walked@;
        let mut rest = walked;
        let mut plan: Vec<WalkedEntry> = Vec::new();
        while rest.len() > 0
            invariant
                rest@.len() + plan@.len() == w.len(),
                rest@ == w.subrange(0, rest@.len() as int),
                plan@ == w.subrange(rest@.len() as int, w.len() as int).reverse(),
            decreases rest.len(),
        {
            let e = rest.pop().unwrap();
            plan.push(e);
            assert(rest@ =~= w.subrange(0, rest@.len() as int));
            assert(plan@ =~= w.subrange(rest@.len() as int, w.len() as int).reverse());
        }
        assert(w.subrange(0, w.len() as int) =~= w);
        let errors: Vec<String> = Vec::new();
        let r = DeleteRun {
            plan,
            next: 0,
            total_bytes: 0,
            total_files: 0,
            errors,
            outcomes: Ghost(Seq::empty()),
        };
        assert(r.errors@.map_values(|m: String| m@) =~= Seq::<Seq<char>>::empty());
        r
    }

    /// The entry whose removal comes next, or `None` once every entry has been tried.
    pub fn next_target(&self) -> (r: Option<&WalkedEntry>)
        requires
            self.wf(),
        ensures
            match r {
                Some(e) => self.outcomes().len() < self.plan().len() && *e
                    == self.plan()[self.outcomes().len() as int],
                None => self.outcomes().len() == self.plan().len(),
            },
    {
        if self.next < self.plan.len() {
            Some(&self.plan[self.next])
        } else {
            None
        }
    }

    /// Records whether removing the current entry succeeded.
    pub fn report(&mut self, removed: bool)
        requires
            old(self).wf(),
            old(self).outcomes().len() < old(self).plan().len(),
        ensures
            final(self).wf(),
            final(self).plan() == old(self).plan(),
            final(self).outcomes() == old(self).outcomes().push(
                (old(self).plan()[old(self).outcomes().len() as int], removed),
            ),
            forall|i: int|
                0 <= i < final(self).outcomes().len() ==> (#[trigger] final(self).outcomes()[i]).0
                    == final(self).plan()[i],
    {
        let ghost before = self.outcomes@;
        let ghost entry = self.plan@[self.next as int];
        let ghost after = before.push((entry, removed));
        let i = self.next;
        assert(i < self.plan.len());
        if removed {
            if self.plan[i].is_file {
                self.total_bytes = self.total_bytes.saturating_add(self.plan[i].size);
            }
            self.total_files = self.total_files.saturating_add(1);
        } else {
            let mut message = "Failed to delete ".to_owned();
            message.append(self.plan[i].path.as_str());
            self.errors.push(message);
        }
        self.next = i + 1;
        self.outcomes = Ghost(after);
        assert(after.drop_last() =~= before);
        assert(self.errors@.map_values(|m: String| m@) =~= failure_messages(after));
    }

    /// Ends the run after every entry has been tried, given how removing the root went:
    /// `None` when it was removed, else the reason it was not.
    pub fn finish(self, root_error: Option<String>) -> (r: DeleteResult)
        requires
            self.wf(),
            self.outcomes().len() == self.plan().len(),
        ensures
            result_matches(r, self.outcomes(), reason_view(root_error)),
    {
        let mut errors = self.errors;
        let mut total_files = self.total_files;
        match root_error {
            Some(reason) => {
                let mut message = "Failed to remove root directory: ".to_owned();
                message.append(reason.as_str());
                errors.push(message);
            },
            None => {
                total_files = total_files.saturating_add(1);
            },
        }
        let r = DeleteResult { total_bytes: self.total_bytes, total_files, errors };
        assert(r.errors@.map_values(|m: String| m@) =~= match reason_view(root_error) {
            Some(reason) => failure_messages(self.outcomes()).push(root_message(reason)),
            None => failure_messages(self.outcomes()),
        });
        r
    }
}

pub open spec fn reason_view(e: Option<String>) -> Option<Seq<char>> {
    match e {
        Some(s) => Some(s@),
        None => None,
    }
}

/// What a dry run lists: every entry beneath the root in enumeration order, then the root.
pub fn dry_run_paths(walked: Vec<String>, root: String) -> (r: Vec<String>)
    ensures
        r@ == walked@.push(root),
{
    let mut paths = walked;
    paths.push(root);
    paths
}

/// Bytes of the files among `entries`.
pub open spec fn file_bytes_of(entries: Seq<WalkedEntry>) -> nat
    decreases entries.len(),
{
    if entries.len() == 0 {
        0
    } else {
        file_bytes_of(entries.drop_last()) + if entries.last().is_file {
            entries.last().size as nat
        } else {
            0nat
        }
    }
}

pub open spec fn entries_of(outcomes: Seq<(WalkedEntry, bool)>) -> Seq<WalkedEntry> {
    outcomes.map_values(|o: (WalkedEntry, bool)| o.0)
}

/// Removal goes bottom-up: when a depth-first enumeration sees an entry before another
/// (as it sees a directory before everything beneath it), the removal plan puts the later
/// one first.
pub proof fn lemma_later_removed_first(walked: Seq<WalkedEntry>, i: int, j: int)
    requires
        0 <= i < j < walked.len(),
    ensures
        walked.reverse()[walked.len() - 1 - j] == walked[j],
        walked.reverse()[walked.len() - 1 - i] == walked[i],
        walked.len() - 1 - j < walked.len() - 1 - i,
{
}

/// When every removal succeeds there are no errors, every object counts, and the bytes
/// freed are those of all the files.
pub proof fn lemma_clean_delete(outcomes: Seq<(WalkedEntry, bool)>)
    requires
        forall|i: int| 0 <= i < outcomes.len() ==> (#[trigger] outcomes[i]).1,
    ensures
        failure_messages(outcomes).len() == 0,
        removed_count(outcomes) == outcomes.len(),
        freed_bytes(outcomes) == file_bytes_of(entries_of(outcomes)),
    decreases outcomes.len(),
{
    if outcomes.len() > 0 {
        let o = outcomes.drop_last();
        assert(forall|i: int| 0 <= i < o.len() ==> o[i] == outcomes[i]);
        lemma_clean_delete(o);
        assert(entries_of(outcomes).drop_last() =~= entries_of(o));
        assert(outcomes.last().1);
    }
}

/// When exactly one removal fails, the errors hold exactly one message, naming that entry,
/// and every other object counts as removed.
pub proof fn lemma_single_failure(outcomes: Seq<(WalkedEntry, bool)>, f: int)
    requires
        0 <= f < outcomes.len(),
        !outcomes[f].1,
        forall|i: int| 0 <= i < outcomes.len() && i != f ==> (#[trigger] outcomes[i]).1,
    ensures
        failure_messages(outcomes) == seq![entry_message(outcomes[f].0.path@)],
        removed_count(outcomes) == outcomes.len() - 1,
    decreases outcomes.len(),
{
    let o = outcomes.drop_last();
    assert(forall|i: int| 0 <= i < o.len() ==> o[i] == outcomes[i]);
    if f == outcomes.len() - 1 {
        lemma_clean_delete(o);
        assert(Seq::<Seq<char>>::empty().push(entry_message(outcomes[f].0.path@)) =~= seq![
            entry_message(outcomes[f].0.path@),
        ]);
    } else {
        lemma_single_failure(o, f);
        assert(outcomes.last().1);
    }
}

/// A dry run lists every enumerated path and the root once each, the root last, when the
/// enumeration saw each path once and not the root.
pub proof fn lemma_dry_run_each_once(walked: Seq<Seq<char>>, root: Seq<char>)
    requires
        walked.no_duplicates(),
        !walked.contains(root),
    ensures
        walked.push(root).no_duplicates(),
        walked.push(root).len() == walked.len() + 1,
        walked.push(root).last() == root,
        forall|p: Seq<char>| walked.push(root).contains(p) <==> (walked.contains(p) || p == root),
{
    let r = walked.push(root);
    assert forall|p: Seq<char>| r.contains(p) <==> (walked.contains(p) || p == root) by {
        if walked.contains(p) {
            let i = choose|i: int| 0 <= i < walked.len() && walked[i] == p;
            assert(r[i] == p);
        }
        if r.contains(p) && p != root {
            let i = choose|i: int| 0 <= i < r.len() && r[i] == p;
            assert(walked[i] == p);
        }
        if p == root {
            assert(r[walked.len() as int] == root);
        }
    }
    assert forall|i: int, j: int| 0 <= i < r.len() && 0 <= j < r.len() && i != j implies r[i]
        != r[j] by {
        if i < walked.len() && j == walked.len() {
            assert(walked.contains(walked[i]));
        }
        if j < walked.len() && i == walked.len() {
            assert(walked.contains(walked[j]));
        }
    }
}

/// When every entry and the root are removed, the result has no errors, counts every entry
/// and the root, and frees the bytes of all the files.
pub proof fn lemma_clean_result(r: DeleteResult, outcomes: Seq<(WalkedEntry, bool)>)
    requires
        result_matches(r, outcomes, None),
        forall|i: int| 0 <= i < outcomes.len() ==> (#[trigger] outcomes[i]).1,
    ensures
        r.errors@.len() == 0,
        r.total_files == saturate(outcomes.len() + 1),
        r.total_bytes == saturate(file_bytes_of(entries_of(outcomes))),
{
    lemma_clean_delete(outcomes);
    assert(r.errors@.map_values(|m: String| m@).len() == r.errors@.len());
}

pub proof fn lemma_entry_message_injective(a: Seq<char>, b: Seq<char>)
    requires
        entry_message(a) == entry_message(b),
    ensures
        a == b,
{
    let k = "Failed to delete "@.len();
    assert(entry_message(a).subrange(k as int, entry_message(a).len() as int) =~= a);
    assert(entry_message(b).subrange(k as int, entry_message(b).len() as int) =~= b);
}

/// Among the errors, a failed entry is named by exactly one message when the enumeration
/// saw each path once, however many other removals failed (its ancestors, for instance).
pub proof fn lemma_failure_named_once(outcomes: Seq<(WalkedEntry, bool)>, f: int)
    requires
        0 <= f < outcomes.len(),
        !outcomes[f].1,
        forall|i: int, j: int|
            0 <= i < outcomes.len() && 0 <= j < outcomes.len() && i != j ==> (#[trigger] outcomes[i]).0.path@
                != (#[trigger] outcomes[j]).0.path@,
    ensures
        exists|m: int|
            0 <= m < failure_messages(outcomes).len() && failure_messages(outcomes)[m]
                == entry_message(outcomes[f].0.path@),
        forall|m: int, n: int|
            0 <= m < failure_messages(outcomes).len() && 0 <= n < failure_messages(outcomes).len()
                && failure_messages(outcomes)[m] == entry_message(outcomes[f].0.path@)
                && failure_messages(outcomes)[n] == entry_message(outcomes[f].0.path@) ==> m == n,
    decreases outcomes.len(),
{
    let o = outcomes.drop_last();
    let last = outcomes.len() - 1;
    let target = entry_message(outcomes[f].0.path@);
    lemma_messages_from(o);
    if f == last {
        // No earlier message names this path.
        assert forall|m: int| 0 <= m < failure_messages(o).len() implies failure_messages(o)[m]
            != target by {
            let i = choose|i: int|
                0 <= i < o.len() && failure_messages(o)[m] == entry_message(o[i].0.path@);
            if failure_messages(o)[m] == target {
                lemma_entry_message_injective(o[i].0.path@, outcomes[f].0.path@);
                assert(o[i] == outcomes[i]);
            }
        }
        assert(failure_messages(outcomes) == failure_messages(o).push(target));
        assert(failure_messages(outcomes)[failure_messages(o).len() as int] == target);
    } else {
        assert forall|i: int, j: int|
            0 <= i < o.len() && 0 <= j < o.len() && i != j implies (#[trigger] o[i]).0.path@
            != (#[trigger] o[j]).0.path@ by {
            assert(o[i] == outcomes[i] && o[j] == outcomes[j]);
        }
        assert(o[f] == outcomes[f]);
        lemma_failure_named_once(o, f);
        if !outcomes.last().1 {
            let fo = failure_messages(o);
            assert(failure_messages(outcomes) == fo.push(entry_message(outcomes.last().0.path@)));
            if entry_message(outcomes.last().0.path@) == target {
                lemma_entry_message_injective(outcomes.last().0.path@, outcomes[f].0.path@);
            }
            let m0 = choose|m: int| 0 <= m < fo.len() && fo[m] == target;
            assert(failure_messages(outcomes)[m0] == target);
        } else {
            assert(failure_messages(outcomes) == failure_messages(o));
        }
    }
}

/// Every failure message names an attempted entry.
proof fn lemma_messages_from(outcomes: Seq<(WalkedEntry, bool)>)
    ensures
        forall|m: int|
            0 <= m < failure_messages(outcomes).len() ==> exists|i: int|
                0 <= i < outcomes.len() && (#[trigger] failure_messages(outcomes)[m])
                    == entry_message(outcomes[i].0.path@),
    decreases outcomes.len(),
{
    if outcomes.len() > 0 {
        let o = outcomes.drop_last();
        lemma_messages_from(o);
        assert forall|m: int| 0 <= m < failure_messages(outcomes).len() implies exists|i: int|
            0 <= i < outcomes.len() && (#[trigger] failure_messages(outcomes)[m]) == entry_message(
                outcomes[i].0.path@,
            ) by {
            if m < failure_messages(o).len() {
                assert(failure_messages(outcomes)[m] == failure_messages(o)[m]);
                let i = choose|i: int|
                    0 <= i < o.len() && failure_messages(o)[m] == entry_message(o[i].0.path@);
                assert(o[i] == outcomes[i]);
            } else {
                assert(failure_messages(outcomes)[m] == entry_message(
                    outcomes[outcomes.len() - 1].0.path@,
                ));
            }
        }
    }
}

} // verus!
