use vstd::prelude::*;

use crate::changes::{DirectoryFingerprint, Ratio, SizeChange};
use crate::modal::{buttons_view, Modal, ModalAction, ModalType};
use crate::order::{sort_by_rank, sort_ranked};
use crate::platform::DiskSpace;
use crate::scan::DirEntry;

verus! {

/// The parent of a path, as `std::path::Path::parent` gives it.
pub uninterp spec fn parent_of(path: Seq<char>) -> Option<Seq<char>>;

/// Relies on `std::path::Path::parent`: the path without its final component, or `None`
/// for a root or an empty path. Its result depends on the text alone.
#[verifier::external_body]
pub(crate) fn parent(path: &str) -> (r: Option<String>)
    ensures
        match r {
            Some(p) => parent_of(path@) == Some(p@),
            None => parent_of(path@) is None,
        },
{
    std::path::Path::new(path).parent().and_then(|p| p.to_str()).map(|p| p.to_string())
}

#[derive(Clone, Copy, Debug, PartialEq, Eq, Structural)]
pub enum AppMode {
    Browsing,
    Deleting,
    DryRun,
}

/// What the progress display of a running deletion shows.
pub struct DeleteProgress {
    pub deleted_bytes: u64,
    pub total_bytes: u64,
    pub deleted_files: u64,
    pub total_files: u64,
    pub current_file: String,
    pub status: String,
}

/// A message from a scan task.
pub enum ScanResult {
    Progress { current_name: String, scanned_count: usize, total_count: usize },
    Success(Vec<DirEntry>),
    Error(String),
}

/// A message from a delete task.
pub enum DeleteProgressUpdate {
    Progress {
        bytes_done: u64,
        bytes_total: u64,
        files_done: u64,
        files_total: u64,
        current_file: String,
    },
    Complete { total_bytes: u64, total_files: u64 },
    Error(String),
}

/// A notification for the user; the presentation layer words it.
pub enum Notice {
    CacheCleared,
    ScanFailed(String),
    Deleted { files: u64, bytes: u64 },
    DeleteFailed(String),
    DryRunSummary { files: u64, bytes: u64 },
}

impl Notice {
    pub open spec fn is_error_spec(&self) -> bool {
        match self {
            Notice::ScanFailed(_) | Notice::DeleteFailed(_) => true,
            _ => false,
        }
    }

    /// Whether this reports a failure.
    pub fn is_error(&self) -> (r: bool)
        ensures
            r == self.is_error_spec(),
    {
        match self {
            Notice::ScanFailed(_) | Notice::DeleteFailed(_) => true,
            _ => false,
        }
    }
}

/// What the caller must start after a dialog button was chosen.
pub enum ModalOutcome {
    Nothing,
    StartDelete(String),
    StartDryRun(String),
}

pub open spec fn total_size(entries: Seq<DirEntry>) -> nat
    decreases entries.len(),
{
    if entries.len() == 0 {
        0
    } else {
        total_size(entries.drop_last()) + entries.last().size as nat
    }
}

/// The first change recorded for `name`.
pub open spec fn change_for(changes: Seq<SizeChange>, name: Seq<char>) -> Option<SizeChange>
    decreases changes.len(),
{
    if changes.len() == 0 {
        None
    } else if changes[0].name@ == name {
        Some(changes[0])
    } else {
        change_for(changes.drop_first(), name)
    }
}

/// `delta` as a percentage of `total`, or zero when the total is zero.
pub open spec fn percent_of(delta: i64, total: nat) -> Ratio {
    if total > 0 {
        Ratio { numerator: (delta * 100) as i128, denominator: total as u128 }
    } else {
        Ratio { numerator: 0, denominator: 1 }
    }
}

/// `e` with the annotation that `changes` give its name, measured against `total`.
pub open spec fn annotated(e: DirEntry, changes: Seq<SizeChange>, total: nat) -> DirEntry {
    match change_for(changes, e.name@) {
        Some(c) => DirEntry {
            size_change: Some((c.delta_bytes, percent_of(c.delta_bytes, total))),
            ..e
        },
        None => e,
    }
}

pub open spec fn annotate_all(entries: Seq<DirEntry>, changes: Seq<SizeChange>) -> Seq<DirEntry> {
    entries.map_values(|e: DirEntry| annotated(e, changes, total_size(entries)))
}

proof fn lemma_total_bound(entries: Seq<DirEntry>)
    ensures
        total_size(entries) <= entries.len() * u64::MAX,
    decreases entries.len(),
{
    if entries.len() > 0 {
        lemma_total_bound(entries.drop_last());
    }
}

fn find_change<'a>(changes: &'a Vec<SizeChange>, name: &String) -> (r: Option<&'a SizeChange>)
    ensures
        match r {
            Some(c) => change_for(changes@, name@) == Some(*c),
            None => change_for(changes@, name@) is None,
        },
{
    let mut i: usize = 0;
    assert(changes@.subrange(0, changes@.len() as int) =~= changes@);
    while i < changes.len()
        invariant
            i <= changes.len(),
            change_for(changes@, name@) == change_for(changes@.subrange(i as int, changes@.len() as int), name@),
        decreases changes.len() - i,
    {
        let ghost rest = changes@.subrange(i as int, changes@.len() as int);
        assert(rest.drop_first() =~= changes@.subrange(i + 1, changes@.len() as int));
        if changes[i].name == *name {
            return Some(&changes[i]);
        }
        i = i + 1;
    }
    None
}

/// Annotates each entry with the first change recorded for its name: the delta in bytes
/// and the delta as a percentage of the total size of all entries (zero when that total is
/// zero). Entries without a change keep no annotation they did not have.
pub fn apply_size_changes(entries: &mut Vec<DirEntry>, changes: &Vec<SizeChange>)
    ensures
        final(entries)@ == annotate_all(old(entries)@, changes@),
{
    let ghost orig = entries@;
    let mut total: u128 = 0;
    let mut i: usize = 0;
    proof {
        lemma_total_bound(orig);
    }
    while i < entries.len()
        invariant
            i <= entries.len(),
            entries@ == orig,
            total as nat == total_size(orig.subrange(0, i as int)),
        decreases entries.len() - i,
    {
        assert(orig.subrange(0, i + 1).drop_last() =~= orig.subrange(0, i as int));
        proof {
            lemma_total_bound(orig.subrange(0, i as int));
        }
        assert(total + entries[i as int].size <= (i + 1) * u64::MAX) by (nonlinear_arith)
            requires
                total <= i * u64::MAX,
                entries[i as int].size <= u64::MAX,
        ;
        total = total + entries[i].size as u128;
        i = i + 1;
    }
    assert(orig.subrange(0, i as int) =~= orig);
    let ghost t = total_size(orig);
    let mut j: usize = 0;
    while j < entries.len()
        invariant
            j <= entries.len() == orig.len(),
            total as nat == t,
            t == total_size(orig),
            forall|k: int| 0 <= k < j ==> entries@[k] == annotated(orig[k], changes@, t),
            forall|k: int| j <= k < entries.len() ==> entries@[k] == orig[k],
        decreases entries.len() - j,
    {
        match find_change(changes, &entries[j].name) {
            Some(c) => {
                let percent = if total > 0 {
                    Ratio { numerator: c.delta_bytes as i128 * 100, denominator: total }
                } else {
                    Ratio { numerator: 0, denominator: 1 }
                };
                let note = Some((c.delta_bytes, percent));
                entries[j].size_change = note;
            },
            None => {},
        }
        j = j + 1;
    }
    assert(entries@ =~= annotate_all(orig, changes@));
}

/// `e` is the pseudo-entry that leads to the parent directory `parent`.
pub open spec fn is_parent_entry(e: DirEntry, parent: Seq<char>) -> bool {
    &&& e.path@ == parent
    &&& e.name@ == ".."@
    &&& e.size == 0
    &&& e.is_dir
    &&& e.file_count == 0
    &&& e.size_change is None
    &&& !e.is_new
}

/// The browsing state: the directory shown, its entries, selection, dialogs and
/// what the background tasks last reported.
pub struct App {
    pub root_path: String,
    pub current_path: String,
    pub entries: Vec<DirEntry>,
    pub selected_index: usize,
    pub scroll_offset: usize,
    pub mode: AppMode,
    pub modal: Option<Modal>,
    pub delete_progress: Option<DeleteProgress>,
    pub notification: Option<Notice>,
    pub show_help: bool,
    pub is_scanning: bool,
    pub scanning_name: Option<String>,
    pub scan_progress: Option<(usize, usize)>,
    pub disk_space: Option<DiskSpace>,
}

impl App {
    /// A browser rooted at `root`, nothing scanned yet.
    pub fn new_with_root(root: String, disk_space: Option<DiskSpace>) -> (r: App)
        ensures
            r.root_path == root,
            r.current_path == root,
            r.entries@.len() == 0,
            r.selected_index == 0,
            r.scroll_offset == 0,
            r.mode == AppMode::Browsing,
            r.modal is None,
            r.delete_progress is None,
            r.notification is None,
            !r.show_help,
            !r.is_scanning,
            r.scanning_name is None,
            r.scan_progress is None,
            r.disk_space == disk_space,
    {
        let current_path = root.clone();
        App {
            root_path: root,
            current_path,
            entries: Vec::new(),
            selected_index: 0,
            scroll_offset: 0,
            mode: AppMode::Browsing,
            modal: None,
            delete_progress: None,
            notification: None,
            show_help: false,
            is_scanning: false,
            scanning_name: None,
            scan_progress: None,
            disk_space,
        }
    }

    /// Moves the selection down one entry, stopping at the last.
    pub fn select_next(&mut self)
        ensures
            final(self).selected_index == if old(self).selected_index + 1 < old(self).entries@.len() {
                (old(self).selected_index + 1) as usize
            } else {
                old(self).selected_index
            },
            *final(self) == (App { selected_index: final(self).selected_index, ..*old(self) }),
    {
        if self.entries.len() > 0 && self.selected_index < self.entries.len() - 1 {
            self.selected_index = self.selected_index + 1;
        }
    }

    /// Moves the selection up one entry, stopping at the first.
    pub fn select_previous(&mut self)
        ensures
            final(self).selected_index == if old(self).selected_index > 0 {
                (old(self).selected_index - 1) as usize
            } else {
                0
            },
            *final(self) == (App { selected_index: final(self).selected_index, ..*old(self) }),
    {
        if self.selected_index > 0 {
            self.selected_index = self.selected_index - 1;
        }
    }

    /// Scrolls so that the selected entry is visible in a viewport of `viewport_height`
    /// lines, two of which hold the header.
    pub fn adjust_scroll(&mut self, viewport_height: usize)
        ensures
            final(self).scroll_offset == scroll_spec(
                old(self).selected_index as int,
                old(self).scroll_offset as int,
                viewport_height as int,
            ),
            viewport_height > 2 ==> final(self).scroll_offset <= final(self).selected_index
                < final(self).scroll_offset + (viewport_height - 2),
            *final(self) == (App { scroll_offset: final(self).scroll_offset, ..*old(self) }),
    {
        let usable = viewport_height.saturating_sub(2);
        if usable == 0 {
            return;
        }
        if self.selected_index < self.scroll_offset {
            self.scroll_offset = self.selected_index;
        }
        if self.selected_index - self.scroll_offset >= usable {
            self.scroll_offset = self.selected_index - (usable - 1);
        }
    }

    /// Moves into the selected entry when it is a directory: the caller then rescans.
    pub fn enter_directory(&mut self) -> (entered: bool)
        ensures
            entered == (old(self).selected_index < old(self).entries@.len()
                && old(self).entries@[old(self).selected_index as int].is_dir),
            entered ==> final(self).current_path == old(self).entries@[old(
                self,
            ).selected_index as int].path && final(self).selected_index == 0
                && final(self).scroll_offset == 0,
            !entered ==> final(self).current_path == old(self).current_path
                && final(self).selected_index == old(self).selected_index
                && final(self).scroll_offset == old(self).scroll_offset,
            final(self).entries == old(self).entries,
            *final(self) == (App { current_path: final(self).current_path, selected_index: final(self).selected_index, scroll_offset: final(self).scroll_offset, ..*old(self) }),
    {
        if self.selected_index < self.entries.len() && self.entries[self.selected_index].is_dir {
            self.current_path = self.entries[self.selected_index].path.clone();
            self.selected_index = 0;
            self.scroll_offset = 0;
            true
        } else {
            false
        }
    }

    /// Moves to the parent directory, when there is one other than the current path:
    /// the caller then rescans.
    pub fn go_parent(&mut self) -> (moved: bool)
        ensures
            moved == (parent_of(old(self).current_path@) matches Some(p) && p != old(
                self,
            ).current_path@),
            moved ==> Some(final(self).current_path@) == parent_of(old(self).current_path@)
                && final(self).selected_index == 0 && final(self).scroll_offset == 0,
            !moved ==> final(self).current_path == old(self).current_path
                && final(self).selected_index == old(self).selected_index
                && final(self).scroll_offset == old(self).scroll_offset,
            final(self).entries == old(self).entries,
            *final(self) == (App { current_path: final(self).current_path, selected_index: final(self).selected_index, scroll_offset: final(self).scroll_offset, ..*old(self) }),
    {
        match parent(self.current_path.as_str()) {
            Some(p) => {
                if p != self.current_path {
                    self.current_path = p;
                    self.selected_index = 0;
                    self.scroll_offset = 0;
                    true
                } else {
                    false
                }
            },
            None => false,
        }
    }

    /// A scan of the current directory has been launched.
    pub fn begin_scan(&mut self)
        ensures
            final(self).is_scanning,
            *final(self) == (App { is_scanning: final(self).is_scanning, ..*old(self) }),
    {
        self.is_scanning = true;
    }

    /// The cache has been cleared on request; a rescan follows.
    pub fn hard_refresh(&mut self)
        ensures
            final(self).notification matches Some(Notice::CacheCleared),
            final(self).entries == old(self).entries,
            *final(self) == (App { notification: final(self).notification, ..*old(self) }),
    {
        self.notification = Some(Notice::CacheCleared);
    }

    /// Takes a scan task's progress report.
    pub fn scan_progressed(&mut self, current_name: String, scanned_count: usize, total_count: usize)
        ensures
            final(self).scanning_name == Some(current_name),
            final(self).scan_progress == Some((scanned_count, total_count)),
            final(self).is_scanning == old(self).is_scanning,
            *final(self) == (App { scanning_name: final(self).scanning_name, scan_progress: final(self).scan_progress, ..*old(self) }),
    {
        self.scanning_name = Some(current_name);
        self.scan_progress = Some((scanned_count, total_count));
    }

    /// Takes a finished scan: annotates the entries with their change since `previous`
    /// (the fingerprint stored at the last visit, if any could be read), orders them by
    /// size, puts the parent pseudo-entry first when the directory has a parent other than
    /// itself, and selects the top. Returns the fingerprint of the new entries, to be stored.
    pub fn scan_succeeded(
        &mut self,
        entries: Vec<DirEntry>,
        previous: Option<DirectoryFingerprint>,
    ) -> (fp: DirectoryFingerprint)
        ensures
            fp@ == crate::changes::entries_records(entries@),
            fp.wf(),
            ({
                let sorted = sort_ranked(
                    match previous {
                        Some(old_fp) => annotate_all(
                            entries@,
                            sort_ranked(crate::changes::raw_changes(old_fp@, fp.records())),
                        ),
                        None => entries@,
                    },
                );
                match parent_of(old(self).current_path@) {
                    Some(p) => if p != old(self).current_path@ {
                        final(self).entries@.len() == sorted.len() + 1 && is_parent_entry(
                            final(self).entries@[0],
                            p,
                        ) && final(self).entries@.drop_first() == sorted
                    } else {
                        final(self).entries@ == sorted
                    },
                    None => final(self).entries@ == sorted,
                }
            }),
            !final(self).is_scanning,
            final(self).scanning_name is None,
            final(self).scan_progress is None,
            final(self).selected_index == 0,
            final(self).scroll_offset == 0,
            final(self).notification is Some ==> !final(self).notification->0.is_error_spec(),
            (old(self).notification is None || old(self).notification->0.is_error_spec())
                ==> final(self).notification is None,
            (old(self).notification is Some && !old(self).notification->0.is_error_spec())
                ==> final(self).notification
                == old(self).notification,
            *final(self) == (App { entries: final(self).entries, is_scanning: final(self).is_scanning, scanning_name: final(self).scanning_name, scan_progress: final(self).scan_progress, selected_index: final(self).selected_index, scroll_offset: final(self).scroll_offset, notification: final(self).notification, ..*old(self) }),
    {
        self.is_scanning = false;
        self.scanning_name = None;
        self.scan_progress = None;
        let mut entries = entries;
        let fp = DirectoryFingerprint::from_entries(entries.as_slice());
        match previous {
            Some(old_fp) => {
                let changes = old_fp.get_changes(&fp);
                apply_size_changes(&mut entries, &changes);
            },
            None => {},
        }
        let mut sorted = sort_by_rank(entries);
        match parent(self.current_path.as_str()) {
            Some(p) => {
                if p != self.current_path {
                    let up = DirEntry::new(p, "..".to_owned(), 0, true);
                    sorted.insert(0, up);
                }
            },
            None => {},
        }
        self.entries = sorted;
        self.selected_index = 0;
        self.scroll_offset = 0;
        let clear = match &self.notification {
            Some(n) => n.is_error(),
            None => false,
        };
        if clear {
            self.notification = None;
        }
        fp
    }

    /// Takes a failed scan: no stale entries are kept, and the failure is reported.
    pub fn scan_failed(&mut self, message: String)
        ensures
            final(self).entries@.len() == 0,
            !final(self).is_scanning,
            final(self).scanning_name is None,
            final(self).scan_progress is None,
            final(self).selected_index == 0,
            final(self).scroll_offset == 0,
            final(self).notification matches Some(Notice::ScanFailed(m)) && m == message,
            *final(self) == (App { entries: final(self).entries, is_scanning: final(self).is_scanning, scanning_name: final(self).scanning_name, scan_progress: final(self).scan_progress, selected_index: final(self).selected_index, scroll_offset: final(self).scroll_offset, notification: final(self).notification, ..*old(self) }),
    {
        self.is_scanning = false;
        self.scanning_name = None;
        self.scan_progress = None;
        self.entries.clear();
        self.selected_index = 0;
        self.scroll_offset = 0;
        self.notification = Some(Notice::ScanFailed(message));
    }

    /// Opens the first delete confirmation for the selected entry, if there is one.
    pub fn open_delete_modal(&mut self)
        ensures
            old(self).selected_index < old(self).entries@.len() ==> (final(self).modal matches Some(
                m,
            ) && m.wf() && m.selected_button == 0 && m.modal_type == (ModalType::ConfirmDelete {
                path: old(self).entries@[old(self).selected_index as int].path,
                size: old(self).entries@[old(self).selected_index as int].size,
            })),
            old(self).selected_index >= old(self).entries@.len() ==> final(self).modal
                == old(self).modal,
            final(self).entries == old(self).entries,
            *final(self) == (App { modal: final(self).modal, ..*old(self) }),
    {
        if self.selected_index < self.entries.len() {
            let m = Modal::confirm_delete(
                &self.entries[self.selected_index].path,
                self.entries[self.selected_index].size,
            );
            self.modal = Some(m);
        }
    }

    pub fn toggle_help(&mut self)
        ensures
            final(self).show_help == !old(self).show_help,
            final(self).entries == old(self).entries,
            *final(self) == (App { show_help: final(self).show_help, ..*old(self) }),
    {
        self.show_help = !self.show_help;
    }

    /// Takes the chosen dialog button. A first confirmation leads to the final one; the
    /// final confirmation closes the dialog and asks for the deletion; a dry run is asked
    /// for from the first confirmation only; anything else closes the dialog.
    pub fn handle_modal_action(&mut self, action: ModalAction) -> (r: ModalOutcome)
        ensures
            modal_transition(action, old(self).modal, r, final(self).modal),
            final(self).mode == old(self).mode,
            *final(self) == (App { modal: final(self).modal, ..*old(self) }),
    {
        let taken = self.modal.take();
        match action {
            ModalAction::Confirm => match taken {
                Some(m) => match m.modal_type {
                    ModalType::ConfirmDelete { path, size } => {
                        self.modal = Some(Modal::final_confirm(&path, size));
                        ModalOutcome::Nothing
                    },
                    ModalType::FinalConfirm { path, .. } => ModalOutcome::StartDelete(path),
                },
                None => ModalOutcome::Nothing,
            },
            ModalAction::DryRun => match taken {
                Some(m) => match m.modal_type {
                    ModalType::ConfirmDelete { path, .. } => ModalOutcome::StartDryRun(path),
                    ModalType::FinalConfirm { .. } => ModalOutcome::Nothing,
                },
                None => ModalOutcome::Nothing,
            },
            ModalAction::Cancel => ModalOutcome::Nothing,
        }
    }

    /// A delete task has been launched.
    pub fn start_delete(&mut self)
        ensures
            final(self).mode == AppMode::Deleting,
            final(self).delete_progress matches Some(p) && p.deleted_bytes == 0 && p.total_bytes
                == 0 && p.deleted_files == 0 && p.total_files == 0 && p.current_file@.len() == 0
                && p.status@ == "Starting deletion..."@,
            final(self).entries == old(self).entries,
            *final(self) == (App { mode: final(self).mode, delete_progress: final(self).delete_progress, ..*old(self) }),
    {
        self.mode = AppMode::Deleting;
        self.delete_progress = Some(
            DeleteProgress {
                deleted_bytes: 0,
                total_bytes: 0,
                deleted_files: 0,
                total_files: 0,
                current_file: String::new(),
                status: "Starting deletion...".to_owned(),
            },
        );
    }

    /// A dry run has been asked for.
    pub fn start_dry_run(&mut self)
        ensures
            final(self).mode == AppMode::DryRun,
            final(self).entries == old(self).entries,
            *final(self) == (App { mode: final(self).mode, ..*old(self) }),
    {
        self.mode = AppMode::DryRun;
    }

    /// A dry run has listed `files` paths holding `bytes` bytes; browsing resumes.
    pub fn dry_run_finished(&mut self, files: u64, bytes: u64)
        ensures
            final(self).mode == AppMode::Browsing,
            final(self).notification matches Some(Notice::DryRunSummary { files: f, bytes: b })
                && f == files && b == bytes,
            final(self).entries == old(self).entries,
            *final(self) == (App { mode: final(self).mode, notification: final(self).notification, ..*old(self) }),
    {
        self.mode = AppMode::Browsing;
        self.notification = Some(Notice::DryRunSummary { files, bytes });
    }

    /// Takes a delete task's message. Returns whether the deletion completed, in which case
    /// the caller clears the size cache, reads the disk space again and rescans.
    pub fn update_delete_progress(&mut self, update: DeleteProgressUpdate) -> (completed: bool)
        ensures
            completed == (update is Complete),
            delete_transition(
                update,
                old(self).mode,
                old(self).delete_progress,
                final(self).mode,
                final(self).delete_progress,
                final(self).notification,
                old(self).notification,
            ),
            final(self).entries == old(self).entries,
            *final(self) == (App { mode: final(self).mode, delete_progress: final(self).delete_progress, notification: final(self).notification, ..*old(self) }),
    {
        match update {
            DeleteProgressUpdate::Progress {
                bytes_done,
                bytes_total,
                files_done,
                files_total,
                current_file,
            } => {
                if self.delete_progress.is_some() {
                    self.delete_progress = Some(
                        DeleteProgress {
                            deleted_bytes: bytes_done,
                            total_bytes: bytes_total,
                            deleted_files: files_done,
                            total_files: files_total,
                            current_file,
                            status: "Deleting...".to_owned(),
                        },
                    );
                }
                false
            },
            DeleteProgressUpdate::Complete { total_bytes, total_files } => {
                self.delete_progress = None;
                self.mode = AppMode::Browsing;
                self.notification = Some(Notice::Deleted { files: total_files, bytes: total_bytes });
                true
            },
            DeleteProgressUpdate::Error(e) => {
                self.delete_progress = None;
                self.mode = AppMode::Browsing;
                self.notification = Some(Notice::DeleteFailed(e));
                false
            },
        }
    }
}

pub open spec fn modal_transition(
    action: ModalAction,
    before: Option<Modal>,
    r: ModalOutcome,
    after: Option<Modal>,
) -> bool {
    match (action, before) {
        (ModalAction::Confirm, Some(m)) => match m.modal_type {
            ModalType::ConfirmDelete { path, size } => {
                &&& r is Nothing
                &&& after is Some
                &&& after->0.wf()
                &&& after->0.selected_button == 1
                &&& after->0.modal_type == (ModalType::FinalConfirm { path, size })
                &&& buttons_view(after->0.buttons@) == seq![
                    ("YES, DELETE"@, ModalAction::Confirm),
                    ("Cancel"@, ModalAction::Cancel),
                ]
            },
            ModalType::FinalConfirm { path, .. } => r == ModalOutcome::StartDelete(path)
                && after is None,
        },
        (ModalAction::DryRun, Some(m)) => after is None && match m.modal_type {
            ModalType::ConfirmDelete { path, .. } => r == ModalOutcome::StartDryRun(path),
            ModalType::FinalConfirm { .. } => r is Nothing,
        },
        _ => r is Nothing && after is None,
    }
}

pub open spec fn delete_transition(
    update: DeleteProgressUpdate,
    mode_before: AppMode,
    progress_before: Option<DeleteProgress>,
    mode_after: AppMode,
    progress_after: Option<DeleteProgress>,
    notice_after: Option<Notice>,
    notice_before: Option<Notice>,
) -> bool {
    match update {
        DeleteProgressUpdate::Progress {
            bytes_done,
            bytes_total,
            files_done,
            files_total,
            current_file,
        } => {
            &&& mode_after == mode_before
            &&& notice_after == notice_before
            &&& match progress_before {
                Some(_) => {
                    &&& progress_after is Some
                    &&& progress_after->0.deleted_bytes == bytes_done
                    &&& progress_after->0.total_bytes == bytes_total
                    &&& progress_after->0.deleted_files == files_done
                    &&& progress_after->0.total_files == files_total
                    &&& progress_after->0.current_file == current_file
                    &&& progress_after->0.status@ == "Deleting..."@
                },
                None => progress_after is None,
            }
        },
        DeleteProgressUpdate::Complete { total_bytes, total_files } => {
            &&& progress_after is None
            &&& mode_after == AppMode::Browsing
            &&& notice_after == Some(Notice::Deleted { files: total_files, bytes: total_bytes })
        },
        DeleteProgressUpdate::Error(e) => {
            &&& progress_after is None
            &&& mode_after == AppMode::Browsing
            &&& notice_after == Some(Notice::DeleteFailed(e))
        },
    }
}

/// Where the scroll offset goes so that `selected` shows in a viewport of `height` lines
/// of which two hold the header.
pub open spec fn scroll_spec(selected: int, scroll: int, height: int) -> int {
    let usable = if height > 2 {
        height - 2
    } else {
        0
    };
    if usable == 0 {
        scroll
    } else {
        let s1 = if selected < scroll {
            selected
        } else {
            scroll
        };
        if selected >= s1 + usable {
            selected - (usable - 1)
        } else {
            s1
        }
    }
}

} // verus!
