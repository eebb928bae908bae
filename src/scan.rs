use vstd::prelude::*;

use crate::changes::Ratio;
use crate::order::{sort_by_rank, sort_ranked, Ranked};

verus! {

/// One child of the directory being viewed.
pub struct DirEntry {
    pub path: String,
    pub name: String,
    /// Bytes; for a directory, the total beneath it.
    pub size: u64,
    pub is_dir: bool,
    pub file_count: u64,
    /// Change since the last visit: the delta in bytes and its share of the directory total.
    pub size_change: Option<(i64, Ratio)>,
    pub is_new: bool,
}

impl Ranked for DirEntry {
    open spec fn rank(&self) -> nat {
        self.size as nat
    }

    fn rank_of(&self) -> (r: u64) {
        self.size
    }
}

impl DirEntry {
    /// A freshly scanned entry: no change annotation, not marked new.
    pub fn new(path: String, name: String, size: u64, is_dir: bool) -> (r: DirEntry)
        ensures
            r.path == path,
            r.name == name,
            r.size == size,
            r.is_dir == is_dir,
            r.file_count == 0,
            r.size_change is None,
            !r.is_new,
    {
        DirEntry { path, name, size, is_dir, file_count: 0, size_change: None, is_new: false }
    }
}

/// The most filesystem objects that one directory-size walk visits.
pub const MAX_WALK_ENTRIES: usize = 100_000;

/// Bytes of the files among `items`: each item is the metadata of one visited object,
/// `(is_file, length)`, or `None` where it could not be read.
pub open spec fn file_bytes(items: Seq<Option<(bool, u64)>>) -> nat
    decreases items.len(),
{
    if items.len() == 0 {
        0
    } else {
        file_bytes(items.drop_last()) + match items.last() {
            Some((true, len)) => len as nat,
            _ => 0nat,
        }
    }
}

pub open spec fn saturate(x: nat) -> u64 {
    if x > u64::MAX {
        u64::MAX
    } else {
        x as u64
    }
}

/// The running sum of a capped directory walk.
pub struct WalkTally {
    visited: usize,
    total: u64,
    items: Ghost<Seq<Option<(bool, u64)>>>,
}

impl WalkTally {
    /// The objects visited so far.
    pub closed spec fn items(&self) -> Seq<Option<(bool, u64)>> {
        self.items@
    }

    pub closed spec fn wf(&self) -> bool {
        &&& self.visited as int == self.items@.len()
        &&& self.visited <= MAX_WALK_ENTRIES
        &&& self.total == saturate(file_bytes(self.items@))
    }

    pub fn new() -> (r: WalkTally)
        ensures
            r.wf(),
            r.items() == Seq::<Option<(bool, u64)>>::empty(),
    {
        WalkTally { visited: 0, total: 0, items: Ghost(Seq::empty()) }
    }

    /// Whether the walk has reached its cap and must stop.
    pub fn is_full(&self) -> (r: bool)
        requires
            self.wf(),
        ensures
            r == (self.items().len() >= MAX_WALK_ENTRIES),
    {
        self.visited >= MAX_WALK_ENTRIES
    }

    /// Counts one visited object.
    pub fn visit(&mut self, item: Option<(bool, u64)>)
        requires
            old(self).wf(),
            old(self).items().len() < MAX_WALK_ENTRIES,
        ensures
            final(self).wf(),
            final(self).items() == old(self).items().push(item),
    {
        let ghost before = self.items@;
        match item {
            Some((true, len)) => {
                self.total = self.total.saturating_add(len);
            },
            _ => {},
        }
        self.visited = self.visited + 1;
        self.items = Ghost(before.push(item));
        assert(self.items@.drop_last() =~= before);
    }

    /// The bytes of the files visited so far, held at `u64::MAX`.
    pub fn total(&self) -> (r: u64)
        requires
            self.wf(),
        ensures
            r == saturate(file_bytes(self.items())),
    {
        self.total
    }
}

/// An incremental report sent while a directory level is scanned.
pub struct ScanProgress {
    pub current_name: String,
    pub scanned_count: usize,
    pub total_count: usize,
}

/// The entries of one directory level, gathered child by child.
pub struct DirScan {
    entries: Vec<DirEntry>,
    dirs_done: usize,
    dirs_total: usize,
}

impl DirScan {
    pub closed spec fn entries(&self) -> Seq<DirEntry> {
        self.entries@
    }

    pub closed spec fn dirs_done(&self) -> nat {
        self.dirs_done as nat
    }

    pub closed spec fn dirs_total(&self) -> nat {
        self.dirs_total as nat
    }

    /// A scan of a level that holds `dirs_total` readable subdirectories.
    pub fn new(dirs_total: usize) -> (r: DirScan)
        ensures
            r.entries() == Seq::<DirEntry>::empty(),
            r.dirs_done() == 0,
            r.dirs_total() == dirs_total,
    {
        DirScan { entries: Vec::new(), dirs_done: 0, dirs_total }
    }

    /// Adds a file, sized by its own length.
    pub fn add_file(&mut self, path: String, name: String, len: u64)
        ensures
            final(self).entries() == old(self).entries().push(
                DirEntry {
                    path,
                    name,
                    size: len,
                    is_dir: false,
                    file_count: 0,
                    size_change: None,
                    is_new: false,
                },
            ),
            final(self).dirs_done() == old(self).dirs_done(),
            final(self).dirs_total() == old(self).dirs_total(),
    {
        self.entries.push(DirEntry::new(path, name, len, false));
    }

    /// Adds a subdirectory whose size has been resolved, and reports progress:
    /// its name, the subdirectories resolved so far and the level's total.
    pub fn add_dir(&mut self, path: String, name: String, size: u64) -> (p: ScanProgress)
        requires
            old(self).dirs_done() < old(self).dirs_total(),
        ensures
            final(self).entries() == old(self).entries().push(
                DirEntry {
                    path,
                    name,
                    size,
                    is_dir: true,
                    file_count: 0,
                    size_change: None,
                    is_new: false,
                },
            ),
            final(self).dirs_done() == old(self).dirs_done() + 1,
            final(self).dirs_total() == old(self).dirs_total(),
            p.current_name == name,
            p.scanned_count == final(self).dirs_done(),
            p.total_count == old(self).dirs_total(),
    {
        let current_name = name.clone();
        self.entries.push(DirEntry::new(path, name, size, true));
        self.dirs_done = self.dirs_done + 1;
        ScanProgress { current_name, scanned_count: self.dirs_done, total_count: self.dirs_total }
    }

    /// The gathered entries, largest first; equal sizes keep the order of arrival.
    pub fn finish(self) -> (r: Vec<DirEntry>)
        ensures
            r@ == sort_ranked(self.entries()),
    {
        sort_by_rank(self.entries)
    }
}

} // verus!
