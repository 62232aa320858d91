//! Size statistics of a directory walk, and the outcomes of removing a path.
use vstd::prelude::*;

verus! {

/// How a directory walk proceeds.
#[derive(Debug, Clone, Copy, PartialEq, Eq, Structural)]
pub struct WalkOptions {
    pub follow_links: bool,
    pub include_dirs: bool,
}

impl Default for WalkOptions {
    /// Symbolic links are not followed; directories count as entries.
    fn default() -> (r: Self)
        ensures
            !r.follow_links,
            r.include_dirs,
    {
        WalkOptions { follow_links: false, include_dirs: true }
    }
}

/// Counts and total size of what lies under a path.
#[derive(Debug, Clone, Copy, PartialEq, Eq, Structural)]
pub struct PathStats {
    pub entries: u64,
    pub files: u64,
    pub dirs: u64,
    pub bytes: u64,
}

impl Default for PathStats {
    fn default() -> (r: Self)
        ensures
            r == (PathStats { entries: 0, files: 0, dirs: 0, bytes: 0 }),
    {
        PathStats { entries: 0, files: 0, dirs: 0, bytes: 0 }
    }
}

/// What removing a path did.
#[derive(Debug, Clone, Copy, PartialEq, Eq, Structural)]
pub enum RemoveOutcome {
    NotFound,
    FileRemoved,
    DirectoryRemoved,
}

/// The kind of an entry met in a walk.
#[derive(Debug, Clone, Copy, PartialEq, Eq, Structural)]
pub enum EntryKind {
    Directory,
    File,
    Other,
}

/// The statistics after one more entry of a walk: the walked root itself
/// is skipped, a directory counts as a directory (and as an entry when
/// directories are included), a file counts as a file and an entry and
/// adds its length, anything else is not counted.
pub open spec fn recorded(s: PathStats, kind: EntryKind, is_root: bool, len: u64, include_dirs: bool) -> PathStats {
    match kind {
        EntryKind::Directory => if is_root {
            s
        } else {
            PathStats {
                dirs: (s.dirs + 1) as u64,
                entries: if include_dirs { (s.entries + 1) as u64 } else { s.entries },
                ..s
            }
        },
        EntryKind::File => PathStats {
            files: (s.files + 1) as u64,
            entries: (s.entries + 1) as u64,
            bytes: (s.bytes + len) as u64,
            ..s
        },
        EntryKind::Other => s,
    }
}

/// Recording the entry overflows no counter.
pub open spec fn record_fits(s: PathStats, kind: EntryKind, is_root: bool, len: u64, include_dirs: bool) -> bool {
    match kind {
        EntryKind::Directory => is_root || (s.dirs < u64::MAX && (include_dirs ==> s.entries
            < u64::MAX)),
        EntryKind::File => s.files < u64::MAX && s.entries < u64::MAX && s.bytes + len <= u64::MAX,
        EntryKind::Other => true,
    }
}

/// Every counted entry is a file or, when directories are included, a
/// directory.
pub open spec fn entries_consistent(s: PathStats, include_dirs: bool) -> bool {
    s.entries == s.files + if include_dirs { s.dirs as int } else { 0 }
}

impl PathStats {
    /// The statistics of a path that is a single file.
    pub fn of_file(len: u64) -> (r: Self)
        ensures
            r == (PathStats { entries: 1, files: 1, dirs: 0, bytes: len }),
    {
        PathStats { entries: 1, files: 1, dirs: 0, bytes: len }
    }

    /// Whether counting the entry overflows no counter.
    pub fn can_record(&self, kind: EntryKind, is_root: bool, len: u64, options: WalkOptions) -> (b: bool)
        ensures
            b == record_fits(*self, kind, is_root, len, options.include_dirs),
    {
        match kind {
            EntryKind::Directory => is_root || (self.dirs < u64::MAX && (!options.include_dirs
                || self.entries < u64::MAX)),
            EntryKind::File => self.files < u64::MAX && self.entries < u64::MAX && len <= u64::MAX
                - self.bytes,
            EntryKind::Other => true,
        }
    }

    /// Counts one entry of a walk; `is_root` marks the walked path itself.
    pub fn record(&mut self, kind: EntryKind, is_root: bool, len: u64, options: WalkOptions)
        requires
            record_fits(*old(self), kind, is_root, len, options.include_dirs),
        ensures
            *final(self) == recorded(*old(self), kind, is_root, len, options.include_dirs),
    {
        match kind {
            EntryKind::Directory => {
                if !is_root {
                    self.dirs = self.dirs + 1;
                    if options.include_dirs {
                        self.entries = self.entries + 1;
                    }
                }
            },
            EntryKind::File => {
                self.files = self.files + 1;
                self.entries = self.entries + 1;
                self.bytes = self.bytes + len;
            },
            EntryKind::Other => {},
        }
    }
}

/// Walk statistics stay consistent: starting from zero or from a single
/// file, each recorded entry keeps the entry count equal to the file count
/// plus, when directories are included, the directory count.
pub proof fn law_record_keeps_entries_consistent(
    s: PathStats,
    kind: EntryKind,
    is_root: bool,
    len: u64,
    include_dirs: bool,
)
    requires
        entries_consistent(s, include_dirs),
        record_fits(s, kind, is_root, len, include_dirs),
    ensures
        entries_consistent(recorded(s, kind, is_root, len, include_dirs), include_dirs),
        entries_consistent(PathStats { entries: 0, files: 0, dirs: 0, bytes: 0 }, include_dirs),
        entries_consistent(PathStats { entries: 1, files: 1, dirs: 0, bytes: len }, include_dirs),
{
}

} // verus!
