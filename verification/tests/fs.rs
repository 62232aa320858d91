use rustzen_core::filesystem::{EntryKind, PathStats, RemoveOutcome, WalkOptions};
use rustzen_core::paths::{path_file_name, path_starts_with};

#[test]
fn walk_defaults() {
    let o = WalkOptions::default();
    assert!(!o.follow_links);
    assert!(o.include_dirs);
    assert_eq!(PathStats::default(), PathStats { entries: 0, files: 0, dirs: 0, bytes: 0 });
    assert_ne!(RemoveOutcome::NotFound, RemoveOutcome::FileRemoved);
}

#[test]
fn stats_count_files_and_dirs() {
    let opts = WalkOptions::default();
    let mut s = PathStats::default();
    s.record(EntryKind::Directory, true, 0, opts);
    s.record(EntryKind::Directory, false, 0, opts);
    s.record(EntryKind::File, false, 10, opts);
    s.record(EntryKind::File, false, 5, opts);
    s.record(EntryKind::Other, false, 99, opts);
    assert_eq!(s, PathStats { entries: 3, files: 2, dirs: 1, bytes: 15 });
    let no_dirs = WalkOptions { follow_links: false, include_dirs: false };
    let mut t = PathStats::default();
    t.record(EntryKind::Directory, false, 0, no_dirs);
    assert_eq!(t, PathStats { entries: 0, files: 0, dirs: 1, bytes: 0 });
    assert_eq!(PathStats::of_file(7), PathStats { entries: 1, files: 1, dirs: 0, bytes: 7 });
}

#[test]
fn path_prefix_by_components() {
    assert!(path_starts_with("/srv/app/data", "/srv/app"));
    assert!(path_starts_with("/srv/app", "/srv/app/"));
    assert!(!path_starts_with("/srv/application", "/srv/app"));
    assert!(!path_starts_with("srv/app", "/srv"));
    assert!(path_starts_with("/a//b/./c", "/a/b"));
    assert!(!path_starts_with("./a", "a"));
    assert!(path_starts_with("anything", ""));
}

#[test]
fn file_names_of_paths() {
    assert_eq!(path_file_name("a/b/package.json"), Some("package.json".to_string()));
    assert_eq!(path_file_name("a/b/"), Some("b".to_string()));
    assert_eq!(path_file_name("a/.."), None);
    assert_eq!(path_file_name("/"), None);
    assert_eq!(path_file_name("."), None);
}

#[test]
fn containment_is_reflexive_and_transitive() {
    for p in ["/srv/app", "rel/x", "", "./a"] {
        assert!(path_starts_with(p, p));
    }
    assert!(path_starts_with("/a/b/c", "/a/b"));
    assert!(path_starts_with("/a/b", "/a"));
    assert!(path_starts_with("/a/b/c", "/a"));
}
