use r_os::vfs::entry::FSEntry;
use r_os::vfs::entry::FSEntryKind;
use r_os::vfs::entry::FSEntryMetadata;
use r_os::vfs::entry::FSEntryTrait;
use r_os::vfs::entry::FSFolder;
use r_os::vfs::errors::SimpleFSError;
use r_os::vfs::fs::SimpleFS;

fn ready_fs() -> SimpleFS {
    let mut fs = SimpleFS::new();
    fs.init();
    fs
}

fn folder_entry(path: &str, name: &str, stamp: u64) -> FSEntry {
    FSEntry {
        abs_path: path.to_string(),
        entry: FSEntryKind::Folder(FSFolder {
            metadata: FSEntryMetadata {
                is_hidden: false,
                name: name.to_string(),
                created_at: stamp,
                modified_at: stamp,
            },
        }),
    }
}

#[test]
fn path_grammar_accepts_plain_paths() {
    assert!(SimpleFS::is_folder_path("/a/b"));
    assert!(SimpleFS::is_folder_path("a/b/c"));
    assert!(SimpleFS::is_folder_path("/"));
    assert!(SimpleFS::is_folder_path(""));
    assert!(SimpleFS::is_folder_path("/a/b/"));
}

#[test]
fn path_grammar_rejects_null_class_and_empty_segments() {
    assert!(!SimpleFS::is_folder_path("/a\u{0}b"));
    assert!(!SimpleFS::is_folder_path("/a\\b"));
    assert!(!SimpleFS::is_folder_path("//a"));
    assert!(!SimpleFS::is_folder_path("/a//b"));
}

#[test]
fn absolute_path_test() {
    assert!(SimpleFS::is_absolute_path("/a"));
    assert!(!SimpleFS::is_absolute_path("a/b"));
    assert!(!SimpleFS::is_absolute_path(""));
}

#[test]
fn exists_is_false_not_an_error_for_never_created_path() {
    let fs = ready_fs();
    assert_eq!(fs.path_exists("/never/created"), Ok(false));
}

#[test]
fn exists_rejects_null_class_path_with_invalid_path() {
    let fs = ready_fs();
    assert_eq!(fs.path_exists("/bad\u{0}"), Err(SimpleFSError::InvalidPath));
}

#[test]
fn exists_before_init_reports_uninitialized_storage() {
    let fs = SimpleFS::new();
    assert_eq!(fs.path_exists("/a"), Err(SimpleFSError::StorageUninitialized));
}

#[test]
fn create_folder_checks_run_in_strict_order() {
    let mut fs = ready_fs();
    // Parent missing.
    assert_eq!(
        fs.create_folder_absolute("/a/b").unwrap_err(),
        SimpleFSError::ParentNotFound
    );
    // Succeeds once the parent exists.
    let a = fs.create_folder_absolute("/a").unwrap();
    assert_eq!(a.path(), "/a");
    let b = fs.create_folder_absolute("/a/b").unwrap();
    assert_eq!(b.path(), "/a/b");
    // A second identical call fails without mutating the store.
    let before = fs.list();
    assert_eq!(
        fs.create_folder_absolute("/a/b").unwrap_err(),
        SimpleFSError::AlreadyExists
    );
    assert_eq!(fs.list(), before);
}

#[test]
fn create_folder_rejects_invalid_and_relative_and_root() {
    let mut fs = ready_fs();
    assert_eq!(
        fs.create_folder_absolute("/x\u{0}").unwrap_err(),
        SimpleFSError::InvalidPath
    );
    assert_eq!(
        fs.create_folder_absolute("x").unwrap_err(),
        SimpleFSError::InvalidPath
    );
    assert_eq!(
        fs.create_folder_absolute("/").unwrap_err(),
        SimpleFSError::InvalidPath
    );
}

#[test]
fn create_folder_relative_joins_against_the_working_directory() {
    let mut fs = ready_fs();
    fs.create_folder_absolute("/docs").unwrap();
    let e = fs.create_folder_relative("/docs", "notes").unwrap();
    assert_eq!(e.path(), "/docs/notes");
    // An absolute path ignores the working directory.
    let f = fs.create_folder_relative("/docs", "/top").unwrap();
    assert_eq!(f.path(), "/top");
    // The root working directory gets a single separator.
    let g = fs.create_folder("sub").unwrap();
    assert_eq!(g.path(), "/sub");
}

#[test]
fn created_entry_is_a_visible_folder_named_after_the_last_segment() {
    let mut fs = ready_fs();
    let e = fs.create_folder_absolute("/music").unwrap();
    match &e.entry {
        FSEntryKind::Folder(f) => {
            assert_eq!(f.name(), "music");
            assert!(!f.is_hidden());
            assert_eq!(f.created_at(), f.modified_at());
        }
        _ => panic!("expected a folder entry"),
    }
}

#[test]
fn read_folder_round_trip_and_lexicographic_range() {
    let mut fs = ready_fs();
    fs.create_folder_absolute("/a").unwrap();
    fs.create_folder_absolute("/a/b").unwrap();
    fs.create_folder_absolute("/ab").unwrap();
    fs.create_folder_absolute("/z").unwrap();
    let under_a = fs.read_folder("/a").unwrap();
    let paths: Vec<String> = under_a.iter().map(|e| e.path()).collect();
    // Range semantics: everything at or after "/a" and before "/a\u{ffff}".
    assert_eq!(paths, vec!["/a", "/a/b", "/ab"]);
    // Re-querying after a create reflects the new entry.
    fs.create_folder_absolute("/a/c").unwrap();
    let again: Vec<String> = fs.read_folder("/a").unwrap().iter().map(|e| e.path()).collect();
    assert!(again.contains(&"/a/c".to_string()));
    assert_eq!(again, vec!["/a", "/a/b", "/a/c", "/ab"]);
}

#[test]
fn read_folder_is_lenient_about_invalid_paths() {
    let fs = ready_fs();
    let r = fs.read_folder("/bad\u{0}").unwrap();
    assert!(r.is_empty());
}

#[test]
fn write_and_read_index_entries() {
    let mut fs = ready_fs();
    let e = folder_entry("/seeded", "seeded", 7);
    fs.write("/seeded", e);
    let got = fs.read("/seeded").unwrap();
    assert_eq!(got.path(), "/seeded");
    assert!(fs.read("/missing").is_none());
}

#[test]
fn list_reports_paths_in_ascending_order() {
    let mut fs = ready_fs();
    fs.create_folder_absolute("/b").unwrap();
    fs.create_folder_absolute("/a").unwrap();
    fs.create_folder_absolute("/c").unwrap();
    assert_eq!(fs.list(), vec!["/a", "/b", "/c"]);
}

#[test]
fn error_messages_render_one_line_each() {
    assert_eq!(SimpleFSError::InvalidPath.message(), "Invalid path");
    assert_eq!(SimpleFSError::NotFound.message(), "Not found");
    assert_eq!(SimpleFSError::ParentNotFound.message(), "Parent folder not found");
    assert_eq!(SimpleFSError::AlreadyExists.message(), "Already exists");
    assert_eq!(SimpleFSError::IOError.message(), "IO Error");
    assert_eq!(
        SimpleFSError::StorageUninitialized.message(),
        "Storage not initialized"
    );
}
