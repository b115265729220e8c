use arx::error::InputErrorKind;
use arx::fs_adder::{
    check_output, detect_kind, read_in_memory, AddStep, CachedSize, DetectedEntryKind, FsAdder, OutputCheck,
};
use arx::paths::{to_arx_path, Trimer};

#[test]
fn relative_paths_become_archive_paths() {
    assert_eq!(to_arx_path("foo/bar").ok().unwrap(), "foo/bar");
    match to_arx_path("/abs/path") {
        Err(e) => {
            assert_eq!(e.kind, InputErrorKind::NonRelative);
            assert_eq!(e.path, "/abs/path");
        }
        Ok(_) => panic!("absolute paths are refused"),
    }
}

#[test]
fn trimer_keeps_or_drops_parents() {
    let t = Trimer::new(false, "some/dir/file");
    assert_eq!(t.0, Some("some/dir".to_string()));
    assert_eq!(t.trim("some/dir/file/x"), "file/x");
    let t = Trimer::new(true, "/abs/dir");
    assert_eq!(t.0, Some("/".to_string()));
    assert_eq!(t.trim("/abs/dir/x"), "abs/dir/x");
    let t = Trimer::new(true, "rel/dir");
    assert_eq!(t.0, None);
    assert_eq!(t.trim("rel/dir/x"), "rel/dir/x");
    assert_eq!(Trimer::new(false, "some/dir").try_trim("other"), None);
}

#[test]
fn walked_entries_under_dir_as_root() {
    let adder = FsAdder::new(false, false, true);
    let t = Trimer::new(false, "in/dir");
    assert!(matches!(adder.plan_walked("in/dir", &t, "in/dir"), Ok(AddStep::Skip)));
    match adder.plan_walked("in/dir", &t, "in/dir/x/y") {
        Ok(AddStep::Add { arx_path, follow_symlink }) => {
            assert_eq!(arx_path, "x/y");
            assert!(!follow_symlink);
        }
        _ => panic!("x/y is stored"),
    }
}

#[test]
fn walked_entries_keep_their_name() {
    let adder = FsAdder::new(false, false, false);
    let t = Trimer::new(false, "in/dir");
    match adder.plan_walked("in/dir", &t, "in/dir") {
        Ok(AddStep::Add { arx_path, follow_symlink }) => {
            assert_eq!(arx_path, "dir");
            assert!(follow_symlink);
        }
        _ => panic!("the root is stored under its name"),
    }
    match adder.plan_walked("in/dir", &t, "in/dir/x") {
        Ok(AddStep::Add { arx_path, follow_symlink }) => {
            assert_eq!(arx_path, "dir/x");
            assert!(!follow_symlink);
        }
        _ => panic!("dir/x is stored"),
    }
}

#[test]
fn listed_paths_and_empty_names() {
    let adder = FsAdder::new(true, true, false);
    match adder.plan_listed("a/b") {
        Ok(AddStep::Add { arx_path, follow_symlink }) => {
            assert_eq!(arx_path, "a/b");
            assert!(follow_symlink);
        }
        _ => panic!("a/b is stored"),
    }
    let adder = FsAdder::new(false, false, false);
    // `RelativePath::from_path` finds nothing to compare in "/", and keeps it.
    match adder.plan_listed("/") {
        Ok(AddStep::Add { arx_path, .. }) => assert_eq!(arx_path, "/"),
        _ => panic!("\"/\" is kept as it is"),
    }
    match adder.plan_listed("/abs") {
        Ok(AddStep::Add { arx_path, .. }) => assert_eq!(arx_path, "abs"),
        _ => panic!("an absolute path is stored from under its parent"),
    }
}

#[test]
fn output_checks() {
    assert_eq!(check_output(false, false, false), OutputCheck::NoDirectory);
    assert_eq!(check_output(true, true, false), OutputCheck::Exists);
    assert_eq!(check_output(true, true, true), OutputCheck::Writable);
    assert_eq!(check_output(true, false, false), OutputCheck::Writable);
}

#[test]
fn small_files_are_read_at_once() {
    assert!(read_in_memory(1024 * 1024 - 1));
    assert!(!read_in_memory(1024 * 1024));
}

#[test]
fn cached_size_adds_up() {
    let mut c = CachedSize::new();
    c.cached_data(10);
    c.cached_data(32);
    assert_eq!(c.0, 42);
}

#[test]
fn file_system_entries_are_told_apart_by_their_metadata() {
    assert_eq!(detect_kind(true, false, false, 4096), DetectedEntryKind::Dir);
    assert_eq!(detect_kind(false, true, false, 12), DetectedEntryKind::File(12));
    assert_eq!(detect_kind(false, false, true, 7), DetectedEntryKind::Link);
    assert_eq!(detect_kind(false, false, false, 0), DetectedEntryKind::Other);
}
