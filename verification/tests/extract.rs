use arx::arx::Arx;
use arx::create::{EntryKind, EntryStoreCreator};
use arx::error::{ArxError, ExtractError};
use arx::extract::{
    choose_filter, dump_target, ExtractBuilder, enter_dir, entry_path, leave_dir, extract_root, next_chunk, on_directory, on_existing, DirStep,
    DumpError, ExistingAction, ExistingTime, ExtractFilter, FileFilter, Overwrite, PathSet,
    PatternFilter, SimpleFileList,
};
use arx::table::EntryRange;
use arx::tree::ContentAddress;

fn sample_arx() -> Arx {
    let mut c = EntryStoreCreator::new();
    let content = ContentAddress { pack_id: 1, content_id: 3 };
    assert!(c.add_entry_data("a", Some(EntryKind::Dir), 10, 20, 0o755, 5).is_ok());
    assert!(c.add_entry_data("a/f.txt", Some(EntryKind::File(12, content)), 10, 20, 0o644, 6).is_ok());
    assert!(c.add_entry_data("b", Some(EntryKind::Link(b"a/f.txt".to_vec())), 10, 20, 0o777, 7).is_ok());
    let store = c.finalize().unwrap();
    Arx { entries: store.entries, root: EntryRange { first: 0, count: store.root_count } }
}

#[test]
fn existing_file_under_each_mode() {
    let t = ExistingTime::Since { secs: 100, nanos: 0 };
    assert_eq!(on_existing(Overwrite::Skip, 200, t), ExistingAction::Keep);
    assert_eq!(on_existing(Overwrite::Warn, 200, t), ExistingAction::Warn);
    assert_eq!(on_existing(Overwrite::Overwrite, 0, t), ExistingAction::Replace);
    assert_eq!(on_existing(Overwrite::Error, 200, t), ExistingAction::Fail);
}

#[test]
fn newer_replaces_only_what_is_not_newer() {
    let t = ExistingTime::Since { secs: 100, nanos: 0 };
    assert_eq!(on_existing(Overwrite::Newer, 101, t), ExistingAction::Replace);
    assert_eq!(on_existing(Overwrite::Newer, 100, t), ExistingAction::Replace);
    assert_eq!(on_existing(Overwrite::Newer, 99, t), ExistingAction::Keep);
    let t = ExistingTime::Since { secs: 100, nanos: 1 };
    assert_eq!(on_existing(Overwrite::Newer, 100, t), ExistingAction::Keep);
    assert_eq!(on_existing(Overwrite::Newer, 0, ExistingTime::BeforeEpoch), ExistingAction::Replace);
}

#[test]
fn chunks_are_at_most_four_kib() {
    assert_eq!(next_chunk(10000, 0), 4096);
    assert_eq!(next_chunk(10000, 8192), 1808);
    assert_eq!(next_chunk(10000, 10000), 0);
}

#[test]
fn everything_passes_the_empty_filter() {
    assert!(().accept("any/thing"));
    assert!(().early_exit());
}

#[test]
fn path_set_accepts_listed_paths_only() {
    let set = PathSet(vec!["a".to_string(), "a/f.txt".to_string()]);
    assert!(set.accept("a"));
    assert!(set.accept("a/f.txt"));
    assert!(set.accept("a//f.txt"));
    assert!(!set.accept("b"));
    assert!(!set.accept("a/f"));
    assert!(set.early_exit());
}

#[test]
fn simple_file_list_accepts_ancestors_and_descendants() {
    let list = SimpleFileList(vec!["a/sub".to_string()]);
    assert!(list.accept("a"));
    assert!(list.accept("a/sub"));
    assert!(list.accept("a/sub/g"));
    assert!(!list.accept("a/su"));
    assert!(!list.accept("b"));
    assert!(!list.early_exit());
}

#[test]
fn glob_filter_matches_within_a_directory() {
    let f = match PatternFilter::new("a/*.txt") {
        Ok(f) => f,
        Err(_) => panic!("valid pattern"),
    };
    assert!(f.accept("a/f.txt"));
    assert!(!f.accept("a/sub/f.txt"));
    assert!(!f.accept("a/f.rs"));
    assert!(!f.early_exit());
    let any = match PatternFilter::new("a/**") {
        Ok(f) => f,
        Err(_) => panic!("valid pattern"),
    };
    assert!(any.accept("a/sub/f.txt"));
}

#[test]
fn invalid_glob_is_refused() {
    match PatternFilter::new("a/[") {
        Err(e) => {
            assert!(e.pos <= 3);
            assert!(!e.msg.is_empty());
        }
        Ok(_) => panic!("an unclosed bracket is invalid"),
    }
}

#[test]
fn filter_choice_follows_priority() {
    let f = choose_filter(Some(vec!["x".to_string()]), Some("*"), vec!["y".to_string()]);
    assert!(matches!(f, Ok(ExtractFilter::List(_))));
    let f = choose_filter(None, Some("*"), vec!["y".to_string()]);
    assert!(matches!(f, Ok(ExtractFilter::Pattern(_))));
    let f = choose_filter(None, None, vec!["y".to_string()]);
    assert!(matches!(f, Ok(ExtractFilter::Files(_))));
    let f = choose_filter(None, None, vec![]);
    assert!(matches!(f, Ok(ExtractFilter::All)));
    assert!(choose_filter(None, Some("[["), vec![]).is_err());
}

#[test]
fn directory_step_depends_on_filter() {
    let all = ExtractFilter::All;
    assert_eq!(on_directory(&all, "a"), DirStep::Create);
    let list = ExtractFilter::List(PathSet(vec!["b".to_string()]));
    assert_eq!(on_directory(&list, "a"), DirStep::Skip);
    let files = ExtractFilter::Files(SimpleFileList(vec!["b".to_string()]));
    assert_eq!(on_directory(&files, "a"), DirStep::Enter);
    assert_eq!(on_directory(&files, "b"), DirStep::Create);
}

#[test]
fn extraction_root_must_be_a_directory() {
    let arx = sample_arx();
    assert!(matches!(extract_root(&arx, None), Ok(r) if r == arx.root));
    assert!(matches!(extract_root(&arx, Some("a")), Ok(r) if r == EntryRange { first: 2, count: 1 }));
    match extract_root(&arx, Some("a/f.txt")) {
        Err(ExtractError::RootNotDir { path }) => assert_eq!(path, "a/f.txt"),
        _ => panic!("a file is no root"),
    }
    assert!(matches!(
        extract_root(&arx, Some("z")),
        Err(ExtractError::ArxError(ArxError::BaseError(arx::error::BaseError::Jbk(ref m)))) if m == "Cannot found entry"
    ));
}

#[test]
fn dump_gives_file_content_only() {
    let arx = sample_arx();
    assert!(matches!(dump_target(&arx, "a/f.txt"), Ok(c) if c == ContentAddress { pack_id: 1, content_id: 3 }));
    assert!(matches!(dump_target(&arx, "a"), Err(DumpError::FoundDirectory)));
    assert!(matches!(dump_target(&arx, "b"), Err(DumpError::FoundLink)));
    assert!(matches!(dump_target(&arx, "c"), Err(DumpError::Arx(_))));
}

#[test]
fn paths_of_entries_follow_the_directories_entered() {
    let mut names: Vec<String> = Vec::new();
    assert_eq!(entry_path(&names, b"top"), "top");
    assert_eq!(enter_dir(&mut names, b"a"), "a");
    assert_eq!(enter_dir(&mut names, b"b\xff"), "a/b\u{FFFD}");
    assert_eq!(entry_path(&names, b"f.txt"), "a/b\u{FFFD}/f.txt");
    leave_dir(&mut names);
    assert_eq!(entry_path(&names, b"g"), "a/g");
    leave_dir(&mut names);
    leave_dir(&mut names);
    assert!(names.is_empty());
    assert_eq!(entry_path(&names, b""), "");
}

#[test]
fn an_extraction_is_built_step_by_step() {
    let b = ExtractBuilder::new("out".to_string());
    assert_eq!(b.outdir, "out");
    assert!(b.items.is_empty());
    assert!(b.recursive);
    assert!(!b.progress);
    assert_eq!(b.overwrite, Overwrite::Warn);
    let b = b
        .filter(ExtractFilter::All)
        .items(vec!["a/b".to_string()], false)
        .overwrite(Overwrite::Newer)
        .progress(true);
    assert_eq!(b.outdir, "out");
    assert!(matches!(b.filter, ExtractFilter::All));
    assert_eq!(b.items, vec!["a/b".to_string()]);
    assert!(!b.recursive);
    assert!(b.progress);
    assert_eq!(b.overwrite, Overwrite::Newer);
}

#[test]
fn extraction_errors_say_what_went_wrong() {
    let e = ExtractError::FileExists { path: "out/a.txt".to_string() };
    assert_eq!(e.message(), "File out/a.txt already exists.");
    let e = ExtractError::RootNotDir { path: "a/f.txt".to_string() };
    assert_eq!(e.message(), "a/f.txt must be a directory");
    let e = ExtractError::ArxError(ArxError::NotADirectory);
    assert_eq!(e.message(), "Not a directory");
}
