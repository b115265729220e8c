use arx::arx::{Arx, Entry};
use arx::create::{decode_parent, EntryKind, EntryStoreCreator, EntryTrait};
use arx::error::{CreatorError, InputErrorKind};
use arx::flat::JbkKind;
use arx::table::EntryRange;
use arx::tree::{Conflict, ContentAddress};

fn content(id: u32) -> ContentAddress {
    ContentAddress { pack_id: 1, content_id: id }
}

fn sample_creator() -> EntryStoreCreator {
    let mut c = EntryStoreCreator::new();
    assert!(c.add_entry_data("a", Some(EntryKind::Dir), 10, 20, 0o755, 5).is_ok());
    assert!(c.add_entry_data("a/f.txt", Some(EntryKind::File(12, content(0))), 10, 20, 0o644, 6).is_ok());
    assert!(c.add_entry_data("b", Some(EntryKind::Link(b"a/f.txt".to_vec())), 10, 20, 0o777, 7).is_ok());
    assert!(c.add_entry_data("a/sub/g", Some(EntryKind::File(5000, content(1))), 10, 20, 0o600, 8).is_ok());
    c
}

fn names(entries: &[arx::flat::JbkEntry]) -> Vec<String> {
    entries.iter().map(|e| String::from_utf8(e.name.clone()).unwrap()).collect()
}

#[test]
fn layout_is_breadth_of_each_directory_in_order() {
    let store = sample_creator().finalize().unwrap();
    assert_eq!(store.entry_count, 5);
    assert_eq!(store.root_count, 2);
    assert_eq!(names(&store.entries), vec!["a", "b", "f.txt", "sub", "g"]);
    match &store.entries[0].kind {
        JbkKind::Dir { first_child, nb_children } => {
            assert_eq!(*first_child, 2);
            assert_eq!(*nb_children, 2);
        }
        _ => panic!("a is a directory"),
    }
    match &store.entries[3].kind {
        JbkKind::Dir { first_child, nb_children } => {
            assert_eq!(*first_child, 4);
            assert_eq!(*nb_children, 1);
        }
        _ => panic!("sub is a directory"),
    }
    assert_eq!(store.entries[0].parent, None);
    assert_eq!(store.entries[2].parent, Some(0));
    assert_eq!(store.entries[4].parent, Some(3));
}

#[test]
fn missing_parents_are_created_with_default_attributes() {
    let store = sample_creator().finalize().unwrap();
    let sub = &store.entries[3];
    assert_eq!(sub.owner, 1000);
    assert_eq!(sub.group, 1000);
    assert_eq!(sub.rights, 0o755);
    assert_eq!(sub.mtime, 0);
}

#[test]
fn empty_directory_has_no_first_child() {
    let mut c = EntryStoreCreator::new();
    assert!(c.add_entry_data("empty", Some(EntryKind::Dir), 0, 0, 0, 0).is_ok());
    let store = c.finalize().unwrap();
    match &store.entries[0].kind {
        JbkKind::Dir { first_child, nb_children } => {
            assert_eq!(*first_child, 0);
            assert_eq!(*nb_children, 0);
        }
        _ => panic!("empty is a directory"),
    }
}

#[test]
fn empty_creator_gives_empty_store() {
    let store = EntryStoreCreator::new().finalize().unwrap();
    assert_eq!(store.entry_count, 0);
    assert_eq!(store.root_count, 0);
    assert!(store.entries.is_empty());
}

#[test]
fn adding_under_a_file_is_refused() {
    let mut c = sample_creator();
    let r = c.add_entry_data("a/f.txt/x", Some(EntryKind::File(1, content(2))), 0, 0, 0, 0);
    match r {
        Err(CreatorError::IncoherentStructure(e)) => {
            assert_eq!(e.conflict, Conflict::ParentIsFile);
            assert_eq!(e.path, "a/f.txt/x");
        }
        _ => panic!("expected an incoherent structure"),
    }
}

#[test]
fn adding_a_file_twice_is_refused() {
    let mut c = sample_creator();
    let r = c.add_entry_data("a/f.txt", Some(EntryKind::File(1, content(2))), 0, 0, 0, 0);
    assert!(matches!(r, Err(CreatorError::IncoherentStructure(ref e)) if e.conflict == Conflict::FileExists));
}

#[test]
fn adding_a_directory_over_a_link_is_refused() {
    let mut c = sample_creator();
    let r = c.add_entry_data("b", Some(EntryKind::Dir), 0, 0, 0, 0);
    assert!(matches!(r, Err(CreatorError::IncoherentStructure(ref e)) if e.conflict == Conflict::DirOverLink));
}

#[test]
fn adding_a_directory_twice_is_accepted() {
    let mut c = sample_creator();
    assert!(c.add_entry_data("a", Some(EntryKind::Dir), 1, 1, 1, 1).is_ok());
    let store = c.finalize().unwrap();
    assert_eq!(store.entry_count, 5);
}

#[test]
fn entry_without_file_name_is_refused() {
    let mut c = EntryStoreCreator::new();
    let r = c.add_entry_data("", Some(EntryKind::File(1, content(0))), 0, 0, 0, 0);
    assert!(matches!(r, Err(CreatorError::InputError(ref e)) if e.kind == InputErrorKind::NoFileName));
}

#[test]
fn parent_value_roundtrip() {
    assert_eq!(decode_parent(0), None);
    assert_eq!(decode_parent(1), Some(0));
    assert_eq!(decode_parent(43), Some(42));
}

#[test]
fn added_file_is_read_back() {
    let store = sample_creator().finalize().unwrap();
    let arx = Arx { entries: store.entries, root: EntryRange { first: 0, count: store.root_count } };
    match arx.get_entry("a/sub/g") {
        Ok(Entry::File(f)) => {
            assert_eq!(f.size(), 5000);
            assert_eq!(f.content(), content(1));
            assert_eq!(f.common.mtime, 8);
            assert_eq!(f.common.path, b"g".to_vec());
        }
        _ => panic!("a/sub/g is a file"),
    }
    match arx.get_entry("b") {
        Ok(Entry::Link(l)) => assert_eq!(l.target(), &b"a/f.txt".to_vec()),
        _ => panic!("b is a link"),
    }
    match arx.get_entry("a") {
        Ok(Entry::Dir(range, _)) => assert_eq!(range, EntryRange { first: 2, count: 2 }),
        _ => panic!("a is a directory"),
    }
}

#[test]
fn missing_path_is_not_found() {
    let store = sample_creator().finalize().unwrap();
    let arx = Arx { entries: store.entries, root: EntryRange { first: 0, count: store.root_count } };
    let not_found = |r: Result<arx::arx::Entry, arx::error::QueryError>| {
        matches!(r, Err(arx::error::QueryError::BaseError(arx::error::BaseError::Jbk(m))) if m == "Cannot found entry")
    };
    assert!(not_found(arx.get_entry("a/nothing")));
    assert!(not_found(arx.get_entry("b/x")));
    assert!(not_found(arx.get_entry("")));
}

#[test]
fn entries_of_a_range_are_read_in_order() {
    let store = sample_creator().finalize().unwrap();
    let arx = Arx { entries: store.entries, root: EntryRange { first: 0, count: store.root_count } };
    let entries = arx.entries_in(EntryRange { first: 2, count: 2 }).ok().unwrap();
    assert_eq!(entries.len(), 2);
    assert!(entries[0].is_file());
    assert!(entries[1].is_dir());
    assert!(arx.entries_in(EntryRange { first: 4, count: 2 }).is_err());
}

#[test]
fn refusals_say_what_clashed() {
    let mut c = EntryStoreCreator::new();
    assert!(c.add_entry_data("foo.txt", Some(EntryKind::File(10, content(0))), 0, 0, 0, 0).is_ok());
    match c.add_entry_data("foo.txt", Some(EntryKind::File(10, content(0))), 0, 0, 0, 0) {
        Err(e) => assert_eq!(
            e.message(),
            "Incoherent structure : Adding foo.txt, cannot add a file when one already exists"
        ),
        Ok(()) => panic!("a file is added once"),
    }
    assert!(c.add_entry_data("L", Some(EntryKind::Link(b"D".to_vec())), 0, 0, 0, 0).is_ok());
    match c.add_entry_data("L/F", Some(EntryKind::File(1, content(1))), 0, 0, 0, 0) {
        Err(e) => assert_eq!(
            e.message(),
            "Incoherent structure : Adding L/F, cannot add a entry to something which is not a directory (link)"
        ),
        Ok(()) => panic!("nothing goes under a link"),
    }
    match c.add_entry_data("L", Some(EntryKind::Dir), 0, 0, 0, 0) {
        Err(e) => assert_eq!(e.message(), "Incoherent structure : Adding L, cannot add a dir when link already exists"),
        Ok(()) => panic!("no directory over a link"),
    }
    let e = arx::error::InputError { path: "/abs".to_string(), kind: InputErrorKind::NonRelative };
    assert_eq!(e.message(), "Invalid input : /abs is not a relative path");
}

#[test]
fn an_entry_is_added_with_what_it_reports() {
    let mut c = EntryStoreCreator::new();
    let entry = arx::fs_adder::FsEntry {
        kind: arx::fs_adder::FsEntryKind::File(3, content(4)),
        arx_path: "d/x".to_string(),
        uid: 11,
        gid: 22,
        mode: 0o640,
        mtime: 33,
    };
    assert_eq!(entry.path(), "d/x");
    assert!(c.add_entry(&entry).is_ok());
    let store = c.finalize().unwrap();
    let arx = Arx { entries: store.entries, root: EntryRange { first: 0, count: store.root_count } };
    match arx.get_entry("d/x") {
        Ok(Entry::File(f)) => {
            assert_eq!(f.common.owner, 11);
            assert_eq!(f.common.group, 22);
            assert_eq!(f.common.mtime, 33);
            assert_eq!(f.size, 3);
        }
        _ => panic!("d/x is the file added"),
    }
}

#[test]
fn each_entry_is_stored_once() {
    let store = sample_creator().finalize().unwrap();
    let root = EntryRange { first: 0, count: store.root_count };
    let paths: Vec<Vec<Vec<u8>>> = vec![
        vec![b"a".to_vec()],
        vec![b"b".to_vec()],
        vec![b"a".to_vec(), b"f.txt".to_vec()],
        vec![b"a".to_vec(), b"sub".to_vec()],
        vec![b"a".to_vec(), b"sub".to_vec(), b"g".to_vec()],
    ];
    let mut seen: Vec<u32> = Vec::new();
    for p in &paths {
        let i = arx::table::lookup_path(&store.entries, root, p).ok().unwrap();
        assert!(!seen.contains(&i));
        seen.push(i);
    }
    seen.sort();
    assert_eq!(seen, vec![0, 1, 2, 3, 4]);
    assert_eq!(store.entries.len(), paths.len());
}

#[test]
fn adding_a_nested_directory_twice_changes_nothing() {
    let before = sample_creator().finalize().unwrap();
    let mut c = sample_creator();
    assert!(c.add_entry_data("a/sub", Some(EntryKind::Dir), 1, 1, 1, 1).is_ok());
    let after = c.finalize().unwrap();
    assert_eq!(after.entry_count, before.entry_count);
    assert_eq!(names(&after.entries), names(&before.entries));
    let sub = &after.entries[3];
    assert_eq!(sub.owner, 1000);
    assert_eq!(sub.rights, 0o755);
    assert_eq!(sub.mtime, 0);
}
