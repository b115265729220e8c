use arx::arx::Arx;
use arx::create::{EntryKind, EntryStoreCreator};
use arx::listing::{list, LightPath, ListError, ListOutput};
use arx::table::EntryRange;
use arx::tree::ContentAddress;

fn sample_arx() -> Arx {
    let mut c = EntryStoreCreator::new();
    let content = ContentAddress { pack_id: 1, content_id: 3 };
    assert!(c.add_entry_data("a", Some(EntryKind::Dir), 10, 20, 0o755, 5).is_ok());
    assert!(c.add_entry_data("a/f.txt", Some(EntryKind::File(12, content)), 10, 20, 0o644, 6).is_ok());
    assert!(c.add_entry_data("a/sub/g", Some(EntryKind::File(7, content)), 10, 20, 0o644, 9).is_ok());
    assert!(c.add_entry_data("b", Some(EntryKind::Link(b"a/f.txt".to_vec())), 10, 20, 0o777, 7).is_ok());
    let store = c.finalize().unwrap();
    Arx { entries: store.entries, root: EntryRange { first: 0, count: store.root_count } }
}

#[test]
fn light_path_lines() {
    let mut p = LightPath::new();
    let mut out = Vec::new();
    p.println2(b"top", &mut out);
    p.push(b"a".to_vec());
    p.push(b"b".to_vec());
    p.println(&mut out);
    p.println2(b"c", &mut out);
    p.pop();
    p.println2(b"d", &mut out);
    p.pop();
    p.pop();
    p.println2(b"", &mut out);
    assert_eq!(String::from_utf8(out).unwrap(), "top\na/b\na/b/c\na/d\n\n");
}

#[test]
fn plain_listing() {
    match list(&sample_arx(), None) {
        Ok(ListOutput::Plain(out)) => {
            assert_eq!(String::from_utf8(out).unwrap(), "a\na/f.txt\na/sub\na/sub/g\nb\n")
        }
        _ => panic!("plain listing"),
    }
}

#[test]
fn stable_listing() {
    match list(&sample_arx(), Some(1)) {
        Ok(ListOutput::Stable(out)) => assert_eq!(
            out,
            "d 5 a\nf 6 12 a/f.txt\nd 0 a/sub\nf 9 7 a/sub/g\nl 7 b->a/f.txt\n"
        ),
        _ => panic!("stable listing"),
    }
}

#[test]
fn unknown_stable_version() {
    assert!(matches!(list(&sample_arx(), Some(2)), Err(ListError::UnsupportedStable(2))));
}

fn dir_entry(name: &[u8], first_child: u32, nb_children: u32) -> arx::flat::JbkEntry {
    arx::flat::JbkEntry {
        parent: None,
        name: name.to_vec(),
        owner: 0,
        group: 0,
        rights: 0o755,
        mtime: 0,
        kind: arx::flat::JbkKind::Dir { first_child, nb_children },
    }
}

#[test]
fn listing_a_root_out_of_the_store_is_a_format_error() {
    let arx = Arx { entries: vec![dir_entry(b"a", 0, 0)], root: EntryRange { first: 0, count: 2 } };
    assert!(matches!(list(&arx, None), Err(ListError::Arx(_))));
    assert!(matches!(list(&arx, Some(1)), Err(ListError::Arx(_))));
}

#[test]
fn listing_a_looping_directory_is_a_format_error() {
    let arx = Arx { entries: vec![dir_entry(b"a", 0, 1)], root: EntryRange { first: 0, count: 1 } };
    assert!(matches!(list(&arx, None), Err(ListError::Arx(_))));
    assert!(matches!(list(&arx, Some(1)), Err(ListError::Arx(_))));
}

#[test]
fn listing_an_empty_archive_prints_nothing() {
    let arx = Arx { entries: vec![], root: EntryRange { first: 0, count: 0 } };
    match list(&arx, None) {
        Ok(ListOutput::Plain(out)) => assert!(out.is_empty()),
        _ => panic!("plain listing"),
    }
    match list(&arx, Some(1)) {
        Ok(ListOutput::Stable(out)) => assert!(out.is_empty()),
        _ => panic!("stable listing"),
    }
}

#[test]
fn an_unsupported_stable_version_is_refused_before_reading() {
    let arx = Arx { entries: vec![], root: EntryRange { first: 0, count: 5 } };
    assert!(matches!(list(&arx, Some(0)), Err(ListError::UnsupportedStable(0))));
}

#[test]
fn stable_listing_replaces_invalid_utf8_and_plain_listing_keeps_bytes() {
    let content = ContentAddress { pack_id: 0, content_id: 0 };
    let file = arx::flat::JbkEntry {
        parent: None,
        name: b"x\xffy".to_vec(),
        owner: 0,
        group: 0,
        rights: 0o644,
        mtime: 2,
        kind: arx::flat::JbkKind::File { content, size: 3 },
    };
    let link = arx::flat::JbkEntry {
        parent: None,
        name: b"z".to_vec(),
        owner: 0,
        group: 0,
        rights: 0o777,
        mtime: 4,
        kind: arx::flat::JbkKind::Link { target: b"t\xfe".to_vec() },
    };
    let arx = Arx { entries: vec![file, link], root: EntryRange { first: 0, count: 2 } };
    match list(&arx, Some(1)) {
        Ok(ListOutput::Stable(out)) => assert_eq!(out, "f 2 3 x\u{FFFD}y\nl 4 z->t\u{FFFD}\n"),
        _ => panic!("stable listing"),
    }
    match list(&arx, None) {
        Ok(ListOutput::Plain(out)) => assert_eq!(out, b"x\xffy\nz\n".to_vec()),
        _ => panic!("plain listing"),
    }
}

#[test]
fn entries_are_found_from_a_directory_range() {
    let arx = sample_arx();
    let range = match arx.get_entry("a") {
        Ok(arx::arx::Entry::Dir(range, _)) => range,
        _ => panic!("a is a directory"),
    };
    match arx.get_entry_in_range("sub/g", range) {
        Ok(arx::arx::Entry::File(f)) => assert_eq!(f.size, 7),
        _ => panic!("sub/g is a file"),
    }
    assert!(matches!(arx.get_entry_in_range("b", range), Err(arx::error::QueryError::BaseError(arx::error::BaseError::Jbk(_)))));
    assert!(matches!(arx.get_entry_in_range("", range), Err(arx::error::QueryError::BaseError(arx::error::BaseError::Jbk(_)))));
    assert!(matches!(arx.get_entry_in_range("b", arx.root), Ok(arx::arx::Entry::Link(_))));
}

struct CountingOperator;

impl arx::arx::Operator<u32> for CountingOperator {
    type Error = ();
    fn on_start(&self, _c: &mut u32) -> Result<(), ()> {
        Ok(())
    }
    fn on_stop(&self, _c: &mut u32) -> Result<(), ()> {
        Ok(())
    }
    fn on_directory_enter(&self, c: &mut u32, _e: &arx::arx::Dir) -> Result<bool, ()> {
        *c += 1;
        Ok(true)
    }
    fn on_directory_exit(&self, _c: &mut u32, _e: &arx::arx::Dir) -> Result<(), ()> {
        Ok(())
    }
    fn on_file(&self, c: &mut u32, _e: &arx::arx::FileEntry) -> Result<(), ()> {
        *c += 1;
        Ok(())
    }
    fn on_link(&self, c: &mut u32, _e: &arx::arx::Link) -> Result<(), ()> {
        *c += 1;
        Ok(())
    }
}

#[test]
fn a_walk_meets_every_entry_and_fails_out_of_the_store() {
    let arx = sample_arx();
    let mut w = arx::arx::Walker::new(&arx, 0u32);
    assert!(w.run(&CountingOperator).is_ok());
    assert_eq!(w.context, 5);
    let bad = EntryRange { first: 0, count: 100 };
    let mut w = arx::arx::Walker::new(&arx, 0u32);
    assert!(matches!(w.run_from_range(&CountingOperator, bad), Err(arx::arx::WalkError::Base(_))));
    assert_eq!(w.context, 0);
}
