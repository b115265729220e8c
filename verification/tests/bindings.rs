use arx::arx::{Arx, Entry};
use arx::bindings::{children, first_child, get_content_address, get_target, nb_children, Creator, EntryIter};
use arx::create::{EntryKind, EntryStoreCreator};
use arx::error::QueryError;
use arx::table::EntryRange;
use arx::tree::ContentAddress;

fn sample_arx() -> Arx {
    let mut c = EntryStoreCreator::new();
    let content = ContentAddress { pack_id: 1, content_id: 3 };
    assert!(c.add_entry_data("a", Some(EntryKind::Dir), 10, 20, 0o755, 5).is_ok());
    assert!(c.add_entry_data("a/f.txt", Some(EntryKind::File(12, content)), 10, 20, 0o644, 6).is_ok());
    assert!(c.add_entry_data("a/sub/g", Some(EntryKind::File(7, content)), 10, 20, 0o644, 9).is_ok());
    assert!(c.add_entry_data("b", Some(EntryKind::Link(b"a/f.txt".to_vec())), 10, 20, 0o777, 7).is_ok());
    let store = c.finalize().unwrap();
    Arx { entries: store.entries, root: EntryRange { first: 0, count: store.root_count } }
}

fn name(e: &Entry) -> Vec<u8> {
    match e {
        Entry::File(f) => f.common.path.clone(),
        Entry::Link(l) => l.common.path.clone(),
        Entry::Dir(_, d) => d.common.path.clone(),
    }
}

#[test]
fn iterating_gives_the_entries_of_a_range_in_order() {
    let arx = sample_arx();
    let mut it = EntryIter::new_from_index(&arx);
    let a = match it.next(&arx) {
        Some(Ok(e)) => e,
        _ => panic!("a first"),
    };
    assert_eq!(name(&a), b"a".to_vec());
    match it.next(&arx) {
        Some(Ok(e)) => assert_eq!(name(&e), b"b".to_vec()),
        _ => panic!("b next"),
    }
    assert!(it.next(&arx).is_none());
    assert!(it.next(&arx).is_none());

    let mut sub = children(&a).ok().unwrap();
    let names: Vec<Vec<u8>> = std::iter::from_fn(|| match sub.next(&arx) {
        Some(Ok(e)) => Some(name(&e)),
        _ => None,
    })
    .collect();
    assert_eq!(names, vec![b"f.txt".to_vec(), b"sub".to_vec()]);
}

#[test]
fn an_entry_out_of_the_store_is_an_error_and_is_tried_again() {
    let arx = sample_arx();
    let n = arx.entries.len() as u32;
    let mut it = EntryIter::new_from_range(EntryRange { first: n, count: 1 });
    assert!(matches!(it.next(&arx), Some(Err(QueryError::BaseError(_)))));
    assert_eq!(it.start, n);
    assert!(matches!(it.next(&arx), Some(Err(_))));
}

#[test]
fn each_kind_of_entry_gives_what_it_holds() {
    let arx = sample_arx();
    let a = arx.get_entry("a").ok().unwrap();
    let b = arx.get_entry("b").ok().unwrap();
    let f = arx.get_entry("a/f.txt").ok().unwrap();
    assert!(matches!(first_child(&a), Ok(_)));
    assert_eq!(nb_children(&a), Ok(2));
    assert_eq!(nb_children(&b), Err("Not a dir"));
    assert_eq!(first_child(&f), Err("Not a dir"));
    assert_eq!(get_target(&b), Ok(b"a/f.txt".to_vec()));
    assert_eq!(get_target(&a), Err("Not a link"));
    assert_eq!(get_content_address(&f).ok().map(|c| c.content_id), Some(3));
    assert!(matches!(get_content_address(&b), Err("Not a file")));
    assert!(matches!(children(&f), Err("Not a dir")));
}

#[test]
fn a_creator_is_used_once_as_a_context() {
    let mut c = Creator::new();
    assert_eq!(c.add(), Err("add method must be used inside a context manager"));
    assert_eq!(c.exit(), Err("Creator not started."));
    assert_eq!(c.enter(), Ok(()));
    assert_eq!(c.enter(), Err("Creator already started"));
    assert_eq!(c.add(), Ok(()));
    assert_eq!(c.exit(), Ok(()));
    assert_eq!(c.add(), Err("Creator already finalized"));
    assert_eq!(c.enter(), Err("Creator already finalized"));
    assert_eq!(c.exit(), Err("Creator not started."));
}
