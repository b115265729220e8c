use arx::arx::Arx;
use arx::create::{EntryKind, EntryStoreCreator};
use arx::error::EntryType;
use arx::fs::{
    attr_of, div_ceil, read_len, root_attr, ArxFs, Errno, Fetched, Ino, OpenFiles, OpenStep,
    StatCounter, Stats,
};
use arx::flat::{JbkEntry, JbkKind};
use arx::table::EntryRange;
use arx::tree::ContentAddress;

fn content(id: u32) -> ContentAddress {
    ContentAddress { pack_id: 1, content_id: id }
}

fn sample_arx() -> Arx {
    let mut c = EntryStoreCreator::new();
    assert!(c.add_entry_data("a", Some(EntryKind::Dir), 10, 20, 0o755, 5).is_ok());
    assert!(c.add_entry_data("a/f.txt", Some(EntryKind::File(12, content(0))), 10, 20, 0o644, 6).is_ok());
    assert!(c.add_entry_data("b", Some(EntryKind::Link(b"a/f.txt".to_vec())), 10, 20, 0o777, 7).is_ok());
    assert!(c.add_entry_data("a/sub/g", Some(EntryKind::File(5000, content(1))), 10, 20, 0o600, 8).is_ok());
    let store = c.finalize().unwrap();
    Arx { entries: store.entries, root: EntryRange { first: 0, count: store.root_count } }
}

fn sample_fs() -> ArxFs<Vec<u8>, StatCounter> {
    let arx = sample_arx();
    let root = arx.root;
    match ArxFs::new_with_stats(arx, root, StatCounter::new()) {
        Ok(fs) => fs,
        Err(_) => panic!("the sample can be served"),
    }
}

#[test]
fn div_ceil_rounds_up() {
    assert_eq!(div_ceil(0, 512), 0);
    assert_eq!(div_ceil(1, 512), 1);
    assert_eq!(div_ceil(512, 512), 1);
    assert_eq!(div_ceil(513, 512), 2);
    assert_eq!(div_ceil(u64::MAX, 1), u64::MAX);
    assert_eq!(div_ceil(u64::MAX, 2), 1u64 << 63);
}

#[test]
fn inode_numbers_map_to_entry_indexes() {
    let root = Ino::new(1);
    assert!(root.is_root());
    assert_eq!(root.to_idx(), None);
    let e = Ino::from_idx(0);
    assert_eq!(e.get(), 2);
    assert_eq!(e.to_idx(), Some(0));
    assert_eq!(Ino::from_idx(41).to_idx(), Some(41));
    assert_eq!(Ino::new(7).to_idx(), Some(5));
}

#[test]
fn root_attributes() {
    let a = root_attr();
    assert_eq!(a.ino, 1);
    assert_eq!(a.kind, EntryType::Dir);
    assert_eq!(a.perm, 0o555);
    assert_eq!(a.nlink, 2);
    assert_eq!(a.uid, 1000);
    assert_eq!(a.blocks, 1);
}

#[test]
fn file_attributes_round_to_allocation_unit() {
    let e = JbkEntry {
        parent: None,
        name: b"f".to_vec(),
        owner: 0x1_0000_0001,
        group: 7,
        rights: 0o777,
        mtime: 99,
        kind: JbkKind::File { content: content(0), size: 4097 },
    };
    let a = attr_of(&e, 3);
    assert_eq!(a.ino, 5);
    assert_eq!(a.size, 4097);
    assert_eq!(a.kind, EntryType::File);
    assert_eq!(a.blocks, 16);
    assert_eq!(a.perm, 0o555);
    assert_eq!(a.uid, 1);
    assert_eq!(a.gid, 7);
    assert_eq!(a.mtime, 99);
    assert_eq!(a.nlink, 1);
    assert_eq!(a.blksize, 512);
}

#[test]
fn directory_and_link_attributes() {
    let d = JbkEntry {
        parent: None,
        name: b"d".to_vec(),
        owner: 0,
        group: 0,
        rights: 0o700,
        mtime: 0,
        kind: JbkKind::Dir { first_child: 0, nb_children: 4 },
    };
    let a = attr_of(&d, 0);
    assert_eq!(a.size, 50);
    assert_eq!(a.blocks, 0);
    assert_eq!(a.perm, 0o500);
    let l = JbkEntry {
        parent: None,
        name: b"l".to_vec(),
        owner: 0,
        group: 0,
        rights: 0o777,
        mtime: 0,
        kind: JbkKind::Link { target: b"abc".to_vec() },
    };
    let a = attr_of(&l, 0);
    assert_eq!(a.size, 3);
    assert_eq!(a.kind, EntryType::Link);
    assert_eq!(a.blocks, 8);
}

#[test]
fn read_is_cut_at_the_end() {
    assert_eq!(read_len(100, 0, 10), 10);
    assert_eq!(read_len(100, 95, 10), 5);
    assert_eq!(read_len(100, 100, 10), 0);
}

#[test]
fn lookup_finds_children_by_name() {
    let mut fs = sample_fs();
    let a = fs.lookup(&Ino::new(1), b"a").unwrap();
    assert_eq!(a.ino, 2);
    assert_eq!(a.kind, EntryType::Dir);
    assert_eq!(a.size, 30);
    assert_eq!(a.perm, 0o555);
    let f = fs.lookup(&Ino::new(2), b"f.txt").unwrap();
    assert_eq!(f.ino, 4);
    assert_eq!(f.size, 12);
    assert_eq!(f.blocks, 8);
    assert!(fs.lookup(&Ino::new(2), b"nothing").is_none());
    // From the cache this time.
    let again = fs.lookup(&Ino::new(2), b"f.txt").unwrap();
    assert_eq!(again, f);
    assert!(fs.lookup(&Ino::new(2), b"nothing").is_none());
    assert_eq!(fs.stats().nb_lookup, 5);
}

#[test]
fn getattr_of_root_and_entries() {
    let mut fs = sample_fs();
    assert_eq!(fs.getattr(&Ino::new(1)), root_attr());
    let g = fs.getattr(&Ino::new(6));
    assert_eq!(g.size, 5000);
    assert_eq!(g.ino, 6);
    assert_eq!(fs.getattr(&Ino::new(6)), g);
    assert_eq!(fs.stats().nb_getattr, 3);
}

#[test]
fn readlink_gives_target_or_error() {
    let mut fs = sample_fs();
    assert_eq!(fs.readlink(&Ino::new(3)), Ok(b"a/f.txt".to_vec()));
    assert_eq!(fs.readlink(&Ino::new(2)), Err(Errno::NoLink));
    assert_eq!(fs.readlink(&Ino::new(1)), Err(Errno::NoLink));
}

#[test]
fn opening_counts_and_release_drops() {
    let mut fs = sample_fs();
    let f = Ino::new(4);
    assert_eq!(fs.open(&f), OpenStep::Fetch(content(0)));
    assert!(fs.opened(&f, Fetched::Found(b"hello world!".to_vec())).is_ok());
    assert_eq!(fs.open(&f), OpenStep::Opened);
    assert_eq!(fs.read(&f), Some(&b"hello world!".to_vec()));
    assert_eq!(fs.release(&f), Ok(()));
    assert!(fs.read(&f).is_some());
    assert_eq!(fs.release(&f), Ok(()));
    assert!(fs.read(&f).is_none());
    assert_eq!(fs.release(&f), Err(Errno::NotFound));
}

#[test]
fn opening_what_is_not_a_file_fails() {
    let mut fs = sample_fs();
    assert_eq!(fs.open(&Ino::new(1)), OpenStep::Failed(Errno::IsDir));
    assert_eq!(fs.open(&Ino::new(2)), OpenStep::Failed(Errno::IsDir));
    assert_eq!(fs.open(&Ino::new(3)), OpenStep::Failed(Errno::NotFound));
    let f = Ino::new(6);
    assert_eq!(fs.opened(&f, Fetched::Missing), Err(Errno::NoMedium));
    assert_eq!(fs.opened(&f, Fetched::Error), Err(Errno::Io));
    assert!(fs.read(&f).is_none());
}

#[test]
fn opendir_only_on_directories() {
    let mut fs = sample_fs();
    assert_eq!(fs.opendir(&Ino::new(1)), Ok(()));
    assert_eq!(fs.opendir(&Ino::new(2)), Ok(()));
    assert_eq!(fs.opendir(&Ino::new(4)), Err(Errno::NotDir));
}

#[test]
fn readdir_lists_dot_dotdot_then_children() {
    let mut fs = sample_fs();
    let slots = fs.readdir(&Ino::new(2), 0);
    let names: Vec<&[u8]> = slots.iter().map(|s| s.name.as_slice()).collect();
    assert_eq!(names, vec![&b"."[..], &b".."[..], &b"f.txt"[..], &b"sub"[..]]);
    let inos: Vec<u64> = slots.iter().map(|s| s.ino).collect();
    assert_eq!(inos, vec![2, 1, 4, 5]);
    let offsets: Vec<i64> = slots.iter().map(|s| s.offset).collect();
    assert_eq!(offsets, vec![0, 1, 2, 3]);
    assert_eq!(slots[3].kind, EntryType::Dir);
    assert_eq!(slots[2].kind, EntryType::File);
    // A listed name is then resolved.
    assert_eq!(fs.lookup(&Ino::new(2), b"sub").unwrap().ino, 5);
}

#[test]
fn readdir_resumes_after_the_offset_seen() {
    let mut fs = sample_fs();
    let slots = fs.readdir(&Ino::new(2), 2);
    assert_eq!(slots.len(), 1);
    assert_eq!(slots[0].name, b"sub".to_vec());
    assert_eq!(slots[0].offset, 3);
    assert!(fs.readdir(&Ino::new(2), 3).is_empty());
    let sub = fs.readdir(&Ino::new(5), 0);
    assert_eq!(sub[1].ino, 2);
    let root = fs.readdir(&Ino::new(1), 1);
    assert_eq!(root.len(), 2);
    assert_eq!(root[0].name, b"a".to_vec());
    assert_eq!(root[1].name, b"b".to_vec());
    assert_eq!(root[1].kind, EntryType::Link);
}

#[test]
fn unsorted_store_is_refused() {
    let mut arx = sample_arx();
    arx.entries.swap(0, 1);
    let root = arx.root;
    assert!(ArxFs::<Vec<u8>, ()>::new_from_root(arx, root).is_err());
}

#[test]
fn open_then_release_restores_open_files() {
    let mut files: OpenFiles<u8> = OpenFiles::new();
    let a = Ino::new(9);
    files.insert(&a, 1);
    assert!(files.reopen(&a));
    assert_eq!(files.open_count(&a), 2);
    assert!(files.release(&a));
    assert_eq!(files.open_count(&a), 1);
    assert!(files.release(&a));
    assert_eq!(files.open_count(&a), 0);
    assert!(!files.reopen(&a));
    assert!(!files.release(&a));
}

#[test]
fn stat_counter_counts_each_call() {
    let mut s = StatCounter::new();
    s.lookup();
    s.lookup();
    s.readdir();
    assert_eq!(s.nb_lookup, 2);
    assert_eq!(s.nb_readdir, 1);
    assert_eq!(s.nb_open, 0);
    let mut full = StatCounter::default();
    full.nb_read = u64::MAX;
    full.read();
    assert_eq!(full.nb_read, 0);
}

#[test]
fn lookups_agree_with_the_reader() {
    let arx = sample_arx();
    let idx = match arx.get_entry("a/sub/g") {
        Ok(arx::arx::Entry::File(f)) => f.common.idx,
        _ => panic!("a/sub/g is a file"),
    };
    let mut fs = sample_fs();
    let a = fs.lookup(&Ino::new(1), b"a").unwrap();
    let sub = fs.lookup(&Ino::new(a.ino), b"sub").unwrap();
    let g = fs.lookup(&Ino::new(sub.ino), b"g").unwrap();
    assert_eq!(g.ino, idx as u64 + 2);
    assert!(fs.lookup(&Ino::new(sub.ino), b"h").is_none());
    assert!(arx.get_entry("a/sub/h").is_err());
}

#[test]
fn readdir_from_an_offset_is_the_rest_of_the_listing() {
    let mut fs = sample_fs();
    let whole: Vec<Vec<u8>> = fs.readdir(&Ino::new(1), 0).into_iter().map(|s| s.name).collect();
    for offset in 1..whole.len() {
        let rest: Vec<Vec<u8>> = fs.readdir(&Ino::new(1), offset as i64).into_iter().map(|s| s.name).collect();
        assert_eq!(rest, whole[offset + 1..].to_vec());
    }
}

#[test]
fn closing_a_directory_is_counted() {
    let mut fs = sample_fs();
    assert!(fs.opendir(&Ino::new(1)).is_ok());
    fs.releasedir();
    fs.releasedir();
    assert_eq!(fs.stats().nb_opendir, 1);
    assert_eq!(fs.stats().nb_releasedir, 2);
    assert_eq!(fs.stats().nb_lookup, 0);
}

#[test]
fn the_counters_are_written_one_per_line() {
    assert_eq!(
        StatCounter::new().text(),
        "nb_lookup: 0\nnb_getattr: 0\nnb_readlink: 0\nnb_open: 0\nnb_read: 0\nnb_release: 0\nnb_opendir: 0\nnb_readdir: 0\nnb_releasedir: 0\n"
    );
    let mut fs = sample_fs();
    assert!(fs.lookup(&Ino::new(1), b"a").is_some());
    fs.releasedir();
    assert!(fs.stats().text().starts_with("nb_lookup: 1\nnb_getattr: 0\n"));
    assert!(fs.stats().text().ends_with("nb_releasedir: 1\n"));
}
