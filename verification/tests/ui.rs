use arx::arx::{Arx, Entry};
use arx::create::{EntryKind, EntryStoreCreator};
use arx::table::EntryRange;
use arx::tree::ContentAddress;
use arx::error::{ArxError, ArxFormatError, BaseError, PathNotFound};
use arx::ui::{
    breadcrumbs, file_row, format_size, row_double_click, row_menu, Action, AppModel, ArxModel, ErrorMsg,
    MenuBar, StatusBar, Task,
};

fn sample_arx() -> Arx {
    let mut c = EntryStoreCreator::new();
    let content = ContentAddress { pack_id: 1, content_id: 3 };
    assert!(c.add_entry_data("a", Some(EntryKind::Dir), 10, 20, 0o755, 5).is_ok());
    assert!(c.add_entry_data("a/f.txt", Some(EntryKind::File(1536, content)), 10, 20, 0o644, 6).is_ok());
    assert!(c.add_entry_data("a/sub/g", Some(EntryKind::File(1, content)), 10, 20, 0o644, 6).is_ok());
    assert!(c.add_entry_data("b", Some(EntryKind::Link(b"a/f.txt".to_vec())), 10, 20, 0o777, 7).is_ok());
    let store = c.finalize().unwrap();
    Arx { entries: store.entries, root: EntryRange { first: 0, count: store.root_count } }
}

fn expected(bytes: u64) -> String {
    const KB: u64 = 1024;
    const MB: u64 = KB * 1024;
    const GB: u64 = MB * 1024;
    if bytes >= GB {
        format!("{:.2} GB", bytes as f64 / GB as f64)
    } else if bytes >= MB {
        format!("{:.2} MB", bytes as f64 / MB as f64)
    } else if bytes >= KB {
        format!("{:.2} KB", bytes as f64 / KB as f64)
    } else {
        format!("{} B", bytes)
    }
}

#[test]
fn sizes_are_written_for_people() {
    assert_eq!(format_size(0), "0 B");
    assert_eq!(format_size(1023), "1023 B");
    assert_eq!(format_size(1024), "1.00 KB");
    assert_eq!(format_size(1536), "1.50 KB");
    assert_eq!(format_size(5 * 1024 * 1024), "5.00 MB");
    assert_eq!(format_size(3 * 1024 * 1024 * 1024 / 2), "1.50 GB");
}

#[test]
fn sizes_match_float_formatting() {
    let mut values: Vec<u64> = vec![
        1024, 1025, 1029, 1030, 1034, 1152, 1160, 1280, 2047, 2048, 10239, 10240,
        1048575, 1048576, 1053184, 1179648, 1073741823, 1073741824, 1084227584,
        (1u64 << 53) - 1, 1u64 << 53, (1u64 << 53) + 1, (1u64 << 53) + 3, (1u64 << 54) + 2,
        (1u64 << 54) + 6, u64::MAX, u64::MAX - 1023, u64::MAX - 2048, 123456789012345678,
    ];
    let mut x: u64 = 0x9e3779b97f4a7c15;
    for _ in 0..2000 {
        x ^= x << 13;
        x ^= x >> 7;
        x ^= x << 17;
        values.push(x >> (x % 60));
        values.push((x % 4096) * 1024 + 512);
        values.push((x % 100000) * 10);
    }
    for v in values {
        assert_eq!(format_size(v), expected(v), "size {v}");
    }
}

#[test]
fn error_message_is_kept_until_taken() {
    let mut e = ErrorMsg::default();
    assert_eq!(e.catch::<u8>(Ok(3)), Some(3));
    assert_eq!(e.take(), None);
    assert_eq!(e.catch::<u8>(Err("boom".to_string())), None);
    assert_eq!(e.take(), Some("boom".to_string()));
    assert_eq!(e.take(), None);
}

#[test]
fn entering_and_jumping_back() {
    let mut m = match ArxModel::open(sample_arx(), "/tmp/x.arx".to_string()) {
        Ok(m) => m,
        Err(_) => panic!("the sample opens"),
    };
    assert_eq!(m.entry_list.len(), 2);
    assert!(m.root().is_none());
    assert!(m.enter_in((EntryRange { first: 2, count: 2 }, "a".to_string())).is_ok());
    assert_eq!(m.entry_list.len(), 2);
    assert!(m.entry_list[0].is_file());
    assert_eq!(m.root().unwrap().1, "a");
    assert!(m.enter_in((EntryRange { first: 4, count: 1 }, "sub".to_string())).is_ok());
    assert_eq!(m.roots.len(), 2);
    assert!(m.jump_off(1).is_ok());
    assert_eq!(m.roots.len(), 1);
    assert_eq!(m.entry_list.len(), 2);
    assert!(m.jump_off(0).is_ok());
    assert!(m.root().is_none());
    assert_eq!(m.entry_list.len(), 2);
    assert!(m.entry_list[1].is_link());
}

#[test]
fn entering_a_range_out_of_the_archive_fails() {
    let mut m = match ArxModel::open(sample_arx(), "x.arx".to_string()) {
        Ok(m) => m,
        Err(_) => panic!("the sample opens"),
    };
    assert!(m.enter_in((EntryRange { first: 4, count: 9 }, "bad".to_string())).is_err());
    assert_eq!(m.roots.len(), 1);
    assert_eq!(m.entry_list.len(), 2);
}

#[test]
fn bars_show_the_state() {
    assert!(MenuBar::new(true).has_archive);
    assert!(!MenuBar::new(false).has_archive);
    let s = StatusBar::new("Loading", Some("/some/dir/archive.arx"));
    assert_eq!(s.status_message, "Loading");
    assert_eq!(s.archive_file_name, Some("archive.arx".to_string()));
    assert_eq!(StatusBar::new("", None).archive_file_name, None);
}

#[test]
fn rows_of_the_file_list() {
    let arx = sample_arx();
    let entries = arx.entries_in(EntryRange { first: 2, count: 2 }).ok().unwrap();
    let row = file_row(&entries[0]);
    assert_eq!(row.name, "f.txt");
    assert_eq!(row.size, Some("1.50 KB".to_string()));
    let dir = file_row(&entries[1]);
    assert_eq!(dir.name, "sub");
    assert_eq!(dir.size, None);
    assert!(matches!(entries[1], Entry::Dir(..)));
}

fn open_model() -> ArxModel {
    match ArxModel::open(sample_arx(), "dir/x.arx".to_string()) {
        Ok(m) => m,
        Err(_) => panic!("the sample opens"),
    }
}

#[test]
fn error_messages_are_those_shown_to_people() {
    assert_eq!(ArxError::NotADirectory.message(), "Not a directory");
    assert_eq!(ArxError::IsADirectory.message(), "Is a directory");
    assert_eq!(ArxError::IsALink.message(), "Is a link");
    assert_eq!(ArxError::IoError("disk".to_string()).message(), "disk");
    assert_eq!(ArxError::PathNotFound(PathNotFound("a/b".to_string())).message(), "Path a/b not found in archive");
    assert_eq!(
        ArxError::BaseError(BaseError::ArxFormatError(ArxFormatError("bad"))).message(),
        "Jbk archive is not a valid Arx archive : bad"
    );
    assert_eq!(ArxError::BaseError(BaseError::Jbk("jbk".to_string())).message(), "jbk");
}

#[test]
fn rows_ask_what_their_entry_allows() {
    let m = open_model();
    let dir = &m.entry_list[0];
    let link = &m.entry_list[1];
    match row_double_click(dir) {
        Some(Action::Enter((range, name))) => {
            assert_eq!(name, "a");
            assert!(matches!(dir, Entry::Dir(r, _) if *r == range));
        }
        _ => panic!("a directory is entered"),
    }
    assert!(row_double_click(link).is_none());
    let menu = row_menu(dir);
    assert_eq!(menu.len(), 2);
    assert_eq!(menu[0].0, "Enter");
    assert!(matches!(&menu[1], ("Extract", Action::ExtractDir((_, n))) if n == "a"));
    assert!(row_menu(link).is_empty());
    let root = match dir { Entry::Dir(r, _) => *r, _ => panic!() };
    let mut m = m;
    assert!(m.enter_in((root, "a".to_string())).is_ok());
    let file = &m.entry_list[0];
    match row_double_click(file) {
        Some(Action::Open(f)) => assert_eq!(f.common.path, b"f.txt".to_vec()),
        _ => panic!("a file is opened"),
    }
    let menu = row_menu(file);
    assert_eq!(menu[0].0, "Open");
    assert!(matches!(&menu[1], ("Extract", Action::ExtractOne(f)) if f.size == 1536));
}

#[test]
fn the_path_bar_goes_back_to_each_directory_entered() {
    let mut m = open_model();
    let root = match &m.entry_list[0] { Entry::Dir(r, _) => *r, _ => panic!() };
    assert_eq!(breadcrumbs(&m), vec![("📂".to_string(), 0)]);
    assert!(m.enter_in((root, "a".to_string())).is_ok());
    assert_eq!(breadcrumbs(&m), vec![("📂".to_string(), 0), ("a".to_string(), 1)]);
}

#[test]
fn the_viewer_follows_its_actions() {
    let (mut app, task) = AppModel::new(None);
    assert!(matches!(task, Task::Idle));
    assert!(!app.has_archive());
    assert!(matches!(app.update(Action::ExtractAll), Task::Idle));
    assert_eq!(app.status_message, "");

    let (mut app2, task) = AppModel::new(Some("dir/x.arx".to_string()));
    assert!(matches!(task, Task::Load(ref p) if p == "dir/x.arx"));
    assert_eq!(app2.status_message, "Loading dir/x.arx...");
    app2.archive_loaded(Err(ArxError::IoError("No such file".to_string())));
    assert!(!app2.has_archive());
    assert_eq!(app2.error_msg.take(), Some("No such file".to_string()));

    assert!(matches!(app.update(Action::LoadArchive("dir/x.arx".to_string())), Task::Load(_)));
    app.archive_loaded(Ok(open_model()));
    assert!(app.has_archive());
    assert!(matches!(app.update(Action::ExtractAll), Task::ExtractAll));
    assert_eq!(app.status_message, "Extracting dir/x.arx...");

    let root = match &app.archive.as_ref().unwrap().entry_list[0] { Entry::Dir(r, _) => *r, _ => panic!() };
    assert!(matches!(app.update(Action::Enter((root, "a".to_string()))), Task::Idle));
    assert_eq!(app.archive.as_ref().unwrap().entry_list.len(), 2);
    assert!(app.error_msg.take().is_none());

    let bad = EntryRange { first: 100, count: 1 };
    assert!(matches!(app.update(Action::Enter((bad, "z".to_string()))), Task::Idle));
    assert_eq!(app.archive.as_ref().unwrap().entry_list.len(), 2);
    assert_eq!(
        app.error_msg.take(),
        Some("Jbk archive is not a valid Arx archive : Entry range out of the entry store".to_string())
    );

    assert!(matches!(app.update(Action::JumpTo(0)), Task::Idle));
    assert_eq!(app.archive.as_ref().unwrap().roots.len(), 0);
    assert_eq!(app.archive.as_ref().unwrap().entry_list.len(), 2);

    assert!(matches!(app.update(Action::ExtractDir((root, "a".to_string()))), Task::ExtractDir(r, ref n) if r == root && n == "a"));
}
