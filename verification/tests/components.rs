use memfs::types::{ttl, ROOT_INO};
use memfs::{Attributes, ContentStore, FileKind, FsError, InodeTable, Removed, SetAttr, Timestamp};

fn at(sec: i64) -> Timestamp {
    Timestamp::new(sec, 0)
}

#[test]
fn content_store_is_empty_where_nothing_was_set() {
    let mut store = ContentStore::new();
    assert!(!store.contains(3));
    assert_eq!(store.get_content(3), Vec::<u8>::new());
    store.set_content(3, b"abc");
    assert!(store.contains(3));
    assert_eq!(store.get_content(3), b"abc".to_vec());
    assert_eq!(store.get_content(4), Vec::<u8>::new());
    store.set_content(3, b"");
    assert!(store.contains(3));
    assert_eq!(store.get_content(3), Vec::<u8>::new());
    store.set_content(3, b"replaced");
    assert_eq!(store.get_content(3), b"replaced".to_vec());
    store.remove(3);
    assert!(!store.contains(3));
    assert_eq!(store.get_content(3), Vec::<u8>::new());
    store.remove(3);
    assert!(!store.contains(3));
}

#[test]
fn fresh_attributes_follow_the_kind() {
    let now = Timestamp::new(5, 6);
    let dir = Attributes::new(9, 0, FileKind::Directory, 1, 2, now);
    let file = Attributes::new(10, 77, FileKind::RegularFile, 3, 4, now);
    let sym = Attributes::new(11, 0, FileKind::Symlink, 5, 6, now);
    assert_eq!((dir.perm, file.perm, sym.perm), (0o755, 0o644, 0o644));
    assert_eq!((dir.nlink, file.nlink, sym.nlink), (0, 0, 0));
    assert_eq!((dir.ino, file.ino, sym.ino), (9, 10, 11));
    assert_eq!(file.size, 77);
    assert_eq!((file.uid, file.gid), (3, 4));
    assert_eq!((file.blocks, file.rdev, file.flags), (0, 0, 0));
    for t in [file.atime, file.mtime, file.ctime, file.crtime] {
        assert_eq!(t, now);
    }
}

#[test]
fn change_request_replaces_only_the_fields_it_names() {
    let base = Attributes::new(2, 10, FileKind::RegularFile, 1, 1, at(1));
    assert_eq!(base.with_changes(&SetAttr::none()), base);
    let only_uid = SetAttr { uid: Some(42), ..SetAttr::none() };
    let changed = base.with_changes(&only_uid);
    assert_eq!(changed.uid, 42);
    assert_eq!(Attributes { uid: 1, ..changed }, base);
    let ignored = SetAttr {
        mode: Some(0),
        atime: Some(at(9)),
        fh: Some(1),
        crtime: Some(at(9)),
        chgtime: Some(at(9)),
        bkuptime: Some(at(9)),
        ..SetAttr::none()
    };
    assert_eq!(base.with_changes(&ignored), base);
}

#[test]
fn ttl_is_one_second() {
    assert_eq!(ttl(), Timestamp { sec: 1, nsec: 0 });
}

#[test]
fn table_allocates_without_entries_and_counts_links() {
    let mut table = InodeTable::new(0, 0, at(1));
    assert!(table.contains(ROOT_INO));
    assert!(!table.contains(0));
    assert_eq!(table.next_ino(), 2);
    let ino = table.allocate(FileKind::RegularFile, 5, 6, 123, at(2));
    assert_eq!(ino, 2);
    assert_eq!(table.next_ino(), 3);
    let attr = table.get_attributes(ino).unwrap();
    assert_eq!(attr.nlink, 0);
    assert_eq!(attr.size, 123);
    assert_eq!(table.generation(ino), Some(0));
    assert_eq!(table.resolve(ROOT_INO, "x"), None);

    table.attach(ino, ROOT_INO, "x");
    assert_eq!(table.get_attributes(ino).unwrap().nlink, 1);
    assert_eq!(table.generation(ino), Some(1));
    assert_eq!(table.resolve(ROOT_INO, "x"), Some(ino));

    assert_eq!(table.add_link(ino, ROOT_INO, "y"), Ok(()));
    assert_eq!(table.add_link(ino, ROOT_INO, "y"), Err(FsError::AlreadyExists));
    assert_eq!(table.add_link(ino, ROOT_INO, "x"), Err(FsError::AlreadyExists));
    assert_eq!(table.add_link(99, ROOT_INO, "z"), Err(FsError::NotFound));
    assert_eq!(table.get_attributes(ino).unwrap().nlink, 2);
    assert_eq!(table.generation(ino), Some(2));
}

#[test]
fn table_removes_links_and_drops_orphans() {
    let mut table = InodeTable::new(0, 0, at(1));
    let ino = table.allocate(FileKind::RegularFile, 5, 6, 0, at(2));
    table.attach(ino, ROOT_INO, "x");
    table.attach(ino, 7, "x");
    assert!(table.removal_ready(ROOT_INO, "x"));
    assert_eq!(table.remove_link(ROOT_INO, "x"), Ok(Removed { ino, destroyed: false }));
    assert_eq!(table.get_attributes(ino).unwrap().nlink, 1);
    assert_eq!(table.generation(ino), Some(3));
    assert_eq!(table.resolve(ROOT_INO, "x"), None);
    assert_eq!(table.resolve(7, "x"), Some(ino));
    assert_eq!(table.remove_link(ROOT_INO, "x"), Err(FsError::AccessDenied));
    assert_eq!(table.remove_link(7, "x"), Ok(Removed { ino, destroyed: true }));
    assert!(!table.contains(ino));
    assert_eq!(table.get_attributes(ino), Err(FsError::NotFound));
    assert_eq!(table.generation(ino), None);
    assert_eq!(table.remove_link(0, "/"), Err(FsError::AccessDenied));
    assert!(table.contains(ROOT_INO));
    assert_eq!(table.next_ino(), 3);
    assert_eq!(table.allocate(FileKind::Directory, 0, 0, 0, at(3)), 3);
}

#[test]
fn table_updates_attributes_and_records_writes() {
    let mut table = InodeTable::new(0, 0, at(1));
    let ino = table.allocate(FileKind::RegularFile, 5, 6, 0, at(2));
    let grow = SetAttr { size: Some(10), flags: Some(1), ..SetAttr::none() };
    let attr = table.update_attributes(ino, &grow).unwrap();
    assert_eq!((attr.size, attr.flags), (10, 1));
    assert_eq!(table.generation(ino), Some(1));
    assert_eq!(table.update_attributes(88, &grow), Err(FsError::AccessDenied));
    assert!(table.record_write(ino, 3));
    assert_eq!(table.get_attributes(ino).unwrap().size, 3);
    assert_eq!(table.generation(ino), Some(2));
    assert!(!table.record_write(88, 3));
    assert!(!table.contains(88));
}

#[test]
fn table_lists_children_of_any_number() {
    let mut table = InodeTable::new(0, 0, at(1));
    let a = table.allocate(FileKind::RegularFile, 0, 0, 0, at(2));
    table.attach(a, 40, "one");
    table.attach(a, 40, "two");
    table.attach(a, 41, "elsewhere");
    let entries = table.list_dir(40);
    let listed: Vec<(u64, u64, &str)> =
        entries.iter().map(|e| (e.ino, e.offset, e.name.as_str())).collect();
    assert_eq!(listed, vec![(40, 0, "."), (2, 1, ".."), (a, 2, "one"), (a, 3, "two")]);
    assert!(entries.iter().skip(2).all(|e| e.kind == FileKind::RegularFile));
    assert_eq!(table.list_dir(41).len(), 3);
    assert_eq!(table.list_dir(42).len(), 2);
}
