use memfs::types::ROOT_INO;
use memfs::{FileKind, FsError, MemFs, SetAttr, Timestamp};

const UID: u32 = 1000;
const GID: u32 = 100;

fn at(sec: i64) -> Timestamp {
    Timestamp::new(sec, 0)
}

fn fresh() -> MemFs {
    MemFs::new_at(UID, GID, at(10))
}

fn child_names(fs: &MemFs, dir: u64) -> Vec<String> {
    let mut out: Vec<String> = fs.readdir(dir, 0).into_iter().skip(2).map(|e| e.name).collect();
    out.sort();
    out
}

#[test]
fn write_then_read_returns_exactly_what_was_written() {
    let mut fs = fresh();
    let ino = fs.create_at(ROOT_INO, "blob", UID, GID, at(11)).attr.ino;
    let samples: Vec<Vec<u8>> = vec![
        Vec::new(),
        b"x".to_vec(),
        b"hello world".to_vec(),
        vec![0, 159, 146, 150, 255, 254, 0, 0],
        (0..=255u8).collect(),
        vec![7u8; 10_000],
    ];
    for sample in samples {
        assert_eq!(fs.write(ino, 0, &sample), sample.len());
        assert_eq!(fs.read(ino), Ok(sample.clone()));
        assert_eq!(fs.getattr(ino).unwrap().attr.size, sample.len() as u64);
    }
}

#[test]
fn write_replaces_whole_content_whatever_the_offset() {
    let mut fs = fresh();
    let ino = fs.create_at(ROOT_INO, "f", UID, GID, at(11)).attr.ino;
    fs.write(ino, 0, b"a long first version");
    assert_eq!(fs.write(ino, 5, b"tiny"), 4);
    assert_eq!(fs.read(ino), Ok(b"tiny".to_vec()));
    assert_eq!(fs.getattr(ino).unwrap().attr.size, 4);
    assert_eq!(fs.write(ino, -3, b""), 0);
    assert_eq!(fs.read(ino), Ok(Vec::new()));
    assert_eq!(fs.getattr(ino).unwrap().attr.size, 0);
}

#[test]
fn write_to_missing_inode_reports_length_and_stores_nothing() {
    let mut fs = fresh();
    assert_eq!(fs.write(99, 0, b"ghost"), 5);
    assert_eq!(fs.getattr(99), Err(FsError::NotFound));
    assert_eq!(fs.read(99), Err(FsError::AccessDenied));
    let next = fs.create_at(ROOT_INO, "later", UID, GID, at(12)).attr.ino;
    assert_eq!(fs.read(next), Ok(Vec::new()));
}

#[test]
fn write_to_directory_sets_size_but_stores_no_content() {
    let mut fs = fresh();
    let dir = fs.mkdir_at(ROOT_INO, "d", UID, GID, at(11)).attr.ino;
    assert_eq!(fs.write(dir, 0, b"abc"), 3);
    assert_eq!(fs.getattr(dir).unwrap().attr.size, 3);
    assert_eq!(fs.generation(dir), Some(2));
    assert_eq!(fs.read(dir), Err(FsError::AccessDenied));
    assert_eq!(fs.readlink(dir), Err(FsError::AccessDenied));
}

#[test]
fn read_and_readlink_refuse_the_wrong_kind() {
    let mut fs = fresh();
    let file = fs.create_at(ROOT_INO, "f", UID, GID, at(11)).attr.ino;
    let sym = fs.symlink_at(ROOT_INO, "s", b"f", UID, GID, at(12)).attr.ino;
    fs.write(file, 0, b"data");
    assert_eq!(fs.readlink(file), Err(FsError::AccessDenied));
    assert_eq!(fs.read(sym), Err(FsError::AccessDenied));
    assert_eq!(fs.read(ROOT_INO), Err(FsError::AccessDenied));
    assert_eq!(fs.readlink(ROOT_INO), Err(FsError::AccessDenied));
    assert_eq!(fs.read(77), Err(FsError::AccessDenied));
    assert_eq!(fs.readlink(77), Err(FsError::AccessDenied));
}

#[test]
fn write_to_symlink_replaces_its_target() {
    let mut fs = fresh();
    let sym = fs.symlink_at(ROOT_INO, "s", b"/old", UID, GID, at(11)).attr.ino;
    assert_eq!(fs.write(sym, 0, b"/new/target"), 11);
    assert_eq!(fs.readlink(sym), Ok(b"/new/target".to_vec()));
    assert_eq!(fs.getattr(sym).unwrap().attr.size, 11);
}

#[test]
fn inode_survives_until_its_last_link_is_removed() {
    let mut fs = fresh();
    let ino = fs.create_at(ROOT_INO, "n0", UID, GID, at(11)).attr.ino;
    fs.write(ino, 0, b"kept");
    let extra = ["n1", "n2", "n3", "n4"];
    for (i, name) in extra.iter().enumerate() {
        let reply = fs.link(ino, ROOT_INO, name).unwrap();
        assert_eq!(reply.attr.nlink, i as u32 + 2);
    }
    let order = ["n2", "n0", "n4", "n1"];
    for (i, name) in order.iter().enumerate() {
        assert_eq!(fs.unlink(ROOT_INO, name), Ok(()));
        assert_eq!(fs.getattr(ino).unwrap().attr.nlink, 4 - i as u32);
        assert_eq!(fs.read(ino), Ok(b"kept".to_vec()));
    }
    assert_eq!(child_names(&fs, ROOT_INO), vec!["n3"]);
    assert_eq!(fs.unlink(ROOT_INO, "n3"), Ok(()));
    assert_eq!(fs.getattr(ino), Err(FsError::NotFound));
    assert_eq!(fs.read(ino), Err(FsError::AccessDenied));
    assert_eq!(fs.generation(ino), None);
    assert!(child_names(&fs, ROOT_INO).is_empty());
}

#[test]
fn destroyed_symlink_loses_its_target() {
    let mut fs = fresh();
    let sym = fs.symlink_at(ROOT_INO, "s", b"/t", UID, GID, at(11)).attr.ino;
    assert_eq!(fs.unlink(ROOT_INO, "s"), Ok(()));
    assert_eq!(fs.readlink(sym), Err(FsError::AccessDenied));
    assert_eq!(fs.getattr(sym), Err(FsError::NotFound));
}

#[test]
fn link_refuses_taken_names_but_creation_does_not() {
    let mut fs = fresh();
    let a = fs.create_at(ROOT_INO, "a", UID, GID, at(11)).attr.ino;
    let b = fs.create_at(ROOT_INO, "b", UID, GID, at(12)).attr.ino;
    assert_eq!(fs.link(a, ROOT_INO, "b"), Err(FsError::AlreadyExists));
    assert_eq!(fs.link(b, ROOT_INO, "b"), Err(FsError::AlreadyExists));
    assert_eq!(fs.link(a, ROOT_INO, "a"), Err(FsError::AlreadyExists));
    assert_eq!(fs.getattr(a).unwrap().attr.nlink, 1);
    assert_eq!(fs.generation(a), Some(1));

    let shadow = fs.create_at(ROOT_INO, "a", UID, GID, at(13)).attr.ino;
    assert_ne!(shadow, a);
    assert!(fs.getattr(a).is_ok());
    assert!(fs.getattr(shadow).is_ok());
    assert_eq!(child_names(&fs, ROOT_INO), vec!["a", "a", "b"]);
    let resolved = fs.lookup(ROOT_INO, "a").unwrap().attr.ino;
    assert!(resolved == a || resolved == shadow);

    let dir = fs.mkdir_at(ROOT_INO, "b", UID, GID, at(14));
    assert_eq!(dir.attr.kind, FileKind::Directory);
    let sym = fs.symlink_at(ROOT_INO, "b", b"x", UID, GID, at(15));
    assert_eq!(sym.attr.kind, FileKind::Symlink);
    assert_eq!(child_names(&fs, ROOT_INO), vec!["a", "a", "b", "b", "b"]);
}

#[test]
fn link_to_missing_inode_is_not_found_even_for_a_taken_name() {
    let mut fs = fresh();
    fs.create_at(ROOT_INO, "a", UID, GID, at(11));
    assert_eq!(fs.link(50, ROOT_INO, "fresh"), Err(FsError::NotFound));
    assert_eq!(fs.link(50, ROOT_INO, "a"), Err(FsError::NotFound));
    assert_eq!(fs.lookup(ROOT_INO, "fresh"), Err(FsError::NotFound));
}

#[test]
fn same_name_under_another_parent_is_free() {
    let mut fs = fresh();
    let d = fs.mkdir_at(ROOT_INO, "d", UID, GID, at(11)).attr.ino;
    let f = fs.create_at(ROOT_INO, "f", UID, GID, at(12)).attr.ino;
    assert_eq!(fs.link(f, d, "f").unwrap().attr.nlink, 2);
    assert_eq!(fs.lookup(d, "f").unwrap().attr.ino, f);
    assert_eq!(fs.lookup(ROOT_INO, "f").unwrap().attr.ino, f);
    assert_eq!(child_names(&fs, d), vec!["f"]);
}

#[test]
fn write_and_setattr_strictly_raise_the_generation() {
    let mut fs = fresh();
    let ino = fs.create_at(ROOT_INO, "g", UID, GID, at(11)).attr.ino;
    let mut last = fs.generation(ino).unwrap();
    assert_eq!(last, 1);
    for round in 0..5u64 {
        fs.write(ino, 0, b"w");
        let after_write = fs.generation(ino).unwrap();
        assert!(after_write > last);
        assert_eq!(after_write, 2 + 2 * round);
        assert!(fs.setattr(ino, &SetAttr::none()).is_ok());
        let after_setattr = fs.generation(ino).unwrap();
        assert!(after_setattr > after_write);
        assert_eq!(after_setattr, 3 + 2 * round);
        last = after_setattr;
    }
}

#[test]
fn link_and_unlink_raise_the_generation_of_a_surviving_inode() {
    let mut fs = fresh();
    let ino = fs.create_at(ROOT_INO, "a", UID, GID, at(11)).attr.ino;
    assert_eq!(fs.link(ino, ROOT_INO, "b").unwrap().generation, 2);
    assert_eq!(fs.unlink(ROOT_INO, "a"), Ok(()));
    assert_eq!(fs.generation(ino), Some(3));
    assert_eq!(fs.lookup(ROOT_INO, "b").unwrap().generation, 3);
}

#[test]
fn setattr_applies_only_size_owner_mtime_and_flags() {
    let mut fs = fresh();
    let before = fs.create_at(ROOT_INO, "f", UID, GID, at(11)).attr;
    let request = SetAttr {
        mode: Some(0o777),
        uid: Some(1),
        gid: Some(2),
        size: Some(4096),
        atime: Some(at(500)),
        mtime: Some(Timestamp::new(600, 7)),
        fh: Some(9),
        crtime: Some(at(700)),
        chgtime: Some(at(800)),
        bkuptime: Some(at(900)),
        flags: Some(3),
    };
    let reply = fs.setattr(before.ino, &request).unwrap();
    assert_eq!(reply.ttl, Timestamp::new(1, 0));
    let after = reply.attr;
    assert_eq!(after.size, 4096);
    assert_eq!(after.uid, 1);
    assert_eq!(after.gid, 2);
    assert_eq!(after.mtime, Timestamp::new(600, 7));
    assert_eq!(after.flags, 3);
    assert_eq!(after.perm, 0o644);
    assert_eq!(after.atime, before.atime);
    assert_eq!(after.crtime, before.crtime);
    assert_eq!(after.ctime, before.ctime);
    assert_eq!(after.kind, before.kind);
    assert_eq!(after.nlink, before.nlink);
    assert_eq!(after.ino, before.ino);
    assert_eq!(fs.getattr(before.ino).unwrap().attr, after);

    let partial = SetAttr { size: Some(1), ..SetAttr::none() };
    let after_partial = fs.setattr(before.ino, &partial).unwrap().attr;
    assert_eq!(after_partial.size, 1);
    assert_eq!(after_partial.uid, 1);
    assert_eq!(after_partial.mtime, Timestamp::new(600, 7));
}

#[test]
fn setattr_keeps_content_and_fails_on_missing_inode() {
    let mut fs = fresh();
    let ino = fs.create_at(ROOT_INO, "f", UID, GID, at(11)).attr.ino;
    fs.write(ino, 0, b"content");
    let shrink = SetAttr { size: Some(2), ..SetAttr::none() };
    assert_eq!(fs.setattr(ino, &shrink).unwrap().attr.size, 2);
    assert_eq!(fs.read(ino), Ok(b"content".to_vec()));
    assert_eq!(fs.setattr(404, &shrink), Err(FsError::AccessDenied));
    assert_eq!(fs.getattr(404), Err(FsError::NotFound));
}

#[test]
fn listing_without_children_is_dot_and_dotdot_only() {
    let mut fs = fresh();
    let empty = fs.mkdir_at(ROOT_INO, "empty", UID, GID, at(11)).attr.ino;
    let file = fs.create_at(ROOT_INO, "file", UID, GID, at(12)).attr.ino;
    for dir in [empty, file, 12345u64] {
        let entries = fs.readdir(dir, 0);
        assert_eq!(entries.len(), 2);
        assert_eq!((entries[0].name.as_str(), entries[0].offset), (".", 0));
        assert_eq!((entries[1].name.as_str(), entries[1].offset), ("..", 1));
        assert_eq!(entries[0].ino, dir);
    }
}

#[test]
fn listing_starts_with_dot_entries_and_numbers_every_line() {
    let mut fs = fresh();
    let dir = fs.mkdir_at(ROOT_INO, "d", UID, GID, at(11)).attr.ino;
    let mut expected = Vec::new();
    for i in 0..20 {
        let name = format!("child{:02}", i);
        fs.create_at(dir, &name, UID, GID, at(12 + i));
        expected.push(name);
    }
    let sub = fs.mkdir_at(dir, "sub", UID, GID, at(40)).attr.ino;
    expected.push("sub".to_string());
    let entries = fs.readdir(dir, 0);
    assert_eq!(entries.len(), 23);
    assert_eq!(entries[0].name, ".");
    assert_eq!(entries[1].name, "..");
    for (position, entry) in entries.iter().enumerate() {
        assert_eq!(entry.offset, position as u64);
    }
    assert_eq!(child_names(&fs, dir), expected);
    let listed_sub = entries.iter().find(|e| e.name == "sub").unwrap();
    assert_eq!(listed_sub.ino, sub);
    assert_eq!(listed_sub.kind, FileKind::Directory);
}

#[test]
fn listing_restarts_only_at_offsets_up_to_zero() {
    let mut fs = fresh();
    fs.create_at(ROOT_INO, "a", UID, GID, at(11));
    assert_eq!(fs.readdir(ROOT_INO, 0).len(), 3);
    assert_eq!(fs.readdir(ROOT_INO, -1).len(), 3);
    assert_eq!(fs.readdir(ROOT_INO, i64::MIN).len(), 3);
    assert!(fs.readdir(ROOT_INO, 1).is_empty());
    assert!(fs.readdir(ROOT_INO, 3).is_empty());
    assert!(fs.readdir(ROOT_INO, i64::MAX).is_empty());
}

#[test]
fn rmdir_removes_a_directory_that_still_has_children() {
    let mut fs = fresh();
    let dir = fs.mkdir_at(ROOT_INO, "d", UID, GID, at(11)).attr.ino;
    let inner = fs.create_at(dir, "inner", UID, GID, at(12)).attr.ino;
    fs.write(inner, 0, b"orphan");
    assert_eq!(fs.rmdir(ROOT_INO, "d"), Ok(()));
    assert_eq!(fs.getattr(dir), Err(FsError::NotFound));
    assert_eq!(fs.lookup(ROOT_INO, "d"), Err(FsError::NotFound));
    assert!(child_names(&fs, ROOT_INO).is_empty());
    assert_eq!(fs.getattr(inner).unwrap().attr.nlink, 1);
    assert_eq!(fs.read(inner), Ok(b"orphan".to_vec()));
    assert_eq!(fs.lookup(dir, "inner").unwrap().attr.ino, inner);
    assert_eq!(child_names(&fs, dir), vec!["inner"]);
}

#[test]
fn rmdir_and_unlink_behave_alike() {
    let mut fs = fresh();
    let file = fs.create_at(ROOT_INO, "f", UID, GID, at(11)).attr.ino;
    let dir = fs.mkdir_at(ROOT_INO, "d", UID, GID, at(12)).attr.ino;
    assert_eq!(fs.rmdir(ROOT_INO, "f"), Ok(()));
    assert_eq!(fs.unlink(ROOT_INO, "d"), Ok(()));
    assert_eq!(fs.getattr(file), Err(FsError::NotFound));
    assert_eq!(fs.getattr(dir), Err(FsError::NotFound));
    assert_eq!(fs.rmdir(ROOT_INO, "f"), Err(FsError::AccessDenied));
    assert_eq!(fs.unlink(ROOT_INO, "d"), Err(FsError::AccessDenied));
}

#[test]
fn unlink_of_unknown_name_is_access_denied() {
    let mut fs = fresh();
    fs.create_at(ROOT_INO, "a", UID, GID, at(11));
    assert_eq!(fs.unlink(ROOT_INO, "b"), Err(FsError::AccessDenied));
    assert_eq!(fs.unlink(5, "a"), Err(FsError::AccessDenied));
    assert_eq!(child_names(&fs, ROOT_INO), vec!["a"]);
}

#[test]
fn root_entry_cannot_be_removed() {
    let mut fs = fresh();
    assert_eq!(fs.unlink(0, "/"), Err(FsError::AccessDenied));
    assert_eq!(fs.rmdir(0, "/"), Err(FsError::AccessDenied));
    let root = fs.getattr(ROOT_INO).unwrap().attr;
    assert_eq!(root.kind, FileKind::Directory);
    assert_eq!(root.nlink, 1);

    assert_eq!(fs.link(ROOT_INO, 0, "/"), Err(FsError::AlreadyExists));
    assert_eq!(fs.link(ROOT_INO, ROOT_INO, "self").unwrap().attr.nlink, 2);
    assert_eq!(fs.unlink(ROOT_INO, "self"), Ok(()));
    assert_eq!(fs.getattr(ROOT_INO).unwrap().attr.nlink, 1);
    assert_eq!(fs.unlink(0, "/"), Err(FsError::AccessDenied));

    let other = fs.create_at(0, "/", UID, GID, at(11)).attr.ino;
    assert_eq!(fs.unlink(0, "/"), Ok(()));
    assert_eq!(fs.getattr(other), Err(FsError::NotFound));
    assert!(fs.getattr(ROOT_INO).is_ok());
    assert_eq!(fs.lookup(0, "/").unwrap().attr.ino, ROOT_INO);
}

#[test]
fn readiness_checks_hold_on_ordinary_states() {
    let mut fs = fresh();
    assert!(fs.has_free_inode());
    fs.create_at(ROOT_INO, "a", UID, GID, at(11));
    assert!(fs.has_free_inode());
    assert!(fs.unlink_ready(ROOT_INO, "a"));
    assert!(fs.unlink_ready(ROOT_INO, "missing"));
    assert!(fs.unlink_ready(0, "/"));
}

#[test]
fn lookup_reports_current_attributes() {
    let mut fs = fresh();
    let ino = fs.create_at(ROOT_INO, "f", UID, GID, at(11)).attr.ino;
    fs.write(ino, 0, b"12345678");
    let reply = fs.lookup(ROOT_INO, "f").unwrap();
    assert_eq!(reply.attr, fs.getattr(ino).unwrap().attr);
    assert_eq!(reply.attr.size, 8);
    assert_eq!(reply.generation, 2);
    assert_eq!(reply.ttl, Timestamp::new(1, 0));
    assert_eq!(fs.lookup(ROOT_INO, "F"), Err(FsError::NotFound));
    assert_eq!(fs.lookup(ino, "f"), Err(FsError::NotFound));
}
