//! The filesystem as contracts see it: the inode table together with the
//! content store, and the transition that each operation performs.

use vstd::prelude::*;
use crate::content::content_or_empty;
use crate::table_model::{
    lemma_allocate_wf, lemma_attach_wf, lemma_detach_wf, lemma_record_write_wf,
    lemma_update_attributes_wf, root_link, LinkSpec, TableView,
};
use crate::types::{
    reply_ttl, AttrReply, EntryReply, FileKind, FsError, SetAttr, Timestamp, ROOT_INO,
};

verus! {

/// The inode table and the bytes stored per inode.
#[verifier::ext_equal]
pub struct FsView {
    pub table: TableView,
    pub contents: Map<u64, Seq<u8>>,
}

impl FsView {
    /// The invariant of the filesystem: the table's own invariant holds,
    /// every inode has at least one entry, content is stored only for
    /// regular files and symlinks that exist, and every symlink has a target.
    pub open spec fn wf(self) -> bool {
        &&& self.table.wf()
        &&& forall|ino: u64| #[trigger]
            self.table.contains(ino) ==> {
                &&& self.table.inodes[ino].links.len() >= 1
                &&& self.table.inodes[ino].attr.kind == FileKind::Symlink
                    ==> self.contents.contains_key(ino)
            }
        &&& forall|ino: u64| #[trigger]
            self.contents.contains_key(ino) ==> {
                &&& self.table.contains(ino)
                &&& self.table.inodes[ino].attr.kind != FileKind::Directory
            }
    }

    /// A filesystem that holds the root directory and nothing else.
    pub open spec fn init(uid: u32, gid: u32, now: Timestamp) -> FsView {
        FsView { table: TableView::init(uid, gid, now), contents: Map::empty() }
    }

    /// The reply that carries the attributes of `ino`.
    pub open spec fn attr_reply(self, ino: u64) -> AttrReply {
        AttrReply { ttl: reply_ttl(), attr: self.table.inodes[ino].attr }
    }

    /// The reply that carries the attributes and the generation of `ino`.
    pub open spec fn entry(self, ino: u64) -> EntryReply {
        EntryReply {
            ttl: reply_ttl(),
            attr: self.table.inodes[ino].attr,
            generation: self.table.inodes[ino].generation,
        }
    }

    /// What `getattr` answers.
    pub open spec fn getattr(self, ino: u64) -> Result<AttrReply, FsError> {
        if self.table.contains(ino) {
            Ok(self.attr_reply(ino))
        } else {
            Err(FsError::NotFound)
        }
    }

    /// The state after an inode of the given kind has been created under
    /// `self.table.next_ino` with `link` as its first entry. The name is not
    /// checked: another inode may already stand under it.
    pub open spec fn create(
        self,
        kind: FileKind,
        link: LinkSpec,
        uid: u32,
        gid: u32,
        now: Timestamp,
    ) -> FsView {
        FsView {
            table: self.table.allocate(kind, uid, gid, 0, now).attach(self.table.next_ino, link),
            ..self
        }
    }

    /// The state after a symlink to `target` has been created under
    /// `self.table.next_ino` with `link` as its first entry.
    pub open spec fn symlink(
        self,
        link: LinkSpec,
        target: Seq<u8>,
        uid: u32,
        gid: u32,
        now: Timestamp,
    ) -> FsView {
        FsView {
            table: self.table.allocate(FileKind::Symlink, uid, gid, 0, now).attach(
                self.table.next_ino,
                link,
            ),
            contents: self.contents.insert(self.table.next_ino, target),
        }
    }

    /// The state after `setattr`: unchanged where the inode is missing.
    pub open spec fn setattr(self, ino: u64, changes: SetAttr) -> FsView {
        if self.table.contains(ino) {
            FsView { table: self.table.update_attributes(ino, changes), ..self }
        } else {
            self
        }
    }

    /// The state after `write`: unchanged where the inode is missing. A
    /// directory gets the new size and generation but stores no bytes.
    pub open spec fn write(self, ino: u64, data: Seq<u8>) -> FsView {
        if self.table.contains(ino) {
            FsView {
                table: self.table.record_write(ino, data.len() as u64),
                contents: if self.table.inodes[ino].attr.kind == FileKind::Directory {
                    self.contents
                } else {
                    self.contents.insert(ino, data)
                },
            }
        } else {
            self
        }
    }

    /// What `read` answers.
    pub open spec fn read(self, ino: u64) -> Result<Seq<u8>, FsError> {
        if self.table.contains(ino) && self.table.inodes[ino].attr.kind == FileKind::RegularFile {
            Ok(content_or_empty(self.contents, ino))
        } else {
            Err(FsError::AccessDenied)
        }
    }

    /// What `readlink` answers.
    pub open spec fn readlink(self, ino: u64) -> Result<Seq<u8>, FsError> {
        if self.table.contains(ino) && self.table.inodes[ino].attr.kind == FileKind::Symlink
            && self.contents.contains_key(ino) {
            Ok(self.contents[ino])
        } else {
            Err(FsError::AccessDenied)
        }
    }

    /// Whether `link` refuses `link(ino, ..)`, and with which error.
    pub open spec fn link_error(self, ino: u64, link: LinkSpec) -> Option<FsError> {
        if !self.table.contains(ino) {
            Some(FsError::NotFound)
        } else if self.table.taken(link) {
            Some(FsError::AlreadyExists)
        } else {
            None
        }
    }

    /// The state after `link` has been added to the entries of `ino`.
    pub open spec fn link(self, ino: u64, link: LinkSpec) -> FsView {
        FsView { table: self.table.attach(ino, link), ..self }
    }

    /// The state after the entry `link` of `ino` has been removed. Where it
    /// was the last one, the inode and its content are gone.
    pub open spec fn unlink(self, ino: u64, link: LinkSpec) -> FsView {
        let table = self.table.detach(ino, link);
        FsView {
            table,
            contents: if table.contains(ino) {
                self.contents
            } else {
                self.contents.remove(ino)
            },
        }
    }
}

/// The initial state satisfies the invariant.
pub proof fn lemma_init_wf(uid: u32, gid: u32, now: Timestamp)
    ensures
        FsView::init(uid, gid, now).wf(),
{
    let s = FsView::init(uid, gid, now);
    let links = s.table.inodes[ROOT_INO].links;
    assert(links[0] == root_link());
}

/// Creating a regular file or a directory keeps the invariant.
pub proof fn lemma_create_wf(
    s: FsView,
    kind: FileKind,
    link: LinkSpec,
    uid: u32,
    gid: u32,
    now: Timestamp,
)
    requires
        s.wf(),
        s.table.next_ino < u64::MAX,
        kind != FileKind::Symlink,
    ensures
        s.create(kind, link, uid, gid, now).wf(),
{
    let ino = s.table.next_ino;
    let t1 = s.table.allocate(kind, uid, gid, 0, now);
    lemma_allocate_wf(s.table, kind, uid, gid, 0, now);
    lemma_attach_wf(t1, ino, link);
    let n = s.create(kind, link, uid, gid, now);
    assert forall|i: u64| #[trigger] n.table.contains(i) implies {
        &&& n.table.inodes[i].links.len() >= 1
        &&& n.table.inodes[i].attr.kind == FileKind::Symlink ==> n.contents.contains_key(i)
    } by {
        if i != ino {
            assert(s.table.contains(i));
        }
    }
    assert forall|i: u64| #[trigger] n.contents.contains_key(i) implies {
        &&& n.table.contains(i)
        &&& n.table.inodes[i].attr.kind != FileKind::Directory
    } by {
        assert(s.contents.contains_key(i));
        assert(s.table.contains(i));
    }
}

/// Creating a symlink keeps the invariant.
pub proof fn lemma_symlink_wf(
    s: FsView,
    link: LinkSpec,
    target: Seq<u8>,
    uid: u32,
    gid: u32,
    now: Timestamp,
)
    requires
        s.wf(),
        s.table.next_ino < u64::MAX,
    ensures
        s.symlink(link, target, uid, gid, now).wf(),
{
    let ino = s.table.next_ino;
    let t1 = s.table.allocate(FileKind::Symlink, uid, gid, 0, now);
    lemma_allocate_wf(s.table, FileKind::Symlink, uid, gid, 0, now);
    lemma_attach_wf(t1, ino, link);
    let n = s.symlink(link, target, uid, gid, now);
    assert forall|i: u64| #[trigger] n.table.contains(i) implies {
        &&& n.table.inodes[i].links.len() >= 1
        &&& n.table.inodes[i].attr.kind == FileKind::Symlink ==> n.contents.contains_key(i)
    } by {
        if i != ino {
            assert(s.table.contains(i));
        }
    }
    assert forall|i: u64| #[trigger] n.contents.contains_key(i) implies {
        &&& n.table.contains(i)
        &&& n.table.inodes[i].attr.kind != FileKind::Directory
    } by {
        if i != ino {
            assert(s.contents.contains_key(i));
            assert(s.table.contains(i));
        }
    }
}

/// `setattr` keeps the invariant.
pub proof fn lemma_setattr_wf(s: FsView, ino: u64, changes: SetAttr)
    requires
        s.wf(),
    ensures
        s.setattr(ino, changes).wf(),
{
    if s.table.contains(ino) {
        lemma_update_attributes_wf(s.table, ino, changes);
        let n = s.setattr(ino, changes);
        assert forall|i: u64| #[trigger] n.table.contains(i) implies {
            &&& n.table.inodes[i].links.len() >= 1
            &&& n.table.inodes[i].attr.kind == FileKind::Symlink ==> n.contents.contains_key(i)
        } by {
            assert(s.table.contains(i));
        }
        assert forall|i: u64| #[trigger] n.contents.contains_key(i) implies {
            &&& n.table.contains(i)
            &&& n.table.inodes[i].attr.kind != FileKind::Directory
        } by {
            assert(s.contents.contains_key(i));
            assert(s.table.contains(i));
        }
    }
}

/// `write` keeps the invariant.
pub proof fn lemma_write_wf(s: FsView, ino: u64, data: Seq<u8>)
    requires
        s.wf(),
    ensures
        s.write(ino, data).wf(),
{
    if s.table.contains(ino) {
        lemma_record_write_wf(s.table, ino, data.len() as u64);
        let n = s.write(ino, data);
        assert forall|i: u64| #[trigger] n.table.contains(i) implies {
            &&& n.table.inodes[i].links.len() >= 1
            &&& n.table.inodes[i].attr.kind == FileKind::Symlink ==> n.contents.contains_key(i)
        } by {
            assert(s.table.contains(i));
        }
        assert forall|i: u64| #[trigger] n.contents.contains_key(i) implies {
            &&& n.table.contains(i)
            &&& n.table.inodes[i].attr.kind != FileKind::Directory
        } by {
            if i != ino {
                assert(s.contents.contains_key(i));
            }
            assert(s.table.contains(i));
        }
    }
}

/// Adding an entry to an existing inode keeps the invariant.
pub proof fn lemma_link_wf(s: FsView, ino: u64, link: LinkSpec)
    requires
        s.wf(),
        s.table.contains(ino),
        s.table.inodes[ino].attr.nlink < u32::MAX,
    ensures
        s.link(ino, link).wf(),
{
    lemma_attach_wf(s.table, ino, link);
    let n = s.link(ino, link);
    assert forall|i: u64| #[trigger] n.table.contains(i) implies {
        &&& n.table.inodes[i].links.len() >= 1
        &&& n.table.inodes[i].attr.kind == FileKind::Symlink ==> n.contents.contains_key(i)
    } by {
        assert(s.table.contains(i));
    }
    assert forall|i: u64| #[trigger] n.contents.contains_key(i) implies {
        &&& n.table.contains(i)
        &&& n.table.inodes[i].attr.kind != FileKind::Directory
    } by {
        assert(s.contents.contains_key(i));
        assert(s.table.contains(i));
    }
}

/// Removing a removable entry keeps the invariant.
pub proof fn lemma_unlink_wf(s: FsView, ino: u64, link: LinkSpec)
    requires
        s.wf(),
        s.table.removable(ino, link),
    ensures
        s.unlink(ino, link).wf(),
{
    lemma_detach_wf(s.table, ino, link);
    let n = s.unlink(ino, link);
    assert(s.table.contains(ino));
    assert forall|i: u64| #[trigger] n.table.contains(i) implies {
        &&& n.table.inodes[i].links.len() >= 1
        &&& n.table.inodes[i].attr.kind == FileKind::Symlink ==> n.contents.contains_key(i)
    } by {
        assert(s.table.contains(i));
    }
    assert forall|i: u64| #[trigger] n.contents.contains_key(i) implies {
        &&& n.table.contains(i)
        &&& n.table.inodes[i].attr.kind != FileKind::Directory
    } by {
        assert(s.contents.contains_key(i));
        assert(s.table.contains(i));
    }
}

} // verus!
