//! The operations of the filesystem: each one checks its arguments against
//! the inode table, the directory index and the content store, performs one
//! transition on them, and answers with a record or an error.

use vstd::prelude::*;
use vstd::pervasive::unreached;
use crate::clock::wall_clock;
use crate::content::ContentStore;
use crate::dir_model::{entries_view, is_walk, listing};
use crate::fs_model::{
    lemma_create_wf, lemma_init_wf, lemma_link_wf, lemma_setattr_wf, lemma_symlink_wf,
    lemma_unlink_wf, lemma_write_wf, FsView,
};
use crate::inode::InodeTable;
use crate::table_model::LinkSpec;
use crate::types::{
    ttl, AttrReply, DirEntry, EntryReply, FileKind, FsError, SetAttr, Timestamp, ROOT_INO,
};

verus! {

/// An in-memory filesystem.
pub struct MemFs {
    table: InodeTable,
    contents: ContentStore,
}

impl View for MemFs {
    type V = FsView;

    closed spec fn view(&self) -> FsView {
        FsView { table: self.table@, contents: self.contents@ }
    }
}

impl MemFs {
    /// A filesystem that holds only the root directory, owned by `uid` and
    /// `gid`, with all its timestamps at `now`.
    pub fn new_at(uid: u32, gid: u32, now: Timestamp) -> (fs: MemFs)
        ensures
            fs@ == FsView::init(uid, gid, now),
            fs@.wf(),
    {
        proof {
            lemma_init_wf(uid, gid, now);
        }
        MemFs { table: InodeTable::new(uid, gid, now), contents: ContentStore::new() }
    }

    /// A filesystem that holds only the root directory, stamped with the
    /// current time.
    pub fn new(uid: u32, gid: u32) -> (fs: MemFs)
        ensures
            fs@ == FsView::init(uid, gid, fs@.table.inodes[ROOT_INO].attr.crtime),
            fs@.table.inodes[ROOT_INO].attr.crtime.within_second(),
            fs@.wf(),
    {
        let now = wall_clock();
        MemFs::new_at(uid, gid, now)
    }

    /// Whether an inode can still be allocated.
    pub fn has_free_inode(&self) -> (free: bool)
        ensures
            free == (self@.table.next_ino < u64::MAX),
    {
        self.table.next_ino() < u64::MAX
    }

    /// The generation of `ino`, where it exists.
    pub fn generation(&self, ino: u64) -> (r: Option<u64>)
        ensures
            match r {
                Some(g) => self@.table.contains(ino) && g == self@.table.inodes[ino].generation,
                None => !self@.table.contains(ino),
            },
    {
        self.table.generation(ino)
    }

    /// The attributes of `ino`.
    pub fn getattr(&self, ino: u64) -> (r: Result<AttrReply, FsError>)
        ensures
            r == self@.getattr(ino),
    {
        match self.table.get_attributes(ino) {
            Ok(attr) => Ok(AttrReply { ttl: ttl(), attr }),
            Err(e) => Err(e),
        }
    }

    /// Lists directory `ino`. An offset above 0 asks for what follows a
    /// listing already received, which is nothing; any other offset starts
    /// over: `.`, `..`, then the children in the order of one walk over the
    /// table. The inode need not exist.
    pub fn readdir(&self, ino: u64, offset: i64) -> (entries: Vec<DirEntry>)
        ensures
            offset > 0 ==> entries@.len() == 0,
            offset <= 0 ==> exists|order: Seq<u64>| #[trigger]
                is_walk(self@.table, order) && entries_view(entries@) == listing(
                    self@.table,
                    order,
                    ino,
                ),
    {
        if offset > 0 {
            Vec::new()
        } else {
            let entries = self.table.list_dir(ino);
            proof {
                let order = choose|order: Seq<u64>| #[trigger]
                    is_walk(self.table@, order) && entries_view(entries@) == listing(
                        self.table@,
                        order,
                        ino,
                    );
                assert(is_walk(self@.table, order));
            }
            entries
        }
    }

    /// Resolves `name` under `parent`. Where several inodes stand under that
    /// name, which can only come from creating over a taken name, any one of
    /// them answers.
    pub fn lookup(&self, parent: u64, name: &str) -> (r: Result<EntryReply, FsError>)
        requires
            self@.wf(),
        ensures
            match r {
                Ok(reply) => {
                    &&& self@.table.has_link(reply.attr.ino, LinkSpec { parent, name: name@ })
                    &&& reply == self@.entry(reply.attr.ino)
                },
                Err(e) => e == FsError::NotFound && !self@.table.taken(
                    LinkSpec { parent, name: name@ },
                ),
            },
    {
        match self.table.resolve(parent, name) {
            Some(ino) => Ok(self.entry_reply(ino)),
            None => Err(FsError::NotFound),
        }
    }

    /// The entry reply for an inode that exists.
    fn entry_reply(&self, ino: u64) -> (reply: EntryReply)
        requires
            self@.table.contains(ino),
        ensures
            reply == self@.entry(ino),
    {
        let attr = match self.table.get_attributes(ino) {
            Ok(attr) => attr,
            Err(_) => unreached(),
        };
        let generation = match self.table.generation(ino) {
            Some(g) => g,
            None => unreached(),
        };
        EntryReply { ttl: ttl(), attr, generation }
    }

    /// Allocates an inode of `kind` and gives it `(parent, name)` as its
    /// first entry.
    fn add_inode(
        &mut self,
        kind: FileKind,
        parent: u64,
        name: &str,
        uid: u32,
        gid: u32,
        now: Timestamp,
    ) -> (ino: u64)
        requires
            old(self)@.table.wf(),
            old(self)@.table.next_ino < u64::MAX,
        ensures
            ino == old(self)@.table.next_ino,
            final(self)@ == old(self)@.create(kind, LinkSpec { parent, name: name@ }, uid, gid, now),
            final(self)@.table.contains(ino),
    {
        let ino = self.table.allocate(kind, uid, gid, 0, now);
        self.table.attach(ino, parent, name);
        ino
    }

    /// Creates an empty regular file named `name` under `parent`, stamped
    /// with `now`. The name is not checked: where it is taken, both inodes
    /// stand under it afterwards.
    pub fn create_at(&mut self, parent: u64, name: &str, uid: u32, gid: u32, now: Timestamp) -> (reply:
        EntryReply)
        requires
            old(self)@.wf(),
            old(self)@.table.next_ino < u64::MAX,
        ensures
            final(self)@.wf(),
            final(self)@ == old(self)@.create(
                FileKind::RegularFile,
                LinkSpec { parent, name: name@ },
                uid,
                gid,
                now,
            ),
            reply == final(self)@.entry(old(self)@.table.next_ino),
    {
        proof {
            lemma_create_wf(
                self@,
                FileKind::RegularFile,
                LinkSpec { parent, name: name@ },
                uid,
                gid,
                now,
            );
        }
        let ino = self.add_inode(FileKind::RegularFile, parent, name, uid, gid, now);
        self.entry_reply(ino)
    }

    /// `create_at` with the current time.
    pub fn create(&mut self, parent: u64, name: &str, uid: u32, gid: u32) -> (reply: EntryReply)
        requires
            old(self)@.wf(),
            old(self)@.table.next_ino < u64::MAX,
        ensures
            final(self)@.wf(),
            final(self)@ == old(self)@.create(
                FileKind::RegularFile,
                LinkSpec { parent, name: name@ },
                uid,
                gid,
                reply.attr.crtime,
            ),
            reply.attr.crtime.within_second(),
            reply == final(self)@.entry(old(self)@.table.next_ino),
    {
        let now = wall_clock();
        self.create_at(parent, name, uid, gid, now)
    }

    /// Creates a directory named `name` under `parent`, stamped with `now`.
    /// The name is not checked, as in `create_at`.
    pub fn mkdir_at(&mut self, parent: u64, name: &str, uid: u32, gid: u32, now: Timestamp) -> (reply:
        EntryReply)
        requires
            old(self)@.wf(),
            old(self)@.table.next_ino < u64::MAX,
        ensures
            final(self)@.wf(),
            final(self)@ == old(self)@.create(
                FileKind::Directory,
                LinkSpec { parent, name: name@ },
                uid,
                gid,
                now,
            ),
            reply == final(self)@.entry(old(self)@.table.next_ino),
    {
        proof {
            lemma_create_wf(
                self@,
                FileKind::Directory,
                LinkSpec { parent, name: name@ },
                uid,
                gid,
                now,
            );
        }
        let ino = self.add_inode(FileKind::Directory, parent, name, uid, gid, now);
        self.entry_reply(ino)
    }

    /// `mkdir_at` with the current time.
    pub fn mkdir(&mut self, parent: u64, name: &str, uid: u32, gid: u32) -> (reply: EntryReply)
        requires
            old(self)@.wf(),
            old(self)@.table.next_ino < u64::MAX,
        ensures
            final(self)@.wf(),
            final(self)@ == old(self)@.create(
                FileKind::Directory,
                LinkSpec { parent, name: name@ },
                uid,
                gid,
                reply.attr.crtime,
            ),
            reply.attr.crtime.within_second(),
            reply == final(self)@.entry(old(self)@.table.next_ino),
    {
        let now = wall_clock();
        self.mkdir_at(parent, name, uid, gid, now)
    }

    /// Creates a symlink named `name` under `parent` whose target path is
    /// `target`, stamped with `now`. The name is not checked, as in
    /// `create_at`.
    pub fn symlink_at(
        &mut self,
        parent: u64,
        name: &str,
        target: &[u8],
        uid: u32,
        gid: u32,
        now: Timestamp,
    ) -> (reply: EntryReply)
        requires
            old(self)@.wf(),
            old(self)@.table.next_ino < u64::MAX,
        ensures
            final(self)@.wf(),
            final(self)@ == old(self)@.symlink(
                LinkSpec { parent, name: name@ },
                target@,
                uid,
                gid,
                now,
            ),
            reply == final(self)@.entry(old(self)@.table.next_ino),
    {
        proof {
            lemma_symlink_wf(self@, LinkSpec { parent, name: name@ }, target@, uid, gid, now);
        }
        let ino = self.add_inode(FileKind::Symlink, parent, name, uid, gid, now);
        self.contents.set_content(ino, target);
        self.entry_reply(ino)
    }

    /// `symlink_at` with the current time.
    pub fn symlink(&mut self, parent: u64, name: &str, target: &[u8], uid: u32, gid: u32) -> (reply:
        EntryReply)
        requires
            old(self)@.wf(),
            old(self)@.table.next_ino < u64::MAX,
        ensures
            final(self)@.wf(),
            final(self)@ == old(self)@.symlink(
                LinkSpec { parent, name: name@ },
                target@,
                uid,
                gid,
                reply.attr.crtime,
            ),
            reply.attr.crtime.within_second(),
            reply == final(self)@.entry(old(self)@.table.next_ino),
    {
        let now = wall_clock();
        self.symlink_at(parent, name, target, uid, gid, now)
    }

    /// Applies a change request to `ino`. Of the request only `size`, `uid`,
    /// `gid`, `mtime` and `flags` count. The generation goes up by one.
    pub fn setattr(&mut self, ino: u64, changes: &SetAttr) -> (r: Result<AttrReply, FsError>)
        requires
            old(self)@.wf(),
            old(self)@.table.contains(ino) ==> old(self)@.table.inodes[ino].generation < u64::MAX,
        ensures
            final(self)@.wf(),
            final(self)@ == old(self)@.setattr(ino, *changes),
            match r {
                Ok(reply) => old(self)@.table.contains(ino) && reply == final(self)@.attr_reply(ino),
                Err(e) => e == FsError::AccessDenied && !old(self)@.table.contains(ino),
            },
            r is Ok ==> final(self)@.table.inodes[ino].generation == old(
                self,
            )@.table.inodes[ino].generation + 1,
    {
        proof {
            lemma_setattr_wf(self@, ino, *changes);
        }
        match self.table.update_attributes(ino, changes) {
            Ok(attr) => Ok(AttrReply { ttl: ttl(), attr }),
            Err(e) => Err(e),
        }
    }

    /// Replaces the whole content of `ino` by `data`, whatever the offset,
    /// sets the size to the length of `data`, and raises the generation by
    /// one. Returns the number of bytes taken, which is all of them, also
    /// where the inode is missing and nothing is stored.
    pub fn write(&mut self, ino: u64, _offset: i64, data: &[u8]) -> (written: usize)
        requires
            old(self)@.wf(),
            old(self)@.table.contains(ino) ==> old(self)@.table.inodes[ino].generation < u64::MAX,
        ensures
            final(self)@.wf(),
            final(self)@ == old(self)@.write(ino, data@),
            written == data@.len(),
            old(self)@.table.contains(ino) ==> final(self)@.table.inodes[ino].generation == old(
                self,
            )@.table.inodes[ino].generation + 1,
    {
        proof {
            lemma_write_wf(self@, ino, data@);
        }
        let size = data.len() as u64;
        match self.table.get_attributes(ino) {
            Ok(attr) => {
                self.table.record_write(ino, size);
                if attr.kind != FileKind::Directory {
                    self.contents.set_content(ino, data);
                }
            },
            Err(_) => {},
        }
        data.len()
    }

    /// The whole content of regular file `ino`; empty where nothing was
    /// written yet.
    pub fn read(&self, ino: u64) -> (r: Result<Vec<u8>, FsError>)
        ensures
            match r {
                Ok(bytes) => self@.read(ino) == Ok::<Seq<u8>, FsError>(bytes@),
                Err(e) => self@.read(ino) == Err::<Seq<u8>, FsError>(e),
            },
    {
        match self.table.get_attributes(ino) {
            Ok(attr) => {
                if attr.kind == FileKind::RegularFile {
                    Ok(self.contents.get_content(ino))
                } else {
                    Err(FsError::AccessDenied)
                }
            },
            Err(_) => Err(FsError::AccessDenied),
        }
    }

    /// The target path of symlink `ino`.
    pub fn readlink(&self, ino: u64) -> (r: Result<Vec<u8>, FsError>)
        ensures
            match r {
                Ok(bytes) => self@.readlink(ino) == Ok::<Seq<u8>, FsError>(bytes@),
                Err(e) => self@.readlink(ino) == Err::<Seq<u8>, FsError>(e),
            },
    {
        match self.table.get_attributes(ino) {
            Ok(attr) => {
                if attr.kind == FileKind::Symlink && self.contents.contains(ino) {
                    Ok(self.contents.get_content(ino))
                } else {
                    Err(FsError::AccessDenied)
                }
            },
            Err(_) => Err(FsError::AccessDenied),
        }
    }

    /// Gives `ino` one more name: `newname` under `newparent`. Refused with
    /// `NotFound` where the inode is missing, else with `AlreadyExists`
    /// where the name resolves to any inode.
    pub fn link(&mut self, ino: u64, newparent: u64, newname: &str) -> (r: Result<
        EntryReply,
        FsError,
    >)
        requires
            old(self)@.wf(),
            old(self)@.table.contains(ino) ==> old(self)@.table.inodes[ino].attr.nlink < u32::MAX
                && old(self)@.table.inodes[ino].generation < u64::MAX,
        ensures
            final(self)@.wf(),
            match r {
                Ok(reply) => {
                    &&& old(self)@.link_error(ino, LinkSpec { parent: newparent, name: newname@ })
                        is None
                    &&& final(self)@ == old(self)@.link(
                        ino,
                        LinkSpec { parent: newparent, name: newname@ },
                    )
                    &&& reply == final(self)@.entry(ino)
                },
                Err(e) => {
                    &&& old(self)@.link_error(ino, LinkSpec { parent: newparent, name: newname@ })
                        == Some(e)
                    &&& final(self)@ == old(self)@
                },
            },
    {
        proof {
            if self@.table.contains(ino) {
                lemma_link_wf(self@, ino, LinkSpec { parent: newparent, name: newname@ });
            }
        }
        match self.table.add_link(ino, newparent, newname) {
            Ok(()) => Ok(self.entry_reply(ino)),
            Err(e) => Err(e),
        }
    }

    /// Whether `unlink(parent, name)` may be called: no inode that could lose
    /// the entry has used up its generation counter.
    pub fn unlink_ready(&self, parent: u64, name: &str) -> (ready: bool)
        ensures
            ready == forall|ino: u64| #[trigger]
                self@.table.removable(ino, LinkSpec { parent, name: name@ })
                    ==> self@.table.inodes[ino].generation < u64::MAX,
    {
        self.table.removal_ready(parent, name)
    }

    /// Removes the entry `name` under `parent` from an inode that has it.
    /// An inode that loses its last entry is destroyed with its content.
    /// The root's own entry cannot be removed.
    pub fn unlink(&mut self, parent: u64, name: &str) -> (r: Result<(), FsError>)
        requires
            old(self)@.wf(),
            forall|ino: u64| #[trigger]
                old(self)@.table.removable(ino, LinkSpec { parent, name: name@ }) ==> old(
                    self,
                )@.table.inodes[ino].generation < u64::MAX,
        ensures
            final(self)@.wf(),
            match r {
                Ok(()) => exists|ino: u64| #[trigger]
                    old(self)@.table.removable(ino, LinkSpec { parent, name: name@ })
                        && final(self)@ == old(self)@.unlink(ino, LinkSpec { parent, name: name@ }),
                Err(e) => {
                    &&& e == FsError::AccessDenied
                    &&& forall|ino: u64|
                        !old(self)@.table.removable(ino, LinkSpec { parent, name: name@ })
                    &&& final(self)@ == old(self)@
                },
            },
    {
        match self.table.remove_link(parent, name) {
            Ok(removed) => {
                proof {
                    lemma_unlink_wf(old(self)@, removed.ino, LinkSpec { parent, name: name@ });
                }
                if removed.destroyed {
                    self.contents.remove(removed.ino);
                }
                assert(self@ == old(self)@.unlink(removed.ino, LinkSpec { parent, name: name@ }));
                Ok(())
            },
            Err(e) => Err(e),
        }
    }

    /// Removes a directory's entry. There is no check that the directory is
    /// empty: this is `unlink` under another name.
    pub fn rmdir(&mut self, parent: u64, name: &str) -> (r: Result<(), FsError>)
        requires
            old(self)@.wf(),
            forall|ino: u64| #[trigger]
                old(self)@.table.removable(ino, LinkSpec { parent, name: name@ }) ==> old(
                    self,
                )@.table.inodes[ino].generation < u64::MAX,
        ensures
            final(self)@.wf(),
            match r {
                Ok(()) => exists|ino: u64| #[trigger]
                    old(self)@.table.removable(ino, LinkSpec { parent, name: name@ })
                        && final(self)@ == old(self)@.unlink(ino, LinkSpec { parent, name: name@ }),
                Err(e) => {
                    &&& e == FsError::AccessDenied
                    &&& forall|ino: u64|
                        !old(self)@.table.removable(ino, LinkSpec { parent, name: name@ })
                    &&& final(self)@ == old(self)@
                },
            },
    {
        self.unlink(parent, name)
    }
}

} // verus!
