//! Plain data shared by every component: file kinds, timestamps, attributes,
//! errors, and the records handed back to the caller.

use vstd::prelude::*;

verus! {

/// Inode number of the root directory. It exists for the whole life of a table.
pub const ROOT_INO: u64 = 1;

/// Inode number reported for the `..` entry of every listing.
pub const PARENT_PLACEHOLDER_INO: u64 = 2;

/// Permission bits given to every directory.
pub const DIR_PERM: u16 = 0o755;

/// Permission bits given to regular files and symlinks.
pub const FILE_PERM: u16 = 0o644;

/// Seconds for which a caller may cache a reply that carries attributes.
pub const TTL_SEC: i64 = 1;

/// Nanoseconds that go with [`TTL_SEC`].
pub const TTL_NSEC: i32 = 0;

/// What an inode is.
#[derive(Clone, Copy, Debug, PartialEq, Eq, Structural)]
pub enum FileKind {
    RegularFile,
    Directory,
    Symlink,
}

/// A point in time: whole seconds and the nanoseconds within the second.
#[derive(Clone, Copy, Debug, PartialEq, Eq, Structural)]
pub struct Timestamp {
    pub sec: i64,
    pub nsec: i32,
}

/// Why an operation was refused.
#[derive(Clone, Copy, Debug, PartialEq, Eq, Structural)]
pub enum FsError {
    /// No such inode or path.
    NotFound,
    /// The operation is not valid for the current state.
    AccessDenied,
    /// The name is already taken under that parent.
    AlreadyExists,
}

/// Metadata of one inode.
#[derive(Clone, Copy, Debug, PartialEq, Eq, Structural)]
pub struct Attributes {
    pub ino: u64,
    pub size: u64,
    pub blocks: u64,
    pub atime: Timestamp,
    pub mtime: Timestamp,
    pub ctime: Timestamp,
    pub crtime: Timestamp,
    pub kind: FileKind,
    pub perm: u16,
    pub nlink: u32,
    pub uid: u32,
    pub gid: u32,
    pub rdev: u32,
    pub flags: u32,
}

/// A request to change attributes. A field that is `None` asks for no change.
///
/// Only `size`, `uid`, `gid`, `mtime` and `flags` are ever applied; the other
/// fields are accepted and ignored.
#[derive(Clone, Copy, Debug)]
pub struct SetAttr {
    pub mode: Option<u32>,
    pub uid: Option<u32>,
    pub gid: Option<u32>,
    pub size: Option<u64>,
    pub atime: Option<Timestamp>,
    pub mtime: Option<Timestamp>,
    pub fh: Option<u64>,
    pub crtime: Option<Timestamp>,
    pub chgtime: Option<Timestamp>,
    pub bkuptime: Option<Timestamp>,
    pub flags: Option<u32>,
}

/// Attributes together with the time for which they may be cached.
#[derive(Clone, Copy, Debug, PartialEq, Eq, Structural)]
pub struct AttrReply {
    pub ttl: Timestamp,
    pub attr: Attributes,
}

/// Attributes of a resolved or created entry, its generation, and the cache time.
#[derive(Clone, Copy, Debug, PartialEq, Eq, Structural)]
pub struct EntryReply {
    pub ttl: Timestamp,
    pub attr: Attributes,
    pub generation: u64,
}

/// One line of a directory listing.
#[derive(Debug)]
pub struct DirEntry {
    pub ino: u64,
    pub offset: u64,
    pub kind: FileKind,
    pub name: String,
}

/// A directory entry as contracts see it: the name is a sequence of characters.
#[verifier::ext_equal]
pub struct DirEntrySpec {
    pub ino: u64,
    pub offset: u64,
    pub kind: FileKind,
    pub name: Seq<char>,
}

impl View for DirEntry {
    type V = DirEntrySpec;

    open spec fn view(&self) -> DirEntrySpec {
        DirEntrySpec { ino: self.ino, offset: self.offset, kind: self.kind, name: self.name@ }
    }
}

/// The cache time that goes out with every reply that carries attributes.
pub open spec fn reply_ttl() -> Timestamp {
    Timestamp { sec: TTL_SEC, nsec: TTL_NSEC }
}

/// Permission bits of a fresh inode of the given kind.
pub open spec fn default_perm(kind: FileKind) -> u16 {
    match kind {
        FileKind::Directory => DIR_PERM,
        _ => FILE_PERM,
    }
}

/// Attributes of an inode that has just been allocated: all four timestamps
/// are `now`, the permissions follow the kind, and nothing links to it yet.
pub open spec fn fresh_attributes(
    ino: u64,
    size: u64,
    kind: FileKind,
    uid: u32,
    gid: u32,
    now: Timestamp,
) -> Attributes {
    Attributes {
        ino,
        size,
        blocks: 0,
        atime: now,
        mtime: now,
        ctime: now,
        crtime: now,
        kind,
        perm: default_perm(kind),
        nlink: 0,
        uid,
        gid,
        rdev: 0,
        flags: 0,
    }
}

/// What a change request makes of given attributes: `size`, `uid`, `gid`,
/// `mtime` and `flags` are replaced where the request holds a value.
pub open spec fn apply_changes(attr: Attributes, changes: SetAttr) -> Attributes {
    Attributes {
        size: if changes.size is Some { changes.size->0 } else { attr.size },
        uid: if changes.uid is Some { changes.uid->0 } else { attr.uid },
        gid: if changes.gid is Some { changes.gid->0 } else { attr.gid },
        mtime: if changes.mtime is Some { changes.mtime->0 } else { attr.mtime },
        flags: if changes.flags is Some { changes.flags->0 } else { attr.flags },
        ..attr
    }
}

impl Timestamp {
    /// Whether the nanoseconds stay within one second.
    pub open spec fn within_second(self) -> bool {
        0 <= self.nsec < 1_000_000_000
    }

    /// Builds a timestamp from its two parts.
    pub fn new(sec: i64, nsec: i32) -> (t: Timestamp)
        ensures
            t == (Timestamp { sec, nsec }),
    {
        Timestamp { sec, nsec }
    }
}

impl SetAttr {
    /// A request that changes nothing.
    pub fn none() -> (s: SetAttr)
        ensures
            s.mode is None,
            s.uid is None,
            s.gid is None,
            s.size is None,
            s.atime is None,
            s.mtime is None,
            s.fh is None,
            s.crtime is None,
            s.chgtime is None,
            s.bkuptime is None,
            s.flags is None,
    {
        SetAttr {
            mode: None,
            uid: None,
            gid: None,
            size: None,
            atime: None,
            mtime: None,
            fh: None,
            crtime: None,
            chgtime: None,
            bkuptime: None,
            flags: None,
        }
    }
}

impl Attributes {
    /// Attributes for a newly allocated inode.
    pub fn new(ino: u64, size: u64, kind: FileKind, uid: u32, gid: u32, now: Timestamp) -> (attr:
        Attributes)
        ensures
            attr == fresh_attributes(ino, size, kind, uid, gid, now),
    {
        let perm: u16 = match kind {
            FileKind::Directory => DIR_PERM,
            _ => FILE_PERM,
        };
        Attributes {
            ino,
            size,
            blocks: 0,
            atime: now,
            mtime: now,
            ctime: now,
            crtime: now,
            kind,
            perm,
            nlink: 0,
            uid,
            gid,
            rdev: 0,
            flags: 0,
        }
    }

    /// The attributes after a change request has been applied.
    pub fn with_changes(&self, changes: &SetAttr) -> (attr: Attributes)
        ensures
            attr == apply_changes(*self, *changes),
    {
        let mut attr = *self;
        if let Some(size) = changes.size {
            attr.size = size;
        }
        if let Some(uid) = changes.uid {
            attr.uid = uid;
        }
        if let Some(gid) = changes.gid {
            attr.gid = gid;
        }
        if let Some(mtime) = changes.mtime {
            attr.mtime = mtime;
        }
        if let Some(flags) = changes.flags {
            attr.flags = flags;
        }
        attr
    }
}

/// The cache time that goes out with every reply that carries attributes.
pub fn ttl() -> (t: Timestamp)
    ensures
        t == reply_ttl(),
{
    Timestamp { sec: TTL_SEC, nsec: TTL_NSEC }
}

} // verus!
