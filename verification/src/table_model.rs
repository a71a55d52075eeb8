//! The inode table as contracts see it: a map from inode numbers to inodes,
//! each with its attributes, its generation and its link entries, and the
//! transitions that the table's operations perform on that map.

use vstd::prelude::*;
use crate::types::{apply_changes, default_perm, fresh_attributes, Attributes, FileKind, SetAttr, Timestamp, ROOT_INO};

verus! {

/// One directory entry that resolves to an inode: the directory it stands in
/// and its name there.
#[verifier::ext_equal]
pub struct LinkSpec {
    pub parent: u64,
    pub name: Seq<char>,
}

/// One inode: attributes, generation counter, and the entries that name it,
/// oldest first.
#[verifier::ext_equal]
pub struct InodeSpec {
    pub attr: Attributes,
    pub generation: u64,
    pub links: Seq<LinkSpec>,
}

/// The whole table, and the number that the next allocation hands out.
#[verifier::ext_equal]
pub struct TableView {
    pub inodes: Map<u64, InodeSpec>,
    pub next_ino: u64,
}

/// The entry under which the root directory stands from the start. No
/// directory has inode number 0, so nothing else can be meant by it.
pub open spec fn root_link() -> LinkSpec {
    LinkSpec { parent: 0, name: "/"@ }
}

/// `i` is the position of the first entry of `links` that equals `link`.
pub open spec fn is_first_match(links: Seq<LinkSpec>, link: LinkSpec, i: int) -> bool {
    &&& 0 <= i < links.len()
    &&& links[i] == link
    &&& forall|j: int| 0 <= j < i ==> links[j] != link
}

/// The position of the first entry of `links` that equals `link`, where
/// there is one.
pub open spec fn first_match(links: Seq<LinkSpec>, link: LinkSpec) -> int {
    choose|i: int| is_first_match(links, link, i)
}

/// What must hold of the inode stored under number `ino`.
pub open spec fn inode_wf(ino: u64, inode: InodeSpec) -> bool {
    &&& inode.attr.ino == ino
    &&& inode.attr.nlink == inode.links.len()
    &&& inode.attr.perm == default_perm(inode.attr.kind)
}

impl TableView {
    /// Whether an inode with this number exists.
    pub open spec fn contains(self, ino: u64) -> bool {
        self.inodes.contains_key(ino)
    }

    /// Whether `link` is one of the entries of inode `ino`.
    pub open spec fn has_link(self, ino: u64, link: LinkSpec) -> bool {
        self.contains(ino) && self.inodes[ino].links.contains(link)
    }

    /// Whether `link` resolves to any inode at all.
    pub open spec fn taken(self, link: LinkSpec) -> bool {
        exists|ino: u64| self.has_link(ino, link)
    }

    /// Whether `link` is an entry of `ino` that may be removed: every entry
    /// may, except the one under which the root stands from the start.
    pub open spec fn removable(self, ino: u64, link: LinkSpec) -> bool {
        self.has_link(ino, link) && !(ino == ROOT_INO && link == root_link())
    }

    /// `has_link`, or `removable` where `protect_root` is set.
    pub open spec fn holds(self, ino: u64, link: LinkSpec, protect_root: bool) -> bool {
        self.has_link(ino, link) && !(protect_root && ino == ROOT_INO && link == root_link())
    }

    /// The invariant of the table: number 0 is never used, the root exists,
    /// is a directory and keeps its first entry, every inode carries its own
    /// number, a link count equal to the number of its entries and the
    /// permissions of its kind, and all numbers in use lie below the next one
    /// to be handed out.
    pub open spec fn wf(self) -> bool {
        &&& !self.contains(0)
        &&& self.next_ino >= 2
        &&& self.contains(ROOT_INO)
        &&& self.inodes[ROOT_INO].attr.kind == FileKind::Directory
        &&& self.inodes[ROOT_INO].links.contains(root_link())
        &&& forall|ino: u64| #[trigger]
            self.contains(ino) ==> inode_wf(ino, self.inodes[ino]) && ino < self.next_ino
    }

    /// A table that holds the root directory and nothing else.
    pub open spec fn init(uid: u32, gid: u32, now: Timestamp) -> TableView {
        let root = InodeSpec {
            attr: Attributes {
                nlink: 1,
                ..fresh_attributes(ROOT_INO, 0, FileKind::Directory, uid, gid, now)
            },
            generation: 0,
            links: seq![root_link()],
        };
        TableView { inodes: Map::<u64, InodeSpec>::empty().insert(ROOT_INO, root), next_ino: 2 }
    }

    /// The table after an inode has been allocated under `self.next_ino`,
    /// with no entry yet and generation 0.
    pub open spec fn allocate(
        self,
        kind: FileKind,
        uid: u32,
        gid: u32,
        size: u64,
        now: Timestamp,
    ) -> TableView {
        let inode = InodeSpec {
            attr: fresh_attributes(self.next_ino, size, kind, uid, gid, now),
            generation: 0,
            links: Seq::empty(),
        };
        TableView {
            inodes: self.inodes.insert(self.next_ino, inode),
            next_ino: (self.next_ino + 1) as u64,
        }
    }

    /// The table after `link` has been appended to the entries of `ino`:
    /// the link count and the generation go up by one.
    pub open spec fn attach(self, ino: u64, link: LinkSpec) -> TableView {
        let before = self.inodes[ino];
        let after = InodeSpec {
            attr: Attributes { nlink: (before.attr.nlink + 1) as u32, ..before.attr },
            generation: (before.generation + 1) as u64,
            links: before.links.push(link),
        };
        TableView { inodes: self.inodes.insert(ino, after), ..self }
    }

    /// The table after the first entry of `ino` that equals `link` has been
    /// removed. An inode left without entries is gone; one that keeps some
    /// has its link count lowered and its generation raised by one.
    pub open spec fn detach(self, ino: u64, link: LinkSpec) -> TableView {
        let before = self.inodes[ino];
        let rest = before.links.remove(first_match(before.links, link));
        if rest.len() == 0 {
            TableView { inodes: self.inodes.remove(ino), ..self }
        } else {
            let after = InodeSpec {
                attr: Attributes { nlink: (before.attr.nlink - 1) as u32, ..before.attr },
                generation: (before.generation + 1) as u64,
                links: rest,
            };
            TableView { inodes: self.inodes.insert(ino, after), ..self }
        }
    }

    /// The table after a change request has been applied to `ino`: the
    /// attributes change as `apply_changes` says, the generation goes up by one.
    pub open spec fn update_attributes(self, ino: u64, changes: SetAttr) -> TableView {
        let before = self.inodes[ino];
        let after = InodeSpec {
            attr: apply_changes(before.attr, changes),
            generation: (before.generation + 1) as u64,
            ..before
        };
        TableView { inodes: self.inodes.insert(ino, after), ..self }
    }

    /// The table after a write of `size` bytes to `ino`: the size is set, the
    /// generation goes up by one.
    pub open spec fn record_write(self, ino: u64, size: u64) -> TableView {
        let before = self.inodes[ino];
        let after = InodeSpec {
            attr: Attributes { size, ..before.attr },
            generation: (before.generation + 1) as u64,
            ..before
        };
        TableView { inodes: self.inodes.insert(ino, after), ..self }
    }
}

/// Two positions that are both the first match are the same position.
pub proof fn lemma_first_match_is(links: Seq<LinkSpec>, link: LinkSpec, i: int)
    requires
        is_first_match(links, link, i),
    ensures
        first_match(links, link) == i,
{
    let c = first_match(links, link);
    assert(is_first_match(links, link, c));
    if c < i {
        assert(links[c] != link);
    } else if i < c {
        assert(links[i] != link);
    }
}

/// Where a sequence holds `link`, its first match is a position of `link`.
pub proof fn lemma_first_match_exists(links: Seq<LinkSpec>, link: LinkSpec)
    requires
        links.contains(link),
    ensures
        is_first_match(links, link, first_match(links, link)),
    decreases links.len(),
{
    let k = choose|k: int| 0 <= k < links.len() && links[k] == link;
    lemma_first_match_below(links, link, k);
}

/// Where `links[k]` equals `link`, some position up to `k` is the first match.
proof fn lemma_first_match_below(links: Seq<LinkSpec>, link: LinkSpec, k: int)
    requires
        0 <= k < links.len(),
        links[k] == link,
    ensures
        exists|i: int| is_first_match(links, link, i),
    decreases k,
{
    if forall|j: int| 0 <= j < k ==> links[j] != link {
        assert(is_first_match(links, link, k));
    } else {
        let j = choose|j: int| 0 <= j < k && links[j] == link;
        lemma_first_match_below(links, link, j);
    }
}

/// Removing the first match of one entry keeps every other entry.
pub proof fn lemma_detach_keeps_others(links: Seq<LinkSpec>, gone: LinkSpec, kept: LinkSpec)
    requires
        links.contains(gone),
        links.contains(kept),
        kept != gone,
    ensures
        links.remove(first_match(links, gone)).contains(kept),
{
    lemma_first_match_exists(links, gone);
    let i = first_match(links, gone);
    let k = choose|k: int| 0 <= k < links.len() && links[k] == kept;
    let rest = links.remove(i);
    if k < i {
        assert(rest[k] == kept);
    } else {
        assert(rest[k - 1] == kept);
    }
}

/// Allocation keeps the table's invariant.
pub proof fn lemma_allocate_wf(
    t: TableView,
    kind: FileKind,
    uid: u32,
    gid: u32,
    size: u64,
    now: Timestamp,
)
    requires
        t.wf(),
        t.next_ino < u64::MAX,
    ensures
        t.allocate(kind, uid, gid, size, now).wf(),
        !t.contains(t.next_ino),
{
    let n = t.allocate(kind, uid, gid, size, now);
    assert(t.contains(ROOT_INO));
    if t.contains(t.next_ino) {
        assert(t.next_ino < t.next_ino);
    }
    assert forall|ino: u64| #[trigger] n.contains(ino) implies inode_wf(ino, n.inodes[ino]) && ino
        < n.next_ino by {
        if ino != t.next_ino {
            assert(t.contains(ino));
        }
    }
}

/// A change of attributes keeps the table's invariant.
pub proof fn lemma_update_attributes_wf(t: TableView, ino: u64, changes: SetAttr)
    requires
        t.wf(),
        t.contains(ino),
    ensures
        t.update_attributes(ino, changes).wf(),
{
    let n = t.update_attributes(ino, changes);
    assert(t.contains(ROOT_INO));
    assert forall|i: u64| #[trigger] n.contains(i) implies inode_wf(i, n.inodes[i]) && i
        < n.next_ino by {
        assert(t.contains(i));
    }
}

/// Recording a write keeps the table's invariant.
pub proof fn lemma_record_write_wf(t: TableView, ino: u64, size: u64)
    requires
        t.wf(),
        t.contains(ino),
    ensures
        t.record_write(ino, size).wf(),
{
    let n = t.record_write(ino, size);
    assert(t.contains(ROOT_INO));
    assert forall|i: u64| #[trigger] n.contains(i) implies inode_wf(i, n.inodes[i]) && i
        < n.next_ino by {
        assert(t.contains(i));
    }
}

/// Appending an entry keeps the table's invariant.
pub proof fn lemma_attach_wf(t: TableView, ino: u64, link: LinkSpec)
    requires
        t.wf(),
        t.contains(ino),
        t.inodes[ino].attr.nlink < u32::MAX,
    ensures
        t.attach(ino, link).wf(),
{
    let n = t.attach(ino, link);
    assert(t.contains(ROOT_INO));
    assert forall|i: u64| #[trigger] n.contains(i) implies inode_wf(i, n.inodes[i]) && i
        < n.next_ino by {
        assert(t.contains(i));
    }
    if ino == ROOT_INO {
        let links = t.inodes[ino].links;
        let k = choose|k: int| 0 <= k < links.len() && links[k] == root_link();
        assert(links.push(link)[k] == root_link());
    }
}

/// Removing a removable entry keeps the table's invariant.
pub proof fn lemma_detach_wf(t: TableView, ino: u64, link: LinkSpec)
    requires
        t.wf(),
        t.removable(ino, link),
    ensures
        t.detach(ino, link).wf(),
{
    let n = t.detach(ino, link);
    let links = t.inodes[ino].links;
    lemma_first_match_exists(links, link);
    assert(t.contains(ROOT_INO));
    assert(t.contains(ino));
    if ino == ROOT_INO {
        lemma_detach_keeps_others(links, link, root_link());
    }
    assert forall|i: u64| #[trigger] n.contains(i) implies inode_wf(i, n.inodes[i]) && i
        < n.next_ino by {
        assert(t.contains(i));
    }
}

} // verus!
