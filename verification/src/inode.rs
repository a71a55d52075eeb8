//! The inode table: owner of all metadata and of the link entries from
//! which the directory index is derived.

use vstd::prelude::*;
use vstd::pervasive::unreached;
use vstd::std_specs::iter::IteratorSpec;
use std::collections::HashMap;
use crate::dir_model::{
    children_along, children_of, children_upto, dot_entries, entries_view, is_walk, listing,
    numbered, ChildSpec,
};
use crate::table_model::{
    is_first_match, lemma_allocate_wf, lemma_attach_wf, lemma_detach_wf, lemma_first_match_is,
    lemma_record_write_wf, lemma_update_attributes_wf, root_link, InodeSpec, LinkSpec, TableView,
};
use crate::types::{
    Attributes, DirEntry, FileKind, FsError, SetAttr, Timestamp, PARENT_PLACEHOLDER_INO, ROOT_INO,
};

verus! {

broadcast use vstd::std_specs::hash::group_hash_axioms;

/// One stored directory entry.
struct LinkEntry {
    parent: u64,
    name: String,
}

/// One stored inode.
struct Inode {
    links: Vec<LinkEntry>,
    attr: Attributes,
    generation: u64,
}

/// All inodes by number, and the number that the next allocation hands out.
pub struct InodeTable {
    inodes: HashMap<u64, Inode>,
    next_ino: u64,
}

/// What `remove_link` did: the inode that lost an entry, and whether that
/// was its last one, so that the inode is gone.
#[derive(Clone, Copy, Debug, PartialEq, Eq, Structural)]
pub struct Removed {
    pub ino: u64,
    pub destroyed: bool,
}

impl View for LinkEntry {
    type V = LinkSpec;

    closed spec fn view(&self) -> LinkSpec {
        LinkSpec { parent: self.parent, name: self.name@ }
    }
}

impl View for Inode {
    type V = InodeSpec;

    closed spec fn view(&self) -> InodeSpec {
        InodeSpec {
            attr: self.attr,
            generation: self.generation,
            links: self.links@.map_values(|l: LinkEntry| l@),
        }
    }
}

impl View for InodeTable {
    type V = TableView;

    closed spec fn view(&self) -> TableView {
        TableView {
            inodes: self.inodes@.map_values(|inode: Inode| inode@),
            next_ino: self.next_ino,
        }
    }
}

/// Searches `links` for the first entry `(parent, name)`.
fn find_link(links: &Vec<LinkEntry>, parent: u64, name: &String) -> (found: Option<usize>)
    ensures
        match found {
            Some(i) => is_first_match(
                links@.map_values(|l: LinkEntry| l@),
                LinkSpec { parent, name: name@ },
                i as int,
            ),
            None => !links@.map_values(|l: LinkEntry| l@).contains(
                LinkSpec { parent, name: name@ },
            ),
        },
{
    let ghost view = links@.map_values(|l: LinkEntry| l@);
    let ghost link = LinkSpec { parent, name: name@ };
    let mut i: usize = 0;
    while i < links.len()
        invariant
            i <= links.len(),
            view == links@.map_values(|l: LinkEntry| l@),
            link == (LinkSpec { parent, name: name@ }),
            forall|j: int| 0 <= j < i ==> view[j] != link,
        decreases links.len() - i,
    {
        if links[i].parent == parent && links[i].name == *name {
            assert(view[i as int] == link);
            return Some(i);
        }
        assert(view[i as int] != link);
        i = i + 1;
    }
    None
}

impl InodeTable {
    /// A table that holds the root directory, owned by `uid` and `gid`, and
    /// nothing else.
    pub fn new(uid: u32, gid: u32, now: Timestamp) -> (table: InodeTable)
        ensures
            table@ == TableView::init(uid, gid, now),
            table@.wf(),
    {
        let mut attr = Attributes::new(ROOT_INO, 0, FileKind::Directory, uid, gid, now);
        attr.nlink = 1;
        let mut links: Vec<LinkEntry> = Vec::new();
        links.push(LinkEntry { parent: 0, name: "/".to_owned() });
        let mut inodes: HashMap<u64, Inode> = HashMap::new();
        let root = Inode { links, attr, generation: 0 };
        assert(root@.links =~= seq![root_link()]);
        inodes.insert(ROOT_INO, root);
        let table = InodeTable { inodes, next_ino: 2 };
        assert(table@.inodes =~= TableView::init(uid, gid, now).inodes);
        assert(seq![root_link()][0] == root_link());
        table
    }

    /// Allocates an inode of the given kind under the next free number and
    /// returns that number. The inode has no entry yet: the caller adds one.
    pub fn allocate(&mut self, kind: FileKind, uid: u32, gid: u32, size: u64, now: Timestamp) -> (ino:
        u64)
        requires
            old(self)@.wf(),
            old(self)@.next_ino < u64::MAX,
        ensures
            ino == old(self)@.next_ino,
            !old(self)@.contains(ino),
            final(self)@ == old(self)@.allocate(kind, uid, gid, size, now),
            final(self)@.wf(),
    {
        proof {
            lemma_allocate_wf(self@, kind, uid, gid, size, now);
        }
        let ino = self.next_ino;
        let attr = Attributes::new(ino, size, kind, uid, gid, now);
        let inode = Inode { links: Vec::new(), attr, generation: 0 };
        assert(inode@.links =~= Seq::<LinkSpec>::empty());
        self.inodes.insert(ino, inode);
        self.next_ino = ino + 1;
        assert(self@.inodes =~= old(self)@.allocate(kind, uid, gid, size, now).inodes);
        ino
    }

    /// Whether an inode with this number exists.
    pub fn contains(&self, ino: u64) -> (present: bool)
        ensures
            present == self@.contains(ino),
    {
        self.inodes.contains_key(&ino)
    }

    /// The number that the next allocation will hand out.
    pub fn next_ino(&self) -> (next: u64)
        ensures
            next == self@.next_ino,
    {
        self.next_ino
    }

    /// The attributes of `ino`.
    pub fn get_attributes(&self, ino: u64) -> (r: Result<Attributes, FsError>)
        ensures
            match r {
                Ok(attr) => self@.contains(ino) && attr == self@.inodes[ino].attr,
                Err(e) => e == FsError::NotFound && !self@.contains(ino),
            },
    {
        match self.inodes.get(&ino) {
            Some(inode) => Ok(inode.attr),
            None => Err(FsError::NotFound),
        }
    }

    /// The generation of `ino`, where it exists.
    pub fn generation(&self, ino: u64) -> (r: Option<u64>)
        ensures
            match r {
                Some(g) => self@.contains(ino) && g == self@.inodes[ino].generation,
                None => !self@.contains(ino),
            },
    {
        match self.inodes.get(&ino) {
            Some(inode) => Some(inode.generation),
            None => None,
        }
    }

    /// Applies a change request to `ino` and returns the new attributes.
    pub fn update_attributes(&mut self, ino: u64, changes: &SetAttr) -> (r: Result<
        Attributes,
        FsError,
    >)
        requires
            old(self)@.wf(),
            old(self)@.contains(ino) ==> old(self)@.inodes[ino].generation < u64::MAX,
        ensures
            final(self)@.wf(),
            match r {
                Ok(attr) => {
                    &&& old(self)@.contains(ino)
                    &&& final(self)@ == old(self)@.update_attributes(ino, *changes)
                    &&& attr == final(self)@.inodes[ino].attr
                },
                Err(e) => {
                    &&& e == FsError::AccessDenied
                    &&& !old(self)@.contains(ino)
                    &&& final(self)@ == old(self)@
                },
            },
    {
        match self.inodes.remove(&ino) {
            Some(mut inode) => {
                proof {
                    lemma_update_attributes_wf(old(self)@, ino, *changes);
                }
                inode.attr = inode.attr.with_changes(changes);
                inode.generation = inode.generation + 1;
                let attr = inode.attr;
                self.inodes.insert(ino, inode);
                assert(self@.inodes =~= old(self)@.update_attributes(ino, *changes).inodes);
                Ok(attr)
            },
            None => {
                assert(self@.inodes =~= old(self)@.inodes);
                Err(FsError::AccessDenied)
            },
        }
    }

    /// Records a write of `size` bytes to `ino`. Returns whether the inode
    /// exists; where it does not, nothing changes.
    pub fn record_write(&mut self, ino: u64, size: u64) -> (present: bool)
        requires
            old(self)@.wf(),
            old(self)@.contains(ino) ==> old(self)@.inodes[ino].generation < u64::MAX,
        ensures
            final(self)@.wf(),
            present == old(self)@.contains(ino),
            present ==> final(self)@ == old(self)@.record_write(ino, size),
            !present ==> final(self)@ == old(self)@,
    {
        match self.inodes.remove(&ino) {
            Some(mut inode) => {
                proof {
                    lemma_record_write_wf(old(self)@, ino, size);
                }
                inode.attr.size = size;
                inode.generation = inode.generation + 1;
                self.inodes.insert(ino, inode);
                assert(self@.inodes =~= old(self)@.record_write(ino, size).inodes);
                true
            },
            None => {
                assert(self@.inodes =~= old(self)@.inodes);
                false
            },
        }
    }

    /// Appends the entry `(parent, name)` to `ino` without asking whether the
    /// name is free: this is how a new inode gets its first entry.
    pub fn attach(&mut self, ino: u64, parent: u64, name: &str)
        requires
            old(self)@.wf(),
            old(self)@.contains(ino),
            old(self)@.inodes[ino].attr.nlink < u32::MAX,
            old(self)@.inodes[ino].generation < u64::MAX,
        ensures
            final(self)@ == old(self)@.attach(ino, LinkSpec { parent, name: name@ }),
            final(self)@.wf(),
    {
        let ghost link = LinkSpec { parent, name: name@ };
        match self.inodes.remove(&ino) {
            Some(mut inode) => {
                let ghost before = inode@;
                inode.links.push(LinkEntry { parent, name: name.to_owned() });
                inode.attr.nlink = inode.attr.nlink + 1;
                inode.generation = inode.generation + 1;
                assert(inode@.links =~= before.links.push(link));
                self.inodes.insert(ino, inode);
                assert(self@.inodes =~= old(self)@.attach(ino, link).inodes);
                proof {
                    lemma_attach_wf(old(self)@, ino, link);
                }
            },
            None => unreached(),
        }
    }
}

/// The inode numbers of the pairs that a walk over the map yields.
spec fn keys_of(pairs: Seq<(&u64, &Inode)>) -> Seq<u64> {
    pairs.map_values(|p: (&u64, &Inode)| *p.0)
}

impl InodeTable {
    /// Looks for an inode that has the entry `(parent, name)`. With
    /// `protect_root` set, the root's own entry does not count.
    fn find_holder(&self, parent: u64, name: &String, protect_root: bool) -> (found: Option<u64>)
        ensures
            match found {
                Some(ino) => self@.holds(ino, LinkSpec { parent, name: name@ }, protect_root),
                None => forall|ino: u64|
                    !self@.holds(ino, LinkSpec { parent, name: name@ }, protect_root),
            },
    {
        let ghost link = LinkSpec { parent, name: name@ };
        let slash = "/".to_owned();
        let names_root = parent == 0 && *name == slash;
        assert(names_root <==> link == root_link());
        let ghost pairs = self.inodes.iter().remaining();
        for (k, inode) in it: self.inodes.iter()
            invariant
                it.seq() == pairs,
                link == (LinkSpec { parent, name: name@ }),
                names_root <==> link == root_link(),
                forall|j: int|
                    0 <= j < pairs.len() ==> self.inodes@.contains_key(*pairs[j].0)
                        && self.inodes@[*pairs[j].0] == *pairs[j].1,
                forall|j: int| 0 <= j < it.index() ==> !self@.holds(*pairs[j].0, link, protect_root),
        {
            if !(protect_root && *k == ROOT_INO && names_root) {
                if find_link(&inode.links, parent, name).is_some() {
                    return Some(*k);
                }
            }
        }
        assert forall|ino: u64| !self@.holds(ino, link, protect_root) by {
            if self@.contains(ino) {
                assert(pairs.contains((&ino, &self.inodes@[ino])));
                let j = choose|j: int| 0 <= j < pairs.len() && pairs[j] == (&ino, &self.inodes@[ino]);
                assert(!self@.holds(*pairs[j].0, link, protect_root));
            }
        }
        None
    }

    /// Resolves `(parent, name)` to an inode that has that entry.
    pub fn resolve(&self, parent: u64, name: &str) -> (found: Option<u64>)
        ensures
            match found {
                Some(ino) => self@.has_link(ino, LinkSpec { parent, name: name@ }),
                None => !self@.taken(LinkSpec { parent, name: name@ }),
            },
    {
        let ghost link = LinkSpec { parent, name: name@ };
        let owned = name.to_owned();
        let found = self.find_holder(parent, &owned, false);
        proof {
            if found is None {
                assert forall|ino: u64| !self@.has_link(ino, link) by {
                    assert(!self@.holds(ino, link, false));
                }
            }
        }
        found
    }

    /// Adds the entry `(parent, name)` to `ino`, unless the inode is missing
    /// or the name already resolves to some inode.
    pub fn add_link(&mut self, ino: u64, parent: u64, name: &str) -> (r: Result<(), FsError>)
        requires
            old(self)@.wf(),
            old(self)@.contains(ino) ==> old(self)@.inodes[ino].attr.nlink < u32::MAX && old(
                self,
            )@.inodes[ino].generation < u64::MAX,
        ensures
            final(self)@.wf(),
            match r {
                Ok(()) => {
                    &&& old(self)@.contains(ino)
                    &&& !old(self)@.taken(LinkSpec { parent, name: name@ })
                    &&& final(self)@ == old(self)@.attach(ino, LinkSpec { parent, name: name@ })
                },
                Err(FsError::NotFound) => !old(self)@.contains(ino) && final(self)@ == old(self)@,
                Err(FsError::AlreadyExists) => {
                    &&& old(self)@.contains(ino)
                    &&& old(self)@.taken(LinkSpec { parent, name: name@ })
                    &&& final(self)@ == old(self)@
                },
                Err(FsError::AccessDenied) => false,
            },
    {
        if !self.inodes.contains_key(&ino) {
            return Err(FsError::NotFound);
        }
        let owned = name.to_owned();
        match self.find_holder(parent, &owned, false) {
            Some(_) => Err(FsError::AlreadyExists),
            None => {
                proof {
                    let link = LinkSpec { parent, name: name@ };
                    assert forall|other: u64| !self@.has_link(other, link) by {
                        assert(!self@.holds(other, link, false));
                    }
                }
                self.attach(ino, parent, name);
                Ok(())
            },
        }
    }

    /// Removes the entry `(parent, name)` from an inode that has it. An inode
    /// that loses its last entry leaves the table. The root's own entry is
    /// never removed.
    pub fn remove_link(&mut self, parent: u64, name: &str) -> (r: Result<Removed, FsError>)
        requires
            old(self)@.wf(),
            forall|ino: u64| #[trigger]
                old(self)@.removable(ino, LinkSpec { parent, name: name@ }) ==> old(
                    self,
                )@.inodes[ino].generation < u64::MAX,
        ensures
            final(self)@.wf(),
            match r {
                Ok(removed) => {
                    &&& old(self)@.removable(removed.ino, LinkSpec { parent, name: name@ })
                    &&& final(self)@ == old(self)@.detach(
                        removed.ino,
                        LinkSpec { parent, name: name@ },
                    )
                    &&& removed.destroyed == !final(self)@.contains(removed.ino)
                },
                Err(e) => {
                    &&& e == FsError::AccessDenied
                    &&& forall|ino: u64|
                        !old(self)@.removable(ino, LinkSpec { parent, name: name@ })
                    &&& final(self)@ == old(self)@
                },
            },
    {
        let ghost link = LinkSpec { parent, name: name@ };
        let owned = name.to_owned();
        let ino = match self.find_holder(parent, &owned, true) {
            Some(ino) => ino,
            None => {
                assert forall|ino: u64| !old(self)@.removable(ino, link) by {
                    assert(!old(self)@.holds(ino, link, true));
                }
                return Err(FsError::AccessDenied);
            },
        };
        assert(old(self)@.removable(ino, link));
        proof {
            lemma_detach_wf(old(self)@, ino, link);
        }
        match self.inodes.remove(&ino) {
            Some(mut inode) => {
                let ghost before = inode@;
                match find_link(&inode.links, parent, &owned) {
                    Some(i) => {
                        proof {
                            lemma_first_match_is(before.links, link, i as int);
                        }
                        inode.links.remove(i);
                        assert(inode@.links =~= before.links.remove(i as int));
                        if inode.links.len() == 0 {
                            assert(self@.inodes =~= old(self)@.detach(ino, link).inodes);
                            Ok(Removed { ino, destroyed: true })
                        } else {
                            inode.attr.nlink = inode.attr.nlink - 1;
                            inode.generation = inode.generation + 1;
                            self.inodes.insert(ino, inode);
                            assert(self@.inodes =~= old(self)@.detach(ino, link).inodes);
                            Ok(Removed { ino, destroyed: false })
                        }
                    },
                    None => unreached(),
                }
            },
            None => unreached(),
        }
    }

    /// Whether `remove_link(parent, name)` may be called: no inode that
    /// could lose the entry has used up its generation counter.
    pub fn removal_ready(&self, parent: u64, name: &str) -> (ready: bool)
        ensures
            ready == forall|ino: u64| #[trigger]
                self@.removable(ino, LinkSpec { parent, name: name@ })
                    ==> self@.inodes[ino].generation < u64::MAX,
    {
        let ghost link = LinkSpec { parent, name: name@ };
        let owned = name.to_owned();
        let slash = "/".to_owned();
        let names_root = parent == 0 && owned == slash;
        assert(names_root <==> link == root_link());
        let ghost pairs = self.inodes.iter().remaining();
        for (k, inode) in it: self.inodes.iter()
            invariant
                it.seq() == pairs,
                link == (LinkSpec { parent, name: owned@ }),
                link == (LinkSpec { parent, name: name@ }),
                names_root <==> link == root_link(),
                forall|j: int|
                    0 <= j < pairs.len() ==> self.inodes@.contains_key(*pairs[j].0)
                        && self.inodes@[*pairs[j].0] == *pairs[j].1,
                forall|j: int|
                    0 <= j < it.index() && #[trigger] self@.removable(*pairs[j].0, link)
                        ==> self@.inodes[*pairs[j].0].generation < u64::MAX,
        {
            if inode.generation == u64::MAX && !(*k == ROOT_INO && names_root) {
                if find_link(&inode.links, parent, &owned).is_some() {
                    assert(self@.removable(*k, link));
                    assert(self@.inodes[*k].generation == u64::MAX);
                    return false;
                }
            }
        }
        assert forall|ino: u64| #[trigger] self@.removable(ino, link) implies self@.inodes[ino].generation
            < u64::MAX by {
            assert(pairs.contains((&ino, &self.inodes@[ino])));
            let j = choose|j: int| 0 <= j < pairs.len() && pairs[j] == (&ino, &self.inodes@[ino]);
            assert(self@.removable(*pairs[j].0, link));
        }
        true
    }

    /// Lists directory `dir`: `.` and `..` first, then every entry, of any
    /// inode, whose parent is `dir`. The children come inode by inode in the
    /// order in which the table is walked, which is not fixed.
    pub fn list_dir(&self, dir: u64) -> (entries: Vec<DirEntry>)
        ensures
            exists|order: Seq<u64>| #[trigger]
                is_walk(self@, order) && entries_view(entries@) == listing(self@, order, dir),
    {
        let mut out: Vec<DirEntry> = Vec::new();
        out.push(DirEntry { ino: dir, offset: 0, kind: FileKind::Directory, name: ".".to_owned() });
        out.push(
            DirEntry {
                ino: PARENT_PLACEHOLDER_INO,
                offset: 1,
                kind: FileKind::Directory,
                name: "..".to_owned(),
            },
        );
        assert(entries_view(out@) =~= numbered(dot_entries(dir)));
        let ghost pairs = self.inodes.iter().remaining();
        let ghost order = keys_of(pairs);
        for (k, inode) in it: self.inodes.iter()
            invariant
                it.seq() == pairs,
                pairs.no_duplicates(),
                order == keys_of(pairs),
                forall|j: int|
                    0 <= j < pairs.len() ==> self.inodes@.contains_key(*pairs[j].0)
                        && self.inodes@[*pairs[j].0] == *pairs[j].1,
                entries_view(out@) == numbered(
                    dot_entries(dir) + children_along(self@, order, dir, it.index()),
                ),
        {
            let ghost idx = it.index();
            let ghost sofar = dot_entries(dir) + children_along(self@, order, dir, idx);
            assert(order[idx] == *k);
            assert(self@.inodes[*k] == inode@);
            let mut j: usize = 0;
            while j < inode.links.len()
                invariant
                    j <= inode.links.len(),
                    inode@.links.len() == inode.links.len(),
                    entries_view(out@) == numbered(sofar + children_upto(inode@, dir, j as int)),
                decreases inode.links.len() - j,
            {
                let ghost lines = sofar + children_upto(inode@, dir, j as int);
                let ghost before = out@;
                assert(entries_view(before).len() == lines.len());
                if inode.links[j].parent == dir {
                    let offset = out.len() as u64;
                    out.push(
                        DirEntry {
                            ino: inode.attr.ino,
                            offset,
                            kind: inode.attr.kind,
                            name: inode.links[j].name.clone(),
                        },
                    );
                    proof {
                        let line = ChildSpec {
                            ino: inode@.attr.ino,
                            kind: inode@.attr.kind,
                            name: inode@.links[j as int].name,
                        };
                        assert(sofar + children_upto(inode@, dir, j + 1) =~= lines.push(line));
                        assert(out@ == before.push(out@[before.len() as int]));
                        assert(out@[before.len() as int]@ == numbered(lines.push(line))[lines.len() as int]);
                        assert forall|k: int| 0 <= k < lines.len() implies entries_view(out@)[k]
                            == numbered(lines.push(line))[k] by {
                            assert(entries_view(before)[k] == numbered(lines)[k]);
                        }
                        assert(entries_view(out@) =~= numbered(lines.push(line)));
                    }
                }
                j = j + 1;
            }
            proof {
                assert(children_along(self@, order, dir, idx + 1) == children_along(
                    self@,
                    order,
                    dir,
                    idx,
                ) + children_of(inode@, dir));
                assert(dot_entries(dir) + children_along(self@, order, dir, idx + 1) =~= sofar
                    + children_of(inode@, dir));
            }
        }
        proof {
            assert forall|a: int, b: int|
                0 <= a < order.len() && 0 <= b < order.len() && a != b implies order[a]
                != order[b] by {
                assert(self.inodes@[*pairs[a].0] == *pairs[a].1);
                assert(self.inodes@[*pairs[b].0] == *pairs[b].1);
                assert(pairs[a] != pairs[b]);
            }
            assert forall|ino: u64| self@.inodes.dom().contains(ino) implies order.to_set().contains(
                ino,
            ) by {
                assert(pairs.contains((&ino, &self.inodes@[ino])));
                let j = choose|j: int| 0 <= j < pairs.len() && pairs[j] == (&ino, &self.inodes@[ino]);
                assert(order[j] == ino);
            }
            assert forall|ino: u64| order.to_set().contains(ino) implies self@.inodes.dom().contains(
                ino,
            ) by {
                let j = choose|j: int| 0 <= j < order.len() && order[j] == ino;
                assert(self.inodes@.contains_key(*pairs[j].0));
            }
            assert(order.to_set() =~= self@.inodes.dom());
            assert(is_walk(self@, order));
        }
        out
    }
}

} // verus!
