//! Laws of the filesystem, proved over the transitions that the operations
//! are specified by.

use vstd::prelude::*;
use crate::dir_model::{
    children_along, children_of, children_upto, dot_entries, is_walk, listing, ChildSpec,
};
use crate::fs_model::{lemma_unlink_wf, FsView};
use crate::table_model::{
    first_match, lemma_allocate_wf, lemma_first_match_exists, InodeSpec, LinkSpec, TableView,
};
use crate::types::{DirEntrySpec, FileKind, FsError, SetAttr, Timestamp, PARENT_PLACEHOLDER_INO};

verus! {

/// Round trip: after any bytes have been written to a regular file, reading
/// the file gives exactly those bytes.
pub proof fn law_write_then_read(s: FsView, ino: u64, data: Seq<u8>)
    requires
        s.table.contains(ino),
        s.table.inodes[ino].attr.kind == FileKind::RegularFile,
    ensures
        s.write(ino, data).read(ino) == Ok::<Seq<u8>, FsError>(data),
        s.write(ino, data).table.inodes[ino].attr.size == data.len() as u64,
{
}

/// Round trip for symlinks: the target given at creation is what `readlink`
/// answers.
pub proof fn law_symlink_then_readlink(
    s: FsView,
    link: LinkSpec,
    target: Seq<u8>,
    uid: u32,
    gid: u32,
    now: Timestamp,
)
    ensures
        s.symlink(link, target, uid, gid, now).readlink(s.table.next_ino) == Ok::<
            Seq<u8>,
            FsError,
        >(target),
{
}

/// Generation monotonicity: a write to an existing inode, and a change of
/// its attributes, each raise its generation.
pub proof fn law_generation_increases(s: FsView, ino: u64, data: Seq<u8>, changes: SetAttr)
    requires
        s.table.contains(ino),
        s.table.inodes[ino].generation < u64::MAX,
    ensures
        s.write(ino, data).table.inodes[ino].generation > s.table.inodes[ino].generation,
        s.setattr(ino, changes).table.inodes[ino].generation > s.table.inodes[ino].generation,
{
}

/// Uniqueness for `link`: once a name has been given to an inode, the same
/// name is refused with `AlreadyExists`, for that inode and for any other.
pub proof fn law_link_takes_name(s: FsView, ino: u64, other: u64, link: LinkSpec)
    requires
        s.table.contains(ino),
        s.table.contains(other),
    ensures
        s.link(ino, link).table.has_link(ino, link),
        s.link(ino, link).link_error(other, link) == Some(FsError::AlreadyExists),
{
    let n = s.link(ino, link);
    let links = s.table.inodes[ino].links;
    assert(links.push(link)[links.len() as int] == link);
    assert(n.table.has_link(ino, link));
}

/// No uniqueness for creation: an inode created under a name that another
/// inode already has leaves that inode its name, so that both stand under it.
pub proof fn law_create_keeps_other_holder(
    s: FsView,
    holder: u64,
    kind: FileKind,
    link: LinkSpec,
    uid: u32,
    gid: u32,
    now: Timestamp,
)
    requires
        s.wf(),
        s.table.has_link(holder, link),
    ensures
        holder != s.table.next_ino,
        s.create(kind, link, uid, gid, now).table.has_link(holder, link),
        s.create(kind, link, uid, gid, now).table.has_link(s.table.next_ino, link),
{
    let n = s.create(kind, link, uid, gid, now);
    assert(s.table.contains(holder));
    let links = n.table.inodes[s.table.next_ino].links;
    assert(links[0] == link);
}

/// The state after `ino` has been given the names `added[0]`, `added[1]`,
/// ... one after the other.
pub open spec fn link_each(s: FsView, ino: u64, added: Seq<LinkSpec>) -> FsView
    decreases added.len(),
{
    if added.len() == 0 {
        s
    } else {
        link_each(s, ino, added.drop_last()).link(ino, added.last())
    }
}

/// Every name in `added` is accepted by `link` at the time it is given.
pub open spec fn each_accepted(s: FsView, ino: u64, added: Seq<LinkSpec>) -> bool
    decreases added.len(),
{
    added.len() == 0 || {
        &&& each_accepted(s, ino, added.drop_last())
        &&& link_each(s, ino, added.drop_last()).link_error(ino, added.last()) is None
    }
}

/// Hard links accumulate: an inode that is given further names keeps the
/// names it had, has the new ones after them, and keeps its content; no
/// other inode and no content changes.
pub proof fn law_links_accumulate(s: FsView, ino: u64, added: Seq<LinkSpec>)
    requires
        s.table.contains(ino),
        each_accepted(s, ino, added),
    ensures
        link_each(s, ino, added).table.contains(ino),
        link_each(s, ino, added).table.inodes[ino].links == s.table.inodes[ino].links + added,
        link_each(s, ino, added).table.inodes.dom() == s.table.inodes.dom(),
        forall|other: u64|
            other != ino ==> link_each(s, ino, added).table.inodes[other]
                == s.table.inodes[other],
        link_each(s, ino, added).contents == s.contents,
    decreases added.len(),
{
    let links = s.table.inodes[ino].links;
    if added.len() == 0 {
        assert(links + added =~= links);
    } else {
        law_links_accumulate(s, ino, added.drop_last());
        let before = link_each(s, ino, added.drop_last());
        assert((links + added.drop_last()).push(added.last()) =~= links + added);
        assert(before.link(ino, added.last()).table.inodes.dom() =~= s.table.inodes.dom());
    }
}

/// The state after the entries `removed[0]`, `removed[1]`, ... of `ino`
/// have been removed one after the other.
pub open spec fn unlink_each(s: FsView, ino: u64, removed: Seq<LinkSpec>) -> FsView
    decreases removed.len(),
{
    if removed.len() == 0 {
        s
    } else {
        unlink_each(s, ino, removed.drop_last()).unlink(ino, removed.last())
    }
}

/// Every removal in `removed` is of an entry that `ino` has, and may lose,
/// at the time it is removed.
pub open spec fn each_removable(s: FsView, ino: u64, removed: Seq<LinkSpec>) -> bool
    decreases removed.len(),
{
    removed.len() == 0 || {
        &&& each_removable(s, ino, removed.drop_last())
        &&& unlink_each(s, ino, removed.drop_last()).table.removable(ino, removed.last())
    }
}

/// Hard-link lifecycle: an inode with `n` entries survives the removal of
/// any `n - 1` of them, in any order, with its content as it was; the
/// removal of the last one destroys the inode and its content.
pub proof fn law_link_lifecycle(s: FsView, ino: u64, removed: Seq<LinkSpec>)
    requires
        s.wf(),
        s.table.contains(ino),
        each_removable(s, ino, removed),
    ensures
        unlink_each(s, ino, removed).wf(),
        removed.len() <= s.table.inodes[ino].links.len(),
        removed.len() < s.table.inodes[ino].links.len() ==> {
            let after = unlink_each(s, ino, removed);
            &&& after.table.contains(ino)
            &&& after.table.inodes[ino].links.len() == s.table.inodes[ino].links.len()
                - removed.len()
            &&& after.table.inodes[ino].attr.nlink == s.table.inodes[ino].attr.nlink
                - removed.len()
            &&& after.contents.contains_key(ino) == s.contents.contains_key(ino)
            &&& after.contents.contains_key(ino) ==> after.contents[ino] == s.contents[ino]
        },
        removed.len() == s.table.inodes[ino].links.len() ==> {
            let after = unlink_each(s, ino, removed);
            &&& !after.table.contains(ino)
            &&& !after.contents.contains_key(ino)
        },
    decreases removed.len(),
{
    if removed.len() > 0 {
        let before = unlink_each(s, ino, removed.drop_last());
        law_link_lifecycle(s, ino, removed.drop_last());
        assert(before.table.removable(ino, removed.last()));
        assert(before.table.contains(ino));
        lemma_unlink_wf(before, ino, removed.last());
        lemma_first_match_exists(before.table.inodes[ino].links, removed.last());
        assert(s.table.contains(ino));
    }
}

/// Removal of a directory's entry asks nothing of its children: a directory
/// that stands under one name only is destroyed by the removal of that
/// name, and an inode that stood in it keeps its entry there.
pub proof fn law_rmdir_ignores_children(
    s: FsView,
    dir: u64,
    link: LinkSpec,
    child: u64,
    child_link: LinkSpec,
)
    requires
        s.wf(),
        s.table.removable(dir, link),
        s.table.inodes[dir].links.len() == 1,
        child != dir,
        s.table.has_link(child, child_link),
        child_link.parent == dir,
    ensures
        !s.unlink(dir, link).table.contains(dir),
        s.unlink(dir, link).table.has_link(child, child_link),
        s.unlink(dir, link).table.inodes[child] == s.table.inodes[child],
{
    lemma_first_match_exists(s.table.inodes[dir].links, link);
}

/// The lines that one inode contributes to a listing of `dir` are entries
/// of that inode under `dir`; there are none where it has no such entry.
proof fn lemma_children_upto(t: TableView, ino: u64, dir: u64, n: int)
    requires
        t.contains(ino),
        t.inodes[ino].attr.ino == ino,
        0 <= n <= t.inodes[ino].links.len(),
    ensures
        forall|k: int|
            0 <= k < children_upto(t.inodes[ino], dir, n).len() ==> is_child_line(
                t,
                dir,
                #[trigger] children_upto(t.inodes[ino], dir, n)[k],
            ),
        (forall|link: LinkSpec| t.has_link(ino, link) ==> link.parent != dir) ==> children_upto(
            t.inodes[ino],
            dir,
            n,
        ).len() == 0,
    decreases n,
{
    if n > 0 {
        lemma_children_upto(t, ino, dir, n - 1);
        let inode = t.inodes[ino];
        let link = inode.links[n - 1];
        assert(t.has_link(ino, link));
        let before = children_upto(inode, dir, n - 1);
        let now = children_upto(inode, dir, n);
        if link.parent == dir {
            let line = ChildSpec { ino: inode.attr.ino, kind: inode.attr.kind, name: link.name };
            assert(link == LinkSpec { parent: dir, name: line.name });
            assert(is_child_line(t, dir, line));
            assert(now == before.push(line));
        }
        assert forall|k: int| 0 <= k < now.len() implies is_child_line(t, dir, #[trigger] now[k]) by {
            if k < before.len() {
                assert(now[k] == before[k]);
            }
        }
    }
}

/// `line` reports an entry under `dir` of an inode that exists, with that
/// inode's number and kind.
pub open spec fn is_child_line(t: TableView, dir: u64, line: ChildSpec) -> bool {
    &&& t.has_link(line.ino, LinkSpec { parent: dir, name: line.name })
    &&& line.kind == t.inodes[line.ino].attr.kind
}

/// The lines that a walk contributes to a listing of `dir` are entries
/// under `dir`; there are none where nothing stands under `dir`.
proof fn lemma_children_along(t: TableView, order: Seq<u64>, dir: u64, n: int)
    requires
        t.wf(),
        0 <= n <= order.len(),
        forall|i: int| 0 <= i < order.len() ==> t.contains(#[trigger] order[i]),
    ensures
        forall|k: int|
            0 <= k < children_along(t, order, dir, n).len() ==> is_child_line(
                t,
                dir,
                #[trigger] children_along(t, order, dir, n)[k],
            ),
        (forall|ino: u64, link: LinkSpec| t.has_link(ino, link) ==> link.parent != dir)
            ==> children_along(t, order, dir, n).len() == 0,
    decreases n,
{
    if n > 0 {
        lemma_children_along(t, order, dir, n - 1);
        let ino = order[n - 1];
        assert(t.contains(ino));
        lemma_children_upto(t, ino, dir, t.inodes[ino].links.len() as int);
        let head = children_along(t, order, dir, n - 1);
        let tail = children_of(t.inodes[ino], dir);
        assert forall|k: int| 0 <= k < (head + tail).len() implies is_child_line(
            t,
            dir,
            #[trigger] (head + tail)[k],
        ) by {
            if k < head.len() {
                assert((head + tail)[k] == head[k]);
            } else {
                assert((head + tail)[k] == tail[k - head.len()]);
            }
        }
    }
}

/// Directory listing: whatever the table holds and in whatever order it is
/// walked, a listing opens with `.` at offset 0 and `..` at offset 1; every
/// line after them stands at the offset that is its position and reports an
/// entry under the directory; and a directory under which nothing stands
/// lists as those two lines alone.
pub proof fn law_listing_opens_with_dot_entries(t: TableView, order: Seq<u64>, dir: u64)
    requires
        t.wf(),
        forall|i: int| 0 <= i < order.len() ==> t.contains(#[trigger] order[i]),
    ensures
        listing(t, order, dir).len() >= 2,
        listing(t, order, dir)[0] == (DirEntrySpec {
            ino: dir,
            offset: 0,
            kind: FileKind::Directory,
            name: "."@,
        }),
        listing(t, order, dir)[1] == (DirEntrySpec {
            ino: PARENT_PLACEHOLDER_INO,
            offset: 1,
            kind: FileKind::Directory,
            name: ".."@,
        }),
        forall|k: int|
            2 <= k < listing(t, order, dir).len() ==> {
                let e = #[trigger] listing(t, order, dir)[k];
                &&& e.offset == k as u64
                &&& is_child_line(t, dir, ChildSpec { ino: e.ino, kind: e.kind, name: e.name })
            },
        (forall|ino: u64, link: LinkSpec| t.has_link(ino, link) ==> link.parent != dir) ==> listing(
            t,
            order,
            dir,
        ).len() == 2,
{
    let children = children_along(t, order, dir, order.len() as int);
    let lines = dot_entries(dir) + children;
    lemma_children_along(t, order, dir, order.len() as int);
    assert(lines[0] == dot_entries(dir)[0]);
    assert(lines[1] == dot_entries(dir)[1]);
    assert forall|k: int| 2 <= k < listing(t, order, dir).len() implies {
        let e = #[trigger] listing(t, order, dir)[k];
        &&& e.offset == k as u64
        &&& is_child_line(t, dir, ChildSpec { ino: e.ino, kind: e.kind, name: e.name })
    } by {
        assert(lines[k] == children[k - 2]);
        assert(is_child_line(t, dir, children[k - 2]));
    }
}

/// The line that entry `i` of `inode` contributes to a listing.
pub open spec fn line_of(inode: InodeSpec, i: int) -> ChildSpec {
    ChildSpec { ino: inode.attr.ino, kind: inode.attr.kind, name: inode.links[i].name }
}

/// Among the lines of the first `n` entries of `inode` is the line of each
/// of those entries that stands under `dir`.
proof fn lemma_children_upto_has(inode: InodeSpec, dir: u64, n: int, i: int)
    requires
        0 <= i < n <= inode.links.len(),
        inode.links[i].parent == dir,
    ensures
        children_upto(inode, dir, n).contains(line_of(inode, i)),
    decreases n,
{
    let before = children_upto(inode, dir, n - 1);
    let now = children_upto(inode, dir, n);
    if i == n - 1 {
        assert(now == before.push(line_of(inode, i)));
        assert(now[before.len() as int] == line_of(inode, i));
    } else {
        lemma_children_upto_has(inode, dir, n - 1, i);
        let k = choose|k: int| 0 <= k < before.len() && before[k] == line_of(inode, i);
        assert(now[k] == line_of(inode, i));
    }
}

/// Among the lines of the first `n` inodes of a walk is the line of each
/// entry under `dir` of each of those inodes.
proof fn lemma_children_along_has(
    t: TableView,
    order: Seq<u64>,
    dir: u64,
    n: int,
    m: int,
    i: int,
)
    requires
        0 <= m < n <= order.len(),
        0 <= i < t.inodes[order[m]].links.len(),
        t.inodes[order[m]].links[i].parent == dir,
    ensures
        children_along(t, order, dir, n).contains(line_of(t.inodes[order[m]], i)),
    decreases n,
{
    let line = line_of(t.inodes[order[m]], i);
    let head = children_along(t, order, dir, n - 1);
    let tail = children_of(t.inodes[order[n - 1]], dir);
    if m == n - 1 {
        let inode = t.inodes[order[m]];
        lemma_children_upto_has(inode, dir, inode.links.len() as int, i);
        let k = choose|k: int| 0 <= k < tail.len() && tail[k] == line;
        assert((head + tail)[head.len() + k] == line);
    } else {
        lemma_children_along_has(t, order, dir, n - 1, m, i);
        let k = choose|k: int| 0 <= k < head.len() && head[k] == line;
        assert((head + tail)[k] == line);
    }
}

/// A listing leaves nothing out: every entry under `dir`, of whatever
/// inode, has its line in the listing, after `.` and `..`.
pub proof fn law_listing_is_complete(t: TableView, order: Seq<u64>, dir: u64, ino: u64, i: int)
    requires
        is_walk(t, order),
        t.contains(ino),
        0 <= i < t.inodes[ino].links.len(),
        t.inodes[ino].links[i].parent == dir,
    ensures
        exists|k: int|
            2 <= k < listing(t, order, dir).len() && #[trigger] listing(t, order, dir)[k] == (
            DirEntrySpec {
                ino: t.inodes[ino].attr.ino,
                offset: k as u64,
                kind: t.inodes[ino].attr.kind,
                name: t.inodes[ino].links[i].name,
            }),
{
    assert(order.to_set().contains(ino));
    let m = choose|m: int| 0 <= m < order.len() && order[m] == ino;
    lemma_children_along_has(t, order, dir, order.len() as int, m, i);
    let children = children_along(t, order, dir, order.len() as int);
    let line = line_of(t.inodes[ino], i);
    let c = choose|c: int| 0 <= c < children.len() && children[c] == line;
    let lines = dot_entries(dir) + children;
    assert(lines[c + 2] == line);
    assert(listing(t, order, dir)[c + 2].name == line.name);
}

/// Entry `i` of inode `ino`.
pub open spec fn entry_at(t: TableView, ino: u64, i: int) -> LinkSpec {
    t.inodes[ino].links[i]
}

/// No `(parent, name)` pair occurs twice among all entries of the table:
/// neither under two inodes nor twice under one.
pub open spec fn names_unique(t: TableView) -> bool {
    forall|a: u64, i: int, b: u64, j: int|
        #![trigger entry_at(t, a, i), entry_at(t, b, j)]
        t.contains(a) && 0 <= i < t.inodes[a].links.len() && t.contains(b) && 0 <= j
            < t.inodes[b].links.len() && entry_at(t, a, i) == entry_at(t, b, j) ==> a == b && i
            == j
}

/// Where names are unique, a name resolves to one inode only, so that
/// `lookup` and `unlink` have no choice to make.
pub proof fn law_unique_name_has_one_holder(t: TableView, a: u64, b: u64, link: LinkSpec)
    requires
        names_unique(t),
        t.has_link(a, link),
        t.has_link(b, link),
    ensures
        a == b,
{
    let i = choose|i: int| 0 <= i < t.inodes[a].links.len() && t.inodes[a].links[i] == link;
    let j = choose|j: int| 0 <= j < t.inodes[b].links.len() && t.inodes[b].links[j] == link;
    assert(entry_at(t, a, i) == entry_at(t, b, j));
}

/// A fresh filesystem has unique names.
pub proof fn law_init_names_unique(uid: u32, gid: u32, now: Timestamp)
    ensures
        names_unique(FsView::init(uid, gid, now).table),
{
}

/// Appending an entry whose name is free keeps names unique.
pub proof fn lemma_attach_keeps_names_unique(t: TableView, ino: u64, link: LinkSpec)
    requires
        names_unique(t),
        t.contains(ino),
        !t.taken(link),
    ensures
        names_unique(t.attach(ino, link)),
{
    let n = t.attach(ino, link);
    let fresh = t.inodes[ino].links.len() as int;
    assert forall|a: u64, i: int, b: u64, j: int|
        #![trigger entry_at(n, a, i), entry_at(n, b, j)]
        n.contains(a) && 0 <= i < n.inodes[a].links.len() && n.contains(b) && 0 <= j
            < n.inodes[b].links.len() && entry_at(n, a, i) == entry_at(n, b, j) implies a == b
        && i == j by {
        let a_new = a == ino && i == fresh;
        let b_new = b == ino && j == fresh;
        if !a_new {
            assert(entry_at(n, a, i) == entry_at(t, a, i));
        }
        if !b_new {
            assert(entry_at(n, b, j) == entry_at(t, b, j));
        }
        if a_new && !b_new {
            assert(t.inodes[b].links[j] == link);
            assert(t.has_link(b, link));
        }
        if b_new && !a_new {
            assert(t.inodes[a].links[i] == link);
            assert(t.has_link(a, link));
        }
    }
}

/// Removing an entry keeps names unique.
pub proof fn lemma_detach_keeps_names_unique(t: TableView, ino: u64, link: LinkSpec)
    requires
        names_unique(t),
        t.has_link(ino, link),
    ensures
        names_unique(t.detach(ino, link)),
{
    let n = t.detach(ino, link);
    let links = t.inodes[ino].links;
    lemma_first_match_exists(links, link);
    let gone = first_match(links, link);
    assert forall|a: u64, i: int, b: u64, j: int|
        #![trigger entry_at(n, a, i), entry_at(n, b, j)]
        n.contains(a) && 0 <= i < n.inodes[a].links.len() && n.contains(b) && 0 <= j
            < n.inodes[b].links.len() && entry_at(n, a, i) == entry_at(n, b, j) implies a == b
        && i == j by {
        let i0 = if a == ino && i >= gone {
            i + 1
        } else {
            i
        };
        let j0 = if b == ino && j >= gone {
            j + 1
        } else {
            j
        };
        assert(entry_at(n, a, i) == entry_at(t, a, i0));
        assert(entry_at(n, b, j) == entry_at(t, b, j0));
    }
}

/// Where names are unique, a removed name resolves to nothing afterwards.
pub proof fn law_unlink_frees_the_name(s: FsView, ino: u64, link: LinkSpec)
    requires
        names_unique(s.table),
        s.table.removable(ino, link),
    ensures
        !s.unlink(ino, link).table.taken(link),
{
    let t = s.table;
    let n = s.unlink(ino, link).table;
    let links = t.inodes[ino].links;
    lemma_first_match_exists(links, link);
    let gone = first_match(links, link);
    assert forall|other: u64| !n.has_link(other, link) by {
        if n.has_link(other, link) {
            let i = choose|i: int|
                0 <= i < n.inodes[other].links.len() && n.inodes[other].links[i] == link;
            let i0 = if other == ino && i >= gone {
                i + 1
            } else {
                i
            };
            assert(entry_at(t, other, i0) == link);
            assert(entry_at(t, ino, gone) == link);
        }
    }
}

/// Uniqueness of names is kept by `link`, which refuses a taken name.
pub proof fn law_link_keeps_names_unique(s: FsView, ino: u64, link: LinkSpec)
    requires
        names_unique(s.table),
        s.link_error(ino, link) is None,
    ensures
        names_unique(s.link(ino, link).table),
{
    lemma_attach_keeps_names_unique(s.table, ino, link);
}

/// Uniqueness of names is kept by `unlink` and `rmdir`.
pub proof fn law_unlink_keeps_names_unique(s: FsView, ino: u64, link: LinkSpec)
    requires
        names_unique(s.table),
        s.table.removable(ino, link),
    ensures
        names_unique(s.unlink(ino, link).table),
{
    lemma_detach_keeps_names_unique(s.table, ino, link);
}

/// Uniqueness of names is kept by `create`, `mkdir` and `symlink` where the
/// name they are given is free. Where it is taken they break it: they do
/// not look.
pub proof fn law_creation_under_free_name_keeps_names_unique(
    s: FsView,
    kind: FileKind,
    link: LinkSpec,
    target: Seq<u8>,
    uid: u32,
    gid: u32,
    now: Timestamp,
)
    requires
        s.wf(),
        s.table.next_ino < u64::MAX,
        names_unique(s.table),
        !s.table.taken(link),
    ensures
        names_unique(s.create(kind, link, uid, gid, now).table),
        names_unique(s.symlink(link, target, uid, gid, now).table),
        forall|ino: u64|
            s.create(kind, link, uid, gid, now).table.has_link(ino, link) ==> ino
                == s.table.next_ino,
{
    lemma_creation_keeps_names_unique(s.table, kind, link, uid, gid, now);
    lemma_creation_keeps_names_unique(s.table, FileKind::Symlink, link, uid, gid, now);
    let n = s.create(kind, link, uid, gid, now).table;
    let links = n.inodes[s.table.next_ino].links;
    assert(links[0] == link);
    assert(n.has_link(s.table.next_ino, link));
    assert forall|ino: u64| n.has_link(ino, link) implies ino == s.table.next_ino by {
        law_unique_name_has_one_holder(n, ino, s.table.next_ino, link);
    }
}

/// Allocating an inode and giving it a free name keeps names unique.
proof fn lemma_creation_keeps_names_unique(
    t: TableView,
    kind: FileKind,
    link: LinkSpec,
    uid: u32,
    gid: u32,
    now: Timestamp,
)
    requires
        t.wf(),
        t.next_ino < u64::MAX,
        names_unique(t),
        !t.taken(link),
    ensures
        names_unique(t.allocate(kind, uid, gid, 0, now).attach(t.next_ino, link)),
{
    let mid = t.allocate(kind, uid, gid, 0, now);
    lemma_allocate_wf(t, kind, uid, gid, 0, now);
    assert forall|a: u64, i: int, b: u64, j: int|
        #![trigger entry_at(mid, a, i), entry_at(mid, b, j)]
        mid.contains(a) && 0 <= i < mid.inodes[a].links.len() && mid.contains(b) && 0 <= j
            < mid.inodes[b].links.len() && entry_at(mid, a, i) == entry_at(mid, b, j) implies a
        == b && i == j by {
        assert(entry_at(mid, a, i) == entry_at(t, a, i));
        assert(entry_at(mid, b, j) == entry_at(t, b, j));
    }
    assert forall|ino: u64| !mid.has_link(ino, link) by {
        if mid.has_link(ino, link) {
            assert(t.has_link(ino, link));
        }
    }
    lemma_attach_keeps_names_unique(mid, t.next_ino, link);
}

/// Uniqueness of names is kept by `write` and `setattr`, which touch no entry.
pub proof fn law_write_and_setattr_keep_names_unique(
    s: FsView,
    ino: u64,
    data: Seq<u8>,
    changes: SetAttr,
)
    requires
        names_unique(s.table),
    ensures
        names_unique(s.write(ino, data).table),
        names_unique(s.setattr(ino, changes).table),
{
    let w = s.write(ino, data).table;
    assert forall|a: u64, i: int, b: u64, j: int|
        #![trigger entry_at(w, a, i), entry_at(w, b, j)]
        w.contains(a) && 0 <= i < w.inodes[a].links.len() && w.contains(b) && 0 <= j
            < w.inodes[b].links.len() && entry_at(w, a, i) == entry_at(w, b, j) implies a == b
        && i == j by {
        assert(entry_at(w, a, i) == entry_at(s.table, a, i));
        assert(entry_at(w, b, j) == entry_at(s.table, b, j));
    }
    let c = s.setattr(ino, changes).table;
    assert forall|a: u64, i: int, b: u64, j: int|
        #![trigger entry_at(c, a, i), entry_at(c, b, j)]
        c.contains(a) && 0 <= i < c.inodes[a].links.len() && c.contains(b) && 0 <= j
            < c.inodes[b].links.len() && entry_at(c, a, i) == entry_at(c, b, j) implies a == b
        && i == j by {
        assert(entry_at(c, a, i) == entry_at(s.table, a, i));
        assert(entry_at(c, b, j) == entry_at(s.table, b, j));
    }
}

} // verus!
