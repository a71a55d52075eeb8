//! The directory index as contracts see it. Nothing of it is stored: a
//! directory's children are the link entries, over all inodes, whose parent
//! is that directory.

use vstd::prelude::*;
use crate::table_model::{InodeSpec, TableView};
use crate::types::{DirEntry, DirEntrySpec, FileKind, PARENT_PLACEHOLDER_INO};

verus! {

/// One line of a listing before it has been given its offset.
#[verifier::ext_equal]
pub struct ChildSpec {
    pub ino: u64,
    pub kind: FileKind,
    pub name: Seq<char>,
}

/// The lines that the first `n` entries of `inode` contribute to a listing
/// of `dir`: one for each entry whose parent is `dir`, in the order of the
/// entries.
pub open spec fn children_upto(inode: InodeSpec, dir: u64, n: int) -> Seq<ChildSpec>
    decreases n,
{
    if n <= 0 {
        Seq::empty()
    } else {
        let before = children_upto(inode, dir, n - 1);
        let link = inode.links[n - 1];
        if link.parent == dir {
            before.push(ChildSpec { ino: inode.attr.ino, kind: inode.attr.kind, name: link.name })
        } else {
            before
        }
    }
}

/// The lines that `inode` contributes to a listing of `dir`.
pub open spec fn children_of(inode: InodeSpec, dir: u64) -> Seq<ChildSpec> {
    children_upto(inode, dir, inode.links.len() as int)
}

/// The lines that the first `n` inodes of `order` contribute to a listing
/// of `dir`, inode after inode.
pub open spec fn children_along(t: TableView, order: Seq<u64>, dir: u64, n: int) -> Seq<ChildSpec>
    decreases n,
{
    if n <= 0 {
        Seq::empty()
    } else {
        children_along(t, order, dir, n - 1) + children_of(t.inodes[order[n - 1]], dir)
    }
}

/// The two lines that open every listing: `.` for the directory itself and
/// `..` with a fixed placeholder number.
pub open spec fn dot_entries(dir: u64) -> Seq<ChildSpec> {
    seq![
        ChildSpec { ino: dir, kind: FileKind::Directory, name: "."@ },
        ChildSpec { ino: PARENT_PLACEHOLDER_INO, kind: FileKind::Directory, name: ".."@ },
    ]
}

/// Lines with their offsets: each line's offset is its position.
pub open spec fn numbered(lines: Seq<ChildSpec>) -> Seq<DirEntrySpec> {
    Seq::new(
        lines.len(),
        |k: int|
            DirEntrySpec {
                ino: lines[k].ino,
                offset: k as u64,
                kind: lines[k].kind,
                name: lines[k].name,
            },
    )
}

/// `order` names every inode of the table exactly once.
pub open spec fn is_walk(t: TableView, order: Seq<u64>) -> bool {
    &&& order.no_duplicates()
    &&& order.to_set() == t.inodes.dom()
}

/// The listing of `dir` when the table is walked in `order`: `.` and `..`,
/// then the children, each at the offset that is its position.
pub open spec fn listing(t: TableView, order: Seq<u64>, dir: u64) -> Seq<DirEntrySpec> {
    numbered(dot_entries(dir) + children_along(t, order, dir, order.len() as int))
}

/// Executable entries as contracts see them.
pub open spec fn entries_view(entries: Seq<DirEntry>) -> Seq<DirEntrySpec> {
    entries.map_values(|e: DirEntry| e@)
}

} // verus!
