//! Directory listings over a resolved path.  The filesystem hands over each
//! child's own name together with what a metadata query said it is; children
//! that are neither regular files nor directories are silently skipped, and
//! every surviving child is reported under its root-relative path, so that it
//! can be re-queried as-is.

use vstd::prelude::*;
use crate::breadcrumb::{Breadcrumb, build_breadcrumbs, crumb_at};
use crate::path_resolve::{ResolvedPath, join_rel};

verus! {

/// What a metadata query said a directory child is.
#[derive(Clone, Copy, Debug, PartialEq, Eq, Structural)]
pub enum EntryKind {
    File,
    Dir,
    Other,
}

/// A directory child as the filesystem reports it: its own name and its
/// classified kind.
#[derive(Debug)]
pub struct ChildEntry {
    pub name: String,
    pub kind: EntryKind,
}

/// One listed child: its root-relative path and whether it is a file.
#[derive(Debug)]
pub struct DirEntryInfo {
    pub path: String,
    pub is_file: bool,
}

/// The full answer to a directory listing: the trail of ancestors of the
/// listed directory, and its surviving children.
#[derive(Debug)]
pub struct ListDirResponse {
    pub breadcrumbs: Vec<Breadcrumb>,
    pub entries: Vec<DirEntryInfo>,
}

/// The root-relative path of a child named `name` of the directory `segs`.
pub open spec fn child_rel_path(segs: Seq<Seq<char>>, name: Seq<char>) -> Seq<char> {
    join_rel(segs.push(name))
}

/// The children as plain values: each child's name and kind.
pub open spec fn kid_views(kids: Seq<ChildEntry>) -> Seq<(Seq<char>, EntryKind)> {
    kids.map_values(|c: ChildEntry| (c.name@, c.kind))
}

/// The surviving entries of a listing, in filesystem order: one per child
/// of kind file or directory, under its root-relative path; others skipped.
pub open spec fn entries_spec(segs: Seq<Seq<char>>, kids: Seq<(Seq<char>, EntryKind)>) -> Seq<
    (Seq<char>, bool),
>
    decreases kids.len(),
{
    if kids.len() == 0 {
        Seq::<(Seq<char>, bool)>::empty()
    } else {
        let rest = entries_spec(segs, kids.drop_last());
        let kid = kids.last();
        match kid.1 {
            EntryKind::File => rest.push((child_rel_path(segs, kid.0), true)),
            EntryKind::Dir => rest.push((child_rel_path(segs, kid.0), false)),
            EntryKind::Other => rest,
        }
    }
}

/// A listing never surfaces a child whose kind is neither file nor
/// directory: every entry stems from a file or directory child, under that
/// child's root-relative path, flagged as a file exactly for file children.
pub proof fn lemma_entries_only_files_and_dirs(
    segs: Seq<Seq<char>>,
    kids: Seq<(Seq<char>, EntryKind)>,
    i: int,
)
    requires
        0 <= i < entries_spec(segs, kids).len(),
    ensures
        exists|j: int|
            0 <= j < kids.len() && (kids[j].1 == EntryKind::File || kids[j].1 == EntryKind::Dir)
                && entries_spec(segs, kids)[i] == (
                child_rel_path(segs, kids[j].0),
                kids[j].1 == EntryKind::File,
            ),
    decreases kids.len(),
{
    let all = entries_spec(segs, kids);
    let rest = entries_spec(segs, kids.drop_last());
    if i < rest.len() {
        lemma_entries_only_files_and_dirs(segs, kids.drop_last(), i);
        let j = choose|j: int|
            0 <= j < kids.drop_last().len() && (kids.drop_last()[j].1 == EntryKind::File
                || kids.drop_last()[j].1 == EntryKind::Dir) && entries_spec(
                segs,
                kids.drop_last(),
            )[i] == (
                child_rel_path(segs, kids.drop_last()[j].0),
                kids.drop_last()[j].1 == EntryKind::File,
            );
        assert(kids.drop_last()[j] == kids[j]);
        assert(all[i] == rest[i]);
    } else {
        let j = kids.len() - 1;
        assert(all[i] == (child_rel_path(segs, kids[j].0), kids[j].1 == EntryKind::File));
    }
}

/// Builds the listing of the directory `resolved` whose children the
/// filesystem reported, in its own order, as `children`.
pub fn build_list_response(resolved: &ResolvedPath, children: &Vec<ChildEntry>) -> (r:
    ListDirResponse)
    ensures
        r.breadcrumbs@.len() == resolved@.len(),
        forall|i: int|
            0 <= i < r.breadcrumbs@.len() ==> (r.breadcrumbs@[i].title@, r.breadcrumbs@[i].path@)
                == crumb_at(resolved@, i),
        r.entries@.len() == entries_spec(resolved@, kid_views(children@)).len(),
        forall|i: int|
            0 <= i < r.entries@.len() ==> (r.entries@[i].path@, r.entries@[i].is_file)
                == entries_spec(resolved@, kid_views(children@))[i],
{
    let breadcrumbs = build_breadcrumbs(resolved);
    let base = resolved.rel_path();
    let at_root = resolved.is_root();
    let ghost kv = kid_views(children@);
    let mut entries: Vec<DirEntryInfo> = Vec::new();
    let mut i: usize = 0;
    while i < children.len()
        invariant
            i <= children.len(),
            kv == kid_views(children@),
            base@ == join_rel(resolved@),
            at_root == (resolved@.len() == 0),
            entries@.len() == entries_spec(resolved@, kv.take(i as int)).len(),
            forall|k: int|
                0 <= k < entries@.len() ==> (entries@[k].path@, entries@[k].is_file)
                    == entries_spec(resolved@, kv.take(i as int))[k],
        decreases children.len() - i,
    {
        let child = &children[i];
        proof {
            assert(kv[i as int] == (children@[i as int].name@, children@[i as int].kind));
            assert(kv.take(i + 1).drop_last() =~= kv.take(i as int));
            assert(resolved@.push(child.name@).drop_last() =~= resolved@);
            reveal_strlit("/");
        }
        let is_file = match child.kind {
            EntryKind::File => true,
            EntryKind::Dir => false,
            EntryKind::Other => {
                i = i + 1;
                continue;
            },
        };
        let mut path = base.clone();
        if !at_root {
            path.append("/");
        }
        path.append(child.name.as_str());
        proof {
            assert(path@ =~= child_rel_path(resolved@, child.name@));
        }
        entries.push(DirEntryInfo { path, is_file });
        i = i + 1;
    }
    proof {
        assert(kv.take(kv.len() as int) =~= kv);
    }
    ListDirResponse { breadcrumbs, entries }
}

} // verus!
