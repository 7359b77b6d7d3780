//! Laws of the directory operations, stated over the ghost views and proved
//! once and for all: what a reader of the contracts may rely on without
//! unfolding the specification functions.

use crate::dir_entries::{
    find_entry, has_entry, lemma_insert_sorted_props, lemma_lex_trichotomy,
    lemma_remove_name_props, lex_lt, remove_name,
};
use crate::path_util::{
    lemma_count_leading, lemma_first_slash, split_name, split_rest, trim_leading,
};
use crate::path_util::{is_prefix, norm_rel};
use crate::ramfs::{
    create_spec, listing, lookup_spec, remove_node_result, remove_spec, rename_node_result,
    spec_attr, valid_name, FsView,
};
use crate::root_dir::{
    best_upto, lemma_best_upto, mount_spec, resolve_spec, root_remove_spec, RootView,
};
use crate::NodeKind;
use crate::VfsError;
use vstd::prelude::*;

verus! {

/// A valid binding name, taken as a path, is one single component.
pub proof fn lemma_name_as_path(name: Seq<u8>)
    requires
        valid_name(name),
    ensures
        split_name(name) == name,
        split_rest(name) is None,
{
    lemma_count_leading(name);
    lemma_first_slash(name);
    assert(crate::path_util::count_leading(name) == 0) by {
        if crate::path_util::count_leading(name) > 0 {
            assert(name[0] == 47);
        }
    }
    assert(trim_leading(name) =~= name);
    lemma_first_slash(trim_leading(name));
    if crate::path_util::first_slash(name) < name.len() {
        assert(name[crate::path_util::first_slash(name)] == 47);
    }
    assert(split_name(name) =~= name);
}

/// Creating a fresh name and then looking it up yields the node just made: a
/// file-typed node of size zero, bound under exactly that name.
pub proof fn lemma_create_then_lookup(v: FsView, dir: int, name: Seq<u8>)
    requires
        v.wf(),
        0 <= dir < v.nodes.len(),
        v.nodes[dir].kind == NodeKind::Dir,
        valid_name(name),
        !has_entry(v.nodes[dir].children, name),
    ensures
        ({
            let w = create_spec(v, dir, name, NodeKind::File).0;
            let id = v.nodes.len() as int;
            &&& create_spec(v, dir, name, NodeKind::File).1 is Ok
            &&& lookup_spec(w, dir, name) == Ok::<int, VfsError>(id)
            &&& spec_attr(w.nodes[id]).kind == NodeKind::File
            &&& spec_attr(w.nodes[id]).size == 0
        }),
{
    lemma_name_as_path(name);
    assert(v.wf_node(dir));
    let w = v.with_new_child(dir, name, NodeKind::File);
    let id = v.nodes.len() as int;
    let e = crate::dir_entries::ChildView { name, id };
    lemma_insert_sorted_props(v.nodes[dir].children, e);
    assert(create_spec(v, dir, name, NodeKind::File) == (w, Ok::<(), VfsError>(())));
    assert(w.nodes[dir].kind == NodeKind::Dir);
    assert(find_entry(w.nodes[dir].children, name) == Some(id));
    assert(name != seq![46u8] && name != seq![46u8, 46u8]);
    assert(lookup_spec(w, dir, name) == Ok::<int, VfsError>(id));
    assert(w.nodes[id].content.len() == 0);
}

/// Creating an already-bound name answers `AlreadyExists` and moves nothing;
/// removing a directory that still binds children answers
/// `DirectoryNotEmpty` and moves nothing.
pub proof fn lemma_create_exists_remove_nonempty(v: FsView, dir: int, name: Seq<u8>)
    requires
        v.wf(),
        0 <= dir < v.nodes.len(),
        v.nodes[dir].kind == NodeKind::Dir,
        valid_name(name),
    ensures
        has_entry(v.nodes[dir].children, name) ==> create_spec(v, dir, name, NodeKind::File)
            == (v, Err::<(), VfsError>(VfsError::AlreadyExists)),
        ({
            let c = find_entry(v.nodes[dir].children, name);
            c matches Some(id) && v.nodes[id].kind == NodeKind::Dir && v.nodes[id].children.len()
                > 0 ==> remove_spec(v, dir, name) == (
                v,
                Err::<(), VfsError>(VfsError::DirectoryNotEmpty),
            )
        }),
{
    lemma_name_as_path(name);
}

/// Removing a bound name and then looking it up fails with `NotFound`.
pub proof fn lemma_remove_then_lookup(v: FsView, dir: int, name: Seq<u8>)
    requires
        v.wf(),
        0 <= dir < v.nodes.len(),
        v.nodes[dir].kind == NodeKind::Dir,
        valid_name(name),
        remove_node_result(v, dir, name) is Ok,
    ensures
        ({
            let w = remove_spec(v, dir, name).0;
            &&& remove_spec(v, dir, name).1 is Ok
            &&& w == v.with_child_removed(dir, name)
            &&& lookup_spec(w, dir, name) == Err::<int, VfsError>(VfsError::NotFound)
        }),
{
    lemma_name_as_path(name);
    assert(v.wf_node(dir));
    lemma_remove_name_props(v.nodes[dir].children, name);
    let w = v.with_child_removed(dir, name);
    assert(find_entry(w.nodes[dir].children, name) is None);
    assert(name != seq![46u8] && name != seq![46u8, 46u8]);
}

/// Rename preserves node identity: afterwards the new name is bound to the
/// very node the old name was bound to, and the old name is no longer bound.
pub proof fn lemma_rename_identity(v: FsView, dir: int, old_name: Seq<u8>, new_name: Seq<u8>)
    requires
        v.wf(),
        0 <= dir < v.nodes.len(),
        v.nodes[dir].kind == NodeKind::Dir,
        valid_name(new_name),
        rename_node_result(v, dir, old_name, new_name) is Ok,
    ensures
        ({
            let w = v.with_child_renamed(dir, old_name, new_name);
            &&& w.child_of(dir, new_name) == v.child_of(dir, old_name)
            &&& w.child_of(dir, old_name) is None
            &&& w.nodes == v.nodes.update(dir, w.nodes[dir])
        }),
{
    assert(v.wf_node(dir));
    let cs = v.nodes[dir].children;
    let id = find_entry(cs, old_name)->Some_0;
    let e = crate::dir_entries::ChildView { name: new_name, id };
    lemma_remove_name_props(cs, old_name);
    assert(!has_entry(remove_name(cs, old_name), new_name)) by {
        lemma_lex_trichotomy(old_name, new_name);
    }
    lemma_insert_sorted_props(remove_name(cs, old_name), e);
    let w = v.with_child_renamed(dir, old_name, new_name);
    assert(find_entry(w.nodes[dir].children, new_name) == Some(id));
    assert(find_entry(w.nodes[dir].children, old_name) == find_entry(
        remove_name(cs, old_name),
        old_name,
    ));
}

/// Renaming onto a name that is already bound answers `AlreadyExists`; the
/// operation's contract then leaves the filesystem untouched, so both
/// bindings survive as they were.
pub proof fn lemma_rename_existing_fails(v: FsView, dir: int, old_name: Seq<u8>, new_name: Seq<u8>)
    requires
        0 <= dir < v.nodes.len(),
        has_entry(v.nodes[dir].children, old_name),
        has_entry(v.nodes[dir].children, new_name),
    ensures
        rename_node_result(v, dir, old_name, new_name) == Err::<(), VfsError>(
            VfsError::AlreadyExists,
        ),
{
}

/// A successful rename is one atomic step: in the state before it, exactly
/// the old name of the pair is bound; in the state after it, exactly the new
/// one; and no other name's binding differs between the two states. An
/// observer of either state thus sees one of the two names, never both and
/// never neither.
pub proof fn lemma_rename_snapshot(v: FsView, dir: int, old_name: Seq<u8>, new_name: Seq<u8>)
    requires
        v.wf(),
        0 <= dir < v.nodes.len(),
        v.nodes[dir].kind == NodeKind::Dir,
        valid_name(new_name),
        rename_node_result(v, dir, old_name, new_name) is Ok,
    ensures
        has_entry(v.nodes[dir].children, old_name),
        !has_entry(v.nodes[dir].children, new_name),
        ({
            let w = v.with_child_renamed(dir, old_name, new_name);
            &&& !has_entry(w.nodes[dir].children, old_name)
            &&& has_entry(w.nodes[dir].children, new_name)
            &&& forall|n: Seq<u8>|
                n != old_name && n != new_name ==> #[trigger] w.child_of(dir, n) == v.child_of(
                    dir,
                    n,
                )
        }),
{
    assert(v.wf_node(dir));
    let cs = v.nodes[dir].children;
    let id = find_entry(cs, old_name)->Some_0;
    let e = crate::dir_entries::ChildView { name: new_name, id };
    lemma_remove_name_props(cs, old_name);
    assert(!has_entry(remove_name(cs, old_name), new_name)) by {
        lemma_lex_trichotomy(old_name, new_name);
    }
    lemma_insert_sorted_props(remove_name(cs, old_name), e);
}

/// The listing of a directory opens with its two aliases and then follows
/// the bindings in strictly ascending name order: no name can appear twice.
pub proof fn lemma_listing_order(v: FsView, dir: int)
    requires
        v.wf(),
        0 <= dir < v.nodes.len(),
    ensures
        listing(v, dir).len() == 2 + v.nodes[dir].children.len(),
        listing(v, dir)[0] == (seq![46u8], NodeKind::Dir),
        listing(v, dir)[1] == (seq![46u8, 46u8], NodeKind::Dir),
        forall|i: int, j: int|
            2 <= i < j < listing(v, dir).len() ==> lex_lt(
                (#[trigger] listing(v, dir)[i]).0,
                (#[trigger] listing(v, dir)[j]).0,
            ),
{
    assert(v.wf_node(dir));
    let lst = listing(v, dir);
    assert forall|i: int, j: int| 2 <= i < j < lst.len() implies lex_lt(
        (#[trigger] lst[i]).0,
        (#[trigger] lst[j]).0,
    ) by {
        assert(lst[i].0 == v.nodes[dir].children[i - 2].name);
        assert(lst[j].0 == v.nodes[dir].children[j - 2].name);
    }
}

/// Pagination is exact: two adjacent windows of the listing concatenate to
/// the one window that spans both, so successive reads whose start index
/// advances by the previous count enumerate the listing exactly once.
pub proof fn lemma_read_dir_pagination(v: FsView, dir: int, a: int, b: int, c: int)
    requires
        0 <= a <= b <= c <= listing(v, dir).len(),
    ensures
        listing(v, dir).subrange(a, b) + listing(v, dir).subrange(b, c) == listing(
            v,
            dir,
        ).subrange(a, c),
{
    assert(listing(v, dir).subrange(a, b) + listing(v, dir).subrange(b, c) =~= listing(
        v,
        dir,
    ).subrange(a, c));
}

/// The windows a chain of reads yields, concatenated: window `i` runs from
/// position `cuts[i]` to `cuts[i + 1]`, where each read starts at the
/// position the previous one reached.
pub open spec fn windows(l: Seq<(Seq<u8>, NodeKind)>, cuts: Seq<int>, i: int) -> Seq<
    (Seq<u8>, NodeKind),
>
    decreases cuts.len() - i,
{
    if i < 0 || i + 1 >= cuts.len() {
        Seq::empty()
    } else {
        l.subrange(cuts[i], cuts[i + 1]) + windows(l, cuts, i + 1)
    }
}

/// From position `i` on, the chain's windows concatenate to the one span
/// from `cuts[i]` to the chain's final position.
proof fn lemma_windows_span(l: Seq<(Seq<u8>, NodeKind)>, cuts: Seq<int>, i: int)
    requires
        0 <= i < cuts.len(),
        forall|a: int, b: int|
            0 <= a <= b < cuts.len() ==> #[trigger] cuts[a] <= #[trigger] cuts[b],
        forall|a: int| 0 <= a < cuts.len() ==> 0 <= #[trigger] cuts[a] <= l.len(),
    ensures
        windows(l, cuts, i) == l.subrange(cuts[i], cuts.last()),
    decreases cuts.len() - i,
{
    if i + 1 >= cuts.len() {
        assert(windows(l, cuts, i) =~= l.subrange(cuts[i], cuts.last()));
    } else {
        lemma_windows_span(l, cuts, i + 1);
        assert(l.subrange(cuts[i], cuts[i + 1]) + l.subrange(cuts[i + 1], cuts.last())
            =~= l.subrange(cuts[i], cuts.last()));
    }
}

/// A whole paginating chain of reads — the first starting at position 0,
/// each next one where the previous ended, the last reaching the listing's
/// end — enumerates `.`, `..` and every binding exactly once, in order:
/// its windows concatenate to the listing itself, with nothing repeated
/// and nothing skipped.
pub proof fn lemma_read_dir_chain(v: FsView, dir: int, cuts: Seq<int>)
    requires
        cuts.len() >= 1,
        cuts[0] == 0,
        cuts.last() == listing(v, dir).len(),
        forall|a: int, b: int|
            0 <= a <= b < cuts.len() ==> #[trigger] cuts[a] <= #[trigger] cuts[b],
        forall|a: int| 0 <= a < cuts.len() ==> 0 <= #[trigger] cuts[a] <= listing(v, dir).len(),
    ensures
        windows(listing(v, dir), cuts, 0) == listing(v, dir),
{
    lemma_windows_span(listing(v, dir), cuts, 0);
    assert(listing(v, dir).subrange(0, listing(v, dir).len() as int) =~= listing(v, dir));
}


/// The namespace root itself can never be a mount path: mounting at `/` is
/// rejected outright and moves nothing.
pub proof fn lemma_mount_root_rejected(v: RootView, fsv: FsView)
    ensures
        mount_spec(v, seq![47u8], fsv) == (v, Err::<(), VfsError>(VfsError::InvalidInput)),
{
}

/// A path that names a mount point itself resolves to that mount with an
/// empty residual, so removing it is denied and moves nothing.
pub proof fn lemma_remove_mount_point_denied(v: RootView, j: int, path: Seq<u8>)
    requires
        v.wf(),
        0 <= j < v.mounts.len(),
        norm_rel(path) == v.mounts[j].path.skip(1),
    ensures
        root_remove_spec(v, path) == (v, Err::<(), VfsError>(VfsError::PermissionDenied)),
{
    let rel = norm_rel(path);
    lemma_best_upto(v.mounts, rel, v.mounts.len() as int);
    let b = best_upto(v.mounts, rel, v.mounts.len() as int);
    assert(is_prefix(v.mounts[j].path.skip(1), rel)) by {
        assert(rel.subrange(0, rel.len() as int) =~= rel);
    }
    assert(v.mounts[j].path.skip(1).len() <= b.1);
    assert(b.1 == rel.len());
    assert(resolve_spec(v.mounts, rel).1 =~= Seq::<u8>::empty()) by {
        assert(b.1 > 0) by {
            assert(v.wf());
            assert(crate::root_dir::is_mount_path(v.mounts[j].path));
        }
    }
}

/// A terminal `.` or `..` names the directory's own aliases: removing it is
/// rejected with `InvalidInput` and moves nothing.
pub proof fn lemma_remove_alias_rejected(v: FsView, dir: int, path: Seq<u8>)
    requires
        0 <= dir < v.nodes.len(),
        v.nodes[dir].kind == NodeKind::Dir,
        crate::path_util::split_rest(path) is None,
        crate::path_util::split_name(path) == seq![46u8] || crate::path_util::split_name(path)
            == seq![46u8, 46u8] || crate::path_util::split_name(path).len() == 0,
    ensures
        remove_spec(v, dir, path) == (v, Err::<(), VfsError>(VfsError::InvalidInput)),
{
}

} // verus!
