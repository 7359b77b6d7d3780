//! The in-memory filesystem: a tree of file and directory nodes.
//!
//! Nodes live in an arena (`nodes`); a node reference is an index into it.
//! Index 0 is the filesystem's root directory. A directory binds names to
//! node indices in a sorted table. Removing a binding does not reuse or move
//! the node, so indices held elsewhere (open handles, lookup results) stay
//! valid, the way shared ownership keeps an unlinked node alive for its
//! remaining holders. Parent links are plain back-references that never keep
//! a node alive and may be absent at a filesystem's root.

use crate::dir_entries::{
    entries_sorted, find_entry, has_entry, insert_sorted, lemma_find_entry_exists,
    lemma_find_entry_skip, lemma_insert_sorted_at, lemma_insert_sorted_props,
    lemma_lex_trichotomy, lemma_remove_name_at, lemma_remove_name_props, lex_less, lex_lt,
    remove_name, ChildEntry, ChildView,
};
use crate::path_util::{lemma_split, split_name, split_path, split_rest};
use crate::Attributes;
use crate::NodeKind;
use crate::VfsError;
use crate::{spec_dir_perm, spec_file_perm};
use vstd::prelude::*;

verus! {

/// A name usable as a directory binding: non-empty, not `.` or `..`, and
/// holding no separator.
pub open spec fn valid_name(n: Seq<u8>) -> bool {
    &&& n.len() > 0
    &&& n != seq![46u8]
    &&& n != seq![46u8, 46u8]
    &&& forall|k: int| 0 <= k < n.len() ==> n[k] != 47
}

/// One node of the tree.
pub struct Node {
    pub kind: NodeKind,
    pub parent: Option<usize>,
    pub children: Vec<ChildEntry>,
    pub content: Vec<u8>,
}

/// An in-memory filesystem instance.
pub struct RamFs {
    pub nodes: Vec<Node>,
}

/// Ghost view of a node.
#[verifier::ext_equal]
pub ghost struct NodeView {
    pub kind: NodeKind,
    pub parent: Option<int>,
    pub children: Seq<ChildView>,
    pub content: Seq<u8>,
}

/// Ghost view of a filesystem: the sequence of node views.
#[verifier::ext_equal]
pub ghost struct FsView {
    pub nodes: Seq<NodeView>,
}

/// Ghost view of a binding table.
pub open spec fn children_view(cs: Seq<ChildEntry>) -> Seq<ChildView> {
    Seq::new(cs.len(), |i: int| cs[i]@)
}

impl View for Node {
    type V = NodeView;

    open spec fn view(&self) -> NodeView {
        NodeView {
            kind: self.kind,
            parent: match self.parent {
                Some(p) => Some(p as int),
                None => None,
            },
            children: children_view(self.children@),
            content: self.content@,
        }
    }
}

impl View for RamFs {
    type V = FsView;

    open spec fn view(&self) -> FsView {
        FsView { nodes: Seq::new(self.nodes@.len(), |i: int| self.nodes@[i]@) }
    }
}

/// The attributes a node reports: directories have a nominal size of 4096
/// bytes and the default directory permission, files their content length
/// and the default file permission.
pub open spec fn spec_attr(n: NodeView) -> Attributes {
    if n.kind == NodeKind::Dir {
        Attributes { kind: NodeKind::Dir, size: 4096, perm: spec_dir_perm() }
    } else {
        Attributes { kind: NodeKind::File, size: n.content.len() as u64, perm: spec_file_perm() }
    }
}

impl FsView {
    /// Every binding of node `i` has a valid name and an in-bounds target,
    /// the table is sorted, files bind nothing, and the parent link is in
    /// bounds.
    pub open spec fn wf_node(self, i: int) -> bool {
        let n = self.nodes[i];
        &&& entries_sorted(n.children)
        &&& (forall|j: int| 0 <= j < n.children.len() ==> valid_name(#[trigger] n.children[j].name))
        &&& (forall|j: int|
            0 <= j < n.children.len() ==> 0 <= (#[trigger] n.children[j].id) < self.nodes.len())
        &&& (n.kind == NodeKind::File ==> n.children.len() == 0)
        &&& match n.parent {
            Some(p) => 0 <= p < self.nodes.len(),
            None => true,
        }
    }

    /// The filesystem has a root directory at index 0 and every node is
    /// well-formed.
    pub open spec fn wf(self) -> bool {
        &&& self.nodes.len() >= 1
        &&& self.nodes[0].kind == NodeKind::Dir
        &&& forall|i: int| 0 <= i < self.nodes.len() ==> #[trigger] self.wf_node(i)
    }

    /// The node bound to `name` in directory `dir`.
    pub open spec fn child_of(self, dir: int, name: Seq<u8>) -> Option<int> {
        find_entry(self.nodes[dir].children, name)
    }

    /// The state after binding a fresh node of the given kind to `name` in
    /// directory `dir`: the new node is appended to the arena and the
    /// binding inserted at its sorted position.
    pub open spec fn with_new_child(self, dir: int, name: Seq<u8>, kind: NodeKind) -> FsView {
        let id = self.nodes.len() as int;
        let d = self.nodes[dir];
        let d2 = NodeView {
            kind: d.kind,
            parent: d.parent,
            children: insert_sorted(d.children, ChildView { name, id }),
            content: d.content,
        };
        let fresh = NodeView {
            kind,
            parent: Some(dir),
            children: Seq::empty(),
            content: Seq::empty(),
        };
        FsView { nodes: self.nodes.update(dir, d2).push(fresh) }
    }

    /// The state after unbinding `name` in directory `dir`. The node itself
    /// stays in the arena: a reference held elsewhere keeps it reachable.
    pub open spec fn with_child_removed(self, dir: int, name: Seq<u8>) -> FsView {
        let d = self.nodes[dir];
        let d2 = NodeView {
            kind: d.kind,
            parent: d.parent,
            children: remove_name(d.children, name),
            content: d.content,
        };
        FsView { nodes: self.nodes.update(dir, d2) }
    }

    /// The state after rebinding the node bound to `old_name` under
    /// `new_name` in directory `dir`: the very same node index, no copy.
    pub open spec fn with_child_renamed(
        self,
        dir: int,
        old_name: Seq<u8>,
        new_name: Seq<u8>,
    ) -> FsView {
        let d = self.nodes[dir];
        let id = find_entry(d.children, old_name)->Some_0;
        let d2 = NodeView {
            kind: d.kind,
            parent: d.parent,
            children: insert_sorted(
                remove_name(d.children, old_name),
                ChildView { name: new_name, id },
            ),
            content: d.content,
        };
        FsView { nodes: self.nodes.update(dir, d2) }
    }
}

/// Inserting into a binding vector and viewing commutes with inserting into
/// the view.
proof fn lemma_children_view_insert(cs: Seq<ChildEntry>, e: ChildEntry, pos: int)
    requires
        0 <= pos <= cs.len(),
    ensures
        children_view(cs.insert(pos, e)) =~= children_view(cs).insert(pos, e@),
{
    cs.insert_ensures(pos, e);
    children_view(cs).insert_ensures(pos, e@);
}

/// Removing from a binding vector and viewing commutes with removing from
/// the view.
proof fn lemma_children_view_remove(cs: Seq<ChildEntry>, pos: int)
    requires
        0 <= pos < cs.len(),
    ensures
        children_view(cs.remove(pos)) =~= children_view(cs).remove(pos),
{
    cs.remove_ensures(pos);
    children_view(cs).remove_ensures(pos);
}

/// Looks for `name` in a binding vector; yields the position of the binding.
fn child_index(cs: &Vec<ChildEntry>, name: &[u8]) -> (r: Option<usize>)
    ensures
        match r {
            Some(p) => p < cs@.len() && children_view(cs@)[p as int].name == name@ && (forall|
                k: int,
            |
                0 <= k < p ==> children_view(cs@)[k].name != name@),
            None => forall|k: int| 0 <= k < cs@.len() ==> children_view(cs@)[k].name != name@,
        },
{
    let mut p: usize = 0;
    while p < cs.len()
        invariant
            0 <= p <= cs@.len(),
            forall|k: int| 0 <= k < p ==> children_view(cs@)[k].name != name@,
        decreases cs@.len() - p,
    {
        if crate::path_util::bytes_eq(cs[p].name.as_slice(), name) {
            return Some(p);
        }
        p = p + 1;
    }
    None
}

/// The sorted position at which a fresh binding of `name` belongs: the first
/// position whose name sorts behind `name`.
fn insertion_point(cs: &Vec<ChildEntry>, name: &[u8]) -> (r: usize)
    ensures
        r <= cs@.len(),
        forall|k: int| 0 <= k < r ==> !lex_lt(name@, children_view(cs@)[k].name),
        r < cs@.len() ==> lex_lt(name@, children_view(cs@)[r as int].name),
{
    let mut p: usize = 0;
    while p < cs.len()
        invariant
            0 <= p <= cs@.len(),
            forall|k: int| 0 <= k < p ==> !lex_lt(name@, children_view(cs@)[k].name),
        decreases cs@.len() - p,
    {
        if lex_less(name, cs[p].name.as_slice()) {
            return p;
        }
        p = p + 1;
    }
    p
}

impl RamFs {
    /// A fresh filesystem: one empty root directory.
    pub fn new() -> (r: RamFs)
        ensures
            r@.wf(),
            r@ == empty_fs_view(),
    {
        let mut nodes: Vec<Node> = Vec::new();
        nodes.push(
            Node { kind: NodeKind::Dir, parent: None, children: Vec::new(), content: Vec::new() },
        );
        let r = RamFs { nodes };
        proof {
            assert(r@.nodes.len() == 1);
            assert(r@.nodes[0].children =~= Seq::<ChildView>::empty());
            assert(r@.wf_node(0));
            assert(r@.nodes[0] =~= empty_fs_view().nodes[0]);
            assert(r@.nodes =~= empty_fs_view().nodes);
            assert(r@ =~= empty_fs_view());
        }
        r
    }

    /// Names of all bindings of directory `dir`, in lexicographic order.
    pub fn get_entries(&self, dir: usize) -> (r: Vec<Vec<u8>>)
        requires
            self@.wf(),
            dir < self@.nodes.len(),
        ensures
            r@.len() == self@.nodes[dir as int].children.len(),
            forall|j: int|
                0 <= j < r@.len() ==> r@[j]@ == self@.nodes[dir as int].children[j].name,
    {
        let cs = &self.nodes[dir].children;
        let mut r: Vec<Vec<u8>> = Vec::new();
        let mut j: usize = 0;
        while j < cs.len()
            invariant
                0 <= j <= cs@.len(),
                cs@ == self.nodes@[dir as int].children@,
                dir < self@.nodes.len(),
                r@.len() == j,
                forall|k: int|
                    0 <= k < j ==> r@[k]@ == self@.nodes[dir as int].children[k].name,
            decreases cs@.len() - j,
        {
            r.push(vstd::slice::slice_to_vec(cs[j].name.as_slice()));
            j = j + 1;
        }
        r
    }

    /// Whether a binding of `name` exists in directory `dir`.
    pub fn exist(&self, dir: usize, name: &[u8]) -> (r: bool)
        requires
            self@.wf(),
            dir < self@.nodes.len(),
        ensures
            r == has_entry(self@.nodes[dir as int].children, name@),
    {
        let found = child_index(&self.nodes[dir].children, name);
        proof {
            let cv = self@.nodes[dir as int].children;
            match found {
                Some(p) => {
                    lemma_find_entry_skip(cv, name@, p as int);
                    assert(cv.skip(p as int)[0] == cv[p as int]);
                },
                None => {
                    lemma_find_entry_exists(cv, name@);
                },
            }
        }
        found.is_some()
    }

    /// The node index bound to `name` in directory `dir`.
    pub fn child_id(&self, dir: usize, name: &[u8]) -> (r: Option<usize>)
        requires
            self@.wf(),
            dir < self@.nodes.len(),
        ensures
            match r {
                Some(id) => self@.child_of(dir as int, name@) == Some(id as int) && id
                    < self@.nodes.len(),
                None => self@.child_of(dir as int, name@) is None,
            },
    {
        let found = child_index(&self.nodes[dir].children, name);
        proof {
            let cv = self@.nodes[dir as int].children;
            match found {
                Some(p) => {
                    lemma_find_entry_skip(cv, name@, p as int);
                    assert(cv.skip(p as int)[0] == cv[p as int]);
                    assert(self@.wf_node(dir as int));
                },
                None => {
                    lemma_find_entry_exists(cv, name@);
                },
            }
        }
        match found {
            Some(p) => Some(self.nodes[dir].children[p].id),
            None => None,
        }
    }

    /// The attributes of node `node`.
    pub fn get_attr(&self, node: usize) -> (r: Attributes)
        requires
            self@.wf(),
            node < self@.nodes.len(),
        ensures
            r == spec_attr(self@.nodes[node as int]),
    {
        let n = &self.nodes[node];
        match n.kind {
            NodeKind::Dir => Attributes {
                kind: NodeKind::Dir,
                size: 4096,
                perm: crate::NodePerm::default_dir(),
            },
            NodeKind::File => Attributes {
                kind: NodeKind::File,
                size: n.content.len() as u64,
                perm: crate::NodePerm::default_file(),
            },
        }
    }

    /// The parent link of node `node`; absent at the filesystem's root.
    pub fn parent(&self, node: usize) -> (r: Option<usize>)
        requires
            self@.wf(),
            node < self@.nodes.len(),
        ensures
            match r {
                Some(p) => self@.nodes[node as int].parent == Some(p as int) && p
                    < self@.nodes.len(),
                None => self@.nodes[node as int].parent is None,
            },
    {
        proof {
            assert(self@.wf_node(node as int));
        }
        self.nodes[node].parent
    }

    /// Redirects the parent back-reference of node `node`.
    pub fn set_parent(&mut self, node: usize, parent: Option<usize>)
        requires
            old(self)@.wf(),
            node < old(self)@.nodes.len(),
            match parent {
                Some(p) => p < old(self)@.nodes.len(),
                None => true,
            },
        ensures
            final(self)@.wf(),
            final(self)@.nodes.len() == old(self)@.nodes.len(),
            final(self)@.nodes[node as int].parent == match parent {
                Some(p) => Some(p as int),
                None => None::<int>,
            },
            final(self)@.nodes[node as int].kind == old(self)@.nodes[node as int].kind,
            final(self)@.nodes[node as int].children == old(self)@.nodes[node as int].children,
            final(self)@.nodes[node as int].content == old(self)@.nodes[node as int].content,
            forall|i: int|
                0 <= i < old(self)@.nodes.len() && i != node ==> final(self)@.nodes[i] == old(
                    self,
                )@.nodes[i],
    {
        self.nodes[node].parent = parent;
        proof {
            assert forall|i: int| 0 <= i < self@.nodes.len() implies #[trigger] self@.wf_node(
                i,
            ) by {
                assert(old(self)@.wf_node(i));
                if i != node {
                    assert(self@.nodes[i] == old(self)@.nodes[i]);
                }
            }
        }
    }

    /// Binds a fresh node of the given kind to `name` in directory `dir`;
    /// fails if the name is already bound.
    pub fn create_node(&mut self, dir: usize, name: &[u8], kind: NodeKind) -> (r: Result<
        (),
        VfsError,
    >)
        requires
            old(self)@.wf(),
            dir < old(self)@.nodes.len(),
            old(self)@.nodes[dir as int].kind == NodeKind::Dir,
            valid_name(name@),
            old(self)@.nodes.len() < usize::MAX,
        ensures
            final(self)@.wf(),
            match r {
                Ok(()) => !has_entry(old(self)@.nodes[dir as int].children, name@) && final(self)@
                    == old(self)@.with_new_child(dir as int, name@, kind),
                Err(e) => e == VfsError::AlreadyExists && has_entry(
                    old(self)@.nodes[dir as int].children,
                    name@,
                ) && *final(self) == *old(self),
            },
    {
        let ghost oldv = self@;
        let ghost cv = oldv.nodes[dir as int].children;
        let found = child_index(&self.nodes[dir].children, name);
        if found.is_some() {
            proof {
                let p = found->Some_0 as int;
                lemma_find_entry_skip(cv, name@, p);
                assert(cv.skip(p)[0] == cv[p]);
            }
            return Err(VfsError::AlreadyExists);
        }
        proof {
            lemma_find_entry_exists(cv, name@);
            if has_entry(cv, name@) {
                let j = choose|j: int|
                    0 <= j < cv.len() && cv[j].name == name@ && #[trigger] cv[j].id == find_entry(
                        cv,
                        name@,
                    )->Some_0;
                assert(children_view(self.nodes@[dir as int].children@)[j].name == name@);
            }
            assert(!has_entry(cv, name@));
            assert(oldv.wf_node(dir as int));
        }
        let pos = insertion_point(&self.nodes[dir].children, name);
        let id = self.nodes.len();
        let entry = ChildEntry { name: vstd::slice::slice_to_vec(name), id };
        proof {
            assert(entry@ == ChildView { name: name@, id: id as int });
            assert forall|k: int| 0 <= k < pos implies lex_lt(#[trigger] cv[k].name, name@) by {
                lemma_lex_trichotomy(name@, cv[k].name);
                lemma_find_entry_exists(cv, name@);
            }
            lemma_insert_sorted_at(cv, entry@, pos as int);
            lemma_insert_sorted_props(cv, entry@);
        }
        self.nodes[dir].children.insert(pos, entry);
        self.nodes.push(
            Node { kind, parent: Some(dir), children: Vec::new(), content: Vec::new() },
        );
        proof {
            let newv = oldv.with_new_child(dir as int, name@, kind);
            lemma_children_view_insert(
                old(self).nodes@[dir as int].children@,
                entry,
                pos as int,
            );
            assert forall|i: int| 0 <= i < self@.nodes.len() implies self@.nodes[i]
                == newv.nodes[i] by {
                if i == dir {
                    assert(self@.nodes[i].children =~= newv.nodes[i].children);
                } else if i == oldv.nodes.len() {
                    assert(self@.nodes[i].children =~= Seq::<ChildView>::empty());
                }
            }
            assert(self@.nodes =~= newv.nodes);
            lemma_wf_create(oldv, dir as int, name@, kind);
        }
        Ok(())
    }
}

/// Binding a fresh node in a well-formed filesystem keeps it well-formed.
proof fn lemma_wf_create(v: FsView, dir: int, name: Seq<u8>, kind: NodeKind)
    requires
        v.wf(),
        0 <= dir < v.nodes.len(),
        v.nodes[dir].kind == NodeKind::Dir,
        valid_name(name),
        !has_entry(v.nodes[dir].children, name),
    ensures
        v.with_new_child(dir, name, kind).wf(),
{
    let w = v.with_new_child(dir, name, kind);
    let e = ChildView { name, id: v.nodes.len() as int };
    assert(v.wf_node(dir));
    lemma_insert_sorted_props(v.nodes[dir].children, e);
    assert forall|i: int| 0 <= i < w.nodes.len() implies #[trigger] w.wf_node(i) by {
        if i == dir {
            let cs2 = w.nodes[dir].children;
            assert forall|j: int| 0 <= j < cs2.len() implies valid_name(#[trigger] cs2[j].name)
                && 0 <= cs2[j].id < w.nodes.len() by {
            if cs2[j] == e {
            } else {
                assert(v.nodes[dir].children.contains(cs2[j]));
                let k = choose|k: int|
                    0 <= k < v.nodes[dir].children.len() && v.nodes[dir].children[k] == cs2[j];
            }
            }
        } else if i == v.nodes.len() {
            assert(entries_sorted(Seq::<ChildView>::empty()));
        } else {
            assert(v.wf_node(i));
            assert(w.nodes[i] == v.nodes[i]);
        }
    }
}


/// What removing `name` in directory `dir` answers: the binding must exist
/// and must not be a directory that still binds children.
pub open spec fn remove_node_result(v: FsView, dir: int, name: Seq<u8>) -> Result<(), VfsError> {
    match find_entry(v.nodes[dir].children, name) {
        None => Err(VfsError::NotFound),
        Some(id) => if v.nodes[id].kind == NodeKind::Dir && v.nodes[id].children.len() > 0 {
            Err(VfsError::DirectoryNotEmpty)
        } else {
            Ok(())
        },
    }
}

/// What renaming `old_name` to `new_name` in one directory answers: the
/// source must be bound and the destination name must still be free.
pub open spec fn rename_node_result(
    v: FsView,
    dir: int,
    old_name: Seq<u8>,
    new_name: Seq<u8>,
) -> Result<(), VfsError> {
    if find_entry(v.nodes[dir].children, old_name) is None {
        Err(VfsError::NotFound)
    } else if has_entry(v.nodes[dir].children, new_name) {
        Err(VfsError::AlreadyExists)
    } else {
        Ok(())
    }
}

/// Unbinding a name keeps the filesystem well-formed.
proof fn lemma_wf_remove(v: FsView, dir: int, name: Seq<u8>)
    requires
        v.wf(),
        0 <= dir < v.nodes.len(),
    ensures
        v.with_child_removed(dir, name).wf(),
{
    let w = v.with_child_removed(dir, name);
    assert(v.wf_node(dir));
    lemma_remove_name_props(v.nodes[dir].children, name);
    assert forall|i: int| 0 <= i < w.nodes.len() implies #[trigger] w.wf_node(i) by {
        assert(v.wf_node(i));
        if i == dir {
            let cs2 = w.nodes[dir].children;
            assert forall|j: int|
                0 <= j < cs2.len() implies valid_name(#[trigger] cs2[j].name) && 0 <= cs2[j].id
                < w.nodes.len() by {
                assert(v.nodes[dir].children.contains(cs2[j]));
                let k = choose|k: int|
                    0 <= k < v.nodes[dir].children.len() && v.nodes[dir].children[k] == cs2[j];
            }
        } else {
            assert(w.nodes[i] == v.nodes[i]);
        }
    }
}

/// Rebinding a name to a fresh one keeps the filesystem well-formed.
proof fn lemma_wf_rename(v: FsView, dir: int, old_name: Seq<u8>, new_name: Seq<u8>)
    requires
        v.wf(),
        0 <= dir < v.nodes.len(),
        valid_name(new_name),
        has_entry(v.nodes[dir].children, old_name),
        !has_entry(v.nodes[dir].children, new_name),
    ensures
        v.with_child_renamed(dir, old_name, new_name).wf(),
{
    let w = v.with_child_renamed(dir, old_name, new_name);
    let cs = v.nodes[dir].children;
    let id = find_entry(cs, old_name)->Some_0;
    let e = ChildView { name: new_name, id };
    assert(v.wf_node(dir));
    lemma_remove_name_props(cs, old_name);
    assert(!has_entry(remove_name(cs, old_name), new_name)) by {
        lemma_lex_trichotomy(old_name, new_name);
    }
    lemma_insert_sorted_props(remove_name(cs, old_name), e);
    assert(0 <= id < v.nodes.len()) by {
        lemma_find_entry_exists(cs, old_name);
        let j = choose|j: int|
            0 <= j < cs.len() && cs[j].name == old_name && #[trigger] cs[j].id == id;
    }
    assert forall|i: int| 0 <= i < w.nodes.len() implies #[trigger] w.wf_node(i) by {
        assert(v.wf_node(i));
        if i == dir {
            let cs2 = w.nodes[dir].children;
            assert forall|j: int|
                0 <= j < cs2.len() implies valid_name(#[trigger] cs2[j].name) && 0 <= cs2[j].id
                < w.nodes.len() by {
                if cs2[j] == e {
                } else {
                    assert(remove_name(cs, old_name).contains(cs2[j]));
                    let k = choose|k: int|
                        0 <= k < remove_name(cs, old_name).len() && remove_name(cs, old_name)[k]
                            == cs2[j];
                    assert(cs.contains(cs2[j]));
                    let m = choose|m: int| 0 <= m < cs.len() && cs[m] == cs2[j];
                }
            }
        } else {
            assert(w.nodes[i] == v.nodes[i]);
        }
    }
}

impl RamFs {
    /// Unbinds `name` in directory `dir`; a directory that still binds
    /// children is protected. The node itself stays in the arena, so indices
    /// held elsewhere stay valid.
    pub fn remove_node(&mut self, dir: usize, name: &[u8]) -> (r: Result<(), VfsError>)
        requires
            old(self)@.wf(),
            dir < old(self)@.nodes.len(),
            old(self)@.nodes[dir as int].kind == NodeKind::Dir,
        ensures
            final(self)@.wf(),
            r == remove_node_result(old(self)@, dir as int, name@),
            r is Ok ==> final(self)@ == old(self)@.with_child_removed(dir as int, name@),
            r is Err ==> *final(self) == *old(self),
    {
        let ghost oldv = self@;
        let ghost cv = oldv.nodes[dir as int].children;
        let found = child_index(&self.nodes[dir].children, name);
        match found {
            None => {
                proof {
                    lemma_find_entry_exists(cv, name@);
                    if has_entry(cv, name@) {
                        let j = choose|j: int|
                            0 <= j < cv.len() && cv[j].name == name@ && #[trigger] cv[j].id
                                == find_entry(cv, name@)->Some_0;
                    }
                }
                Err(VfsError::NotFound)
            },
            Some(p) => {
                proof {
                    lemma_find_entry_skip(cv, name@, p as int);
                    assert(cv.skip(p as int)[0] == cv[p as int]);
                    assert(oldv.wf_node(dir as int));
                }
                let id = self.nodes[dir].children[p].id;
                let nonempty_dir = match self.nodes[id].kind {
                    NodeKind::Dir => self.nodes[id].children.len() > 0,
                    NodeKind::File => false,
                };
                if nonempty_dir {
                    return Err(VfsError::DirectoryNotEmpty);
                }
                proof {
                    lemma_remove_name_at(cv, name@, p as int);
                    lemma_remove_name_props(cv, name@);
                    lemma_children_view_remove(self.nodes@[dir as int].children@, p as int);
                }
                self.nodes[dir].children.remove(p);
                proof {
                    let newv = oldv.with_child_removed(dir as int, name@);
                    assert forall|i: int| 0 <= i < self@.nodes.len() implies self@.nodes[i]
                        == newv.nodes[i] by {
                        if i == dir {
                            assert(self@.nodes[i].children =~= newv.nodes[i].children);
                            assert(self@.nodes[i] =~= newv.nodes[i]);
                        }
                    }
                    assert(self@.nodes =~= newv.nodes);
                    assert(self@ =~= newv);
                    lemma_wf_remove(oldv, dir as int, name@);
                }
                Ok(())
            },
        }
    }

    /// Rebinds the node bound to `old_name` under `new_name`, atomically in
    /// this directory: the same node index survives under the new name.
    pub fn rename_in_same_dir(&mut self, dir: usize, old_name: &[u8], new_name: &[u8]) -> (r:
        Result<(), VfsError>)
        requires
            old(self)@.wf(),
            dir < old(self)@.nodes.len(),
            old(self)@.nodes[dir as int].kind == NodeKind::Dir,
            valid_name(new_name@),
        ensures
            final(self)@.wf(),
            r == rename_node_result(old(self)@, dir as int, old_name@, new_name@),
            r is Ok ==> final(self)@ == old(self)@.with_child_renamed(
                dir as int,
                old_name@,
                new_name@,
            ),
            r is Err ==> *final(self) == *old(self),
    {
        let ghost oldv = self@;
        let ghost cv = oldv.nodes[dir as int].children;
        let found = child_index(&self.nodes[dir].children, old_name);
        let p = match found {
            None => {
                proof {
                    lemma_find_entry_exists(cv, old_name@);
                    if has_entry(cv, old_name@) {
                        let j = choose|j: int|
                            0 <= j < cv.len() && cv[j].name == old_name@ && #[trigger] cv[j].id
                                == find_entry(cv, old_name@)->Some_0;
                    }
                }
                return Err(VfsError::NotFound);
            },
            Some(p) => p,
        };
        proof {
            lemma_find_entry_skip(cv, old_name@, p as int);
            assert(cv.skip(p as int)[0] == cv[p as int]);
            assert(oldv.wf_node(dir as int));
        }
        let dst = child_index(&self.nodes[dir].children, new_name);
        if dst.is_some() {
            proof {
                let q = dst->Some_0 as int;
                lemma_find_entry_skip(cv, new_name@, q);
                assert(cv.skip(q)[0] == cv[q]);
            }
            return Err(VfsError::AlreadyExists);
        }
        proof {
            lemma_find_entry_exists(cv, new_name@);
            if has_entry(cv, new_name@) {
                let j = choose|j: int|
                    0 <= j < cv.len() && cv[j].name == new_name@ && #[trigger] cv[j].id
                        == find_entry(cv, new_name@)->Some_0;
            }
            assert(!has_entry(cv, new_name@));
        }
        let id = self.nodes[dir].children[p].id;
        proof {
            lemma_remove_name_at(cv, old_name@, p as int);
            lemma_remove_name_props(cv, old_name@);
            lemma_children_view_remove(self.nodes@[dir as int].children@, p as int);
        }
        self.nodes[dir].children.remove(p);
        let ghost midcs = self.nodes@[dir as int].children@;
        let ghost cv1 = remove_name(cv, old_name@);
        proof {
            assert(children_view(midcs) =~= cv1);
        }
        let pos = insertion_point(&self.nodes[dir].children, new_name);
        let entry = ChildEntry { name: vstd::slice::slice_to_vec(new_name), id };
        proof {
            assert(entry@ == ChildView { name: new_name@, id: id as int });
            assert(!has_entry(cv1, new_name@));
            assert forall|k: int| 0 <= k < pos implies lex_lt(#[trigger] cv1[k].name, new_name@) by {
                lemma_lex_trichotomy(new_name@, cv1[k].name);
                lemma_find_entry_exists(cv1, new_name@);
            }
            lemma_insert_sorted_at(cv1, entry@, pos as int);
            lemma_insert_sorted_props(cv1, entry@);
            lemma_children_view_insert(midcs, entry, pos as int);
        }
        self.nodes[dir].children.insert(pos, entry);
        proof {
            let newv = oldv.with_child_renamed(dir as int, old_name@, new_name@);
            assert(find_entry(cv, old_name@)->Some_0 == id as int);
            assert forall|i: int| 0 <= i < self@.nodes.len() implies self@.nodes[i]
                == newv.nodes[i] by {
                if i == dir {
                    assert(self@.nodes[i].children =~= newv.nodes[i].children);
                    assert(self@.nodes[i] =~= newv.nodes[i]);
                }
            }
            assert(self@.nodes =~= newv.nodes);
            assert(self@ =~= newv);
            lemma_wf_rename(oldv, dir as int, old_name@, new_name@);
        }
        Ok(())
    }
}

/// Where a path leads from node `node`: `.` and the empty component stay,
/// `..` follows the parent link, any other component follows a binding, and
/// a remainder descends into what was resolved.
pub open spec fn lookup_spec(v: FsView, node: int, path: Seq<u8>) -> Result<int, VfsError>
    decreases path.len(),
    via lookup_spec_dec
{
    if v.nodes[node].kind != NodeKind::Dir {
        Err(VfsError::NotADirectory)
    } else {
        let name = split_name(path);
        let step: Result<int, VfsError> = if name.len() == 0 || name == seq![46u8] {
            Ok(node)
        } else if name == seq![46u8, 46u8] {
            match v.nodes[node].parent {
                Some(p) => Ok(p),
                None => Err(VfsError::NotFound),
            }
        } else {
            match find_entry(v.nodes[node].children, name) {
                Some(c) => Ok(c),
                None => Err(VfsError::NotFound),
            }
        };
        match step {
            Err(e) => Err(e),
            Ok(next) => match split_rest(path) {
                None => Ok(next),
                Some(rest) => lookup_spec(v, next, rest),
            },
        }
    }
}

#[via_fn]
proof fn lookup_spec_dec(v: FsView, node: int, path: Seq<u8>) {
    lemma_split(path);
}

/// The state and answer of creating a node of the given kind at `path` under
/// node `node`: descent as in lookup; a terminal `.`, `..` or empty name is
/// already-existing (no-op success); a fresh terminal name is bound.
pub open spec fn create_spec(v: FsView, node: int, path: Seq<u8>, kind: NodeKind) -> (
    FsView,
    Result<(), VfsError>,
)
    decreases path.len(),
    via create_spec_dec
{
    if v.nodes[node].kind != NodeKind::Dir {
        (v, Err(VfsError::Unsupported))
    } else {
        let name = split_name(path);
        match split_rest(path) {
            Some(rest) => {
                if name.len() == 0 || name == seq![46u8] {
                    create_spec(v, node, rest, kind)
                } else if name == seq![46u8, 46u8] {
                    match v.nodes[node].parent {
                        Some(p) => create_spec(v, p, rest, kind),
                        None => (v, Err(VfsError::NotFound)),
                    }
                } else {
                    match find_entry(v.nodes[node].children, name) {
                        Some(c) => create_spec(v, c, rest, kind),
                        None => (v, Err(VfsError::NotFound)),
                    }
                }
            },
            None => {
                if name.len() == 0 || name == seq![46u8] || name == seq![46u8, 46u8] {
                    (v, Ok(()))
                } else if has_entry(v.nodes[node].children, name) {
                    (v, Err(VfsError::AlreadyExists))
                } else {
                    (v.with_new_child(node, name, kind), Ok(()))
                }
            },
        }
    }
}

#[via_fn]
proof fn create_spec_dec(v: FsView, node: int, path: Seq<u8>, kind: NodeKind) {
    lemma_split(path);
}

/// The state and answer of removing `path` under node `node`: descent as in
/// lookup; a terminal `.`, `..` or empty name cannot be removed; a non-empty
/// directory is protected; the terminal binding is unbound.
pub open spec fn remove_spec(v: FsView, node: int, path: Seq<u8>) -> (
    FsView,
    Result<(), VfsError>,
)
    decreases path.len(),
    via remove_spec_dec
{
    if v.nodes[node].kind != NodeKind::Dir {
        (v, Err(VfsError::Unsupported))
    } else {
        let name = split_name(path);
        match split_rest(path) {
            Some(rest) => {
                if name.len() == 0 || name == seq![46u8] {
                    remove_spec(v, node, rest)
                } else if name == seq![46u8, 46u8] {
                    match v.nodes[node].parent {
                        Some(p) => remove_spec(v, p, rest),
                        None => (v, Err(VfsError::NotFound)),
                    }
                } else {
                    match find_entry(v.nodes[node].children, name) {
                        Some(c) => remove_spec(v, c, rest),
                        None => (v, Err(VfsError::NotFound)),
                    }
                }
            },
            None => {
                if name.len() == 0 || name == seq![46u8] || name == seq![46u8, 46u8] {
                    (v, Err(VfsError::InvalidInput))
                } else {
                    match remove_node_result(v, node, name) {
                        Ok(()) => (v.with_child_removed(node, name), Ok(())),
                        Err(e) => (v, Err(e)),
                    }
                }
            },
        }
    }
}

#[via_fn]
proof fn remove_spec_dec(v: FsView, node: int, path: Seq<u8>) {
    lemma_split(path);
}

/// The state and answer of renaming within directory `dir`: the source path
/// must be a single component, the destination must split into a head and a
/// terminal name, and the rebinding follows `rename_node_result`.
pub open spec fn rename_spec(v: FsView, dir: int, src: Seq<u8>, dst: Seq<u8>) -> (
    FsView,
    Result<(), VfsError>,
) {
    if v.nodes[dir].kind != NodeKind::Dir {
        (v, Err(VfsError::Unsupported))
    } else if split_rest(src) is Some {
        (v, Err(VfsError::InvalidInput))
    } else {
        match split_rest(dst) {
            None => (v, Err(VfsError::InvalidInput)),
            Some(dname) => {
                if !valid_name(dname) {
                    (v, Err(VfsError::InvalidInput))
                } else {
                    let sname = split_name(src);
                    match rename_node_result(v, dir, sname, dname) {
                        Ok(()) => (v.with_child_renamed(dir, sname, dname), Ok(())),
                        Err(e) => (v, Err(e)),
                    }
                }
            },
        }
    }
}

/// Tests whether `name` can serve as a directory binding.
pub fn is_valid_name(name: &[u8]) -> (r: bool)
    ensures
        r == valid_name(name@),
{
    if name.len() == 0 {
        return false;
    }
    if name.len() == 1 && name[0] == 46 {
        proof {
            assert(name@ =~= seq![46u8]);
        }
        return false;
    }
    if name.len() == 2 && name[0] == 46 && name[1] == 46 {
        proof {
            assert(name@ =~= seq![46u8, 46u8]);
        }
        return false;
    }
    let mut k: usize = 0;
    while k < name.len()
        invariant
            0 <= k <= name@.len(),
            forall|i: int| 0 <= i < k ==> name@[i] != 47,
        decreases name@.len() - k,
    {
        if name[k] == 47 {
            return false;
        }
        k = k + 1;
    }
    proof {
        if name@ == seq![46u8] {
            assert(name@.len() == 1);
        }
        if name@ == seq![46u8, 46u8] {
            assert(name@.len() == 2 && name@[0] == 46 && name@[1] == 46);
        }
    }
    true
}

impl RamFs {
    /// Resolves `path` from node `node` by component-wise descent.
    pub fn lookup(&self, node: usize, path: &[u8]) -> (r: Result<usize, VfsError>)
        requires
            self@.wf(),
            node < self@.nodes.len(),
        ensures
            match (r, lookup_spec(self@, node as int, path@)) {
                (Ok(id), Ok(sid)) => id as int == sid && id < self@.nodes.len(),
                (Err(e), Err(se)) => e == se,
                _ => false,
            },
        decreases path@.len(),
    {
        proof {
            lemma_split(path@);
        }
        let is_file = match self.nodes[node].kind {
            NodeKind::File => true,
            NodeKind::Dir => false,
        };
        if is_file {
            return Err(VfsError::NotADirectory);
        }
        let (name, rest) = split_path(path);
        proof {
            if name@.len() == 1 && name@[0] == 46 {
                assert(name@ =~= seq![46u8]);
            }
            if name@.len() == 2 && name@[0] == 46 && name@[1] == 46 {
                assert(name@ =~= seq![46u8, 46u8]);
            }
        }
        let step: Result<usize, VfsError> = if name.len() == 0 || (name.len() == 1 && name[0]
            == 46) {
            Ok(node)
        } else if name.len() == 2 && name[0] == 46 && name[1] == 46 {
            match self.parent(node) {
                Some(p) => Ok(p),
                None => Err(VfsError::NotFound),
            }
        } else {
            match self.child_id(node, name) {
                Some(c) => Ok(c),
                None => Err(VfsError::NotFound),
            }
        };
        match step {
            Err(e) => Err(e),
            Ok(next) => match rest {
                None => Ok(next),
                Some(rest_s) => self.lookup(next, rest_s),
            },
        }
    }

    /// Creates a node of the given kind at `path` under node `node`. A
    /// terminal name that denotes the directory itself or its parent already
    /// exists, so the call is a no-op success.
    pub fn create(&mut self, node: usize, path: &[u8], kind: NodeKind) -> (r: Result<
        (),
        VfsError,
    >)
        requires
            old(self)@.wf(),
            node < old(self)@.nodes.len(),
            old(self)@.nodes.len() < usize::MAX,
        ensures
            final(self)@.wf(),
            final(self)@ == create_spec(old(self)@, node as int, path@, kind).0,
            r is Ok <==> create_spec(old(self)@, node as int, path@, kind).1 is Ok,
            r is Err ==> r->Err_0 == create_spec(old(self)@, node as int, path@, kind).1->Err_0,
        decreases path@.len(),
    {
        proof {
            lemma_split(path@);
        }
        let is_file = match self.nodes[node].kind {
            NodeKind::File => true,
            NodeKind::Dir => false,
        };
        if is_file {
            return Err(VfsError::Unsupported);
        }
        let (name, rest) = split_path(path);
        proof {
            if name@.len() == 1 && name@[0] == 46 {
                assert(name@ =~= seq![46u8]);
            }
            if name@.len() == 2 && name@[0] == 46 && name@[1] == 46 {
                assert(name@ =~= seq![46u8, 46u8]);
            }
        }
        match rest {
            Some(rest_s) => {
                let next: usize = if name.len() == 0 || (name.len() == 1 && name[0] == 46) {
                    node
                } else if name.len() == 2 && name[0] == 46 && name[1] == 46 {
                    match self.parent(node) {
                        Some(p) => p,
                        None => {
                            return Err(VfsError::NotFound);
                        },
                    }
                } else {
                    match self.child_id(node, name) {
                        Some(c) => c,
                        None => {
                            return Err(VfsError::NotFound);
                        },
                    }
                };
                self.create(next, rest_s, kind)
            },
            None => {
                if name.len() == 0 || (name.len() == 1 && name[0] == 46) || (name.len() == 2
                    && name[0] == 46 && name[1] == 46) {
                    Ok(())
                } else {
                    proof {
                        assert(valid_name(name@));
                    }
                    self.create_node(node, name, kind)
                }
            },
        }
    }

    /// Removes the node at `path` under node `node`; `.`-like terminal names
    /// are the directory's own aliases and cannot be removed.
    pub fn remove(&mut self, node: usize, path: &[u8]) -> (r: Result<(), VfsError>)
        requires
            old(self)@.wf(),
            node < old(self)@.nodes.len(),
        ensures
            final(self)@.wf(),
            final(self)@ == remove_spec(old(self)@, node as int, path@).0,
            r is Ok <==> remove_spec(old(self)@, node as int, path@).1 is Ok,
            r is Err ==> r->Err_0 == remove_spec(old(self)@, node as int, path@).1->Err_0,
        decreases path@.len(),
    {
        proof {
            lemma_split(path@);
        }
        let is_file = match self.nodes[node].kind {
            NodeKind::File => true,
            NodeKind::Dir => false,
        };
        if is_file {
            return Err(VfsError::Unsupported);
        }
        let (name, rest) = split_path(path);
        proof {
            if name@.len() == 1 && name@[0] == 46 {
                assert(name@ =~= seq![46u8]);
            }
            if name@.len() == 2 && name@[0] == 46 && name@[1] == 46 {
                assert(name@ =~= seq![46u8, 46u8]);
            }
        }
        match rest {
            Some(rest_s) => {
                let next: usize = if name.len() == 0 || (name.len() == 1 && name[0] == 46) {
                    node
                } else if name.len() == 2 && name[0] == 46 && name[1] == 46 {
                    match self.parent(node) {
                        Some(p) => p,
                        None => {
                            return Err(VfsError::NotFound);
                        },
                    }
                } else {
                    match self.child_id(node, name) {
                        Some(c) => c,
                        None => {
                            return Err(VfsError::NotFound);
                        },
                    }
                };
                self.remove(next, rest_s)
            },
            None => {
                if name.len() == 0 || (name.len() == 1 && name[0] == 46) || (name.len() == 2
                    && name[0] == 46 && name[1] == 46) {
                    Err(VfsError::InvalidInput)
                } else {
                    self.remove_node(node, name)
                }
            },
        }
    }

    /// Renames within directory `dir`: the source must name a binding of
    /// this directory itself and the destination's terminal component gives
    /// the new name. Anything beyond one directory is rejected: rename never
    /// crosses directories.
    pub fn rename(&mut self, dir: usize, src_path: &[u8], dst_path: &[u8]) -> (r: Result<
        (),
        VfsError,
    >)
        requires
            old(self)@.wf(),
            dir < old(self)@.nodes.len(),
        ensures
            final(self)@.wf(),
            final(self)@ == rename_spec(old(self)@, dir as int, src_path@, dst_path@).0,
            r is Ok <==> rename_spec(old(self)@, dir as int, src_path@, dst_path@).1 is Ok,
            r is Err ==> r->Err_0 == rename_spec(old(self)@, dir as int, src_path@, dst_path@).1->Err_0,
    {
        let is_file = match self.nodes[dir].kind {
            NodeKind::File => true,
            NodeKind::Dir => false,
        };
        if is_file {
            return Err(VfsError::Unsupported);
        }
        let (src_name, src_rest) = split_path(src_path);
        if src_rest.is_some() {
            return Err(VfsError::InvalidInput);
        }
        let (_, dst_rest) = split_path(dst_path);
        match dst_rest {
            None => Err(VfsError::InvalidInput),
            Some(dname) => {
                if !is_valid_name(dname) {
                    Err(VfsError::InvalidInput)
                } else {
                    self.rename_in_same_dir(dir, src_name, dname)
                }
            },
        }
    }
}


/// One entry a directory listing yields: a name and the bound node's type.
pub struct DirEntry {
    pub name: Vec<u8>,
    pub kind: NodeKind,
}

impl View for DirEntry {
    type V = (Seq<u8>, NodeKind);

    open spec fn view(&self) -> (Seq<u8>, NodeKind) {
        (self.name@, self.kind)
    }
}

/// The full listing of directory `dir`: `.` and `..` first (both typed as
/// directories), then every binding in lexicographic name order, each typed
/// as the node it binds.
pub open spec fn listing(v: FsView, dir: int) -> Seq<(Seq<u8>, NodeKind)> {
    seq![(seq![46u8], NodeKind::Dir), (seq![46u8, 46u8], NodeKind::Dir)] + Seq::new(
        v.nodes[dir].children.len(),
        |i: int| (v.nodes[dir].children[i].name, v.nodes[v.nodes[dir].children[i].id].kind),
    )
}

impl RamFs {
    /// Serves the listing of directory `dir` from global position
    /// `start_idx` on, filling `dirents` from its front; yields how many
    /// slots were filled. Repeated calls whose `start_idx` advances by the
    /// previous count paginate the listing without gap or repetition. An
    /// entry's type comes from the bound node's attributes; in a well-formed
    /// filesystem every binding resolves, so the error case is proved away.
    pub fn read_dir(&self, dir: usize, start_idx: usize, dirents: &mut Vec<DirEntry>) -> (r:
        Result<usize, VfsError>)
        requires
            self@.wf(),
            dir < self@.nodes.len(),
            self@.nodes[dir as int].kind == NodeKind::Dir,
            start_idx + old(dirents)@.len() <= usize::MAX,
            self@.nodes[dir as int].children.len() + 2 <= usize::MAX,
        ensures
            final(dirents)@.len() == old(dirents)@.len(),
            ({
                let n = vstd::math::min(
                    old(dirents)@.len() as int,
                    vstd::math::max(0, listing(self@, dir as int).len() - start_idx),
                );
                &&& r == Ok::<usize, VfsError>(n as usize)
                &&& n <= old(dirents)@.len()
                &&& (forall|k: int|
                    0 <= k < n ==> (#[trigger] final(dirents)@[k])@ == listing(self@, dir as int)[
                        start_idx + k])
                &&& (forall|k: int|
                    n <= k < old(dirents)@.len() ==> final(dirents)@[k] == old(dirents)@[k])
            }),
    {
        let ghost lst = listing(self@, dir as int);
        let cs_len = self.nodes[dir].children.len();
        proof {
            assert(lst.len() == cs_len + 2);
        }
        let mut i: usize = 0;
        while i < dirents.len()
            invariant
                0 <= i <= dirents@.len(),
                dirents@.len() == old(dirents)@.len(),
                start_idx + dirents@.len() <= usize::MAX,
                self@.wf(),
                dir < self@.nodes.len(),
                self@.nodes[dir as int].kind == NodeKind::Dir,
                cs_len == self@.nodes[dir as int].children.len(),
                cs_len + 2 <= usize::MAX,
                lst == listing(self@, dir as int),
                lst.len() == cs_len + 2,
                i == 0 || start_idx + i <= lst.len(),
                forall|k: int|
                    0 <= k < i ==> (#[trigger] dirents@[k])@ == lst[start_idx + k],
                forall|k: int| i <= k < dirents@.len() ==> dirents@[k] == old(dirents)@[k],
            decreases dirents@.len() - i,
        {
            let gi = start_idx + i;
            if gi == 0 {
                let mut nm: Vec<u8> = Vec::new();
                nm.push(46);
                proof {
                    assert(nm@ =~= seq![46u8]);
                }
                let e = DirEntry { name: nm, kind: NodeKind::Dir };
                dirents[i] = e;
            } else if gi == 1 {
                let mut nm: Vec<u8> = Vec::new();
                nm.push(46);
                nm.push(46);
                proof {
                    assert(nm@ =~= seq![46u8, 46u8]);
                }
                let e = DirEntry { name: nm, kind: NodeKind::Dir };
                dirents[i] = e;
            } else {
                let ci = gi - 2;
                if ci >= cs_len {
                    proof {
                        if i > 0 {
                            assert(start_idx + i == lst.len());
                        } else {
                            assert(start_idx >= lst.len());
                        }
                    }
                    return Ok(i);
                }
                let nm = vstd::slice::slice_to_vec(self.nodes[dir].children[ci].name.as_slice());
                let cid = self.nodes[dir].children[ci].id;
                proof {
                    assert(self@.wf_node(dir as int));
                    assert(self@.nodes[dir as int].children[ci as int].id == cid as int);
                    assert(cid < self@.nodes.len());
                }
                let ck = self.nodes[cid].kind;
                let e = DirEntry { name: nm, kind: ck };
                dirents[i] = e;
            }
            proof {
                assert((dirents@[i as int])@ == lst[start_idx + i]);
            }
            i = i + 1;
        }
        Ok(i)
    }
}


/// The view of a freshly made filesystem: one empty root directory.
pub open spec fn empty_fs_view() -> FsView {
    FsView {
        nodes: seq![
            NodeView {
                kind: NodeKind::Dir,
                parent: None,
                children: Seq::empty(),
                content: Seq::empty(),
            },
        ],
    }
}

/// Creating binds at most one fresh node and never unbinds one.
pub proof fn lemma_create_spec_len(v: FsView, node: int, path: Seq<u8>, kind: NodeKind)
    requires
        v.wf(),
        0 <= node < v.nodes.len(),
    ensures
        v.nodes.len() <= create_spec(v, node, path, kind).0.nodes.len() <= v.nodes.len() + 1,
    decreases path.len(),
{
    crate::path_util::lemma_split(path);
    assert(v.wf_node(node));
    if v.nodes[node].kind == NodeKind::Dir {
        let name = split_name(path);
        match split_rest(path) {
            Some(rest) => {
                if name.len() == 0 || name == seq![46u8] {
                    lemma_create_spec_len(v, node, rest, kind);
                } else if name == seq![46u8, 46u8] {
                    match v.nodes[node].parent {
                        Some(p) => lemma_create_spec_len(v, p, rest, kind),
                        None => (),
                    }
                } else {
                    match find_entry(v.nodes[node].children, name) {
                        Some(c) => {
                            let cs = v.nodes[node].children;
                            lemma_find_entry_exists(cs, name);
                            let j = choose|j: int|
                                0 <= j < cs.len() && cs[j].name == name && #[trigger] cs[j].id
                                    == c;
                            lemma_create_spec_len(v, c, rest, kind);
                        },
                        None => (),
                    }
                }
            },
            None => (),
        }
    }
}

/// Removing never moves or reuses arena slots: the node count is unchanged.
pub proof fn lemma_remove_spec_len(v: FsView, node: int, path: Seq<u8>)
    requires
        v.wf(),
        0 <= node < v.nodes.len(),
    ensures
        remove_spec(v, node, path).0.nodes.len() == v.nodes.len(),
    decreases path.len(),
{
    crate::path_util::lemma_split(path);
    assert(v.wf_node(node));
    if v.nodes[node].kind == NodeKind::Dir {
        let name = split_name(path);
        match split_rest(path) {
            Some(rest) => {
                if name.len() == 0 || name == seq![46u8] {
                    lemma_remove_spec_len(v, node, rest);
                } else if name == seq![46u8, 46u8] {
                    match v.nodes[node].parent {
                        Some(p) => lemma_remove_spec_len(v, p, rest),
                        None => (),
                    }
                } else {
                    match find_entry(v.nodes[node].children, name) {
                        Some(c) => {
                            let cs = v.nodes[node].children;
                            lemma_find_entry_exists(cs, name);
                            let j = choose|j: int|
                                0 <= j < cs.len() && cs[j].name == name && #[trigger] cs[j].id
                                    == c;
                            lemma_remove_spec_len(v, c, rest);
                        },
                        None => (),
                    }
                }
            },
            None => (),
        }
    }
}

} // verus!
