//! The path-level API over the namespace: a context that owns the mount
//! table and the process-wide working directory, and the operations the
//! layers above call with absolute or relative paths.

use crate::path_util::{trim_path, trim_slashes};
use crate::ramfs::{create_spec, lookup_spec, remove_spec, rename_spec, spec_attr, RamFs};
use crate::root_dir::{
    mount_spec, root_create_spec, root_lookup_spec, root_remove_spec, root_rename_spec, sel,
    MountView, NodeRef, RootDirectory, RootView,
};
use crate::NodeKind;
use crate::VfsError;
use vstd::prelude::*;

verus! {

/// What the outside path canonicalization yields on given bytes.
pub uninterp spec fn canon_of(path: Seq<u8>) -> Seq<u8>;

/// Every byte of `s` is ASCII.
pub open spec fn ascii_only(s: Seq<u8>) -> bool {
    forall|k: int| 0 <= k < s.len() ==> s[k] < 128
}

/// Tests whether every byte of `path` is ASCII.
pub fn is_ascii_bytes(path: &[u8]) -> (r: bool)
    ensures
        r == ascii_only(path@),
{
    let mut k: usize = 0;
    while k < path.len()
        invariant
            0 <= k <= path@.len(),
            forall|i: int| 0 <= i < k ==> path@[i] < 128,
        decreases path@.len() - k,
    {
        if path[k] >= 128 {
            return false;
        }
        k = k + 1;
    }
    true
}

/// Relies on axfs_vfs::path::canonicalize: it collapses `.`, `..` and
/// repeated separators. The canonical form depends on the path's bytes
/// alone, and an absolute path stays absolute. The call is made on ASCII
/// bytes only: the canonicalizer tests for a trailing separator by slicing
/// its buffer at the last byte, which aborts when a component ends in a
/// multi-byte character, so the library keeps such paths away from it.
#[verifier::external_body]
fn canonicalize_bytes(path: &[u8]) -> (r: Vec<u8>)
    requires
        ascii_only(path@),
    ensures
        r@ == canon_of(path@),
        path@.len() > 0 && path@[0] == 47 ==> r@.len() > 0 && r@[0] == 47,
{
    match core::str::from_utf8(path) {
        Ok(s) => axfs_vfs::path::canonicalize(s).into_bytes(),
        Err(_) => Vec::new(),
    }
}

/// Where a path operation starts: at the mount table (the namespace root)
/// or at one concrete node of some filesystem.
#[derive(Clone, Copy, PartialEq, Eq, Structural, Debug)]
pub enum DirAnchor {
    Root,
    Node(NodeRef),
}

/// The filesystem context: the mount table and the working-directory state.
/// The working directory is a node reference and its canonical absolute
/// path, updated only together.
pub struct FsContext {
    pub root: RootDirectory,
    pub cwd: DirAnchor,
    pub cwd_path: Vec<u8>,
}

impl FsContext {
    /// The mount table is well-formed, the working-directory node exists,
    /// and the working-directory path is absolute with a trailing separator.
    pub open spec fn wf(self) -> bool {
        &&& self.root@.wf()
        &&& match self.cwd {
            DirAnchor::Root => true,
            DirAnchor::Node(nr) => self.root@.valid_ref(nr.mount, nr.node),
        }
        &&& self.cwd_path@.len() >= 1
        &&& self.cwd_path@[0] == 47
        &&& self.cwd_path@[self.cwd_path@.len() - 1] == 47
    }
}

/// The value behind an optional reference argument.
pub open spec fn opt_val(dir: Option<&NodeRef>) -> Option<NodeRef> {
    match dir {
        Some(d) => Some(*d),
        None => None,
    }
}

/// The directory a path operation is anchored at: the namespace root for an
/// absolute path; otherwise the given directory, or the working directory
/// when none is given.
pub open spec fn parent_anchor_spec(
    ctx: FsContext,
    dir: Option<NodeRef>,
    path: Seq<u8>,
) -> DirAnchor {
    if path.len() > 0 && path[0] == 47 {
        DirAnchor::Root
    } else {
        match dir {
            Some(d) => DirAnchor::Node(d),
            None => ctx.cwd,
        }
    }
}

/// Resolution from an anchor: the namespace root dispatches by mount
/// prefix, a node anchor descends inside its own filesystem.
pub open spec fn anchor_lookup_spec(v: RootView, a: DirAnchor, path: Seq<u8>) -> Result<
    (Option<int>, int),
    VfsError,
> {
    match a {
        DirAnchor::Root => root_lookup_spec(v, path),
        DirAnchor::Node(nr) => match lookup_spec(v.fs_of(sel(nr.mount)), nr.node as int, path) {
            Ok(n) => Ok((sel(nr.mount), n)),
            Err(e) => Err(e),
        },
    }
}

/// Creation from an anchor.
pub open spec fn anchor_create_spec(v: RootView, a: DirAnchor, path: Seq<u8>, kind: NodeKind) -> (
    RootView,
    Result<(), VfsError>,
) {
    match a {
        DirAnchor::Root => root_create_spec(v, path, kind),
        DirAnchor::Node(nr) => {
            let cr = create_spec(v.fs_of(sel(nr.mount)), nr.node as int, path, kind);
            (v.with_fs(sel(nr.mount), cr.0), cr.1)
        },
    }
}

/// Removal from an anchor.
pub open spec fn anchor_remove_spec(v: RootView, a: DirAnchor, path: Seq<u8>) -> (
    RootView,
    Result<(), VfsError>,
) {
    match a {
        DirAnchor::Root => root_remove_spec(v, path),
        DirAnchor::Node(nr) => {
            let rr = remove_spec(v.fs_of(sel(nr.mount)), nr.node as int, path);
            (v.with_fs(sel(nr.mount), rr.0), rr.1)
        },
    }
}

/// Rename from an anchor.
pub open spec fn anchor_rename_spec(v: RootView, a: DirAnchor, src: Seq<u8>, dst: Seq<u8>) -> (
    RootView,
    Result<(), VfsError>,
) {
    match a {
        DirAnchor::Root => root_rename_spec(v, src, dst),
        DirAnchor::Node(nr) => {
            let rr = rename_spec(v.fs_of(sel(nr.mount)), nr.node as int, src, dst);
            (v.with_fs(sel(nr.mount), rr.0), rr.1)
        },
    }
}

/// The namespace lookup the API answers: an empty path names nothing, and a
/// path with a trailing separator must resolve to a directory.
pub open spec fn api_lookup_spec(ctx: FsContext, dir: Option<NodeRef>, path: Seq<u8>) -> Result<
    (Option<int>, int),
    VfsError,
> {
    if path.len() == 0 {
        Err(VfsError::NotFound)
    } else {
        match anchor_lookup_spec(ctx.root@, parent_anchor_spec(ctx, dir, path), path) {
            Err(e) => Err(e),
            Ok(p) => if path[path.len() - 1] == 47 && ctx.root@.fs_of(p.0).nodes[p.1].kind
                != NodeKind::Dir {
                Err(VfsError::NotADirectory)
            } else {
                Ok(p)
            },
        }
    }
}

/// The bytes whose canonical form is the absolute form of `path`: an
/// absolute path stands alone, a relative one behind the working-directory
/// path.
pub open spec fn abs_input(ctx: FsContext, path: Seq<u8>) -> Seq<u8> {
    if path.len() > 0 && path[0] == 47 {
        path
    } else {
        ctx.cwd_path@ + path
    }
}

/// `s`, given a trailing separator if it has none.
pub open spec fn with_slash(s: Seq<u8>) -> Seq<u8> {
    if s.len() > 0 && s[s.len() - 1] == 47 {
        s
    } else {
        s.push(47)
    }
}

/// A trimmed path whose terminal component is a directory alias (`.` or
/// `..`), which removal must reject.
pub open spec fn dot_terminal(t: Seq<u8>) -> bool {
    ||| t == seq![46u8]
    ||| t == seq![46u8, 46u8]
    ||| (t.len() >= 2 && t[t.len() - 1] == 46 && t[t.len() - 2] == 47)
    ||| (t.len() >= 3 && t[t.len() - 1] == 46 && t[t.len() - 2] == 46 && t[t.len() - 3] == 47)
}

/// What creating a regular file answers and leaves behind: the file is made
/// at the anchored path and then resolved again, so the caller gets the
/// node's reference.
pub open spec fn create_file_spec(ctx: FsContext, dir: Option<NodeRef>, path: Seq<u8>) -> (
    RootView,
    Result<(Option<int>, int), VfsError>,
) {
    if path.len() == 0 {
        (ctx.root@, Err(VfsError::NotFound))
    } else if path[path.len() - 1] == 47 {
        (ctx.root@, Err(VfsError::NotADirectory))
    } else {
        let a = parent_anchor_spec(ctx, dir, path);
        let cr = anchor_create_spec(ctx.root@, a, path, NodeKind::File);
        match cr.1 {
            Err(e) => (cr.0, Err(e)),
            Ok(u) => (cr.0, anchor_lookup_spec(cr.0, a, path)),
        }
    }
}

/// What creating a directory answers and leaves behind: a path that already
/// resolves is rejected, a missing one is created.
pub open spec fn create_dir_spec(ctx: FsContext, dir: Option<NodeRef>, path: Seq<u8>) -> (
    RootView,
    Result<(), VfsError>,
) {
    match api_lookup_spec(ctx, dir, path) {
        Ok(p) => (ctx.root@, Err(VfsError::AlreadyExists)),
        Err(e) => if e == VfsError::NotFound {
            anchor_create_spec(ctx.root@, parent_anchor_spec(ctx, dir, path), path, NodeKind::Dir)
        } else {
            (ctx.root@, Err(e))
        },
    }
}

/// What removing a regular file answers and leaves behind: directories are
/// rejected, as is a file its owner cannot write.
pub open spec fn remove_file_spec(ctx: FsContext, dir: Option<NodeRef>, path: Seq<u8>) -> (
    RootView,
    Result<(), VfsError>,
) {
    match api_lookup_spec(ctx, dir, path) {
        Err(e) => (ctx.root@, Err(e)),
        Ok(p) => {
            let attr = spec_attr(ctx.root@.fs_of(p.0).nodes[p.1]);
            if attr.kind == NodeKind::Dir {
                (ctx.root@, Err(VfsError::IsADirectory))
            } else if !attr.perm.writable {
                (ctx.root@, Err(VfsError::PermissionDenied))
            } else {
                anchor_remove_spec(ctx.root@, parent_anchor_spec(ctx, dir, path), path)
            }
        },
    }
}

/// What removing a directory answers and leaves behind: the root and the
/// directory aliases are protected, as are mount points and anything that
/// is not an owner-writable directory.
pub open spec fn remove_dir_spec(ctx: FsContext, dir: Option<NodeRef>, path: Seq<u8>) -> (
    RootView,
    Result<(), VfsError>,
) {
    if path.len() == 0 {
        (ctx.root@, Err(VfsError::NotFound))
    } else {
        let t = trim_slashes(path);
        if t.len() == 0 {
            (ctx.root@, Err(VfsError::DirectoryNotEmpty))
        } else if dot_terminal(t) {
            (ctx.root@, Err(VfsError::InvalidInput))
        } else if !ascii_only(abs_input(ctx, path)) {
            (ctx.root@, Err(VfsError::InvalidInput))
        } else if exists|i: int|
            0 <= i < ctx.root@.mounts.len() && (#[trigger] ctx.root@.mounts[i]).path == canon_of(
                abs_input(ctx, path),
            ) {
            (ctx.root@, Err(VfsError::PermissionDenied))
        } else {
            match api_lookup_spec(ctx, dir, path) {
                Err(e) => (ctx.root@, Err(e)),
                Ok(p) => {
                    let attr = spec_attr(ctx.root@.fs_of(p.0).nodes[p.1]);
                    if attr.kind != NodeKind::Dir {
                        (ctx.root@, Err(VfsError::NotADirectory))
                    } else if !attr.perm.writable {
                        (ctx.root@, Err(VfsError::PermissionDenied))
                    } else {
                        anchor_remove_spec(ctx.root@, parent_anchor_spec(ctx, dir, path), path)
                    }
                },
            }
        }
    }
}

/// What the top-level rename answers and leaves behind: an existing
/// destination file is first removed (replace-on-rename), then the source
/// path's owner renames.
pub open spec fn api_rename_spec(ctx: FsContext, old_path: Seq<u8>, new_path: Seq<u8>) -> (
    RootView,
    Result<(), VfsError>,
) {
    let pre = if api_lookup_spec(ctx, None, new_path) is Ok {
        remove_file_spec(ctx, None, new_path)
    } else {
        (ctx.root@, Ok(()))
    };
    match pre.1 {
        Err(e) => (pre.0, Err(e)),
        Ok(u) => anchor_rename_spec(pre.0, parent_anchor_spec(ctx, None, old_path), old_path, new_path),
    }
}


/// The given directory argument, if any, refers to an existing node.
pub open spec fn dir_ok(ctx: FsContext, dir: Option<&NodeRef>) -> bool {
    match dir {
        Some(d) => ctx.root@.valid_ref(d.mount, d.node),
        None => true,
    }
}

/// The ghost views of a list of paths.
pub open spec fn paths_view(ps: Seq<Vec<u8>>) -> Seq<Seq<u8>> {
    Seq::new(ps.len(), |i: int| ps[i]@)
}

/// The table left by mounting a fresh in-memory filesystem at each path in
/// turn, stopping at the first failure.
pub open spec fn mount_all_spec(v: RootView, ps: Seq<Seq<u8>>) -> (RootView, Result<(), VfsError>)
    decreases ps.len(),
{
    if ps.len() == 0 {
        (v, Ok(()))
    } else {
        let m = mount_spec(v, ps[0], crate::ramfs::empty_fs_view());
        match m.1 {
            Ok(u) => mount_all_spec(m.0, ps.skip(1)),
            Err(e) => (m.0, Err(e)),
        }
    }
}

impl FsContext {
    /// Starts the filesystem: a fresh in-memory main filesystem, one fresh
    /// in-memory filesystem mounted at each of the given well-known paths,
    /// and the working directory at the namespace root.
    pub fn init_rootfs(mount_paths: &Vec<Vec<u8>>) -> (r: Result<FsContext, VfsError>)
        requires
            mount_paths@.len() < usize::MAX - 1,
        ensures
            ({
                let init0 = RootView {
                    main_fs: crate::ramfs::empty_fs_view(),
                    mounts: Seq::empty(),
                };
                let sp = mount_all_spec(init0, paths_view(mount_paths@));
                match r {
                    Ok(ctx) => sp.1 is Ok && ctx.root@ == sp.0 && ctx.wf() && ctx.cwd
                        == DirAnchor::Root && ctx.cwd_path@ == seq![47u8],
                    Err(e) => sp.1 == Err::<(), VfsError>(e),
                }
            }),
    {
        let ghost init0 = RootView { main_fs: crate::ramfs::empty_fs_view(), mounts: Seq::empty() };
        let mut root = RootDirectory::new(RamFs::new());
        proof {
            assert(root@.mounts =~= Seq::<MountView>::empty());
            assert(root@ =~= init0);
            assert(paths_view(mount_paths@).skip(0) =~= paths_view(mount_paths@));
        }
        let mut k: usize = 0;
        while k < mount_paths.len()
            invariant
                0 <= k <= mount_paths@.len(),
                mount_paths@.len() < usize::MAX - 1,
                init0 == (RootView {
                    main_fs: crate::ramfs::empty_fs_view(),
                    mounts: Seq::<MountView>::empty(),
                }),
                root@.wf(),
                root@.main_fs.nodes.len() <= 1 + k,
                mount_all_spec(init0, paths_view(mount_paths@)) == mount_all_spec(
                    root@,
                    paths_view(mount_paths@).skip(k as int),
                ),
            decreases mount_paths@.len() - k,
        {
            let pv = vstd::slice::slice_to_vec(mount_paths[k].as_slice());
            let ghost pre = root@;
            let ghost rest = paths_view(mount_paths@).skip(k as int);
            proof {
                assert(rest[0] == mount_paths@[k as int]@);
            }
            let m = root.mount(pv, RamFs::new());
            match m {
                Err(e) => {
                    proof {
                        assert(mount_spec(pre, pv@, crate::ramfs::empty_fs_view()).1 == Err::<
                            (),
                            VfsError,
                        >(e));
                        assert(mount_all_spec(pre, rest) == (root@, Err::<(), VfsError>(e)));
                    }
                    return Err(e);
                },
                Ok(()) => {
                    proof {
                        crate::ramfs::lemma_create_spec_len(pre.main_fs, 0, pv@, NodeKind::Dir);
                        assert(rest.skip(1) =~= paths_view(mount_paths@).skip(k + 1));
                        assert(mount_all_spec(pre, rest) == mount_all_spec(
                            root@,
                            paths_view(mount_paths@).skip(k + 1),
                        ));
                    }
                    k = k + 1;
                },
            }
        }
        proof {
            assert(paths_view(mount_paths@).skip(k as int) =~= Seq::<Seq<u8>>::empty());
        }
        let mut slash: Vec<u8> = Vec::new();
        slash.push(47);
        proof {
            assert(slash@ =~= seq![47u8]);
        }
        Ok(FsContext { root, cwd: DirAnchor::Root, cwd_path: slash })
    }

    /// The anchor a path operation starts from: the namespace root for an
    /// absolute path, else the given directory or the working directory.
    pub fn parent_node_of(&self, dir: Option<&NodeRef>, path: &[u8]) -> (r: DirAnchor)
        ensures
            r == parent_anchor_spec(*self, opt_val(dir), path@),
    {
        if path.len() > 0 && path[0] == 47 {
            DirAnchor::Root
        } else {
            match dir {
                Some(d) => DirAnchor::Node(*d),
                None => self.cwd,
            }
        }
    }

    /// The absolute, canonical form of `path`, resolved against the working
    /// directory when relative.
    pub fn absolute_path(&self, path: &[u8]) -> (r: Result<Vec<u8>, VfsError>)
        ensures
            match r {
                Ok(v) => ascii_only(abs_input(*self, path@)) && v@ == canon_of(
                    abs_input(*self, path@),
                ) && (abs_input(*self, path@).len() > 0 && abs_input(*self, path@)[0] == 47
                    ==> v@.len() > 0 && v@[0] == 47),
                Err(e) => e == VfsError::InvalidInput && !ascii_only(abs_input(*self, path@)),
            },
    {
        if path.len() > 0 && path[0] == 47 {
            if !is_ascii_bytes(path) {
                return Err(VfsError::InvalidInput);
            }
            Ok(canonicalize_bytes(path))
        } else {
            let mut joined = vstd::slice::slice_to_vec(self.cwd_path.as_slice());
            let mut k: usize = 0;
            while k < path.len()
                invariant
                    0 <= k <= path@.len(),
                    joined@ == self.cwd_path@ + path@.take(k as int),
                decreases path@.len() - k,
            {
                joined.push(path[k]);
                proof {
                    assert(self.cwd_path@ + path@.take(k as int) + seq![path@[k as int]]
                        =~= self.cwd_path@ + path@.take(k + 1));
                }
                k = k + 1;
            }
            proof {
                assert(path@.take(k as int) =~= path@);
            }
            if !is_ascii_bytes(joined.as_slice()) {
                return Err(VfsError::InvalidInput);
            }
            Ok(canonicalize_bytes(joined.as_slice()))
        }
    }

    /// Resolves `path` to a node of the namespace; a trailing separator
    /// demands a directory.
    pub fn lookup(&self, dir: Option<&NodeRef>, path: &[u8]) -> (r: Result<NodeRef, VfsError>)
        requires
            self.wf(),
            dir_ok(*self, dir),
        ensures
            match (r, api_lookup_spec(*self, opt_val(dir), path@)) {
                (Ok(nr), Ok(p)) => sel(nr.mount) == p.0 && nr.node as int == p.1
                    && self.root@.valid_ref(nr.mount, nr.node),
                (Err(e), Err(se)) => e == se,
                _ => false,
            },
    {
        if path.len() == 0 {
            return Err(VfsError::NotFound);
        }
        let a = self.parent_node_of(dir, path);
        let looked = match a {
            DirAnchor::Root => self.root.lookup(path),
            DirAnchor::Node(nr) => self.root.lookup_at(nr.mount, nr.node, path),
        };
        let nr = match looked {
            Ok(nr) => nr,
            Err(e) => {
                return Err(e);
            },
        };
        if path[path.len() - 1] == 47 {
            let attr = self.root.attr_at(nr.mount, nr.node);
            if !attr.is_dir() {
                return Err(VfsError::NotADirectory);
            }
        }
        Ok(nr)
    }

    /// Creates a regular file at `path` and resolves it.
    pub fn create_file(&mut self, dir: Option<&NodeRef>, path: &[u8]) -> (r: Result<
        NodeRef,
        VfsError,
    >)
        requires
            old(self).wf(),
            old(self).root@.headroom(),
            dir_ok(*old(self), dir),
        ensures
            final(self).wf(),
            final(self).cwd == old(self).cwd,
            final(self).cwd_path == old(self).cwd_path,
            final(self).root@ == create_file_spec(*old(self), opt_val(dir), path@).0,
            match (r, create_file_spec(*old(self), opt_val(dir), path@).1) {
                (Ok(nr), Ok(p)) => sel(nr.mount) == p.0 && nr.node as int == p.1
                    && final(self).root@.valid_ref(nr.mount, nr.node),
                (Err(e), Err(se)) => e == se,
                _ => false,
            },
    {
        if path.len() == 0 {
            return Err(VfsError::NotFound);
        }
        if path[path.len() - 1] == 47 {
            return Err(VfsError::NotADirectory);
        }
        let a = self.parent_node_of(dir, path);
        let created = match a {
            DirAnchor::Root => self.root.create(path, NodeKind::File),
            DirAnchor::Node(nr) => self.root.create_at(nr.mount, nr.node, path, NodeKind::File),
        };
        match created {
            Err(e) => {
                return Err(e);
            },
            Ok(()) => (),
        }
        let looked = match a {
            DirAnchor::Root => self.root.lookup(path),
            DirAnchor::Node(nr) => self.root.lookup_at(nr.mount, nr.node, path),
        };
        match looked {
            Ok(nr) => Ok(nr),
            Err(e) => Err(e),
        }
    }

    /// Creates a directory at `path`; a path that already resolves is
    /// rejected.
    pub fn create_dir(&mut self, dir: Option<&NodeRef>, path: &[u8]) -> (r: Result<(), VfsError>)
        requires
            old(self).wf(),
            old(self).root@.headroom(),
            dir_ok(*old(self), dir),
        ensures
            final(self).wf(),
            final(self).cwd == old(self).cwd,
            final(self).cwd_path == old(self).cwd_path,
            final(self).root@ == create_dir_spec(*old(self), opt_val(dir), path@).0,
            r is Ok <==> create_dir_spec(*old(self), opt_val(dir), path@).1 is Ok,
            r is Err ==> r->Err_0 == create_dir_spec(*old(self), opt_val(dir), path@).1->Err_0,
    {
        let looked = self.lookup(dir, path);
        match looked {
            Ok(nr) => Err(VfsError::AlreadyExists),
            Err(e) => {
                if !matches!(e, VfsError::NotFound) {
                    return Err(e);
                }
                let a = self.parent_node_of(dir, path);
                match a {
                    DirAnchor::Root => self.root.create(path, NodeKind::Dir),
                    DirAnchor::Node(nr) => self.root.create_at(
                        nr.mount,
                        nr.node,
                        path,
                        NodeKind::Dir,
                    ),
                }
            },
        }
    }

    /// Removes the regular file at `path`.
    pub fn remove_file(&mut self, dir: Option<&NodeRef>, path: &[u8]) -> (r: Result<(), VfsError>)
        requires
            old(self).wf(),
            dir_ok(*old(self), dir),
        ensures
            final(self).wf(),
            final(self).cwd == old(self).cwd,
            final(self).cwd_path == old(self).cwd_path,
            final(self).root@ == remove_file_spec(*old(self), opt_val(dir), path@).0,
            r is Ok <==> remove_file_spec(*old(self), opt_val(dir), path@).1 is Ok,
            r is Err ==> r->Err_0 == remove_file_spec(*old(self), opt_val(dir), path@).1->Err_0,
    {
        let nr = match self.lookup(dir, path) {
            Ok(nr) => nr,
            Err(e) => {
                return Err(e);
            },
        };
        let attr = self.root.attr_at(nr.mount, nr.node);
        if attr.is_dir() {
            return Err(VfsError::IsADirectory);
        }
        if !attr.perm.writable {
            return Err(VfsError::PermissionDenied);
        }
        let a = self.parent_node_of(dir, path);
        match a {
            DirAnchor::Root => self.root.remove(path),
            DirAnchor::Node(d) => self.root.remove_at(d.mount, d.node, path),
        }
    }

    /// Removes the directory at `path`; the root, the directory aliases and
    /// mount points are protected.
    pub fn remove_dir(&mut self, dir: Option<&NodeRef>, path: &[u8]) -> (r: Result<(), VfsError>)
        requires
            old(self).wf(),
            dir_ok(*old(self), dir),
        ensures
            final(self).wf(),
            final(self).cwd == old(self).cwd,
            final(self).cwd_path == old(self).cwd_path,
            final(self).root@ == remove_dir_spec(*old(self), opt_val(dir), path@).0,
            r is Ok <==> remove_dir_spec(*old(self), opt_val(dir), path@).1 is Ok,
            r is Err ==> r->Err_0 == remove_dir_spec(*old(self), opt_val(dir), path@).1->Err_0,
    {
        if path.len() == 0 {
            return Err(VfsError::NotFound);
        }
        let t = trim_path(path);
        if t.len() == 0 {
            return Err(VfsError::DirectoryNotEmpty);
        }
        let is_alias = (t.len() == 1 && t[0] == 46) || (t.len() == 2 && t[0] == 46 && t[1] == 46)
            || (t.len() >= 2 && t[t.len() - 1] == 46 && t[t.len() - 2] == 47) || (t.len() >= 3
            && t[t.len() - 1] == 46 && t[t.len() - 2] == 46 && t[t.len() - 3] == 47);
        proof {
            if t@.len() == 1 && t@[0] == 46 {
                assert(t@ =~= seq![46u8]);
            }
            if t@.len() == 2 && t@[0] == 46 && t@[1] == 46 {
                assert(t@ =~= seq![46u8, 46u8]);
            }
            if t@ == seq![46u8] {
                assert(t@.len() == 1 && t@[0] == 46);
            }
            if t@ == seq![46u8, 46u8] {
                assert(t@.len() == 2 && t@[0] == 46 && t@[1] == 46);
            }
            assert(is_alias == dot_terminal(t@));
        }
        if is_alias {
            return Err(VfsError::InvalidInput);
        }
        let abs = match self.absolute_path(path) {
            Ok(v) => v,
            Err(e) => {
                return Err(e);
            },
        };
        if self.root.contains(abs.as_slice()) {
            return Err(VfsError::PermissionDenied);
        }
        let nr = match self.lookup(dir, path) {
            Ok(nr) => nr,
            Err(e) => {
                return Err(e);
            },
        };
        let attr = self.root.attr_at(nr.mount, nr.node);
        if !attr.is_dir() {
            return Err(VfsError::NotADirectory);
        }
        if !attr.perm.writable {
            return Err(VfsError::PermissionDenied);
        }
        let a = self.parent_node_of(dir, path);
        match a {
            DirAnchor::Root => self.root.remove(path),
            DirAnchor::Node(d) => self.root.remove_at(d.mount, d.node, path),
        }
    }

    /// The canonical path of the working directory.
    pub fn current_dir(&self) -> (r: Result<Vec<u8>, VfsError>)
        ensures
            match r {
                Ok(v) => v@ == self.cwd_path@,
                Err(e) => false,
            },
    {
        Ok(vstd::slice::slice_to_vec(self.cwd_path.as_slice()))
    }

    /// Changes the working directory: the target must be a directory whose
    /// owner may traverse it, and node and path are updated together.
    pub fn set_current_dir(&mut self, path: &[u8]) -> (r: Result<(), VfsError>)
        requires
            old(self).wf(),
        ensures
            final(self).wf(),
            final(self).root == old(self).root,
            ({
                let input = abs_input(*old(self), path@);
                if !ascii_only(input) {
                    r == Err::<(), VfsError>(VfsError::InvalidInput) && *final(self) == *old(self)
                } else {
                    let abs = with_slash(canon_of(input));
                    if abs == seq![47u8] {
                        r is Ok && final(self).cwd == DirAnchor::Root && final(self).cwd_path@
                            == seq![47u8]
                    } else {
                        match api_lookup_spec(*old(self), None, abs) {
                            Err(e) => r == Err::<(), VfsError>(e) && *final(self) == *old(self),
                            Ok(p) => {
                                let attr = spec_attr(old(self).root@.fs_of(p.0).nodes[p.1]);
                                if attr.kind != NodeKind::Dir {
                                    r == Err::<(), VfsError>(VfsError::NotADirectory)
                                        && *final(self) == *old(self)
                                } else if !attr.perm.executable {
                                    r == Err::<(), VfsError>(VfsError::PermissionDenied)
                                        && *final(self) == *old(self)
                                } else {
                                    r is Ok && (final(self).cwd matches DirAnchor::Node(nr) && sel(
                                        nr.mount,
                                    ) == p.0 && nr.node as int == p.1) && final(self).cwd_path@
                                        == abs
                                }
                            },
                        }
                    }
                }
            }),
    {
        let mut abs = match self.absolute_path(path) {
            Ok(v) => v,
            Err(e) => {
                return Err(e);
            },
        };
        if !(abs.len() > 0 && abs[abs.len() - 1] == 47) {
            abs.push(47);
        }
        proof {
            assert(abs@ == with_slash(canon_of(abs_input(*self, path@))));
        }
        if abs.len() == 1 && abs[0] == 47 {
            proof {
                assert(abs@ =~= seq![47u8]);
            }
            self.cwd = DirAnchor::Root;
            self.cwd_path = abs;
            return Ok(());
        }
        proof {
            assert(abs@ != seq![47u8]);
        }
        let nr = match self.lookup(None, abs.as_slice()) {
            Ok(nr) => nr,
            Err(e) => {
                return Err(e);
            },
        };
        let attr = self.root.attr_at(nr.mount, nr.node);
        if !attr.is_dir() {
            return Err(VfsError::NotADirectory);
        }
        if !attr.perm.executable {
            return Err(VfsError::PermissionDenied);
        }
        proof {
            let input = abs_input(*old(self), path@);
            if !(path@.len() > 0 && path@[0] == 47) {
                assert(input[0] == old(self).cwd_path@[0]);
            }
            assert(input.len() > 0 && input[0] == 47);
            assert(abs@[0] == 47);
        }
        self.cwd = DirAnchor::Node(nr);
        self.cwd_path = abs;
        Ok(())
    }

    /// Renames `old_path` to `new_path`: an existing destination file is
    /// replaced, and the rename itself happens inside the source's owner.
    pub fn rename(&mut self, old_path: &[u8], new_path: &[u8]) -> (r: Result<(), VfsError>)
        requires
            old(self).wf(),
        ensures
            final(self).wf(),
            final(self).cwd == old(self).cwd,
            final(self).cwd_path == old(self).cwd_path,
            final(self).root@ == api_rename_spec(*old(self), old_path@, new_path@).0,
            r is Ok <==> api_rename_spec(*old(self), old_path@, new_path@).1 is Ok,
            r is Err ==> r->Err_0 == api_rename_spec(*old(self), old_path@, new_path@).1->Err_0,
    {
        let dst_exists = match self.lookup(None, new_path) {
            Ok(nr) => true,
            Err(e) => false,
        };
        if dst_exists {
            match self.remove_file(None, new_path) {
                Ok(()) => (),
                Err(e) => {
                    return Err(e);
                },
            }
        }
        let a = self.parent_node_of(None, old_path);
        proof {
            assert(a == parent_anchor_spec(*old(self), None, old_path@));
        }
        match a {
            DirAnchor::Root => self.root.rename(old_path, new_path),
            DirAnchor::Node(d) => self.root.rename_at(d.mount, d.node, old_path, new_path),
        }
    }
}

} // verus!
