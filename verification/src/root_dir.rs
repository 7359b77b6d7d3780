//! The root directory of the namespace: one main filesystem plus an ordered
//! list of mounted filesystem instances, each grafted at an absolute path.
//! Every path operation is dispatched to the filesystem whose mount path is
//! the longest prefix of the path; ties go to the mount registered first; a
//! path no mount matches goes to the main filesystem.

use crate::path_util::{bytes_eq, is_prefix, norm_rel, normalize_rel, starts_with};
use crate::ramfs::{
    create_spec, lemma_create_spec_len, lemma_remove_spec_len, lookup_spec, remove_spec,
    rename_spec, spec_attr, FsView, RamFs,
};
use crate::Attributes;
use crate::NodeKind;
use crate::VfsError;
use vstd::prelude::*;

verus! {

/// One mounted filesystem: the absolute namespace path it is grafted at and
/// the filesystem instance itself.
pub struct MountPoint {
    pub path: Vec<u8>,
    pub fs: RamFs,
}

/// Ghost view of a mount point.
#[verifier::ext_equal]
pub ghost struct MountView {
    pub path: Seq<u8>,
    pub fs: FsView,
}

impl View for MountPoint {
    type V = MountView;

    open spec fn view(&self) -> MountView {
        MountView { path: self.path@, fs: self.fs@ }
    }
}

/// The mount table: the main filesystem and the ordered mounts.
pub struct RootDirectory {
    pub main_fs: RamFs,
    pub mounts: Vec<MountPoint>,
}

/// Ghost view of the mount table.
#[verifier::ext_equal]
pub ghost struct RootView {
    pub main_fs: FsView,
    pub mounts: Seq<MountView>,
}

impl View for RootDirectory {
    type V = RootView;

    open spec fn view(&self) -> RootView {
        RootView {
            main_fs: self.main_fs@,
            mounts: Seq::new(self.mounts@.len(), |i: int| self.mounts@[i]@),
        }
    }
}

/// A path a filesystem can be mounted at: absolute and not the root itself.
pub open spec fn is_mount_path(p: Seq<u8>) -> bool {
    p.len() >= 2 && p[0] == 47
}

/// A reference to one node of the namespace: which mount holds it (none for
/// the main filesystem) and its index there.
#[derive(Clone, Copy, PartialEq, Eq, Structural, Debug)]
pub struct NodeRef {
    pub mount: Option<usize>,
    pub node: usize,
}

impl RootView {
    /// The main filesystem and every mounted one are well-formed, every
    /// mount path is absolute and not `/`, and mount paths are unique.
    pub open spec fn wf(self) -> bool {
        &&& self.main_fs.wf()
        &&& (forall|i: int| 0 <= i < self.mounts.len() ==> (#[trigger] self.mounts[i]).fs.wf())
        &&& (forall|i: int|
            0 <= i < self.mounts.len() ==> is_mount_path((#[trigger] self.mounts[i]).path))
        &&& (forall|i: int, j: int|
            0 <= i < j < self.mounts.len() ==> self.mounts[i].path != self.mounts[j].path)
    }

    /// Room to bind at least one more node in every filesystem.
    pub open spec fn headroom(self) -> bool {
        &&& self.main_fs.nodes.len() < usize::MAX
        &&& forall|i: int|
            0 <= i < self.mounts.len() ==> (#[trigger] self.mounts[i]).fs.nodes.len() < usize::MAX
    }

    /// The filesystem a resolved mount selector denotes.
    pub open spec fn fs_of(self, m: Option<int>) -> FsView {
        match m {
            None => self.main_fs,
            Some(i) => self.mounts[i].fs,
        }
    }

    /// The table with the selected filesystem replaced.
    pub open spec fn with_fs(self, m: Option<int>, f: FsView) -> RootView {
        match m {
            None => RootView { main_fs: f, mounts: self.mounts },
            Some(i) => RootView {
                main_fs: self.main_fs,
                mounts: self.mounts.update(i, MountView { path: self.mounts[i].path, fs: f }),
            },
        }
    }
}

/// The best match among the first `n` mounts: the index and length of the
/// longest mount path (leading separator dropped) that prefixes `rel`; a
/// later mount replaces the best only with a strictly longer match, so ties
/// keep the mount registered first. Length 0 means no match.
pub open spec fn best_upto(ms: Seq<MountView>, rel: Seq<u8>, n: int) -> (int, int)
    decreases n,
{
    if n <= 0 {
        (0, 0)
    } else {
        let prev = best_upto(ms, rel, n - 1);
        let key = ms[n - 1].path.skip(1);
        if is_prefix(key, rel) && key.len() > prev.1 {
            (n - 1, key.len() as int)
        } else {
            prev
        }
    }
}

/// Where mount resolution sends a relative path: the selected mount (none
/// for the main filesystem) and the residual path behind the matched prefix.
pub open spec fn resolve_spec(ms: Seq<MountView>, rel: Seq<u8>) -> (Option<int>, Seq<u8>) {
    let b = best_upto(ms, rel, ms.len() as int);
    if b.1 == 0 {
        (None, rel)
    } else {
        (Some(b.0), rel.skip(b.1))
    }
}

/// The scan really selects the longest matching mount prefix, and among
/// mounts whose match has that same length, the one registered first.
pub proof fn lemma_best_upto(ms: Seq<MountView>, rel: Seq<u8>, n: int)
    requires
        0 <= n <= ms.len(),
    ensures
        ({
            let b = best_upto(ms, rel, n);
            &&& 0 <= b.1 <= rel.len()
            &&& (b.1 == 0 ==> b.0 == 0)
            &&& (b.1 > 0 ==> 0 <= b.0 < n && is_prefix(ms[b.0].path.skip(1), rel)
                && ms[b.0].path.skip(1).len() == b.1)
            &&& (forall|j: int|
                0 <= j < n && is_prefix((#[trigger] ms[j].path).skip(1), rel) ==> ms[j].path.skip(
                    1,
                ).len() <= b.1)
            &&& (forall|j: int|
                0 <= j < n && is_prefix((#[trigger] ms[j].path).skip(1), rel) && ms[j].path.skip(
                    1,
                ).len() == b.1 ==> b.0 <= j)
        }),
    decreases n,
{
    if n > 0 {
        lemma_best_upto(ms, rel, n - 1);
        let prev = best_upto(ms, rel, n - 1);
        let key = ms[n - 1].path.skip(1);
        let b = best_upto(ms, rel, n);
        assert forall|j: int|
            0 <= j < n && is_prefix((#[trigger] ms[j].path).skip(1), rel) implies ms[j].path.skip(
            1,
        ).len() <= b.1 by {
            if j < n - 1 {
                assert(ms[j].path.skip(1).len() <= prev.1);
            }
        }
        assert forall|j: int|
            0 <= j < n && is_prefix((#[trigger] ms[j].path).skip(1), rel) && ms[j].path.skip(
            1,
        ).len() == b.1 implies b.0 <= j by {
            if j < n - 1 {
                assert(ms[j].path.skip(1).len() <= prev.1);
            }
        }
    }
}

/// The mount list with every mount at `path` taken out, order kept.
pub open spec fn without_path(ms: Seq<MountView>, path: Seq<u8>) -> Seq<MountView>
    decreases ms.len(),
{
    if ms.len() == 0 {
        ms
    } else if ms[0].path == path {
        without_path(ms.drop_first(), path)
    } else {
        seq![ms[0]] + without_path(ms.drop_first(), path)
    }
}

/// Unmounting keeps every other mount, in order, and keeps none at the
/// removed path.
pub proof fn lemma_without_path(ms: Seq<MountView>, path: Seq<u8>)
    ensures
        ({
            let w = without_path(ms, path);
            &&& w.len() <= ms.len()
            &&& (forall|j: int| 0 <= j < w.len() ==> ms.contains(#[trigger] w[j]))
            &&& (forall|j: int| 0 <= j < w.len() ==> (#[trigger] w[j]).path != path)
        }),
    decreases ms.len(),
{
    if ms.len() > 0 {
        lemma_without_path(ms.drop_first(), path);
        let w = without_path(ms, path);
        let tail = without_path(ms.drop_first(), path);
        assert forall|j: int| 0 <= j < w.len() implies ms.contains(#[trigger] w[j]) && (
        #[trigger] w[j]).path != path by {
            if ms[0].path == path {
                assert(w[j] == tail[j]);
                assert(ms.drop_first().contains(tail[j]));
                let k = choose|k: int|
                    0 <= k < ms.drop_first().len() && ms.drop_first()[k] == tail[j];
                assert(ms[k + 1] == tail[j]);
            } else if j == 0 {
                assert(w[0] == ms[0]);
                assert(ms.contains(ms[0]));
            } else {
                assert(w[j] == tail[j - 1]);
                assert(ms.drop_first().contains(tail[j - 1]));
                let k = choose|k: int|
                    0 <= k < ms.drop_first().len() && ms.drop_first()[k] == tail[j - 1];
                assert(ms[k + 1] == tail[j - 1]);
            }
        }
    }
}

/// Unmounting keeps the mount paths pairwise distinct.
pub proof fn lemma_without_path_distinct(ms: Seq<MountView>, path: Seq<u8>)
    requires
        forall|i: int, j: int| 0 <= i < j < ms.len() ==> ms[i].path != ms[j].path,
    ensures
        ({
            let w = without_path(ms, path);
            forall|i: int, j: int| 0 <= i < j < w.len() ==> w[i].path != w[j].path
        }),
    decreases ms.len(),
{
    if ms.len() > 0 {
        assert forall|i: int, j: int|
            0 <= i < j < ms.drop_first().len() implies ms.drop_first()[i].path != ms.drop_first(
        )[j].path by {
            assert(ms.drop_first()[i] == ms[i + 1] && ms.drop_first()[j] == ms[j + 1]);
        }
        lemma_without_path_distinct(ms.drop_first(), path);
        lemma_without_path(ms.drop_first(), path);
        let w = without_path(ms, path);
        let tail = without_path(ms.drop_first(), path);
        if ms[0].path != path {
            assert forall|i: int, j: int| 0 <= i < j < w.len() implies w[i].path != w[j].path by {
                if i == 0 {
                    assert(w[j] == tail[j - 1]);
                    assert(ms.drop_first().contains(tail[j - 1]));
                    let k = choose|k: int|
                        0 <= k < ms.drop_first().len() && ms.drop_first()[k] == tail[j - 1];
                    assert(ms[k + 1] == tail[j - 1]);
                } else {
                    assert(w[i] == tail[i - 1] && w[j] == tail[j - 1]);
                }
            }
        }
    }
}

/// What mounting answers and leaves behind: an invalid or duplicate path is
/// rejected; otherwise the mount directory is made in the main filesystem
/// (an existing one is fine), must resolve to a directory, and the mount is
/// appended.
pub open spec fn mount_spec(v: RootView, path: Seq<u8>, fsv: FsView) -> (
    RootView,
    Result<(), VfsError>,
) {
    if !is_mount_path(path) {
        (v, Err(VfsError::InvalidInput))
    } else if exists|i: int| 0 <= i < v.mounts.len() && (#[trigger] v.mounts[i]).path == path {
        (v, Err(VfsError::InvalidInput))
    } else {
        let cr = create_spec(v.main_fs, 0, path, NodeKind::Dir);
        let v1 = RootView { main_fs: cr.0, mounts: v.mounts };
        if !(cr.1 is Ok || cr.1->Err_0 == VfsError::AlreadyExists) {
            (v1, Err(cr.1->Err_0))
        } else {
            match lookup_spec(cr.0, 0, path) {
                Err(e) => (v1, Err(e)),
                Ok(n) => if cr.0.nodes[n].kind != NodeKind::Dir {
                    (v1, Err(VfsError::NotADirectory))
                } else {
                    (
                        RootView {
                            main_fs: cr.0,
                            mounts: v.mounts.push(MountView { path, fs: fsv }),
                        },
                        Ok(()),
                    )
                },
            }
        }
    }
}

impl MountPoint {
    /// Binds a filesystem instance to the namespace path it is grafted at.
    pub fn new(path: Vec<u8>, fs: RamFs) -> (r: MountPoint)
        ensures
            r@.path == path@,
            r@.fs == fs@,
    {
        MountPoint { path, fs }
    }
}

impl RootDirectory {
    /// A mount table over the given main filesystem, with no mounts yet.
    pub fn new(main_fs: RamFs) -> (r: RootDirectory)
        ensures
            r@.main_fs == main_fs@,
            r@.mounts.len() == 0,
    {
        RootDirectory { main_fs, mounts: Vec::new() }
    }

    /// Whether some filesystem is mounted at exactly `path`.
    pub fn contains(&self, path: &[u8]) -> (r: bool)
        ensures
            r == exists|i: int|
                0 <= i < self@.mounts.len() && (#[trigger] self@.mounts[i]).path == path@,
    {
        let mut k: usize = 0;
        while k < self.mounts.len()
            invariant
                0 <= k <= self@.mounts.len(),
                forall|i: int| 0 <= i < k ==> (#[trigger] self@.mounts[i]).path != path@,
            decreases self@.mounts.len() - k,
        {
            if bytes_eq(self.mounts[k].path.as_slice(), path) {
                proof {
                    assert(self@.mounts[k as int].path == path@);
                }
                return true;
            }
            k = k + 1;
        }
        false
    }

    /// Grafts `fs` into the namespace at `path`.
    pub fn mount(&mut self, path: Vec<u8>, fs: RamFs) -> (r: Result<(), VfsError>)
        requires
            old(self)@.wf(),
            fs@.wf(),
            old(self)@.main_fs.nodes.len() < usize::MAX,
        ensures
            final(self)@.wf(),
            final(self)@ == mount_spec(old(self)@, path@, fs@).0,
            r is Ok <==> mount_spec(old(self)@, path@, fs@).1 is Ok,
            r is Err ==> r->Err_0 == mount_spec(old(self)@, path@, fs@).1->Err_0,
    {
        let ghost oldv = self@;
        if path.len() < 2 || path[0] != 47 {
            return Err(VfsError::InvalidInput);
        }
        if self.contains(path.as_slice()) {
            return Err(VfsError::InvalidInput);
        }
        let created = self.main_fs.create(0, path.as_slice(), NodeKind::Dir);
        let ghost v1 = RootView { main_fs: self@.main_fs, mounts: oldv.mounts };
        proof {
            assert(self@ =~= v1);
        }
        match created {
            Ok(()) => (),
            Err(e) => {
                if !matches!(e, VfsError::AlreadyExists) {
                    return Err(e);
                }
            },
        }
        let looked = self.main_fs.lookup(0, path.as_slice());
        let n = match looked {
            Err(e) => {
                return Err(e);
            },
            Ok(n) => n,
        };
        let is_dir = match self.main_fs.nodes[n].kind {
            NodeKind::Dir => true,
            NodeKind::File => false,
        };
        if !is_dir {
            return Err(VfsError::NotADirectory);
        }
        self.mounts.push(MountPoint { path, fs });
        proof {
            let newv = mount_spec(oldv, path@, fs@).0;
            assert forall|i: int| 0 <= i < self@.mounts.len() implies self@.mounts[i]
                == newv.mounts[i] by {}
            assert(self@.mounts =~= newv.mounts);
            assert(self@ =~= newv);
            assert forall|i: int, j: int|
                0 <= i < j < self@.mounts.len() implies self@.mounts[i].path
                != self@.mounts[j].path by {
                if j == self@.mounts.len() - 1 {
                    assert(oldv.mounts[i].path != path@);
                }
            }
            assert(self@.wf());
        }
        Ok(())
    }

    /// Takes the mount at `path` out of the table. The unmounted filesystem
    /// instance is dropped with its mount point.
    pub fn _umount(&mut self, path: &[u8])
        requires
            old(self)@.wf(),
        ensures
            final(self)@.wf(),
            final(self)@.main_fs == old(self)@.main_fs,
            final(self)@.mounts == without_path(old(self)@.mounts, path@),
    {
        let ghost oldms = self@.mounts;
        let mut kept: Vec<MountPoint> = Vec::new();
        proof {
            assert(without_path(oldms, path@) =~= Seq::new(
                kept@.len(),
                |i: int| kept@[i]@,
            ) + without_path(oldms, path@));
        }
        while self.mounts.len() > 0
            invariant
                without_path(oldms, path@) == Seq::new(kept@.len(), |i: int| kept@[i]@)
                    + without_path(
                    Seq::new(self.mounts@.len(), |i: int| self.mounts@[i]@),
                    path@,
                ),
                old(self).main_fs == self.main_fs,
            decreases self.mounts@.len(),
        {
            let ghost curms = Seq::new(self.mounts@.len(), |i: int| self.mounts@[i]@);
            let mp = self.mounts.remove(0);
            proof {
                assert(Seq::new(self.mounts@.len(), |i: int| self.mounts@[i]@)
                    =~= curms.drop_first());
            }
            if !bytes_eq(mp.path.as_slice(), path) {
                let ghost keptv = Seq::new(kept@.len(), |i: int| kept@[i]@);
                kept.push(mp);
                proof {
                    assert(Seq::new(kept@.len(), |i: int| kept@[i]@) =~= keptv.push(mp@));
                    assert(keptv.push(mp@) + without_path(curms.drop_first(), path@) =~= keptv + (
                    seq![curms[0]] + without_path(curms.drop_first(), path@)));
                }
            }
        }
        proof {
            assert(Seq::new(self.mounts@.len(), |i: int| self.mounts@[i]@)
                =~= Seq::<MountView>::empty());
            assert(without_path(Seq::<MountView>::empty(), path@) =~= Seq::<MountView>::empty());
        }
        self.mounts = kept;
        proof {
            assert(Seq::new(kept@.len(), |i: int| kept@[i]@) + Seq::<MountView>::empty()
                =~= Seq::new(kept@.len(), |i: int| kept@[i]@));
            assert(self@.mounts =~= without_path(oldms, path@));
            lemma_without_path(oldms, path@);
            lemma_without_path_distinct(oldms, path@);
            assert forall|i: int| 0 <= i < self@.mounts.len() implies (
            #[trigger] self@.mounts[i]).fs.wf() && is_mount_path(self@.mounts[i].path) by {
                assert(oldms.contains(self@.mounts[i]));
                let k = choose|k: int| 0 <= k < oldms.len() && oldms[k] == self@.mounts[i];
            }
        }
    }

    /// Resolves a path to the filesystem that owns it and the residual path
    /// to hand that filesystem.
    pub fn resolve<'a>(&self, path: &'a [u8]) -> (r: (Option<usize>, &'a [u8]))
        requires
            self@.wf(),
        ensures
            ({
                let sp = resolve_spec(self@.mounts, norm_rel(path@));
                &&& match r.0 {
                    Some(i) => sp.0 == Some(i as int) && i < self@.mounts.len(),
                    None => sp.0 is None,
                }
                &&& r.1@ == sp.1
            }),
    {
        let rel = normalize_rel(path);
        let ghost ms = self@.mounts;
        let mut idx: usize = 0;
        let mut max_len: usize = 0;
        let mut k: usize = 0;
        while k < self.mounts.len()
            invariant
                self@.wf(),
                ms == self@.mounts,
                0 <= k <= self@.mounts.len(),
                (idx as int, max_len as int) == best_upto(ms, rel@, k as int),
                max_len > 0 ==> idx < k,
                max_len <= rel@.len(),
            decreases self@.mounts.len() - k,
        {
            proof {
                assert(is_mount_path(ms[k as int].path));
            }
            let mp_path = &self.mounts[k].path;
            let key = vstd::slice::slice_subrange(mp_path.as_slice(), 1, mp_path.len());
            proof {
                assert(key@ =~= ms[k as int].path.skip(1));
            }
            if starts_with(rel, key) && key.len() > max_len {
                idx = k;
                max_len = key.len();
            }
            k = k + 1;
        }
        if max_len == 0 {
            (None, rel)
        } else {
            let residual = vstd::slice::slice_subrange(rel, max_len, rel.len());
            proof {
                assert(residual@ =~= rel@.skip(max_len as int));
            }
            (Some(idx), residual)
        }
    }

    /// The attributes of the namespace root: those of the main filesystem's
    /// root directory.
    pub fn get_attr(&self) -> (r: Attributes)
        requires
            self@.wf(),
        ensures
            r == spec_attr(self@.main_fs.nodes[0]),
    {
        self.main_fs.get_attr(0)
    }
}


/// Where a namespace lookup leads: the owning filesystem and the node the
/// residual path resolves to inside it.
pub open spec fn root_lookup_spec(v: RootView, path: Seq<u8>) -> Result<
    (Option<int>, int),
    VfsError,
> {
    let sp = resolve_spec(v.mounts, norm_rel(path));
    match lookup_spec(v.fs_of(sp.0), 0, sp.1) {
        Ok(n) => Ok((sp.0, n)),
        Err(e) => Err(e),
    }
}

/// What a namespace create does: a path that names a mount point itself
/// already exists (no-op success); otherwise the owning filesystem creates
/// at the residual path.
pub open spec fn root_create_spec(v: RootView, path: Seq<u8>, kind: NodeKind) -> (
    RootView,
    Result<(), VfsError>,
) {
    let sp = resolve_spec(v.mounts, norm_rel(path));
    if sp.1.len() == 0 {
        (v, Ok(()))
    } else {
        let cr = create_spec(v.fs_of(sp.0), 0, sp.1, kind);
        (v.with_fs(sp.0, cr.0), cr.1)
    }
}

/// What a namespace remove does: a mount point itself cannot be removed;
/// otherwise the owning filesystem removes at the residual path.
pub open spec fn root_remove_spec(v: RootView, path: Seq<u8>) -> (RootView, Result<(), VfsError>) {
    let sp = resolve_spec(v.mounts, norm_rel(path));
    if sp.1.len() == 0 {
        (v, Err(VfsError::PermissionDenied))
    } else {
        let rr = remove_spec(v.fs_of(sp.0), 0, sp.1);
        (v.with_fs(sp.0, rr.0), rr.1)
    }
}

/// What a namespace rename does: the source's owning filesystem is resolved
/// and handed the residual source path and the whole destination path; a
/// mount point itself cannot be renamed.
pub open spec fn root_rename_spec(v: RootView, src: Seq<u8>, dst: Seq<u8>) -> (
    RootView,
    Result<(), VfsError>,
) {
    let sp = resolve_spec(v.mounts, norm_rel(src));
    if sp.1.len() == 0 {
        (v, Err(VfsError::PermissionDenied))
    } else {
        let rr = rename_spec(v.fs_of(sp.0), 0, sp.1, dst);
        (v.with_fs(sp.0, rr.0), rr.1)
    }
}

impl RootDirectory {
    /// Resolves `path` to a node of the namespace.
    pub fn lookup(&self, path: &[u8]) -> (r: Result<NodeRef, VfsError>)
        requires
            self@.wf(),
        ensures
            match (r, root_lookup_spec(self@, path@)) {
                (Ok(nr), Ok(sp)) => (match nr.mount {
                    Some(i) => sp.0 == Some(i as int) && i < self@.mounts.len(),
                    None => sp.0 is None,
                }) && nr.node as int == sp.1 && nr.node < self@.fs_of(sp.0).nodes.len(),
                (Err(e), Err(se)) => e == se,
                _ => false,
            },
    {
        let (m, residual) = self.resolve(path);
        match m {
            None => match self.main_fs.lookup(0, residual) {
                Ok(n) => Ok(NodeRef { mount: None, node: n }),
                Err(e) => Err(e),
            },
            Some(i) => {
                proof {
                    assert(self@.mounts[i as int].fs.wf());
                }
                match self.mounts[i].fs.lookup(0, residual) {
                    Ok(n) => Ok(NodeRef { mount: Some(i), node: n }),
                    Err(e) => Err(e),
                }
            },
        }
    }

    /// Creates a node of the given kind at `path` in the namespace.
    pub fn create(&mut self, path: &[u8], kind: NodeKind) -> (r: Result<(), VfsError>)
        requires
            old(self)@.wf(),
            old(self)@.headroom(),
        ensures
            final(self)@.wf(),
            forall|c: NodeRef|
                old(self)@.valid_ref(c.mount, c.node) ==> #[trigger] final(self)@.valid_ref(
                    c.mount,
                    c.node,
                ),
            final(self)@.mounts.len() == old(self)@.mounts.len(),
            final(self)@ == root_create_spec(old(self)@, path@, kind).0,
            r is Ok <==> root_create_spec(old(self)@, path@, kind).1 is Ok,
            r is Err ==> r->Err_0 == root_create_spec(old(self)@, path@, kind).1->Err_0,
    {
        let ghost oldv = self@;
        let (m, residual) = self.resolve(path);
        if residual.len() == 0 {
            return Ok(());
        }
        match m {
            None => {
                let r = self.main_fs.create(0, residual, kind);
                proof {
                    assert(self@ =~= oldv.with_fs(None, self@.main_fs));
                    lemma_create_spec_len(oldv.main_fs, 0, residual@, kind);
                    assert forall|c: NodeRef| oldv.valid_ref(c.mount, c.node) implies #[trigger] self@.valid_ref(
                        c.mount,
                        c.node,
                    ) by {
                        lemma_with_fs_grows(oldv, None, self@.main_fs, c);
                    }
                }
                r
            },
            Some(i) => {
                proof {
                    assert(oldv.mounts[i as int].fs.wf());
                    assert(oldv.mounts[i as int].fs.nodes.len() < usize::MAX);
                }
                let r = self.mounts[i].fs.create(0, residual, kind);
                proof {
                    lemma_create_spec_len(oldv.mounts[i as int].fs, 0, residual@, kind);
                    let newv = oldv.with_fs(
                        Some(i as int),
                        create_spec(oldv.mounts[i as int].fs, 0, residual@, kind).0,
                    );
                    assert forall|c: NodeRef| oldv.valid_ref(c.mount, c.node) implies #[trigger] self@.valid_ref(
                        c.mount,
                        c.node,
                    ) by {
                        lemma_with_fs_grows(oldv, Some(i as int), create_spec(oldv.mounts[i as int].fs, 0, residual@, kind).0, c);
                    }

                    assert forall|j: int| 0 <= j < self@.mounts.len() implies self@.mounts[j]
                        == newv.mounts[j] by {
                        if j != i {
                            assert(self.mounts@[j] == old(self).mounts@[j]);
                        }
                    }
                    assert(self@.mounts =~= newv.mounts);
                    assert(self@ =~= newv);
                    assert forall|a: int, b: int|
                        0 <= a < b < self@.mounts.len() implies self@.mounts[a].path
                        != self@.mounts[b].path by {
                        assert(self@.mounts[a].path == oldv.mounts[a].path);
                        assert(self@.mounts[b].path == oldv.mounts[b].path);
                    }
                }
                r
            },
        }
    }

    /// Removes the node at `path` from the namespace.
    pub fn remove(&mut self, path: &[u8]) -> (r: Result<(), VfsError>)
        requires
            old(self)@.wf(),
        ensures
            final(self)@.wf(),
            forall|c: NodeRef|
                old(self)@.valid_ref(c.mount, c.node) ==> #[trigger] final(self)@.valid_ref(
                    c.mount,
                    c.node,
                ),
            final(self)@.mounts.len() == old(self)@.mounts.len(),
            final(self)@ == root_remove_spec(old(self)@, path@).0,
            r is Ok <==> root_remove_spec(old(self)@, path@).1 is Ok,
            r is Err ==> r->Err_0 == root_remove_spec(old(self)@, path@).1->Err_0,
    {
        let ghost oldv = self@;
        let (m, residual) = self.resolve(path);
        if residual.len() == 0 {
            return Err(VfsError::PermissionDenied);
        }
        match m {
            None => {
                let r = self.main_fs.remove(0, residual);
                proof {
                    assert(self@ =~= oldv.with_fs(None, self@.main_fs));
                    lemma_remove_spec_len(oldv.main_fs, 0, residual@);
                    assert forall|c: NodeRef| oldv.valid_ref(c.mount, c.node) implies #[trigger] self@.valid_ref(
                        c.mount,
                        c.node,
                    ) by {
                        lemma_with_fs_grows(oldv, None, self@.main_fs, c);
                    }
                }
                r
            },
            Some(i) => {
                proof {
                    assert(oldv.mounts[i as int].fs.wf());
                }
                let r = self.mounts[i].fs.remove(0, residual);
                proof {
                    lemma_remove_spec_len(oldv.mounts[i as int].fs, 0, residual@);
                    let newv = oldv.with_fs(
                        Some(i as int),
                        remove_spec(oldv.mounts[i as int].fs, 0, residual@).0,
                    );
                    assert forall|c: NodeRef| oldv.valid_ref(c.mount, c.node) implies #[trigger] self@.valid_ref(
                        c.mount,
                        c.node,
                    ) by {
                        lemma_with_fs_grows(oldv, Some(i as int), remove_spec(oldv.mounts[i as int].fs, 0, residual@).0, c);
                    }

                    assert forall|j: int| 0 <= j < self@.mounts.len() implies self@.mounts[j]
                        == newv.mounts[j] by {
                        if j != i {
                            assert(self.mounts@[j] == old(self).mounts@[j]);
                        }
                    }
                    assert(self@.mounts =~= newv.mounts);
                    assert(self@ =~= newv);
                    assert forall|a: int, b: int|
                        0 <= a < b < self@.mounts.len() implies self@.mounts[a].path
                        != self@.mounts[b].path by {
                        assert(self@.mounts[a].path == oldv.mounts[a].path);
                        assert(self@.mounts[b].path == oldv.mounts[b].path);
                    }
                }
                r
            },
        }
    }

    /// Renames within the filesystem that owns the source path.
    pub fn rename(&mut self, src_path: &[u8], dst_path: &[u8]) -> (r: Result<(), VfsError>)
        requires
            old(self)@.wf(),
        ensures
            final(self)@.wf(),
            forall|c: NodeRef|
                old(self)@.valid_ref(c.mount, c.node) ==> #[trigger] final(self)@.valid_ref(
                    c.mount,
                    c.node,
                ),
            final(self)@.mounts.len() == old(self)@.mounts.len(),
            final(self)@ == root_rename_spec(old(self)@, src_path@, dst_path@).0,
            r is Ok <==> root_rename_spec(old(self)@, src_path@, dst_path@).1 is Ok,
            r is Err ==> r->Err_0 == root_rename_spec(old(self)@, src_path@, dst_path@).1->Err_0,
    {
        let ghost oldv = self@;
        let (m, residual) = self.resolve(src_path);
        if residual.len() == 0 {
            return Err(VfsError::PermissionDenied);
        }
        match m {
            None => {
                let r = self.main_fs.rename(0, residual, dst_path);
                proof {
                    assert(self@ =~= oldv.with_fs(None, self@.main_fs));
                }
                r
            },
            Some(i) => {
                proof {
                    assert(oldv.mounts[i as int].fs.wf());
                }
                let r = self.mounts[i].fs.rename(0, residual, dst_path);
                proof {
                    let newv = oldv.with_fs(
                        Some(i as int),
                        rename_spec(oldv.mounts[i as int].fs, 0, residual@, dst_path@).0,
                    );
                    assert forall|j: int| 0 <= j < self@.mounts.len() implies self@.mounts[j]
                        == newv.mounts[j] by {
                        if j != i {
                            assert(self.mounts@[j] == old(self).mounts@[j]);
                        }
                    }
                    assert(self@.mounts =~= newv.mounts);
                    assert(self@ =~= newv);
                    assert forall|a: int, b: int|
                        0 <= a < b < self@.mounts.len() implies self@.mounts[a].path
                        != self@.mounts[b].path by {
                        assert(self@.mounts[a].path == oldv.mounts[a].path);
                        assert(self@.mounts[b].path == oldv.mounts[b].path);
                    }
                }
                r
            },
        }
    }
}


/// The ghost mount selector an exec selector denotes.
pub open spec fn sel(m: Option<usize>) -> Option<int> {
    match m {
        Some(i) => Some(i as int),
        None => None,
    }
}

impl RootView {
    /// The selector picks an existing filesystem and a node inside it.
    pub open spec fn valid_ref(self, m: Option<usize>, node: usize) -> bool {
        &&& match m {
            Some(i) => i < self.mounts.len(),
            None => true,
        }
        &&& node < self.fs_of(sel(m)).nodes.len()
    }
}

/// Replacing one filesystem with one at least as large keeps every node
/// reference valid.
pub proof fn lemma_with_fs_grows(v: RootView, m: Option<int>, f: FsView, c: NodeRef)
    requires
        match m {
            Some(i) => 0 <= i < v.mounts.len(),
            None => true,
        },
        f.nodes.len() >= v.fs_of(m).nodes.len(),
        v.valid_ref(c.mount, c.node),
    ensures
        v.with_fs(m, f).valid_ref(c.mount, c.node),
        v.with_fs(m, f).mounts.len() == v.mounts.len(),
{
}

impl RootDirectory {
    /// Resolves `path` from the given node of the given filesystem.
    pub fn lookup_at(&self, m: Option<usize>, node: usize, path: &[u8]) -> (r: Result<
        NodeRef,
        VfsError,
    >)
        requires
            self@.wf(),
            self@.valid_ref(m, node),
        ensures
            match (r, lookup_spec(self@.fs_of(sel(m)), node as int, path@)) {
                (Ok(nr), Ok(n)) => nr.mount == m && nr.node as int == n && nr.node < self@.fs_of(
                    sel(m),
                ).nodes.len(),
                (Err(e), Err(se)) => e == se,
                _ => false,
            },
    {
        match m {
            None => match self.main_fs.lookup(node, path) {
                Ok(n) => Ok(NodeRef { mount: None, node: n }),
                Err(e) => Err(e),
            },
            Some(i) => {
                proof {
                    assert(self@.mounts[i as int].fs.wf());
                }
                match self.mounts[i].fs.lookup(node, path) {
                    Ok(n) => Ok(NodeRef { mount: Some(i), node: n }),
                    Err(e) => Err(e),
                }
            },
        }
    }

    /// The attributes of the given node of the given filesystem.
    pub fn attr_at(&self, m: Option<usize>, node: usize) -> (r: Attributes)
        requires
            self@.wf(),
            self@.valid_ref(m, node),
        ensures
            r == spec_attr(self@.fs_of(sel(m)).nodes[node as int]),
    {
        match m {
            None => self.main_fs.get_attr(node),
            Some(i) => {
                proof {
                    assert(self@.mounts[i as int].fs.wf());
                }
                self.mounts[i].fs.get_attr(node)
            },
        }
    }

    /// Creates at `path` from the given node of the given filesystem.
    pub fn create_at(&mut self, m: Option<usize>, node: usize, path: &[u8], kind: NodeKind) -> (r:
        Result<(), VfsError>)
        requires
            old(self)@.wf(),
            old(self)@.headroom(),
            old(self)@.valid_ref(m, node),
        ensures
            final(self)@.wf(),
            forall|c: NodeRef|
                old(self)@.valid_ref(c.mount, c.node) ==> #[trigger] final(self)@.valid_ref(
                    c.mount,
                    c.node,
                ),
            final(self)@.mounts.len() == old(self)@.mounts.len(),
            final(self)@ == old(self)@.with_fs(
                sel(m),
                create_spec(old(self)@.fs_of(sel(m)), node as int, path@, kind).0,
            ),
            r is Ok <==> create_spec(old(self)@.fs_of(sel(m)), node as int, path@, kind).1 is Ok,
            r is Err ==> r->Err_0 == create_spec(
                old(self)@.fs_of(sel(m)),
                node as int,
                path@,
                kind,
            ).1->Err_0,
    {
        let ghost oldv = self@;
        match m {
            None => {
                let r = self.main_fs.create(node, path, kind);
                proof {
                    assert(self@ =~= oldv.with_fs(None, self@.main_fs));
                    lemma_create_spec_len(oldv.main_fs, node as int, path@, kind);
                    assert forall|c: NodeRef| oldv.valid_ref(c.mount, c.node) implies #[trigger] self@.valid_ref(
                        c.mount,
                        c.node,
                    ) by {
                        lemma_with_fs_grows(oldv, None, self@.main_fs, c);
                    }
                }
                r
            },
            Some(i) => {
                proof {
                    assert(oldv.mounts[i as int].fs.wf());
                    assert(oldv.mounts[i as int].fs.nodes.len() < usize::MAX);
                }
                let r = self.mounts[i].fs.create(node, path, kind);
                proof {
                    lemma_create_spec_len(oldv.mounts[i as int].fs, node as int, path@, kind);
                    let newv = oldv.with_fs(
                        Some(i as int),
                        create_spec(oldv.mounts[i as int].fs, node as int, path@, kind).0,
                    );
                    assert forall|c: NodeRef| oldv.valid_ref(c.mount, c.node) implies #[trigger] self@.valid_ref(
                        c.mount,
                        c.node,
                    ) by {
                        lemma_with_fs_grows(oldv, Some(i as int), create_spec(oldv.mounts[i as int].fs, node as int, path@, kind).0, c);
                    }

                    assert forall|j: int| 0 <= j < self@.mounts.len() implies self@.mounts[j]
                        == newv.mounts[j] by {
                        if j != i {
                            assert(self.mounts@[j] == old(self).mounts@[j]);
                        }
                    }
                    assert(self@.mounts =~= newv.mounts);
                    assert(self@ =~= newv);
                    assert forall|a: int, b: int|
                        0 <= a < b < self@.mounts.len() implies self@.mounts[a].path
                        != self@.mounts[b].path by {
                        assert(self@.mounts[a].path == oldv.mounts[a].path);
                        assert(self@.mounts[b].path == oldv.mounts[b].path);
                    }
                }
                r
            },
        }
    }

    /// Removes at `path` from the given node of the given filesystem.
    pub fn remove_at(&mut self, m: Option<usize>, node: usize, path: &[u8]) -> (r: Result<
        (),
        VfsError,
    >)
        requires
            old(self)@.wf(),
            old(self)@.valid_ref(m, node),
        ensures
            final(self)@.wf(),
            forall|c: NodeRef|
                old(self)@.valid_ref(c.mount, c.node) ==> #[trigger] final(self)@.valid_ref(
                    c.mount,
                    c.node,
                ),
            final(self)@.mounts.len() == old(self)@.mounts.len(),
            final(self)@ == old(self)@.with_fs(
                sel(m),
                remove_spec(old(self)@.fs_of(sel(m)), node as int, path@).0,
            ),
            r is Ok <==> remove_spec(old(self)@.fs_of(sel(m)), node as int, path@).1 is Ok,
            r is Err ==> r->Err_0 == remove_spec(
                old(self)@.fs_of(sel(m)),
                node as int,
                path@,
            ).1->Err_0,
    {
        let ghost oldv = self@;
        match m {
            None => {
                let r = self.main_fs.remove(node, path);
                proof {
                    assert(self@ =~= oldv.with_fs(None, self@.main_fs));
                    lemma_remove_spec_len(oldv.main_fs, node as int, path@);
                    assert forall|c: NodeRef| oldv.valid_ref(c.mount, c.node) implies #[trigger] self@.valid_ref(
                        c.mount,
                        c.node,
                    ) by {
                        lemma_with_fs_grows(oldv, None, self@.main_fs, c);
                    }
                }
                r
            },
            Some(i) => {
                proof {
                    assert(oldv.mounts[i as int].fs.wf());
                }
                let r = self.mounts[i].fs.remove(node, path);
                proof {
                    lemma_remove_spec_len(oldv.mounts[i as int].fs, node as int, path@);
                    let newv = oldv.with_fs(
                        Some(i as int),
                        remove_spec(oldv.mounts[i as int].fs, node as int, path@).0,
                    );
                    assert forall|c: NodeRef| oldv.valid_ref(c.mount, c.node) implies #[trigger] self@.valid_ref(
                        c.mount,
                        c.node,
                    ) by {
                        lemma_with_fs_grows(oldv, Some(i as int), remove_spec(oldv.mounts[i as int].fs, node as int, path@).0, c);
                    }

                    assert forall|j: int| 0 <= j < self@.mounts.len() implies self@.mounts[j]
                        == newv.mounts[j] by {
                        if j != i {
                            assert(self.mounts@[j] == old(self).mounts@[j]);
                        }
                    }
                    assert(self@.mounts =~= newv.mounts);
                    assert(self@ =~= newv);
                    assert forall|a: int, b: int|
                        0 <= a < b < self@.mounts.len() implies self@.mounts[a].path
                        != self@.mounts[b].path by {
                        assert(self@.mounts[a].path == oldv.mounts[a].path);
                        assert(self@.mounts[b].path == oldv.mounts[b].path);
                    }
                }
                r
            },
        }
    }

    /// Renames inside the given node of the given filesystem.
    pub fn rename_at(&mut self, m: Option<usize>, node: usize, src: &[u8], dst: &[u8]) -> (r:
        Result<(), VfsError>)
        requires
            old(self)@.wf(),
            old(self)@.valid_ref(m, node),
        ensures
            final(self)@.wf(),
            forall|c: NodeRef|
                old(self)@.valid_ref(c.mount, c.node) ==> #[trigger] final(self)@.valid_ref(
                    c.mount,
                    c.node,
                ),
            final(self)@.mounts.len() == old(self)@.mounts.len(),
            final(self)@ == old(self)@.with_fs(
                sel(m),
                rename_spec(old(self)@.fs_of(sel(m)), node as int, src@, dst@).0,
            ),
            r is Ok <==> rename_spec(old(self)@.fs_of(sel(m)), node as int, src@, dst@).1 is Ok,
            r is Err ==> r->Err_0 == rename_spec(
                old(self)@.fs_of(sel(m)),
                node as int,
                src@,
                dst@,
            ).1->Err_0,
    {
        let ghost oldv = self@;
        match m {
            None => {
                let r = self.main_fs.rename(node, src, dst);
                proof {
                    assert(self@ =~= oldv.with_fs(None, self@.main_fs));
                }
                r
            },
            Some(i) => {
                proof {
                    assert(oldv.mounts[i as int].fs.wf());
                }
                let r = self.mounts[i].fs.rename(node, src, dst);
                proof {
                    let newv = oldv.with_fs(
                        Some(i as int),
                        rename_spec(oldv.mounts[i as int].fs, node as int, src@, dst@).0,
                    );
                    assert forall|j: int| 0 <= j < self@.mounts.len() implies self@.mounts[j]
                        == newv.mounts[j] by {
                        if j != i {
                            assert(self.mounts@[j] == old(self).mounts@[j]);
                        }
                    }
                    assert(self@.mounts =~= newv.mounts);
                    assert(self@ =~= newv);
                    assert forall|a: int, b: int|
                        0 <= a < b < self@.mounts.len() implies self@.mounts[a].path
                        != self@.mounts[b].path by {
                        assert(self@.mounts[a].path == oldv.mounts[a].path);
                        assert(self@.mounts[b].path == oldv.mounts[b].path);
                    }
                }
                r
            },
        }
    }
}

} // verus!
