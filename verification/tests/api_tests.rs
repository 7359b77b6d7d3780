use axvfs::fs_api::{DirAnchor, FsContext};
use axvfs::{NodeKind, VfsError};

fn well_known() -> Vec<Vec<u8>> {
    vec![b"/dev".to_vec(), b"/tmp".to_vec(), b"/proc".to_vec(), b"/sys".to_vec()]
}

fn fresh() -> FsContext {
    FsContext::init_rootfs(&well_known()).unwrap()
}

#[test]
fn init_mounts_the_well_known_paths() {
    let ctx = fresh();
    assert!(ctx.root.contains(b"/dev"));
    assert!(ctx.root.contains(b"/tmp"));
    assert!(ctx.root.contains(b"/proc"));
    assert!(ctx.root.contains(b"/sys"));
    assert_eq!(ctx.current_dir().unwrap(), b"/".to_vec());
}

#[test]
fn absolute_path_canonicalizes() {
    let ctx = fresh();
    assert_eq!(ctx.absolute_path(b"/path/./to//foo").unwrap(), b"/path/to/foo".to_vec());
    assert_eq!(ctx.absolute_path(b"/a/../b").unwrap(), b"/b".to_vec());
    // a relative path is resolved against the working directory
    assert_eq!(ctx.absolute_path(b"x/y").unwrap(), b"/x/y".to_vec());
}

#[test]
fn create_and_lookup_file() {
    let mut ctx = fresh();
    let nr = ctx.create_file(None, b"/tmp/notes").unwrap();
    let found = ctx.lookup(None, b"/tmp/notes").unwrap();
    assert_eq!(nr, found);
}

#[test]
fn lookup_with_trailing_separator_demands_a_directory() {
    let mut ctx = fresh();
    ctx.create_file(None, b"/tmp/f").unwrap();
    assert_eq!(ctx.lookup(None, b"/tmp/f/"), Err(VfsError::NotADirectory));
    assert!(ctx.lookup(None, b"/tmp/").is_ok());
}

#[test]
fn create_dir_rejects_existing() {
    let mut ctx = fresh();
    ctx.create_dir(None, b"/work").unwrap();
    assert_eq!(ctx.create_dir(None, b"/work"), Err(VfsError::AlreadyExists));
}

#[test]
fn remove_file_rejects_directories() {
    let mut ctx = fresh();
    ctx.create_dir(None, b"/work").unwrap();
    assert_eq!(ctx.remove_file(None, b"/work"), Err(VfsError::IsADirectory));
}

#[test]
fn remove_dir_protects_root_aliases_and_mounts() {
    let mut ctx = fresh();
    assert_eq!(ctx.remove_dir(None, b"/"), Err(VfsError::DirectoryNotEmpty));
    assert_eq!(ctx.remove_dir(None, b"."), Err(VfsError::InvalidInput));
    assert_eq!(ctx.remove_dir(None, b".."), Err(VfsError::InvalidInput));
    assert_eq!(ctx.remove_dir(None, b"/work/.."), Err(VfsError::InvalidInput));
    assert_eq!(ctx.remove_dir(None, b"/dev"), Err(VfsError::PermissionDenied));
}

#[test]
fn remove_dir_removes_an_empty_directory() {
    let mut ctx = fresh();
    ctx.create_dir(None, b"/work").unwrap();
    ctx.remove_dir(None, b"/work").unwrap();
    assert_eq!(ctx.lookup(None, b"/work"), Err(VfsError::NotFound));
}

#[test]
fn set_current_dir_and_relative_resolution() {
    let mut ctx = fresh();
    ctx.create_dir(None, b"/work").unwrap();
    ctx.set_current_dir(b"/work").unwrap();
    assert_eq!(ctx.current_dir().unwrap(), b"/work/".to_vec());
    let nr = ctx.create_file(None, b"notes").unwrap();
    assert_eq!(ctx.lookup(None, b"/work/notes").unwrap(), nr);
    ctx.set_current_dir(b"/").unwrap();
    assert_eq!(ctx.current_dir().unwrap(), b"/".to_vec());
    assert!(matches!(ctx.cwd, DirAnchor::Root));
}

#[test]
fn set_current_dir_rejects_files() {
    let mut ctx = fresh();
    ctx.create_file(None, b"/tmp/f").unwrap();
    assert_eq!(ctx.set_current_dir(b"/tmp/f"), Err(VfsError::NotADirectory));
}

#[test]
fn rename_replaces_an_existing_destination_file() {
    let mut ctx = fresh();
    ctx.create_file(None, b"/tmp/a").unwrap();
    ctx.create_file(None, b"/tmp/b").unwrap();
    let a = ctx.lookup(None, b"/tmp/a").unwrap();
    ctx.rename(b"/tmp/a", b"/tmp/b").unwrap();
    assert_eq!(ctx.lookup(None, b"/tmp/a"), Err(VfsError::NotFound));
    assert_eq!(ctx.lookup(None, b"/tmp/b").unwrap().node, a.node);
}

#[test]
fn rename_of_a_mount_point_is_denied() {
    let mut ctx = fresh();
    assert_eq!(ctx.rename(b"/dev", b"/devices"), Err(VfsError::PermissionDenied));
}

#[test]
fn empty_path_names_nothing() {
    let ctx = fresh();
    assert_eq!(ctx.lookup(None, b""), Err(VfsError::NotFound));
    let mut ctx2 = fresh();
    assert_eq!(ctx2.create_file(None, b""), Err(VfsError::NotFound));
    assert_eq!(ctx2.remove_dir(None, b""), Err(VfsError::NotFound));
}

#[test]
fn create_file_rejects_trailing_separator() {
    let mut ctx = fresh();
    assert_eq!(ctx.create_file(None, b"/tmp/f/"), Err(VfsError::NotADirectory));
}

#[test]
fn lookup_in_an_explicit_directory() {
    let mut ctx = fresh();
    ctx.create_dir(None, b"/work").unwrap();
    let work = ctx.lookup(None, b"/work").unwrap();
    ctx.create_file(Some(&work), b"inside").unwrap();
    let found = ctx.lookup(Some(&work), b"inside").unwrap();
    assert_eq!(ctx.lookup(None, b"/work/inside").unwrap(), found);
}

#[test]
fn non_ascii_paths_are_rejected_before_canonicalization() {
    let mut ctx = fresh();
    // "/caf\u{e9}/x" in UTF-8 bytes: the canonicalizer cannot take it
    let p = b"/caf\xc3\xa9/x";
    assert_eq!(ctx.absolute_path(p), Err(VfsError::InvalidInput));
    assert_eq!(ctx.remove_dir(None, p), Err(VfsError::InvalidInput));
    assert_eq!(ctx.set_current_dir(p), Err(VfsError::InvalidInput));
}
