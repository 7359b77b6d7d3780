use axvfs::ramfs::RamFs;
use axvfs::root_dir::RootDirectory;
use axvfs::{NodeKind, VfsError};

fn table_with(paths: &[&[u8]]) -> RootDirectory {
    let mut root = RootDirectory::new(RamFs::new());
    for p in paths {
        root.mount(p.to_vec(), RamFs::new()).unwrap();
    }
    root
}

#[test]
fn mount_at_root_fails_invalid_input() {
    let mut root = RootDirectory::new(RamFs::new());
    assert_eq!(root.mount(b"/".to_vec(), RamFs::new()), Err(VfsError::InvalidInput));
}

#[test]
fn mount_needs_absolute_path() {
    let mut root = RootDirectory::new(RamFs::new());
    assert_eq!(root.mount(b"dev".to_vec(), RamFs::new()), Err(VfsError::InvalidInput));
}

#[test]
fn mount_twice_fails_invalid_input() {
    let mut root = table_with(&[b"/dev"]);
    assert_eq!(root.mount(b"/dev".to_vec(), RamFs::new()), Err(VfsError::InvalidInput));
}

#[test]
fn mount_creates_its_directory_in_main_fs() {
    let root = table_with(&[b"/dev"]);
    assert!(root.contains(b"/dev"));
    let attr = root.main_fs.get_attr(root.main_fs.lookup(0, b"/dev").unwrap());
    assert_eq!(attr.kind, NodeKind::Dir);
}

#[test]
fn longest_prefix_wins() {
    let root = table_with(&[b"/dev", b"/dev/sub"]);
    let (m, residual) = root.resolve(b"/dev/sub/x");
    assert_eq!(m, Some(1));
    assert_eq!(residual, b"/x");
    let (m2, residual2) = root.resolve(b"/dev/x");
    assert_eq!(m2, Some(0));
    assert_eq!(residual2, b"/x");
}

#[test]
fn registration_order_breaks_ties() {
    // both mounts match with the same length only if their keys are equal,
    // which mount forbids; a shorter later mount never displaces an earlier
    // longer one
    let root = table_with(&[b"/ab", b"/a"]);
    let (m, residual) = root.resolve(b"/ab/x");
    assert_eq!(m, Some(0));
    assert_eq!(residual, b"/x");
}

#[test]
fn unmatched_path_goes_to_main_fs() {
    let root = table_with(&[b"/dev"]);
    let (m, residual) = root.resolve(b"/etc/conf");
    assert_eq!(m, None);
    assert_eq!(residual, b"etc/conf");
}

#[test]
fn dispatched_lookup_reaches_the_mounted_fs() {
    let mut root = table_with(&[b"/dev", b"/dev/sub"]);
    root.create(b"/dev/sub/x", NodeKind::File).unwrap();
    let nr = root.lookup(b"/dev/sub/x").unwrap();
    assert_eq!(nr.mount, Some(1));
    let deep = root.lookup(b"/dev/x");
    assert_eq!(deep, Err(VfsError::NotFound));
    root.create(b"/dev/x", NodeKind::File).unwrap();
    let nr2 = root.lookup(b"/dev/x").unwrap();
    assert_eq!(nr2.mount, Some(0));
}

#[test]
fn create_at_mount_point_is_noop_success() {
    let mut root = table_with(&[b"/dev"]);
    assert_eq!(root.create(b"/dev", NodeKind::Dir), Ok(()));
}

#[test]
fn remove_mount_point_itself_fails_permission_denied() {
    let mut root = table_with(&[b"/dev"]);
    assert_eq!(root.remove(b"/dev"), Err(VfsError::PermissionDenied));
}

#[test]
fn umount_takes_the_mount_out() {
    let mut root = table_with(&[b"/dev", b"/tmp"]);
    root._umount(b"/dev");
    assert!(!root.contains(b"/dev"));
    assert!(root.contains(b"/tmp"));
}

#[test]
fn rename_inside_a_mounted_fs() {
    let mut root = table_with(&[b"/tmp"]);
    root.create(b"/tmp/a", NodeKind::File).unwrap();
    root.rename(b"/tmp/a", b"/tmp/b").unwrap();
    assert!(root.lookup(b"/tmp/b").is_ok());
    assert_eq!(root.lookup(b"/tmp/a"), Err(VfsError::NotFound));
}
