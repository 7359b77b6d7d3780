use axvfs::ramfs::{is_valid_name, DirEntry, RamFs};
use axvfs::{NodeKind, VfsError};

fn empty_dirents(n: usize) -> Vec<DirEntry> {
    let mut v = Vec::new();
    for _ in 0..n {
        v.push(DirEntry { name: Vec::new(), kind: NodeKind::File });
    }
    v
}

#[test]
fn create_then_lookup_yields_fresh_file() {
    let mut fs = RamFs::new();
    fs.create_node(0, b"hello", NodeKind::File).unwrap();
    let id = fs.lookup(0, b"hello").unwrap();
    let attr = fs.get_attr(id);
    assert_eq!(attr.kind, NodeKind::File);
    assert_eq!(attr.size, 0);
}

#[test]
fn create_existing_fails_already_exists() {
    let mut fs = RamFs::new();
    fs.create_node(0, b"x", NodeKind::File).unwrap();
    assert_eq!(fs.create_node(0, b"x", NodeKind::Dir), Err(VfsError::AlreadyExists));
}

#[test]
fn remove_nonempty_dir_fails() {
    let mut fs = RamFs::new();
    fs.create(0, b"d", NodeKind::Dir).unwrap();
    fs.create(0, b"d/inner", NodeKind::File).unwrap();
    assert_eq!(fs.remove(0, b"d"), Err(VfsError::DirectoryNotEmpty));
    fs.remove(0, b"d/inner").unwrap();
    fs.remove(0, b"d").unwrap();
    assert_eq!(fs.lookup(0, b"d"), Err(VfsError::NotFound));
}

#[test]
fn remove_then_lookup_fails_not_found() {
    let mut fs = RamFs::new();
    fs.create_node(0, b"f", NodeKind::File).unwrap();
    fs.remove_node(0, b"f").unwrap();
    assert_eq!(fs.lookup(0, b"f"), Err(VfsError::NotFound));
}

#[test]
fn rename_preserves_identity() {
    let mut fs = RamFs::new();
    fs.create_node(0, b"a", NodeKind::File).unwrap();
    let before = fs.lookup(0, b"a").unwrap();
    fs.rename_in_same_dir(0, b"a", b"b").unwrap();
    assert_eq!(fs.lookup(0, b"b").unwrap(), before);
    assert_eq!(fs.lookup(0, b"a"), Err(VfsError::NotFound));
}

#[test]
fn rename_to_existing_fails_and_keeps_bindings() {
    let mut fs = RamFs::new();
    fs.create_node(0, b"a", NodeKind::File).unwrap();
    fs.create_node(0, b"b", NodeKind::File).unwrap();
    let a = fs.lookup(0, b"a").unwrap();
    let b = fs.lookup(0, b"b").unwrap();
    assert_eq!(fs.rename_in_same_dir(0, b"a", b"b"), Err(VfsError::AlreadyExists));
    assert_eq!(fs.lookup(0, b"a").unwrap(), a);
    assert_eq!(fs.lookup(0, b"b").unwrap(), b);
}

#[test]
fn rename_rejects_multi_component_source() {
    let mut fs = RamFs::new();
    fs.create(0, b"d", NodeKind::Dir).unwrap();
    fs.create(0, b"d/a", NodeKind::File).unwrap();
    assert_eq!(fs.rename(0, b"d/a", b"d/b"), Err(VfsError::InvalidInput));
}

#[test]
fn rename_through_destination_head() {
    let mut fs = RamFs::new();
    fs.create_node(0, b"a", NodeKind::File).unwrap();
    // the destination's terminal component names the new binding
    fs.rename(0, b"a", b"tmp/b").unwrap();
    assert!(fs.exist(0, b"b"));
    assert!(!fs.exist(0, b"a"));
}

#[test]
fn lookup_through_file_fails_not_a_directory() {
    let mut fs = RamFs::new();
    fs.create_node(0, b"f", NodeKind::File).unwrap();
    assert_eq!(fs.lookup(0, b"f/x"), Err(VfsError::NotADirectory));
}

#[test]
fn create_under_file_fails_unsupported() {
    let mut fs = RamFs::new();
    fs.create_node(0, b"f", NodeKind::File).unwrap();
    assert_eq!(fs.create(0, b"f/x", NodeKind::File), Err(VfsError::Unsupported));
}

#[test]
fn remove_alias_fails_invalid_input() {
    let mut fs = RamFs::new();
    assert_eq!(fs.remove(0, b"."), Err(VfsError::InvalidInput));
    assert_eq!(fs.remove(0, b".."), Err(VfsError::InvalidInput));
    assert_eq!(fs.remove(0, b""), Err(VfsError::InvalidInput));
}

#[test]
fn dot_components_resolve_in_paths() {
    let mut fs = RamFs::new();
    fs.create(0, b"d", NodeKind::Dir).unwrap();
    fs.create(0, b"d/e", NodeKind::Dir).unwrap();
    fs.create(0, b"d/e/../f", NodeKind::File).unwrap();
    assert!(fs.exist(fs.lookup(0, b"d").unwrap(), b"f"));
    let root_again = fs.lookup(0, b"d/..").unwrap();
    assert_eq!(root_again, 0);
    assert_eq!(fs.lookup(0, b".."), Err(VfsError::NotFound));
}

#[test]
fn get_entries_is_sorted() {
    let mut fs = RamFs::new();
    fs.create_node(0, b"pear", NodeKind::File).unwrap();
    fs.create_node(0, b"apple", NodeKind::File).unwrap();
    fs.create_node(0, b"mango", NodeKind::Dir).unwrap();
    let names = fs.get_entries(0);
    assert_eq!(names, vec![b"apple".to_vec(), b"mango".to_vec(), b"pear".to_vec()]);
}

#[test]
fn read_dir_paginates_exactly_once() {
    let mut fs = RamFs::new();
    fs.create_node(0, b"b", NodeKind::File).unwrap();
    fs.create_node(0, b"a", NodeKind::Dir).unwrap();
    fs.create_node(0, b"c", NodeKind::File).unwrap();
    // full listing: ".", "..", "a", "b", "c"
    let mut seen: Vec<(Vec<u8>, NodeKind)> = Vec::new();
    let mut start = 0usize;
    loop {
        let mut buf = empty_dirents(2);
        let n = fs.read_dir(0, start, &mut buf).unwrap();
        if n == 0 {
            break;
        }
        for e in buf.iter().take(n) {
            seen.push((e.name.clone(), e.kind));
        }
        start += n;
    }
    assert_eq!(
        seen,
        vec![
            (b".".to_vec(), NodeKind::Dir),
            (b"..".to_vec(), NodeKind::Dir),
            (b"a".to_vec(), NodeKind::Dir),
            (b"b".to_vec(), NodeKind::File),
            (b"c".to_vec(), NodeKind::File),
        ]
    );
}

#[test]
fn read_dir_from_offset() {
    let mut fs = RamFs::new();
    fs.create_node(0, b"z", NodeKind::File).unwrap();
    let mut buf = empty_dirents(8);
    let n = fs.read_dir(0, 2, &mut buf).unwrap();
    assert_eq!(n, 1);
    assert_eq!(buf[0].name, b"z".to_vec());
}

#[test]
fn empty_path_resolves_to_the_directory_itself() {
    let mut fs = RamFs::new();
    assert_eq!(fs.lookup(0, b""), Ok(0));
    assert_eq!(fs.lookup(0, b"."), Ok(0));
    fs.create(0, b"d", NodeKind::Dir).unwrap();
    let d = fs.lookup(0, b"d").unwrap();
    assert_eq!(fs.lookup(d, b""), Ok(d));
}

#[test]
fn set_parent_redirects_the_back_reference() {
    let mut fs = RamFs::new();
    fs.create(0, b"d", NodeKind::Dir).unwrap();
    let d = fs.lookup(0, b"d").unwrap();
    assert_eq!(fs.parent(d), Some(0));
    fs.set_parent(d, None);
    assert_eq!(fs.parent(d), None);
}

#[test]
fn name_validity() {
    assert!(is_valid_name(b"notes"));
    assert!(is_valid_name(b".hidden"));
    assert!(is_valid_name(b"..more"));
    assert!(!is_valid_name(b""));
    assert!(!is_valid_name(b"."));
    assert!(!is_valid_name(b".."));
    assert!(!is_valid_name(b"a/b"));
}
