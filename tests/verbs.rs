use std::hash::BuildHasher;
use virtual_fs::{
    identity, join_path, split_path, FSEvent, FSState, FileKind, FileSystemEvent, FsError,
    ObjectType, VirtualFS, VirtualFile, DEFAULT_MAX_FILES, DEFAULT_TOTAL_SPACE_BYTES, ROOT_ID,
};

fn entry_cost(name: &str) -> u64 {
    (std::mem::size_of::<VirtualFile>() + name.len()) as u64
}

#[test]
fn get_type_follows_directory_flag() {
    let d = VirtualFile { content: vec![], size: 0, is_directory: true, mtime: 0 };
    let f = VirtualFile { content: vec![1], size: 1, is_directory: false, mtime: 0 };
    assert_eq!(d.get_type(), ObjectType::Directory);
    assert_eq!(f.get_type(), ObjectType::File);
}

#[test]
fn identity_of_root_is_one_and_others_hash() {
    assert_eq!(identity(""), ROOT_ID);
    let expected = std::hash::BuildHasherDefault::<std::collections::hash_map::DefaultHasher>::default()
        .hash_one("a/b");
    assert_eq!(identity("a/b"), expected);
    assert_ne!(identity("a/b"), identity("a/c"));
}

#[test]
fn resolve_maps_identities_back_to_paths() {
    let mut fs = VirtualFS::new();
    fs.mkdir("", "d", 1).unwrap();
    fs.create("d", "f", 1).unwrap();
    assert_eq!(fs.resolve(ROOT_ID), Some(String::new()));
    assert_eq!(fs.resolve(identity("d/f")), Some("d/f".to_string()));
    assert_eq!(fs.resolve_dir(identity("d")), Some("d".to_string()));
    assert_eq!(fs.resolve_dir(identity("d/f")), None);
    assert_eq!(fs.resolve(identity("missing")), None);
}

#[test]
fn lookup_reports_attributes() {
    let mut fs = VirtualFS::new();
    fs.mkdir("", "d", 5).unwrap();
    fs.add_file("d/f", b"abcd".to_vec(), 7).unwrap();
    let a = fs.lookup("d", "f").unwrap();
    assert_eq!(a.ino, identity("d/f"));
    assert_eq!(a.size, 4);
    assert_eq!(a.kind, FileKind::RegularFile);
    assert_eq!(a.perm, 0o644);
    assert_eq!(a.nlink, 1);
    assert_eq!(a.mtime, 7);
    let d = fs.lookup("", "d").unwrap();
    assert_eq!(d.kind, FileKind::Directory);
    assert_eq!(d.perm, 0o755);
    assert_eq!(d.nlink, 2);
    assert_eq!(d.size, entry_cost("d"));
    assert_eq!(fs.lookup("nope", "f"), Err(FsError::NotFound));
    assert_eq!(fs.lookup("d/f", "x"), Err(FsError::NotFound));
}

#[test]
fn getattr_of_root_and_missing() {
    let fs = VirtualFS::new();
    let r = fs.getattr("", 42).unwrap();
    assert_eq!(r.ino, 1);
    assert_eq!(r.kind, FileKind::Directory);
    assert_eq!(r.mtime, 42);
    assert_eq!(fs.getattr("x", 42), Err(FsError::NotFound));
}

#[test]
fn read_clamps_to_content() {
    let mut fs = VirtualFS::new();
    fs.add_file("f", b"0123456789".to_vec(), 1).unwrap();
    assert_eq!(fs.read("f", 2, 3).unwrap(), b"234".to_vec());
    assert_eq!(fs.read("f", 8, 10).unwrap(), b"89".to_vec());
    assert_eq!(fs.read("f", 10, 10).unwrap(), Vec::<u8>::new());
    assert_eq!(fs.read("f", 99, 10).unwrap(), Vec::<u8>::new());
    assert_eq!(fs.read("g", 0, 1), Err(FsError::NotFound));
    fs.add_directory("d", 1).unwrap();
    assert_eq!(fs.read("d", 0, 1), Err(FsError::NotFound));
}

#[test]
fn write_overwrites_middle_and_stamps() {
    let mut fs = VirtualFS::new();
    fs.add_file("f", b"abcdef".to_vec(), 1).unwrap();
    let (n, ev) = fs.write("f", 2, b"XY", 9).unwrap();
    assert_eq!(n, 2);
    assert_eq!(ev, FSEvent::Modified { path: "f".to_string(), object_type: ObjectType::File });
    assert_eq!(fs.read("f", 0, 100).unwrap(), b"abXYef".to_vec());
    assert_eq!(fs.getattr("f", 0).unwrap().mtime, 9);
    assert_eq!(fs.write("nope", 0, b"a", 1), Err(FsError::NotFound));
}

#[test]
fn write_beyond_quota_changes_nothing() {
    let mut fs = VirtualFS::with_size(8, 10);
    fs.add_file("f", b"abcd".to_vec(), 1).unwrap();
    assert_eq!(fs.write("f", 2, b"123456789", 2), Err(FsError::OutOfSpace));
    assert_eq!(fs.read("f", 0, 100).unwrap(), b"abcd".to_vec());
    assert!(fs.write("f", 4, b"wxyz", 2).is_ok());
    assert_eq!(fs.used(), 8);
    assert_eq!(fs.write("f", u64::MAX, b"a", 2), Err(FsError::OutOfSpace));
}

#[test]
fn write_to_directory_is_not_found() {
    let mut fs = VirtualFS::new();
    fs.add_directory("d", 1).unwrap();
    assert_eq!(fs.write("d", 0, b"a", 1), Err(FsError::NotFound));
}

#[test]
fn setattr_truncates_and_extends() {
    let mut fs = VirtualFS::new();
    fs.add_file("f", b"abcdef".to_vec(), 1).unwrap();
    let (a, ev) = fs.setattr("f", Some(3), None, Some(0o600), Some(77), 5).unwrap();
    assert_eq!(a.size, 3);
    assert_eq!(a.perm, 0o600);
    assert_eq!(a.atime, 77);
    assert_eq!(a.mtime, 5);
    assert_eq!(ev, Some(FSEvent::Modified { path: "f".to_string(), object_type: ObjectType::File }));
    assert_eq!(fs.read("f", 0, 100).unwrap(), b"abc".to_vec());
    fs.setattr("f", Some(5), Some(9), None, None, 6).unwrap();
    assert_eq!(fs.read("f", 0, 100).unwrap(), b"abc\0\0".to_vec());
    assert_eq!(fs.getattr("f", 0).unwrap().mtime, 9);
}

#[test]
fn setattr_without_size_only_stamps() {
    let mut fs = VirtualFS::new();
    fs.add_directory("d", 1).unwrap();
    let (a, ev) = fs.setattr("d", Some(100), Some(3), None, None, 4).unwrap();
    assert_eq!(ev, None);
    assert_eq!(a.size, 0);
    assert_eq!(a.mtime, 3);
    assert_eq!(a.perm, 0o755);
    assert_eq!(fs.setattr("x", None, None, None, None, 4), Err(FsError::NotFound));
}

#[test]
fn setattr_growth_beyond_quota_is_refused() {
    let mut fs = VirtualFS::with_size(10, 10);
    fs.add_file("f", b"abc".to_vec(), 1).unwrap();
    assert_eq!(fs.setattr("f", Some(11), None, None, None, 2), Err(FsError::OutOfSpace));
    assert_eq!(fs.read("f", 0, 100).unwrap(), b"abc".to_vec());
    assert!(fs.setattr("f", Some(10), None, None, None, 2).is_ok());
}

#[test]
fn create_checks_name_quota_count_and_parent() {
    let mut fs = VirtualFS::with_size(1_000_000, 2);
    assert_eq!(fs.create("", "", 1), Err(FsError::InvalidPath));
    assert_eq!(fs.create("", "a/b", 1), Err(FsError::InvalidPath));
    assert_eq!(fs.create("", "..", 1), Err(FsError::InvalidPath));
    assert_eq!(fs.create("missing", "f", 1), Err(FsError::NotFound));
    let (attr, ev) = fs.create("", "f", 3).unwrap();
    assert_eq!(attr.ino, identity("f"));
    assert_eq!(attr.size, 0);
    assert_eq!(attr.mtime, 3);
    assert_eq!(ev, FSEvent::Created { path: "f".to_string(), object_type: ObjectType::File });
    fs.create("", "g", 3).unwrap();
    assert_eq!(fs.create("", "h", 3), Err(FsError::TooManyFiles));
    let mut tiny = VirtualFS::with_size(entry_cost("x") - 1, 10);
    assert_eq!(tiny.create("", "x", 1), Err(FsError::OutOfSpace));
    assert_eq!(tiny.count(), 0);
}

#[test]
fn mkdir_charges_metadata_cost() {
    let mut fs = VirtualFS::new();
    let (a, ev) = fs.mkdir("", "dir", 2).unwrap();
    assert_eq!(a.kind, FileKind::Directory);
    assert_eq!(ev, FSEvent::Created { path: "dir".to_string(), object_type: ObjectType::Directory });
    assert_eq!(fs.used(), entry_cost("dir"));
    let (_, ev) = fs.mkdir("dir", "sub", 2).unwrap();
    assert_eq!(ev, FSEvent::Created { path: "dir/sub".to_string(), object_type: ObjectType::Directory });
}

#[test]
fn symlink_stores_target_and_readlink_returns_it() {
    let mut fs = VirtualFS::new();
    let (a, ev) = fs.symlink("", "ln", "some/target", 4).unwrap();
    assert_eq!(a.kind, FileKind::Symlink);
    assert_eq!(a.perm, 0o777);
    assert_eq!(a.size, 11);
    assert_eq!(ev, FSEvent::Created { path: "ln".to_string(), object_type: ObjectType::File });
    assert_eq!(fs.readlink("ln").unwrap(), b"some/target".to_vec());
    assert_eq!(fs.readlink("none"), Err(FsError::NotFound));
    let mut small = VirtualFS::with_size(3, 10);
    assert_eq!(small.symlink("", "ln", "long", 1), Err(FsError::OutOfSpace));
}

#[test]
fn unlink_removes_files_only() {
    let mut fs = VirtualFS::new();
    fs.add_directory("d", 1).unwrap();
    fs.add_file("d/f", b"1".to_vec(), 1).unwrap();
    assert_eq!(fs.unlink("", "d"), Err(FsError::NotFound));
    assert_eq!(fs.unlink("d", "g"), Err(FsError::NotFound));
    assert_eq!(
        fs.unlink("d", "f"),
        Ok(FSEvent::Deleted { path: "d/f".to_string(), object_type: ObjectType::File })
    );
    assert_eq!(fs.lookup("d", "f"), Err(FsError::NotFound));
}

#[test]
fn rmdir_errors_and_success() {
    let mut fs = VirtualFS::new();
    fs.add_directory("d", 1).unwrap();
    fs.add_file("f", b"1".to_vec(), 1).unwrap();
    assert_eq!(fs.rmdir("", "f"), Err(FsError::NotADirectory));
    assert_eq!(fs.rmdir("", "x"), Err(FsError::NotFound));
    assert_eq!(
        fs.rmdir("", "d"),
        Ok(FSEvent::Deleted { path: "d".to_string(), object_type: ObjectType::Directory })
    );
    assert_eq!(fs.count(), 1);
}

#[test]
fn rename_file_and_errors() {
    let mut fs = VirtualFS::new();
    fs.add_directory("d", 1).unwrap();
    fs.add_file("f", b"data".to_vec(), 1).unwrap();
    assert_eq!(fs.rename("", "x", "", "y"), Err(FsError::NotFound));
    assert_eq!(fs.rename("", "f", "nope", "y"), Err(FsError::NotFound));
    assert_eq!(fs.rename("", "f", "", "a/b"), Err(FsError::InvalidPath));
    assert_eq!(fs.rename("", "d", "d", "inner"), Err(FsError::InvalidPath));
    let (del, cre) = fs.rename("", "f", "d", "g").unwrap();
    assert_eq!(del, FSEvent::Deleted { path: "f".to_string(), object_type: ObjectType::File });
    assert_eq!(cre, FSEvent::Created { path: "d/g".to_string(), object_type: ObjectType::File });
    assert_eq!(fs.read("d/g", 0, 10).unwrap(), b"data".to_vec());
    assert_eq!(fs.lookup("", "f"), Err(FsError::NotFound));
}

#[test]
fn rename_replaces_existing_target() {
    let mut fs = VirtualFS::new();
    fs.add_file("a", b"new".to_vec(), 1).unwrap();
    fs.add_file("b", b"old".to_vec(), 1).unwrap();
    fs.rename("", "a", "", "b").unwrap();
    assert_eq!(fs.read("b", 0, 10).unwrap(), b"new".to_vec());
    assert_eq!(fs.count(), 1);
    assert_eq!(fs.used(), 3);
}

#[test]
fn readdir_of_file_is_not_a_directory() {
    let mut fs = VirtualFS::new();
    fs.add_directory("a", 1).unwrap();
    fs.add_directory("a/b", 1).unwrap();
    fs.add_file("f", b"".to_vec(), 1).unwrap();
    assert_eq!(fs.readdir("f").err(), Some(FsError::NotADirectory));
    let v = fs.readdir("a/b").unwrap();
    assert_eq!(v[0].name, ".");
    assert_eq!(v[0].ino, identity("a/b"));
    assert_eq!(v[1].name, "..");
    assert_eq!(v[1].ino, identity("a"));
    assert_eq!(v.len(), 2);
    let root = fs.readdir("").unwrap();
    assert_eq!(root[0].ino, 1);
    assert_eq!(root[1].ino, 1);
    let child = root.iter().find(|e| e.name == "a").unwrap();
    assert!(child.is_directory);
    assert_eq!(child.ino, identity("a"));
}

#[test]
fn statfs_counts_blocks_and_files() {
    let mut fs = VirtualFS::with_size(4096 * 10, 5);
    fs.add_file("f", vec![1u8; 4097], 1).unwrap();
    let s = fs.statfs();
    assert_eq!(s.blocks, 10);
    assert_eq!(s.free_blocks, 8);
    assert_eq!(s.available_blocks, 8);
    assert_eq!(s.files, 5);
    assert_eq!(s.free_files, 4);
    assert_eq!(s.block_size, 4096);
    assert_eq!(s.max_name_length, 255);
}

#[test]
fn defaults_are_four_gib_and_a_million_entries() {
    let fs = VirtualFS::new();
    assert_eq!(fs.total_space_bytes(), DEFAULT_TOTAL_SPACE_BYTES);
    assert_eq!(fs.total_space_bytes(), 4 * 1024 * 1024 * 1024);
    assert_eq!(fs.max_files(), DEFAULT_MAX_FILES);
    assert_eq!(fs.statfs().blocks, 1024 * 1024);
}

#[test]
fn add_entry_validates_path_and_parent() {
    let mut fs = VirtualFS::new();
    assert_eq!(fs.add_file("/a", vec![], 1), Err(FsError::InvalidPath));
    assert_eq!(fs.add_file("a/", vec![], 1), Err(FsError::InvalidPath));
    assert_eq!(fs.add_file("a/../b", vec![], 1), Err(FsError::NotFound));
    assert_eq!(fs.add_file("x/y", vec![], 1), Err(FsError::NotFound));
    assert_eq!(
        fs.add_directory("x", 1),
        Ok(FSEvent::Created { path: "x".to_string(), object_type: ObjectType::Directory })
    );
    assert_eq!(
        fs.add_file("x/y", b"q".to_vec(), 1),
        Ok(FSEvent::Created { path: "x/y".to_string(), object_type: ObjectType::File })
    );
    let mut one = VirtualFS::with_size(100, 1);
    one.add_file("a", vec![], 1).unwrap();
    assert_eq!(one.add_file("b", vec![], 1), Err(FsError::TooManyFiles));
}

#[test]
fn remove_entry_reports_what_it_removed() {
    let mut fs = VirtualFS::new();
    fs.add_directory("d", 1).unwrap();
    assert_eq!(
        fs.remove_entry("d"),
        Some(FSEvent::Deleted { path: "d".to_string(), object_type: ObjectType::Directory })
    );
    assert_eq!(fs.remove_entry("d"), None);
}

#[test]
fn script_events_use_lowercase_names() {
    let e = FileSystemEvent::from_event(FSEvent::Deleted {
        path: "a/b".to_string(),
        object_type: ObjectType::Directory,
    });
    assert_eq!(e.event_type, "deleted");
    assert_eq!(e.path, "a/b");
    assert_eq!(e.object_type, "directory");
    let e = FileSystemEvent::from_event(FSEvent::Modified { path: "f".to_string(), object_type: ObjectType::File });
    assert_eq!(e.event_type, "modified");
    assert_eq!(e.object_type, "file");
}

#[test]
fn events_without_subscriber_are_dropped() {
    let state = FSState::new();
    state.emit_event(FSEvent::Created { path: "x".to_string(), object_type: ObjectType::File });
    let mut rx = state.subscribe_to_events();
    assert!(rx.try_recv().is_err());
    state.publish(vec![
        FSEvent::Deleted { path: "o".to_string(), object_type: ObjectType::File },
        FSEvent::Created { path: "n".to_string(), object_type: ObjectType::File },
    ]);
    assert_eq!(rx.try_recv().unwrap(), FSEvent::Deleted { path: "o".to_string(), object_type: ObjectType::File });
    assert_eq!(rx.try_recv().unwrap(), FSEvent::Created { path: "n".to_string(), object_type: ObjectType::File });
}

#[test]
fn slow_subscriber_misses_events_beyond_capacity() {
    let state = FSState::new();
    let mut rx = state.subscribe_to_events();
    for i in 0..200 {
        state.emit_event(FSEvent::Modified { path: format!("f{}", i), object_type: ObjectType::File });
    }
    assert!(rx.try_recv().is_err());
    let mut got = 0;
    while rx.try_recv().is_ok() {
        got += 1;
    }
    assert!(got <= 128);
}

#[test]
fn path_helpers_join_and_split() {
    assert_eq!(join_path("", "a"), "a");
    assert_eq!(join_path("a/b", "c"), "a/b/c");
    assert_eq!(split_path("a/b/c"), ("a/b".to_string(), "c".to_string()));
    assert_eq!(split_path("top"), (String::new(), "top".to_string()));
}
