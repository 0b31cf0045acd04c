use virtual_fs::{FSEvent, FSState, FsError, ObjectType, VirtualFS};

fn names(fs: &VirtualFS, dir: &str) -> Vec<String> {
    let mut v: Vec<String> = fs.readdir(dir).unwrap().into_iter().map(|e| e.name).collect();
    v.sort();
    v
}

#[test]
fn round_trip_returns_written_bytes() {
    let mut fs = VirtualFS::new();
    fs.create("", "p.txt", 1).unwrap();
    let data = b"hello world".to_vec();
    fs.write("p.txt", 0, &data, 2).unwrap();
    assert_eq!(fs.read("p.txt", 0, data.len() as u32).unwrap(), data);
}

#[test]
fn round_trip_of_empty_bytes() {
    let mut fs = VirtualFS::new();
    fs.create("", "e", 1).unwrap();
    fs.write("e", 0, &[], 2).unwrap();
    assert_eq!(fs.read("e", 0, 0).unwrap(), Vec::<u8>::new());
}

#[test]
fn write_past_end_zero_extends() {
    let mut fs = VirtualFS::new();
    fs.create("", "z", 1).unwrap();
    fs.write("z", 10, b"abc", 2).unwrap();
    let c = fs.read("z", 0, 100).unwrap();
    assert_eq!(c.len(), 13);
    assert!(c[..10].iter().all(|b| *b == 0));
    assert_eq!(&c[10..], b"abc");
    assert_eq!(fs.getattr("z", 0).unwrap().size, 13);
}

#[test]
fn quota_rejects_oversized_file_atomically() {
    let mut fs = VirtualFS::with_size(10, 100);
    assert_eq!(fs.add_file("big", vec![7u8; 11], 1), Err(FsError::OutOfSpace));
    assert_eq!(fs.lookup("", "big"), Err(FsError::NotFound));
    assert_eq!(fs.used(), 0);
    assert!(fs.add_file("fits", vec![7u8; 10], 1).is_ok());
    assert_eq!(fs.used(), 10);
}

#[test]
fn rmdir_refuses_non_empty_directory() {
    let mut fs = VirtualFS::new();
    fs.mkdir("", "a", 1).unwrap();
    fs.create("a", "b.txt", 1).unwrap();
    assert_eq!(fs.rmdir("", "a"), Err(FsError::DirectoryNotEmpty));
    assert!(fs.lookup("", "a").is_ok());
    assert!(fs.lookup("a", "b.txt").is_ok());
    assert_eq!(fs.count(), 2);
}

#[test]
fn rename_moves_subtree() {
    let mut fs = VirtualFS::new();
    fs.mkdir("", "a", 1).unwrap();
    fs.mkdir("a", "b", 1).unwrap();
    fs.create("a/b", "c.txt", 1).unwrap();
    fs.write("a/b/c.txt", 0, b"x", 2).unwrap();
    fs.rename("", "a", "", "z").unwrap();
    assert_eq!(fs.read("z/b/c.txt", 0, 10).unwrap(), b"x".to_vec());
    assert_eq!(fs.lookup("", "a"), Err(FsError::NotFound));
    assert_eq!(fs.lookup("a", "b"), Err(FsError::NotFound));
    assert!(fs.lookup("z", "b").is_ok());
    assert_eq!(fs.count(), 3);
}

#[test]
fn readdir_lists_direct_children_only() {
    let mut fs = VirtualFS::new();
    fs.mkdir("", "a", 1).unwrap();
    fs.mkdir("a", "b", 1).unwrap();
    fs.create("a", "c.txt", 1).unwrap();
    fs.create("a/b", "deep.txt", 1).unwrap();
    assert_eq!(names(&fs, "a"), vec![".", "..", "b", "c.txt"]);
    assert_eq!(names(&fs, ""), vec![".", "..", "a"]);
}

#[test]
fn create_publishes_one_created_event() {
    let mut state = FSState::new();
    let mut rx = state.subscribe_to_events();
    let (_, event) = state.files.create("", "f", 1).unwrap();
    state.publish(vec![event]);
    assert_eq!(
        rx.try_recv().unwrap(),
        FSEvent::Created { path: "f".to_string(), object_type: ObjectType::File }
    );
    assert!(rx.try_recv().is_err());
    let (_, event) = state.files.write("f", 0, b"1", 2).unwrap();
    state.publish(vec![event]);
    let event = state.files.unlink("", "f").unwrap();
    state.publish(vec![event]);
    assert_eq!(
        rx.try_recv().unwrap(),
        FSEvent::Modified { path: "f".to_string(), object_type: ObjectType::File }
    );
    assert_eq!(
        rx.try_recv().unwrap(),
        FSEvent::Deleted { path: "f".to_string(), object_type: ObjectType::File }
    );
}

#[test]
fn listing_after_rename_shows_whole_new_tree() {
    let mut fs = VirtualFS::new();
    fs.mkdir("", "a", 1).unwrap();
    fs.mkdir("a", "b", 1).unwrap();
    fs.create("a", "c.txt", 1).unwrap();
    fs.create("a/b", "d.txt", 1).unwrap();
    fs.rename("", "a", "", "n").unwrap();
    assert_eq!(names(&fs, "n"), vec![".", "..", "b", "c.txt"]);
    assert_eq!(names(&fs, "n/b"), vec![".", "..", "d.txt"]);
    assert_eq!(names(&fs, ""), vec![".", "..", "n"]);
    assert_eq!(fs.readdir("a").err(), Some(FsError::NotADirectory));
}
