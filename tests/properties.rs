use bulkhead::backends::VfsMem;
use bulkhead::{Dir, File, FileHandle, Qid, ReadOnly, ReadWrite, VfsError, WriteOnly};

#[test]
fn normalize_is_idempotent_on_examples() {
    for p in ["/", "foo", "/foo/bar/", "///a/b///", "x/y/z", "/\u{e9}t\u{e9}/caf\u{e9}"] {
        let once = VfsMem::normalize_path(p).unwrap();
        let twice = VfsMem::normalize_path(&once).unwrap();
        assert_eq!(once, twice);
    }
}

#[test]
fn normalize_keeps_non_ascii_components() {
    assert_eq!(VfsMem::normalize_path("\u{e9}t\u{e9}/").unwrap(), "/\u{e9}t\u{e9}");
}

#[test]
fn normalize_rejects_traversal_anywhere() {
    for p in ["..", "/a/..", "a..b", "/.../x", "../"] {
        assert!(matches!(VfsMem::normalize_path(p), Err(VfsError::InvalidPath(_))));
    }
}

#[test]
fn normalize_rejects_empty_components() {
    assert!(matches!(VfsMem::normalize_path("a//b"), Err(VfsError::InvalidPath(_))));
    assert!(matches!(VfsMem::normalize_path("//"), Err(VfsError::InvalidPath(_))));
    assert!(matches!(VfsMem::normalize_path(""), Err(VfsError::InvalidPath(_))));
}

#[test]
fn write_then_read_at_offset_round_trips() {
    let mut vfs = VfsMem::new();
    let h = vfs.create::<ReadWrite, File>("/f", 0).unwrap();
    vfs.write(&h, 0, b"0123456789").unwrap();
    assert_eq!(vfs.write(&h, 3, b"abc").unwrap(), 3);
    assert_eq!(vfs.read(&h, 3, 3).unwrap(), b"abc");
    assert_eq!(vfs.read(&h, 0, 100).unwrap(), b"012abc6789");
}

#[test]
fn write_past_end_fills_gap_with_zeros() {
    let mut vfs = VfsMem::new();
    let h = vfs.create::<ReadWrite, File>("/g", 0).unwrap();
    vfs.write(&h, 0, b"ab").unwrap();
    vfs.write(&h, 5, b"cd").unwrap();
    assert_eq!(vfs.read(&h, 0, 7).unwrap(), vec![b'a', b'b', 0, 0, 0, b'c', b'd']);
}

#[test]
fn read_boundaries() {
    let mut vfs = VfsMem::new();
    let h = vfs.create::<ReadWrite, File>("/r", 0).unwrap();
    vfs.write(&h, 0, b"hello").unwrap();
    assert_eq!(vfs.read(&h, 5, 10).unwrap(), Vec::<u8>::new());
    assert_eq!(vfs.read(&h, 6, 10).unwrap(), Vec::<u8>::new());
    assert_eq!(vfs.read(&h, 1, 3).unwrap(), b"ell");
    assert_eq!(vfs.read(&h, 2, usize::MAX).unwrap(), b"llo");
}

#[test]
fn version_rises_with_each_write_only() {
    let mut vfs = VfsMem::new();
    let h = vfs.create::<ReadWrite, File>("/v", 0).unwrap();
    assert_eq!(vfs.stat("/v").unwrap().qid.version, 0);
    vfs.write(&h, 0, b"x").unwrap();
    assert_eq!(vfs.stat("/v").unwrap().qid.version, 1);
    vfs.write(&h, 0, b"").unwrap();
    assert_eq!(vfs.stat("/v").unwrap().qid.version, 2);
    vfs.read(&h, 0, 1).unwrap();
    vfs.create::<ReadOnly, Dir>("/other", 0).unwrap();
    vfs.open::<ReadOnly, File>("/v", 0).unwrap();
    assert_eq!(vfs.stat("/v").unwrap().qid.version, 2);
}

#[test]
fn stat_right_after_create() {
    let mut vfs = VfsMem::new();
    vfs.create::<ReadOnly, Dir>("/d", 0).unwrap();
    vfs.create::<WriteOnly, File>("d/leaf.bin/", 0).unwrap();
    let st = vfs.stat("/d/leaf.bin").unwrap();
    assert_eq!(st.name, "leaf.bin");
    assert_eq!(st.size, 0);
    assert_eq!(st.mode, 0o644);
    assert_eq!(st.qid.ty, 0x00);
    assert_eq!(st.uid, "user");
    assert_eq!(st.gid, "group");
    let d = vfs.stat("/d").unwrap();
    assert_eq!(d.mode, 0o755);
    assert_eq!(d.qid.ty, 0x80);
    assert_eq!(d.size, 0);
}

#[test]
fn readdir_lists_exactly_the_immediate_children() {
    let mut vfs = VfsMem::new();
    vfs.create::<ReadOnly, Dir>("/a", 0).unwrap();
    vfs.create::<ReadOnly, Dir>("/a/b", 0).unwrap();
    vfs.create::<ReadWrite, File>("/a/x", 0).unwrap();
    vfs.create::<ReadWrite, File>("/a/b/deep", 0).unwrap();
    vfs.create::<ReadWrite, File>("/ab", 0).unwrap();
    let h = vfs.open::<ReadOnly, Dir>("/a", 0).unwrap();
    let mut names: Vec<String> = vfs.readdir(&h).unwrap().into_iter().map(|s| s.name).collect();
    names.sort();
    assert_eq!(names, vec!["b".to_string(), "x".to_string()]);
    let root = vfs.open::<ReadOnly, Dir>("/", 0).unwrap();
    let mut top: Vec<String> = vfs.readdir(&root).unwrap().into_iter().map(|s| s.name).collect();
    top.sort();
    assert_eq!(top, vec!["a".to_string(), "ab".to_string()]);
}

#[test]
fn readdir_of_empty_dir_is_empty() {
    let mut vfs = VfsMem::new();
    vfs.create::<ReadOnly, Dir>("/e", 0).unwrap();
    let h = vfs.open::<ReadOnly, Dir>("/e", 0).unwrap();
    assert!(vfs.readdir(&h).unwrap().is_empty());
}

#[test]
fn root_cannot_be_removed_and_always_stats() {
    let mut vfs = VfsMem::new();
    assert!(matches!(vfs.remove::<Dir>("/"), Err(VfsError::PermissionDenied(_))));
    assert!(matches!(vfs.remove::<Dir>("///"), Err(VfsError::InvalidPath(_))));
    let st = vfs.stat("/").unwrap();
    assert_eq!(st.name, "/");
    assert_eq!(st.qid.ty, 0x80);
}

#[test]
fn create_under_missing_or_file_parent() {
    let mut vfs = VfsMem::new();
    assert!(matches!(vfs.create::<ReadWrite, File>("/a/b", 0), Err(VfsError::NotFound(_))));
    vfs.create::<ReadWrite, File>("/a", 0).unwrap();
    assert!(matches!(vfs.create::<ReadWrite, File>("/a/b", 0), Err(VfsError::NotADirectory(_))));
    assert!(matches!(vfs.create::<ReadWrite, File>("/a", 0), Err(VfsError::AlreadyExists(_))));
    assert!(matches!(vfs.create::<ReadOnly, Dir>("/", 0), Err(VfsError::AlreadyExists(_))));
}

#[test]
fn open_kind_mismatch_and_missing() {
    let mut vfs = VfsMem::new();
    vfs.create::<ReadWrite, File>("/f", 0).unwrap();
    assert!(matches!(vfs.open::<ReadOnly, Dir>("/f", 0), Err(VfsError::NotADirectory(_))));
    assert!(matches!(vfs.open::<ReadOnly, File>("/nope", 0), Err(VfsError::NotFound(_))));
    assert!(matches!(vfs.open::<ReadOnly, File>("a/../b", 0), Err(VfsError::InvalidPath(_))));
}

#[test]
fn handle_ids_count_up_from_one() {
    let mut vfs = VfsMem::new();
    let a = vfs.create::<ReadWrite, File>("/a", 0o600).unwrap();
    let b = vfs.open::<ReadOnly, File>("/a", 0o400).unwrap();
    assert!(vfs.open::<ReadOnly, Dir>("/a", 0).is_err());
    let c = vfs.open::<ReadOnly, Dir>("/", 0).unwrap();
    assert_eq!((a.fid, b.fid, c.fid), (1, 2, 3));
    assert_eq!(a.mode, 0o600);
    assert_eq!(b.mode, 0o400);
    assert_eq!(a.path, "/a");
}

#[test]
fn stale_handles_report_not_found() {
    let mut vfs = VfsMem::new();
    let h = vfs.create::<ReadWrite, File>("/s", 0).unwrap();
    vfs.remove::<File>("/s").unwrap();
    assert!(matches!(vfs.read(&h, 0, 1), Err(VfsError::NotFound(_))));
    assert!(matches!(vfs.write(&h, 0, b"x"), Err(VfsError::NotFound(_))));
    assert!(matches!(vfs.remove::<File>("/s"), Err(VfsError::NotFound(_))));
    let d = FileHandle::<Dir, ReadOnly>::new(9, Qid::new_dir(0, 0), "/gone".to_string(), 0);
    assert!(matches!(vfs.readdir(&d), Err(VfsError::NotFound(_))));
}

#[test]
fn handles_whose_kind_disagrees_with_the_node() {
    let mut vfs = VfsMem::new();
    vfs.create::<ReadOnly, Dir>("/d", 0).unwrap();
    vfs.create::<ReadWrite, File>("/f", 0).unwrap();
    let as_file = FileHandle::<File, ReadWrite>::new(7, Qid::new_file(0, 0), "/d".to_string(), 0);
    assert!(matches!(vfs.read(&as_file, 0, 1), Err(VfsError::IsADirectory(_))));
    assert!(matches!(vfs.write(&as_file, 0, b"x"), Err(VfsError::IsADirectory(_))));
    let as_dir = FileHandle::<Dir, ReadOnly>::new(8, Qid::new_dir(0, 0), "/f".to_string(), 0);
    assert!(matches!(vfs.readdir(&as_dir), Err(VfsError::NotADirectory(_))));
}

#[test]
fn remove_nonempty_dir_reports_invalid_argument() {
    let mut vfs = VfsMem::new();
    vfs.create::<ReadOnly, Dir>("/dir", 0).unwrap();
    vfs.create::<ReadOnly, File>("/dir/file.txt", 0).unwrap();
    match vfs.remove::<Dir>("/dir") {
        Err(VfsError::InvalidArgument(m)) => assert_eq!(m, "directory not empty"),
        other => panic!("unexpected: {:?}", other),
    }
    vfs.remove::<File>("/dir/file.txt").unwrap();
    vfs.remove::<Dir>("/dir").unwrap();
    assert!(matches!(vfs.stat("/dir"), Err(VfsError::NotFound(_))));
}

#[test]
fn walk_stops_at_first_missing_component() {
    let mut vfs = VfsMem::new();
    vfs.create::<ReadOnly, Dir>("/a", 0).unwrap();
    vfs.create::<ReadWrite, File>("/a/f", 0).unwrap();
    let r = vfs.walk("/", &["a".to_string(), "zz".to_string(), "f".to_string()]).unwrap();
    assert_eq!(r.qids.len(), 1);
    assert_eq!(r.qids[0].ty, 0x80);
    let r = vfs.walk("/a", &["f".to_string(), "more".to_string()]).unwrap();
    assert_eq!(r.qids.len(), 1);
    assert_eq!(r.qids[0].ty, 0x00);
    assert_eq!(vfs.walk("/", &[]).unwrap().qids.len(), 0);
}

#[test]
fn walk_rejects_bad_names_and_missing_start() {
    let mut vfs = VfsMem::new();
    vfs.create::<ReadOnly, Dir>("/a", 0).unwrap();
    assert!(matches!(vfs.walk("/", &["a/b".to_string()]), Err(VfsError::InvalidPath(_))));
    assert!(matches!(vfs.walk("/", &["a".to_string(), "..".to_string()]), Err(VfsError::InvalidPath(_))));
    assert!(matches!(vfs.walk("/missing", &["a".to_string()]), Err(VfsError::NotFound(_))));
    assert!(matches!(vfs.walk("", &[]), Err(VfsError::InvalidPath(_))));
}

#[test]
fn walk_qids_agree_with_stat() {
    let mut vfs = VfsMem::new();
    vfs.create::<ReadOnly, Dir>("/a", 0).unwrap();
    let h = vfs.create::<ReadWrite, File>("/a/c.txt", 0).unwrap();
    vfs.write(&h, 0, b"zz").unwrap();
    let r = vfs.walk("/", &["a".to_string(), "c.txt".to_string()]).unwrap();
    let sa = vfs.stat("/a").unwrap();
    let sc = vfs.stat("/a/c.txt").unwrap();
    assert_eq!(r.qids[0], sa.qid);
    assert_eq!(r.qids[1], sc.qid);
    assert_eq!(sc.qid.version, 1);
    assert_eq!(h.qid.path, sc.qid.path);
}

#[test]
fn qid_paths_differ_between_paths() {
    let mut vfs = VfsMem::new();
    vfs.create::<ReadWrite, File>("/one", 0).unwrap();
    vfs.create::<ReadWrite, File>("/two", 0).unwrap();
    let a = vfs.stat("/one").unwrap().qid.path;
    let b = vfs.stat("/two").unwrap().qid.path;
    assert_ne!(a, b);
    assert_eq!(a, vfs.stat("one/").unwrap().qid.path);
}

#[test]
fn qid_constructors() {
    let f: Qid = Qid::new_file(42, 3);
    assert_eq!((f.ty, f.version, f.path), (0x00, 3, 42));
    let d: Qid = Qid::new_dir(7, 0);
    assert_eq!((d.ty, d.version, d.path), (0x80, 0, 7));
}

#[test]
fn error_messages() {
    assert_eq!(VfsError::NotFound("/x".to_string()).message(), "path not found: /x");
    assert_eq!(VfsError::PermissionDenied("no".to_string()).message(), "permission denied: no");
    assert_eq!(VfsError::AlreadyExists("/x".to_string()).message(), "already exists: /x");
    assert_eq!(VfsError::NotADirectory("/x".to_string()).message(), "not a directory: /x");
    assert_eq!(VfsError::IsADirectory("/x".to_string()).message(), "is a directory: /x");
    assert_eq!(VfsError::InvalidArgument("bad".to_string()).message(), "invalid argument: bad");
    assert_eq!(VfsError::InvalidPath("bad".to_string()).message(), "invalid path: bad");
    assert_eq!(VfsError::BadOffset.message(), "invalid offset");
    assert_eq!(VfsError::LockPoisoned.message(), "lock poisoned");
}

#[test]
fn default_holds_only_the_root() {
    let mut vfs = VfsMem::default();
    let root = vfs.open::<ReadOnly, Dir>("/", 0).unwrap();
    assert!(vfs.readdir(&root).unwrap().is_empty());
    assert_eq!(root.fid, 1);
}

#[test]
fn scenario_file_lifecycle() {
    let mut vfs = VfsMem::new();
    let h = vfs.create::<ReadWrite, File>("/file1", 0).unwrap();
    assert_eq!(vfs.write(&h, 0, b"Hello VFS!").unwrap(), 10);
    assert_eq!(vfs.read(&h, 0, 10).unwrap(), b"Hello VFS!");
    let st = vfs.stat("/file1").unwrap();
    assert_eq!(st.name, "file1");
    assert_eq!(st.size, 10);
    vfs.remove::<File>("/file1").unwrap();
    assert!(matches!(vfs.stat("/file1"), Err(VfsError::NotFound(_))));
}

#[test]
fn scenario_walk_three_levels() {
    let mut vfs = VfsMem::new();
    vfs.create::<ReadOnly, Dir>("/a", 0).unwrap();
    vfs.create::<ReadOnly, Dir>("/a/b", 0).unwrap();
    vfs.create::<ReadWrite, File>("/a/b/c.txt", 0).unwrap();
    let r = vfs.walk("/", &["a".to_string(), "b".to_string(), "c.txt".to_string()]).unwrap();
    assert_eq!(r.qids.len(), 3);
    assert_eq!(r.qids[2].ty, 0x00);
    assert_eq!(r.qids[0].ty, 0x80);
}

#[test]
fn scenario_open_dir_as_file() {
    let mut vfs = VfsMem::new();
    vfs.create::<ReadOnly, Dir>("/dir", 0).unwrap();
    assert!(matches!(vfs.open::<ReadOnly, File>("/dir", 0), Err(VfsError::IsADirectory(_))));
}

#[test]
fn scenario_gap_of_two_zero_bytes() {
    let mut vfs = VfsMem::new();
    let h = vfs.create::<ReadWrite, File>("/t", 0).unwrap();
    vfs.write(&h, 0, b"Hello").unwrap();
    vfs.write(&h, 7, b"World").unwrap();
    let data = vfs.read(&h, 0, 100).unwrap();
    assert_eq!(data, b"Hello\0\0World");
}
