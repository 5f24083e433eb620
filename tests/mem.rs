use bulkhead::backends::VfsMem;
use bulkhead::{Dir, File, FileHandle, Qid, ReadOnly, ReadWrite, Stat, VfsError, VfsResult};

#[test]
fn test_vfs_mem_basic_operations() -> VfsResult<()> {
    let mut backend = VfsMem::new();

    let fh: FileHandle<File, ReadWrite> = backend.create::<ReadWrite, File>("file1", 0)?;
    assert_eq!(fh.path, "/file1");

    let content = b"Hello VFS!";
    let written = backend.write(&fh, 0, content)?;
    assert_eq!(written, content.len());

    let read_data = backend.read(&fh, 0, content.len())?;
    assert_eq!(read_data, content);

    let stat: Stat = backend.stat("file1")?;
    assert_eq!(stat.name, "file1");
    assert_eq!(stat.size, content.len() as u64);

    backend.remove::<File>("file1")?;
    let result = backend.stat("file1");
    println!("stat result: {:?}", result);
    assert!(matches!(result, Err(VfsError::NotFound(_))));

    Ok(())
}

#[test]
fn test_vfs_mem_readdir() -> VfsResult<()> {
    let mut backend = VfsMem::new();

    backend.create::<ReadWrite, File>("file1", 0)?;
    backend.create::<ReadWrite, File>("file2", 0)?;

    let dir_handle = FileHandle::<Dir, ReadOnly>::new(0, Qid::new_dir(0, 0), "/".to_string(), 0);

    let entries = backend.readdir(&dir_handle)?;
    let names: Vec<_> = entries.iter().map(|s| s.name.as_str()).collect();

    assert!(names.contains(&"file1"));
    assert!(names.contains(&"file2"));

    Ok(())
}

#[test]
fn test_vfs_mem_walk() -> VfsResult<()> {
    let mut backend = VfsMem::new();

    backend.create::<ReadWrite, Dir>("/file1", 0)?;
    backend.create::<ReadWrite, File>("/file1/file2", 0)?;

    let walk_res = backend.walk("/", &["file1".to_string(), "file2".to_string()])?;
    assert_eq!(walk_res.qids.len(), 2);

    Ok(())
}
