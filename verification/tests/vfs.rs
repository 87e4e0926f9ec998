use std::path::Path;

use packet_generator::vfs::{InMemoryFS, Vfs, VfsPath, VfsPathBuf};

#[test]
fn vfspath_is_a_path() {
    let path = Path::new("test.kdl");
    let path2 = VfsPath::new("test.kdl");

    assert_eq!(Path::new(&path2.inner), path);
    assert_eq!(Path::new(&path2.inner).as_os_str(), path.as_os_str());
    assert_eq!(Path::new(&path2.inner).to_string_lossy(), path.to_string_lossy());
}

#[test]
fn vfspathbuf_is_a_pathbuf() {
    let path = String::from("test.kdl");
    let path2 = VfsPathBuf(path.clone());

    assert_eq!(path2.to_string_lossy(), path);
}

#[test]
fn inmem_vfs_normalizes() {
    assert_eq!(
        "foo.kdl",
        InMemoryFS::normalize_path("foo.kdl")
            .expect("cannot error: path is UTF-8")
            .to_string_lossy()
    );

    assert_eq!(
        "test/foo.kdl",
        InMemoryFS::normalize_path("test/foo.kdl")
            .expect("cannot error: path is UTF-8")
            .to_string_lossy()
    );

    assert_eq!(
        "foo.kdl",
        InMemoryFS::normalize_path("test/../foo.kdl")
            .expect("cannot error: path is UTF-8")
            .to_string_lossy()
    );

    assert_eq!(
        "foo/bar/quox/a..kdl",
        InMemoryFS::normalize_path("./foo/bax/../bar/./ooo/../quox/a..kdl")
            .expect("cannot error: path is UTF-8")
            .to_string_lossy()
    );
}

#[test]
fn inmem_vfs_reads_back_what_was_added() {
    let mut fs = InMemoryFS::new();
    fs.add_file(&VfsPath::new("a.kdl"), "first").unwrap();
    fs.add_file(&VfsPath::new("b.kdl"), "other").unwrap();
    fs.add_file(&VfsPath::new("a.kdl"), "second").unwrap();

    assert_eq!(fs.read_file_to_string(&VfsPath::new("a.kdl")).unwrap(), "second");
    assert_eq!(fs.read_file_to_string(&VfsPath::new("b.kdl")).unwrap(), "other");
}

#[test]
fn inmem_vfs_reports_missing_files() {
    let fs = InMemoryFS::new();
    let err = fs.read_file_to_string(&VfsPath::new("missing.kdl")).unwrap_err();

    assert!(err.not_found);
    assert_eq!(err.message, "file missing.kdl not present in in-memory database");
}

#[test]
fn normalizing_an_empty_path_gives_the_current_directory() {
    assert_eq!(InMemoryFS::normalize_path("").unwrap().to_string_lossy(), ".");
    assert_eq!(InMemoryFS::normalize_path("a//b/").unwrap().to_string_lossy(), "a/b");
}

#[test]
fn inmem_vfs_stores_files_under_their_normalized_path() {
    let mut fs = InMemoryFS::new();
    fs.add_file(&VfsPath::new("./dir/../a.kdl"), "text").unwrap();
    let key = InMemoryFS::normalize_path("./dir/../a.kdl").unwrap();

    assert_eq!(fs.read_file_to_string(&key.as_path()).unwrap(), "text");
    assert!(fs.read_file_to_string(&VfsPath::new("./dir/../a.kdl")).is_err());
}
