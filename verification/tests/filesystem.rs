use rem_utils::filesystem::{
    bytes_of_text, exists_or_false, read_or_io_error, FileLoader, FileSystem, Ingest,
    SymbolicFileSystem,
};

#[derive(Clone, Debug)]
struct Broken;

impl FileSystem for Broken {
    type FSError = String;

    fn path_exists(&self, path: &str) -> Result<bool, String> {
        Err(format!("cannot stat {}", path))
    }

    fn read(&self, filename: &str) -> Result<String, String> {
        Err(format!("cannot read {}", filename))
    }

    fn write(&mut self, filename: &str, _contents: &[u8]) -> Result<(), String> {
        Err(format!("cannot write {}", filename))
    }
}

#[test]
fn store_starts_empty() {
    let store = SymbolicFileSystem::new();
    assert_eq!(store.path_exists("a"), Ok(false));
    assert_eq!(store.read("a"), Ok(String::new()));
    assert_eq!(store.to_string(), "SymbolicFileSystem {\n}\n");
}

#[test]
fn store_write_then_read() {
    let mut store = SymbolicFileSystem::new();
    assert_eq!(store.write("/a.rs", b"content A"), Ok(()));
    assert_eq!(store.path_exists("/a.rs"), Ok(true));
    assert_eq!(store.read("/a.rs"), Ok("content A".to_string()));
    assert_eq!(store.path_exists("/b.rs"), Ok(false));
    assert_eq!(store.read("/b.rs"), Ok(String::new()));
}

#[test]
fn store_write_replaces() {
    let mut store = SymbolicFileSystem::new();
    store.write("/a", b"one").unwrap();
    store.write("/b", b"two").unwrap();
    store.write("/a", b"three").unwrap();
    assert_eq!(store.read("/a"), Ok("three".to_string()));
    assert_eq!(store.read("/b"), Ok("two".to_string()));
    assert_eq!(
        store.to_string(),
        "SymbolicFileSystem {\nfile \"/a\": {|\nthree\n|}\nfile \"/b\": {|\ntwo\n|}\n}\n"
    );
}

#[test]
fn store_write_keeps_text_beyond_ascii() {
    let mut store = SymbolicFileSystem::new();
    store.write("/u", "héllo → wörld".as_bytes()).unwrap();
    assert_eq!(store.read("/u"), Ok("héllo → wörld".to_string()));
}

#[test]
fn store_write_replaces_invalid_bytes() {
    let mut store = SymbolicFileSystem::new();
    store.write("/bad", &[0x66, 0xff, 0x6f]).unwrap();
    assert_eq!(store.read("/bad"), Ok("f\u{fffd}o".to_string()));
}

#[test]
fn store_empty_file_exists() {
    let mut store = SymbolicFileSystem::new();
    store.write("/empty", b"").unwrap();
    assert_eq!(store.path_exists("/empty"), Ok(true));
    assert_eq!(store.read("/empty"), Ok(String::new()));
}

#[test]
fn store_insert_and_get() {
    let mut store = SymbolicFileSystem::new();
    store.insert("/real/a.rs".to_string(), "A".to_string());
    store.insert("link".to_string(), "L".to_string());
    assert_eq!(store.get("link", Some("/real/a.rs")), "A");
    assert_eq!(store.get("link", None), "L");
    assert_eq!(store.get("other", None), "");
    assert_eq!(store.get("link", Some("/nowhere")), "");
}

#[test]
fn store_clone_is_a_copy() {
    let mut store = SymbolicFileSystem::new();
    store.write("/a", b"one").unwrap();
    let copy = store.clone();
    store.write("/a", b"two").unwrap();
    assert_eq!(copy.read("/a"), Ok("one".to_string()));
    assert_eq!(store.read("/a"), Ok("two".to_string()));
}

#[test]
fn ingest_directory_with_subdirectory() {
    // root/a.rs and root/sub/b.rs
    let mut walk = Ingest::new("root".to_string());
    assert_eq!(walk.next_path(), Some("root".to_string()));
    walk.found_directory(vec!["root/a.rs".to_string(), "root/sub".to_string()]);
    assert_eq!(walk.next_path(), Some("root/sub".to_string()));
    walk.found_directory(vec!["root/sub/b.rs".to_string()]);
    assert_eq!(walk.next_path(), Some("root/sub/b.rs".to_string()));
    walk.found_file("/abs/root/sub/b.rs".to_string(), "content B".to_string());
    assert_eq!(walk.next_path(), Some("root/a.rs".to_string()));
    walk.found_file("/abs/root/a.rs".to_string(), "content A".to_string());
    assert_eq!(walk.next_path(), None);
    assert_eq!(walk.next_path(), None);
    let store = walk.into_store();
    assert_eq!(store.read("/abs/root/a.rs"), Ok("content A".to_string()));
    assert_eq!(store.read("/abs/root/sub/b.rs"), Ok("content B".to_string()));
    assert_eq!(store.read("/abs/root/missing.rs"), Ok(String::new()));
    assert_eq!(store.path_exists("/abs/root/missing.rs"), Ok(false));
    assert_eq!(store.path_exists("root/a.rs"), Ok(false));
    assert_eq!(store.get("root/a.rs", Some("/abs/root/a.rs")), "content A");
}

#[test]
fn ingest_single_file() {
    let mut walk = Ingest::new("a.rs".to_string());
    assert_eq!(walk.next_path(), Some("a.rs".to_string()));
    walk.found_file("/abs/a.rs".to_string(), "A".to_string());
    assert_eq!(walk.next_path(), None);
    assert_eq!(walk.into_store().read("/abs/a.rs"), Ok("A".to_string()));
}

#[test]
fn ingest_empty_directory() {
    let mut walk = Ingest::new("root".to_string());
    walk.next_path();
    walk.found_directory(vec![]);
    assert_eq!(walk.next_path(), None);
    assert_eq!(walk.into_store().to_string(), "SymbolicFileSystem {\n}\n");
}

#[test]
fn loader_over_the_store() {
    let mut store = SymbolicFileSystem::new();
    store.write("/a.rs", "fn a() {}".as_bytes()).unwrap();
    let loader = FileLoader::new(store);
    assert!(loader.file_exists("/a.rs"));
    assert!(!loader.file_exists("/b.rs"));
    assert_eq!(loader.read_file("/a.rs").unwrap(), "fn a() {}");
    assert_eq!(loader.read_file("/b.rs").unwrap(), "");
    assert_eq!(&*loader.read_binary_file("/a.rs").unwrap(), b"fn a() {}");
    assert_eq!(loader.read_binary_file("/b.rs").unwrap().len(), 0);
    let copy = loader.clone();
    assert!(copy.file_exists("/a.rs"));
}

#[test]
fn loader_binary_is_utf8() {
    let mut store = SymbolicFileSystem::new();
    store.write("/u", "é→".as_bytes()).unwrap();
    let loader = FileLoader::new(store);
    assert_eq!(&*loader.read_binary_file("/u").unwrap(), &[0xc3, 0xa9, 0xe2, 0x86, 0x92]);
}

#[test]
fn loader_over_a_store_that_fails() {
    let loader = FileLoader::new(Broken);
    assert!(!loader.file_exists("/a.rs"));
    let error = loader.read_file("/a.rs").unwrap_err();
    assert_eq!(error.kind(), std::io::ErrorKind::Other);
    assert_eq!(error.to_string(), "\"cannot read /a.rs\"");
    let error = loader.read_binary_file("/a.rs").unwrap_err();
    assert_eq!(error.kind(), std::io::ErrorKind::Other);
}

#[test]
fn loader_outcomes() {
    assert!(exists_or_false::<()>(Ok(true)));
    assert!(!exists_or_false::<()>(Ok(false)));
    assert!(!exists_or_false(Err("no")));
    assert_eq!(read_or_io_error::<()>(Ok("text".to_string())).unwrap(), "text");
    assert_eq!(read_or_io_error(Err(7)).unwrap_err().to_string(), "7");
    assert_eq!(&*bytes_of_text(Ok("ab".to_string())).unwrap(), b"ab");
    let failed = std::io::Error::new(std::io::ErrorKind::NotFound, "gone");
    assert_eq!(bytes_of_text(Err(failed)).unwrap_err().kind(), std::io::ErrorKind::NotFound);
}
