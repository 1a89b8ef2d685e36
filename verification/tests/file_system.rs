use virtual_file_system::file_system::{SupportedFileType, VirtualFile, VirtualFileSystem};

#[test]
fn test_create_and_read_file() {
    let mut vfs = VirtualFileSystem::new();
    let id = vfs.create_file("test.jpg".to_string(), SupportedFileType::Image, vec![1, 2, 3]).unwrap();
    let file = vfs.read_file(&id).unwrap();
    assert_eq!(file.name, "test.jpg");
    assert_eq!(file.size, 3);
}

#[test]
fn test_update_file() {
    let mut vfs = VirtualFileSystem::new();
    let id = vfs.create_file("test.jpg".to_string(), SupportedFileType::Image, vec![1, 2, 3]).unwrap();
    vfs.update_file(&id, Some(vec![4, 5, 6, 7])).unwrap();
    let content = vfs.get_file_content(&id).unwrap();
    assert_eq!(content, vec![4, 5, 6, 7]);
}

#[test]
fn test_delete_file() {
    let mut vfs = VirtualFileSystem::new();
    let id = vfs.create_file("test.jpg".to_string(), SupportedFileType::Image, vec![1, 2, 3]).unwrap();
    vfs.delete_file(&id).unwrap();
    assert!(vfs.read_file(&id).is_err());
}

#[test]
fn test_metadata() {
    let mut vfs = VirtualFileSystem::new();
    let id = vfs.create_file("test.jpg".to_string(), SupportedFileType::Image, vec![1, 2, 3]).unwrap();
    vfs.set_file_metadata(&id, "position".to_string(), "100,100".to_string()).unwrap();
    let position = vfs.get_file_metadata(&id, "position").unwrap();
    assert_eq!(position, "100,100");
}

#[test]
fn checksums_are_sha256_in_hexadecimal() {
    assert_eq!(
        VirtualFile::calculate_checksum(b""),
        "e3b0c44298fc1c149afbf4c8996fb92427ae41e4649b934ca495991b7852b855"
    );
    assert_eq!(
        VirtualFile::calculate_checksum(b"abc"),
        "ba7816bf8f01cfea414140de5dae2223b00361a396177a9cb410ff61f20015ad"
    );
    let file = VirtualFile::new(
        "id".to_string(),
        "abc.txt".to_string(),
        SupportedFileType::Other("text".to_string()),
        b"abc".to_vec(),
    );
    assert_eq!(file.id, "id");
    assert_eq!(file.size, 3);
    assert_eq!(file.content, Some(b"abc".to_vec()));
    assert!(file.metadata.is_empty());
    assert_eq!(file.checksum, "ba7816bf8f01cfea414140de5dae2223b00361a396177a9cb410ff61f20015ad");
    assert!(matches!(file.file_type, SupportedFileType::Other(ref kind) if kind == "text"));
}

#[test]
fn identifiers_are_fresh() {
    let mut vfs = VirtualFileSystem::new();
    let a = vfs.create_file("a".to_string(), SupportedFileType::CSV, vec![]).unwrap();
    let b = vfs.create_file("b".to_string(), SupportedFileType::Gif, vec![]).unwrap();
    assert_ne!(a, b);
    assert_eq!(a.len(), 36);
    let names: Vec<&str> = vfs.list_files().iter().map(|file| file.name.as_str()).collect();
    assert_eq!(names, vec!["a", "b"]);
}

#[test]
fn unknown_identifiers_are_not_found() {
    let mut vfs = VirtualFileSystem::new();
    vfs.create_file("a".to_string(), SupportedFileType::Video, vec![9]).unwrap();
    assert_eq!(vfs.read_file("nope").unwrap_err(), "File not found");
    assert_eq!(vfs.update_file("nope", Some(vec![1])).unwrap_err(), "File not found");
    assert_eq!(vfs.update_file("nope", None).unwrap_err(), "File not found");
    assert_eq!(vfs.delete_file("nope").unwrap_err(), "File not found");
    assert_eq!(vfs.get_file_content("nope").unwrap_err(), "File content not found");
    assert_eq!(
        vfs.set_file_metadata("nope", "k".to_string(), "v".to_string()).unwrap_err(),
        "File not found"
    );
    assert_eq!(vfs.get_file_metadata("nope", "k").unwrap_err(), "Metadata not found");
    assert_eq!(vfs.list_files().len(), 1);
}

#[test]
fn an_update_renews_size_and_checksum() {
    let mut vfs = VirtualFileSystem::new();
    let id = vfs.create_file("a".to_string(), SupportedFileType::Image, vec![1, 2, 3]).unwrap();
    let before = vfs.read_file(&id).unwrap().checksum.clone();
    vfs.update_file(&id, None).unwrap();
    assert_eq!(vfs.read_file(&id).unwrap().checksum, before);
    assert_eq!(vfs.read_file(&id).unwrap().size, 3);
    vfs.update_file(&id, Some(b"abc".to_vec())).unwrap();
    let file = vfs.read_file(&id).unwrap();
    assert_eq!(file.size, 3);
    assert_eq!(file.checksum, "ba7816bf8f01cfea414140de5dae2223b00361a396177a9cb410ff61f20015ad");
    assert_ne!(file.checksum, before);
    assert_eq!(file.name, "a");
}

#[test]
fn a_file_takes_the_place_of_one_with_its_identifier() {
    let mut vfs = VirtualFileSystem::new();
    let first = VirtualFile::new("x".to_string(), "one".to_string(), SupportedFileType::CSV, vec![1]);
    let other = VirtualFile::new("y".to_string(), "two".to_string(), SupportedFileType::CSV, vec![2]);
    let again = VirtualFile::new("x".to_string(), "three".to_string(), SupportedFileType::CSV, vec![3]);
    vfs.insert_file(first);
    vfs.insert_file(other);
    vfs.insert_file(again);
    let names: Vec<&str> = vfs.list_files().iter().map(|file| file.name.as_str()).collect();
    assert_eq!(names, vec!["three", "two"]);
    assert_eq!(vfs.get_file_content("x").unwrap(), vec![3]);
    vfs.delete_file("x").unwrap();
    assert!(vfs.read_file("x").is_err());
    assert_eq!(vfs.list_files().len(), 1);
}

#[test]
fn metadata_keeps_the_last_value_of_a_key() {
    let mut vfs = VirtualFileSystem::new();
    let id = vfs.create_file("a".to_string(), SupportedFileType::Image, vec![]).unwrap();
    vfs.set_file_metadata(&id, "position".to_string(), "1,1".to_string()).unwrap();
    vfs.set_file_metadata(&id, "zoom".to_string(), "2".to_string()).unwrap();
    vfs.set_file_metadata(&id, "position".to_string(), "5,5".to_string()).unwrap();
    assert_eq!(vfs.get_file_metadata(&id, "position").unwrap(), "5,5");
    assert_eq!(vfs.get_file_metadata(&id, "zoom").unwrap(), "2");
    assert_eq!(vfs.get_file_metadata(&id, "missing").unwrap_err(), "Metadata not found");
    let file = vfs.read_file(&id).unwrap();
    assert_eq!(file.metadata.len(), 2);
    assert_eq!(file.get_metadata("zoom"), Some(&"2".to_string()));
}

#[test]
fn a_file_without_content_has_none_to_give() {
    let mut vfs = VirtualFileSystem::new();
    let mut file = VirtualFile::new("x".to_string(), "n".to_string(), SupportedFileType::Image, vec![1]);
    file.content = None;
    vfs.insert_file(file);
    assert_eq!(vfs.get_file_content("x").unwrap_err(), "File content not found");
    assert!(vfs.read_file("x").is_ok());
}
