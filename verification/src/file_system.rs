//! A store of files in memory, each under an identifier of its own.
//!
//! Files are kept in the order in which they were created. Identifiers are
//! random; checksums are SHA-256 in lowercase hexadecimal. Every operation on
//! a file fails with a "not found" message where the identifier is unknown.

use sha2::Digest;
use vstd::prelude::*;
use vstd::string::*;
use crate::entries::{
    first_index, get_entry, lemma_first_index, lemma_first_index_is, set_entry, value_of,
    with_entry,
};

verus! {

/// The SHA-256 digest of `content`, in lowercase hexadecimal.
pub uninterp spec fn sha256_hex(content: Seq<u8>) -> Seq<char>;

/// `sha2::Sha256::digest`, formatted with `{:x}`. Trusted: the text is a
/// function of the bytes alone.
#[verifier::external_body]
fn digest_hex(content: &[u8]) -> (checksum: String)
    ensures
        checksum@ == sha256_hex(content@),
{
    format!("{:x}", sha2::Sha256::digest(content))
}

/// `uuid::Uuid::new_v4`, as text. Nothing is known of the text: it is random.
/// The call panics where the operating system refuses random bytes.
#[verifier::external_body]
fn new_id() -> (id: String) {
    uuid::Uuid::new_v4().to_string()
}

/// The kinds of file that the store knows.
#[derive(Clone, Debug)]
pub enum SupportedFileType {
    Image,
    Video,
    Gif,
    CSV,
    Other(String),
}

/// A kind of file as a mathematical value.
pub enum FileKind {
    Image,
    Video,
    Gif,
    CSV,
    Other(Seq<char>),
}

impl View for SupportedFileType {
    type V = FileKind;

    open spec fn view(&self) -> FileKind {
        match self {
            SupportedFileType::Image => FileKind::Image,
            SupportedFileType::Video => FileKind::Video,
            SupportedFileType::Gif => FileKind::Gif,
            SupportedFileType::CSV => FileKind::CSV,
            SupportedFileType::Other(name) => FileKind::Other(name@),
        }
    }
}

/// A file of the store.
#[derive(Clone, Debug)]
pub struct VirtualFile {
    pub id: String,
    pub name: String,
    pub file_type: SupportedFileType,
    pub size: usize,
    pub content: Option<Vec<u8>>,
    /// Keys and their values, in the order in which the keys were first set.
    pub metadata: Vec<(String, String)>,
    pub checksum: String,
}

/// A file as mathematical values.
pub struct FileRecord {
    pub id: Seq<char>,
    pub name: Seq<char>,
    pub file_type: FileKind,
    pub size: nat,
    pub content: Option<Seq<u8>>,
    pub metadata: Seq<(Seq<char>, Seq<char>)>,
    pub checksum: Seq<char>,
}

impl View for VirtualFile {
    type V = FileRecord;

    open spec fn view(&self) -> FileRecord {
        FileRecord {
            id: self.id@,
            name: self.name@,
            file_type: self.file_type@,
            size: self.size as nat,
            content: match self.content {
                Some(content) => Some(content@),
                None => None,
            },
            metadata: self.metadata.deep_view(),
            checksum: self.checksum@,
        }
    }
}

/// The identifiers of `files`.
pub open spec fn file_ids(files: Seq<FileRecord>) -> Seq<Seq<char>> {
    files.map_values(|file: FileRecord| file.id)
}

/// The file that `files` hold under `id`.
pub open spec fn file_of(files: Seq<FileRecord>, id: Seq<char>) -> Option<FileRecord> {
    match first_index(file_ids(files), id) {
        Some(index) => Some(files[index]),
        None => None,
    }
}

/// `files` with `file` under its identifier: in the place of a file with the
/// same identifier, or at the end where there is none.
pub open spec fn with_file(files: Seq<FileRecord>, file: FileRecord) -> Seq<FileRecord> {
    match first_index(file_ids(files), file.id) {
        Some(index) => files.update(index, file),
        None => files.push(file),
    }
}

/// `files` without the file under `id`.
pub open spec fn without_file(files: Seq<FileRecord>, id: Seq<char>) -> Seq<FileRecord> {
    match first_index(file_ids(files), id) {
        Some(index) => files.remove(index),
        None => files,
    }
}

/// A new file: its size is that of its content, its checksum the content's
/// digest, and it has no metadata.
pub open spec fn new_file(
    id: Seq<char>,
    name: Seq<char>,
    file_type: FileKind,
    content: Seq<u8>,
) -> FileRecord {
    FileRecord {
        id,
        name,
        file_type,
        size: content.len(),
        content: Some(content),
        metadata: Seq::empty(),
        checksum: sha256_hex(content),
    }
}

/// `file` with new content, and the size and checksum that go with it.
pub open spec fn with_content(file: FileRecord, content: Seq<u8>) -> FileRecord {
    FileRecord {
        size: content.len(),
        content: Some(content),
        checksum: sha256_hex(content),
        ..file
    }
}

/// The text of the failure on an unknown identifier.
pub open spec fn file_not_found() -> Seq<char> {
    "File not found"@
}

impl VirtualFile {
    pub fn new(id: String, name: String, file_type: SupportedFileType, content: Vec<u8>) -> (file:
        VirtualFile)
        ensures
            file@ == new_file(id@, name@, file_type@, content@),
    {
        let size = content.len();
        let checksum = VirtualFile::calculate_checksum(content.as_slice());
        let file = VirtualFile {
            id,
            name,
            file_type,
            size,
            content: Some(content),
            metadata: Vec::new(),
            checksum,
        };
        assert(file.metadata.deep_view() =~= Seq::empty());
        file
    }

    /// The SHA-256 digest of `content`, in lowercase hexadecimal.
    pub fn calculate_checksum(content: &[u8]) -> (checksum: String)
        ensures
            checksum@ == sha256_hex(content@),
    {
        digest_hex(content)
    }

    /// Sets `value` for `key`.
    pub fn set_metadata(&mut self, key: String, value: String)
        ensures
            final(self)@ == (FileRecord {
                metadata: with_entry(old(self)@.metadata, key@, value@),
                ..old(self)@
            }),
    {
        set_entry(&mut self.metadata, key, value);
    }

    /// The value of `key`.
    pub fn get_metadata(&self, key: &str) -> (value: Option<&String>)
        ensures
            match value {
                Some(value) => value_of(self@.metadata, key@) == Some(value@),
                None => value_of(self@.metadata, key@) is None,
            },
    {
        get_entry(&self.metadata, key)
    }
}

/// The store.
#[derive(Clone, Debug)]
pub struct VirtualFileSystem {
    files: Vec<VirtualFile>,
}

impl View for VirtualFileSystem {
    type V = Seq<FileRecord>;

    closed spec fn view(&self) -> Seq<FileRecord> {
        self.files@.map_values(|file: VirtualFile| file@)
    }
}

impl VirtualFileSystem {
    /// No two files of the store have the same identifier.
    pub open spec fn wf(&self) -> bool {
        file_ids(self@).no_duplicates()
    }

    /// A store without files.
    pub fn new() -> (store: VirtualFileSystem)
        ensures
            store@ == Seq::<FileRecord>::empty(),
            store.wf(),
    {
        let store = VirtualFileSystem { files: Vec::new() };
        assert(store@ =~= Seq::empty());
        store
    }

    /// The index of the file under `id`.
    fn find(&self, id: &str) -> (found: Option<usize>)
        ensures
            match found {
                Some(index) => first_index(file_ids(self@), id@) == Some(index as int) && index
                    < self.files.len(),
                None => first_index(file_ids(self@), id@) is None,
            },
    {
        let sought = id.to_owned();
        let ghost ids = file_ids(self@);
        let mut i: usize = 0;
        while i < self.files.len()
            invariant
                i <= self.files.len(),
                sought@ == id@,
                ids == file_ids(self@),
                forall|k: int| 0 <= k < i ==> ids[k] != id@,
            decreases self.files.len() - i,
        {
            assert(ids[i as int] == self.files[i as int].id@);
            if self.files[i].id == sought {
                proof {
                    lemma_first_index_is(ids, id@, i as int);
                }
                return Some(i);
            }
            i += 1;
        }
        proof {
            lemma_first_index(ids, id@);
        }
        None
    }

    /// Puts `file` into the store under its identifier, in the place of a
    /// file that has the same.
    pub fn insert_file(&mut self, file: VirtualFile)
        ensures
            final(self)@ == with_file(old(self)@, file@),
            old(self).wf() ==> final(self).wf(),
            file_of(final(self)@, file.id@) == Some(file@),
    {
        let ghost before = self@;
        let ghost record = file@;
        proof {
            lemma_first_index(file_ids(before), record.id);
        }
        match self.find(file.id.as_str()) {
            Some(index) => {
                self.files.set(index, file);
                assert(self@ =~= before.update(index as int, record));
                assert(file_ids(self@) =~= file_ids(before));
                proof {
                    lemma_first_index_is(file_ids(self@), record.id, index as int);
                }
            },
            None => {
                self.files.push(file);
                assert(self@ =~= before.push(record));
                assert(file_ids(self@) =~= file_ids(before).push(record.id));
                proof {
                    lemma_first_index_is(file_ids(self@), record.id, before.len() as int);
                }
            },
        }
    }

    /// Creates a file under a fresh random identifier and hands the
    /// identifier out. The call never fails.
    pub fn create_file(&mut self, name: String, file_type: SupportedFileType, content: Vec<u8>) -> (id:
        Result<String, String>)
        ensures
            id matches Ok(id) && final(self)@ == with_file(
                old(self)@,
                new_file(id@, name@, file_type@, content@),
            ) && file_of(final(self)@, id@) == Some(new_file(id@, name@, file_type@, content@)),
            old(self).wf() ==> final(self).wf(),
    {
        let id = new_id();
        let file = VirtualFile::new(id.clone(), name, file_type, content);
        self.insert_file(file);
        Ok(id)
    }

    /// The file under `id`.
    pub fn read_file(&self, id: &str) -> (outcome: Result<&VirtualFile, String>)
        ensures
            match outcome {
                Ok(file) => file_of(self@, id@) == Some(file@),
                Err(message) => file_of(self@, id@) is None && message@ == file_not_found(),
            },
    {
        match self.find(id) {
            Some(index) => Ok(&self.files[index]),
            None => Err("File not found".to_string()),
        }
    }

    /// Gives the file under `id` new content, where there is any: `None`
    /// leaves the file as it is.
    pub fn update_file(&mut self, id: &str, new_content: Option<Vec<u8>>) -> (outcome: Result<
        (),
        String,
    >)
        ensures
            match outcome {
                Ok(_) => file_of(old(self)@, id@) matches Some(file) && final(self)@ == (
                match new_content {
                    Some(content) => with_file(old(self)@, with_content(file, content@)),
                    None => old(self)@,
                }),
                Err(message) => file_of(old(self)@, id@) is None && message@ == file_not_found()
                    && final(self)@ == old(self)@,
            },
            old(self).wf() ==> final(self).wf(),
    {
        let ghost before = self@;
        proof {
            lemma_first_index(file_ids(before), id@);
        }
        match self.find(id) {
            Some(index) => {
                assert(before[index as int].id == file_ids(before)[index as int]);
                if let Some(content) = new_content {
                    let size = content.len();
                    let checksum = VirtualFile::calculate_checksum(content.as_slice());
                    let file = &mut self.files[index];
                    file.size = size;
                    file.checksum = checksum;
                    file.content = Some(content);
                    assert(self@ =~= before.update(
                        index as int,
                        with_content(before[index as int], content@),
                    ));
                    assert(file_ids(self@) =~= file_ids(before));
                }
                Ok(())
            },
            None => Err("File not found".to_string()),
        }
    }

    /// Takes the file under `id` out of the store.
    pub fn delete_file(&mut self, id: &str) -> (outcome: Result<(), String>)
        ensures
            match outcome {
                Ok(_) => file_of(old(self)@, id@) is Some && final(self)@ == without_file(
                    old(self)@,
                    id@,
                ),
                Err(message) => file_of(old(self)@, id@) is None && message@ == file_not_found()
                    && final(self)@ == old(self)@,
            },
            old(self).wf() ==> final(self).wf(),
            old(self).wf() ==> file_of(final(self)@, id@) is None,
    {
        let ghost before = self@;
        proof {
            lemma_first_index(file_ids(before), id@);
        }
        match self.find(id) {
            Some(index) => {
                self.files.remove(index);
                proof {
                    assert(self@ =~= before.remove(index as int));
                    assert(file_ids(self@) =~= file_ids(before).remove(index as int));
                    if file_ids(before).no_duplicates() {
                        lemma_first_index(file_ids(self@), id@);
                        if first_index(file_ids(self@), id@) is Some {
                            let k = first_index(file_ids(self@), id@)->Some_0;
                            let earlier = if k < index {
                                k
                            } else {
                                k + 1
                            };
                            assert(file_ids(before)[earlier] == id@);
                            assert(file_ids(before)[index as int] == id@);
                            assert(false);
                        }
                    }
                }
                Ok(())
            },
            None => Err("File not found".to_string()),
        }
    }

    /// The files of the store, in the order in which they were created.
    pub fn list_files(&self) -> (files: Vec<&VirtualFile>)
        ensures
            files.len() == self@.len(),
            forall|i: int| 0 <= i < files.len() ==> (#[trigger] files[i])@ == self@[i],
    {
        let mut files: Vec<&VirtualFile> = Vec::new();
        let mut i: usize = 0;
        while i < self.files.len()
            invariant
                i <= self.files.len(),
                files.len() == i,
                forall|k: int| 0 <= k < i ==> (#[trigger] files[k])@ == self@[k],
            decreases self.files.len() - i,
        {
            files.push(&self.files[i]);
            i += 1;
        }
        files
    }

    /// A copy of the content of the file under `id`.
    pub fn get_file_content(&self, id: &str) -> (outcome: Result<Vec<u8>, String>)
        ensures
            match outcome {
                Ok(content) => file_of(self@, id@) matches Some(file) && file.content == Some(
                    content@,
                ),
                Err(message) => message@ == "File content not found"@ && (file_of(self@, id@)
                    matches Some(file) ==> file.content is None),
            },
    {
        match self.find(id) {
            Some(index) => match &self.files[index].content {
                Some(content) => Ok(content.clone()),
                None => Err("File content not found".to_string()),
            },
            None => Err("File content not found".to_string()),
        }
    }

    /// Sets `value` for `key` in the metadata of the file under `id`.
    pub fn set_file_metadata(&mut self, id: &str, key: String, value: String) -> (outcome: Result<
        (),
        String,
    >)
        ensures
            match outcome {
                Ok(_) => file_of(old(self)@, id@) matches Some(file) && final(self)@ == with_file(
                    old(self)@,
                    FileRecord { metadata: with_entry(file.metadata, key@, value@), ..file },
                ),
                Err(message) => file_of(old(self)@, id@) is None && message@ == file_not_found()
                    && final(self)@ == old(self)@,
            },
            old(self).wf() ==> final(self).wf(),
    {
        let ghost before = self@;
        proof {
            lemma_first_index(file_ids(before), id@);
        }
        match self.find(id) {
            Some(index) => {
                assert(before[index as int].id == file_ids(before)[index as int]);
                let file = &mut self.files[index];
                file.set_metadata(key, value);
                assert(self@ =~= before.update(
                    index as int,
                    FileRecord {
                        metadata: with_entry(before[index as int].metadata, key@, value@),
                        ..before[index as int]
                    },
                ));
                assert(file_ids(self@) =~= file_ids(before));
                Ok(())
            },
            None => Err("File not found".to_string()),
        }
    }

    /// A copy of the value of `key` in the metadata of the file under `id`.
    pub fn get_file_metadata(&self, id: &str, key: &str) -> (outcome: Result<String, String>)
        ensures
            match outcome {
                Ok(value) => file_of(self@, id@) matches Some(file) && value_of(
                    file.metadata,
                    key@,
                ) == Some(value@),
                Err(message) => message@ == "Metadata not found"@ && (file_of(self@, id@)
                    matches Some(file) ==> value_of(file.metadata, key@) is None),
            },
    {
        match self.find(id) {
            Some(index) => match self.files[index].get_metadata(key) {
                Some(value) => Ok(value.clone()),
                None => Err("Metadata not found".to_string()),
            },
            None => Err("Metadata not found".to_string()),
        }
    }
}

} // verus!
