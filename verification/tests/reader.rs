use git_rs::cat_file::display::{contents, size, types, Content, Stage};
use git_rs::codec::tree::{EntryKind, TreeEntry};
use git_rs::compression::zlib::compress;
use git_rs::error::ObjectError;
use git_rs::store::{locate, path_for, ObjectStore};
use rand::Rng;

const HOGE_HASH: &str = "c2684e0321eedff1890b7690c89726387d2af3ca";
const HOGE_PATH: &str = ".git/objects/c2/684e0321eedff1890b7690c89726387d2af3ca";
const EMPTY_HASH: &str = "e69de29bb2d1d6434b8b29ae775ad8c2e48c5391";

/// Twenty random bytes, written into a fresh store as a blob.
fn hash_helper(store: &mut ObjectStore) -> String {
    let mut content = [0u8; 20];
    rand::thread_rng().fill(&mut content[..]);
    git_rs::hash_object::content::write(store, "blob", &content).unwrap()
}

/// A store that holds `object`, deflated, under the path of `hash`.
fn store_with(hash: &str, object: &[u8]) -> ObjectStore {
    let mut store = ObjectStore::new();
    assert!(store.insert(path_for(hash), compress(object).unwrap()));
    store
}

fn tree_body() -> Vec<u8> {
    vec![
        49, 48, 48, 54, 52, 52, 32, 97, 46, 116, 120, 116, 0, 194, 104, 78, 3, 33, 238, 223, 241,
        137, 11, 118, 144, 200, 151, 38, 56, 125, 42, 243, 202, 52, 48, 48, 48, 48, 32, 100, 105,
        114, 0, 230, 157, 226, 155, 178, 209, 214, 67, 75, 139, 41, 174, 119, 90, 216, 194, 228,
        140, 83, 145,
    ]
}

#[test]
fn test_contents_constructor() {
    let contents = Content::new("test-hash");
    assert_eq!(contents.hash(), "test-hash");
}

#[test]
fn test_path_exists() {
    let mut store = ObjectStore::new();
    let hash = hash_helper(&mut store);
    let contents = Content::new(&hash);
    let got = contents.path(&store).unwrap();
    let (dir, filename) = hash.split_at(2);
    assert_eq!(got, format!(".git/objects/{}/{}", dir, filename));
}

#[test]
#[should_panic]
fn test_check_path_does_not_exists() {
    let store = ObjectStore::new();
    let contents = Content::new("hogefuga");
    let _ = contents.path(&store).unwrap();
}

#[test]
fn test_decode_blob() {
    let mut store = ObjectStore::new();
    let hash = hash_helper(&mut store);
    let mut contents = Content::new(&hash);
    let decoded = contents.decode(&store).unwrap();
    assert!(!decoded.is_empty());
}

#[test]
fn test_types_blob() {
    let mut store = ObjectStore::new();
    let hash = hash_helper(&mut store);
    let mut contents = Content::new(&hash);
    let types = contents.object_type(&store).unwrap();
    assert_eq!(types, "blob");
}

#[test]
fn test_size() {
    let mut store = ObjectStore::new();
    let hash = hash_helper(&mut store);
    let mut contents = Content::new(&hash);
    let got = contents.size(&store).unwrap();
    assert_eq!(got, 20);
}

#[test]
fn path_is_root_prefix_and_rest() {
    assert_eq!(path_for(HOGE_HASH), HOGE_PATH);
    assert_eq!(path_for("ab"), ".git/objects/ab/");
    assert_eq!(path_for("abc"), ".git/objects/ab/c");
}

#[test]
fn locate_fails_exactly_where_nothing_is_stored() {
    let mut store = ObjectStore::new();
    assert_eq!(locate(&store, HOGE_HASH), Err(ObjectError::NotFound));
    assert!(store.insert(HOGE_PATH.to_string(), vec![1, 2, 3]));
    assert_eq!(locate(&store, HOGE_HASH), Ok(HOGE_PATH.to_string()));
    assert_eq!(locate(&store, EMPTY_HASH), Err(ObjectError::NotFound));
}

#[test]
fn store_never_writes_over_an_object() {
    let mut store = ObjectStore::new();
    assert!(!store.contains("a/b"));
    assert_eq!(store.get("a/b"), None);
    assert!(store.insert("a/b".to_string(), vec![1]));
    assert!(!store.insert("a/b".to_string(), vec![2]));
    assert!(store.contains("a/b"));
    assert_eq!(store.get("a/b"), Some(&vec![1]));
    assert!(store.insert("a/c".to_string(), vec![3]));
    assert_eq!(store.get("a/c"), Some(&vec![3]));
    assert_eq!(store.get("a/b"), Some(&vec![1]));
}

#[test]
fn reader_decodes_header_and_body() {
    let store = store_with(HOGE_HASH, b"blob 4\0hoge");
    let mut reader = Content::new(HOGE_HASH);
    assert_eq!(reader.decode(&store).unwrap(), b"blob 4\0hoge".to_vec());
    assert_eq!(reader.object_type(&store).unwrap(), "blob");
    assert_eq!(reader.size(&store).unwrap(), 4);
    assert_eq!(reader.body(&store).unwrap(), b"hoge".to_vec());
    assert_eq!(reader.data(&store).unwrap(), vec![b"hoge".to_vec()]);
}

#[test]
fn reader_moves_through_its_stages_once() {
    let store = store_with(HOGE_HASH, b"blob 4\0hoge");
    let mut reader = Content::new(HOGE_HASH);
    assert_eq!(reader.stage(), Stage::Unread);
    reader.decode(&store).unwrap();
    assert_eq!(reader.stage(), Stage::Decompressed);
    reader.size(&store).unwrap();
    assert_eq!(reader.stage(), Stage::HeaderParsed);
    reader.decode(&store).unwrap();
    assert_eq!(reader.stage(), Stage::HeaderParsed);
    reader.data(&store).unwrap();
    assert_eq!(reader.stage(), Stage::BlobCommitParsed);
    assert_eq!(reader.list(&store), Err(ObjectError::InvalidType));
    assert_eq!(reader.stage(), Stage::BlobCommitParsed);
    // What the reader has taken it keeps: an empty store is not asked again.
    let empty = ObjectStore::new();
    assert_eq!(reader.object_type(&empty).unwrap(), "blob");
    assert_eq!(reader.data(&empty).unwrap(), vec![b"hoge".to_vec()]);
}

#[test]
fn reader_of_a_missing_object_stays_unread() {
    let store = ObjectStore::new();
    let mut reader = Content::new(HOGE_HASH);
    assert_eq!(reader.decode(&store), Err(ObjectError::NotFound));
    assert_eq!(reader.object_type(&store), Err(ObjectError::NotFound));
    assert_eq!(reader.size(&store), Err(ObjectError::NotFound));
    assert_eq!(reader.body(&store), Err(ObjectError::NotFound));
    assert_eq!(reader.data(&store), Err(ObjectError::NotFound));
    assert_eq!(reader.list(&store), Err(ObjectError::NotFound));
    assert_eq!(reader.stage(), Stage::Unread);
}

#[test]
fn reader_reports_a_stream_that_does_not_inflate() {
    let mut store = ObjectStore::new();
    assert!(store.insert(HOGE_PATH.to_string(), b"not a zlib stream".to_vec()));
    let mut reader = Content::new(HOGE_HASH);
    assert_eq!(reader.decode(&store), Err(ObjectError::DecodeError));
    assert_eq!(reader.stage(), Stage::RawLoaded);
    assert_eq!(reader.object_type(&store), Err(ObjectError::DecodeError));
    assert_eq!(types(&store, HOGE_HASH), Err(ObjectError::DecodeError));
}

#[test]
fn reader_reports_a_malformed_header() {
    for object in [
        &b"blob 4 hoge"[..],
        &b"blob4\0hoge"[..],
        &b"blob four\0hoge"[..],
        &b" 4\0hoge"[..],
        &b"blob \0hoge"[..],
        &b"blob 4 \0hoge"[..],
        &b"blob +4\0hoge"[..],
        &b"\xff\xfe 4\0hoge"[..],
        &b"blob 99999999999999999999999\0hoge"[..],
        &b""[..],
    ] {
        let store = store_with(HOGE_HASH, object);
        let mut reader = Content::new(HOGE_HASH);
        assert_eq!(reader.object_type(&store), Err(ObjectError::FormatError));
        assert_eq!(reader.size(&store), Err(ObjectError::FormatError));
        assert_eq!(reader.stage(), Stage::Decompressed);
    }
}

#[test]
fn reader_reports_a_size_that_is_not_the_length_of_the_body() {
    for object in [&b"blob 5\0hoge"[..], &b"blob 3\0hoge"[..], &b"blob 0\0hoge"[..]] {
        let store = store_with(HOGE_HASH, object);
        let mut reader = Content::new(HOGE_HASH);
        assert_eq!(reader.object_type(&store), Err(ObjectError::CorruptObject));
        assert_eq!(reader.size(&store), Err(ObjectError::CorruptObject));
        assert_eq!(reader.body(&store), Err(ObjectError::CorruptObject));
        assert_eq!(size(&store, HOGE_HASH), Err(ObjectError::CorruptObject));
        assert_eq!(contents(&store, HOGE_HASH), Err(ObjectError::CorruptObject));
    }
}

#[test]
fn records_are_cut_at_each_nul_and_kept_as_bytes() {
    let store = store_with(HOGE_HASH, b"commit 8\0ab\0\0\xff\xfec\0");
    let mut reader = Content::new(HOGE_HASH);
    assert_eq!(
        reader.data(&store).unwrap(),
        vec![b"ab".to_vec(), b"".to_vec(), b"\xff\xfec".to_vec(), b"".to_vec()]
    );
    let store = store_with(EMPTY_HASH, b"blob 0\0");
    let mut reader = Content::new(EMPTY_HASH);
    assert_eq!(reader.data(&store).unwrap(), vec![Vec::<u8>::new()]);
}

#[test]
fn records_are_for_blobs_and_commits_only() {
    let mut object = b"tree 63\0".to_vec();
    object.extend(tree_body());
    let store = store_with(HOGE_HASH, &object);
    let mut reader = Content::new(HOGE_HASH);
    assert_eq!(reader.data(&store), Err(ObjectError::InvalidType));
    assert_eq!(reader.stage(), Stage::HeaderParsed);
    let store = store_with(HOGE_HASH, b"tag 3\0abc");
    let mut reader = Content::new(HOGE_HASH);
    assert_eq!(reader.object_type(&store).unwrap(), "tag");
    assert_eq!(reader.data(&store), Err(ObjectError::InvalidType));
    assert_eq!(reader.list(&store), Err(ObjectError::InvalidType));
}

#[test]
fn list_reads_the_entries_of_a_tree() {
    let mut object = b"tree 63\0".to_vec();
    object.extend(tree_body());
    let store = store_with(HOGE_HASH, &object);
    let mut reader = Content::new(HOGE_HASH);
    let entries = reader.list(&store).unwrap();
    assert_eq!(
        entries,
        vec![
            TreeEntry {
                mode: 100644,
                name: b"a.txt".to_vec(),
                kind: EntryKind::RegularFile,
                hash: HOGE_HASH.to_string(),
            },
            TreeEntry {
                mode: 40000,
                name: b"dir".to_vec(),
                kind: EntryKind::Directory,
                hash: EMPTY_HASH.to_string(),
            },
        ]
    );
    assert_eq!(reader.stage(), Stage::TreeParsed);
    assert_eq!(reader.list(&ObjectStore::new()).unwrap(), entries);
}

#[test]
fn list_gives_nothing_of_a_tree_that_ends_early() {
    let mut body = tree_body();
    body.truncate(62);
    let mut object = b"tree 62\0".to_vec();
    object.extend(body);
    let store = store_with(HOGE_HASH, &object);
    let mut reader = Content::new(HOGE_HASH);
    assert_eq!(reader.list(&store), Err(ObjectError::TruncatedEntry));
    assert_eq!(reader.stage(), Stage::HeaderParsed);
    assert_eq!(contents(&store, HOGE_HASH), Err(ObjectError::TruncatedEntry));
}

#[test]
fn contents_prints_the_record_after_the_header() {
    let store = store_with(HOGE_HASH, b"blob 4\0hoge");
    assert_eq!(contents(&store, HOGE_HASH).unwrap(), vec![b"hoge".to_vec()]);
    let store = store_with(HOGE_HASH, b"commit 7\0one\0two");
    assert_eq!(contents(&store, HOGE_HASH).unwrap(), vec![b"one".to_vec()]);
    let store = store_with(HOGE_HASH, b"blob 0\0");
    assert_eq!(contents(&store, HOGE_HASH).unwrap(), vec![Vec::<u8>::new()]);
}

#[test]
fn contents_lists_a_tree_line_by_line() {
    let mut object = b"tree 63\0".to_vec();
    object.extend(tree_body());
    let store = store_with(HOGE_HASH, &object);
    assert_eq!(
        contents(&store, HOGE_HASH).unwrap(),
        vec![
            format!("100644 blob {}\ta.txt", HOGE_HASH).into_bytes(),
            format!("040000 tree {}\tdir", EMPTY_HASH).into_bytes(),
        ]
    );
}

#[test]
fn contents_refuses_a_kind_that_it_does_not_know() {
    let store = store_with(HOGE_HASH, b"tag 3\0abc");
    assert_eq!(contents(&store, HOGE_HASH), Err(ObjectError::InvalidType));
    assert_eq!(types(&store, HOGE_HASH).unwrap(), "tag object");
    assert_eq!(size(&store, HOGE_HASH).unwrap(), "3");
}

#[test]
fn commands_report_a_missing_object() {
    let store = ObjectStore::new();
    assert_eq!(contents(&store, HOGE_HASH), Err(ObjectError::NotFound));
    assert_eq!(types(&store, HOGE_HASH), Err(ObjectError::NotFound));
    assert_eq!(size(&store, HOGE_HASH), Err(ObjectError::NotFound));
}
