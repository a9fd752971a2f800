use git_rs::cat_file::display::{contents, size, types, Content, StoredObject};
use git_rs::compression::zlib::{compress, decompress, deflate, deflated, inflate};
use git_rs::error::ObjectError;
use git_rs::hash_object::content::{hash, store_stream};
use git_rs::store::ObjectStore;
use std::io::{Error, ErrorKind};

const HOGE_HASH: &str = "c2684e0321eedff1890b7690c89726387d2af3ca";
const HOGE_PATH: &str = ".git/objects/c2/684e0321eedff1890b7690c89726387d2af3ca";

#[test]
fn test_hash() {
    let hash = hash("blob", b"hoge");
    assert_eq!(hash, "c2684e0321eedff1890b7690c89726387d2af3ca");
}

#[test]
fn test_write_cat_file() {
    let mut store = ObjectStore::new();
    git_rs::hash_object::content::write(&mut store, "blob", b"hoge").unwrap();
    let cat_file = contents(&store, "c2684e0321eedff1890b7690c89726387d2af3ca").unwrap();
    assert_eq!(cat_file, vec![b"hoge".to_vec()]);
    assert!(store.contains(".git/objects/c2/684e0321eedff1890b7690c89726387d2af3ca"));
}

#[test]
fn hash_is_the_digest_of_header_and_content() {
    assert_eq!(hash("blob", b""), "e69de29bb2d1d6434b8b29ae775ad8c2e48c5391");
    assert_eq!(hash("blob", b"hello"), "b6fc4c620b67d95f953a5c1c1230aaab5db5a1b0");
    assert_eq!(hash("commit", b"hello"), "34f5fae8d15abafca1ab4a596faab46b4583d8db");
}

#[test]
fn hash_is_forty_lowercase_hex_characters() {
    let hash = hash("blob", &[0u8, 255, 10, 13]);
    assert_eq!(hash.len(), 40);
    assert!(hash.bytes().all(|b| b.is_ascii_digit() || (b'a'..=b'f').contains(&b)));
}

#[test]
fn write_stores_a_stream_that_inflates_to_header_and_content() {
    let mut store = ObjectStore::new();
    let hash = git_rs::hash_object::content::write(&mut store, "blob", b"hoge").unwrap();
    assert_eq!(hash, HOGE_HASH);
    let stream = store.get(HOGE_PATH).unwrap();
    assert_eq!(inflate(stream).unwrap(), b"blob 4\0hoge".to_vec());
}

#[test]
fn write_then_read_gives_kind_and_body_back() {
    for kind in ["blob", "commit", "tree", "tag"] {
        for content in [&b""[..], &b"hoge"[..], &b"a\0b\0"[..], &[0u8, 255, 254, 32, 0][..]] {
            let mut store = ObjectStore::new();
            let hash = git_rs::hash_object::content::write(&mut store, kind, content).unwrap();
            let mut reader = Content::new(&hash);
            assert_eq!(reader.object_type(&store).unwrap(), kind);
            assert_eq!(reader.size(&store).unwrap(), content.len());
            assert_eq!(reader.body(&store).unwrap(), content.to_vec());
            assert_eq!(
                reader.object(&store),
                Ok(StoredObject {
                    hash: hash.clone(),
                    kind: kind.to_string(),
                    size: content.len(),
                    body: content.to_vec(),
                })
            );
        }
    }
}

#[test]
fn write_puts_the_given_kind_into_the_header() {
    let mut store = ObjectStore::new();
    let hash = git_rs::hash_object::content::write(&mut store, "commit", b"hello").unwrap();
    assert_eq!(hash, "34f5fae8d15abafca1ab4a596faab46b4583d8db");
    let mut reader = Content::new(&hash);
    assert_eq!(reader.decode(&store).unwrap(), b"commit 5\0hello".to_vec());
    assert_eq!(types(&store, &hash).unwrap(), "commit object");
}

#[test]
fn write_twice_is_write_once() {
    let mut store = ObjectStore::new();
    let first = git_rs::hash_object::content::write(&mut store, "blob", b"hoge").unwrap();
    let stored = store.get(HOGE_PATH).unwrap().clone();
    let second = git_rs::hash_object::content::write(&mut store, "blob", b"hoge").unwrap();
    assert_eq!(first, second);
    assert_eq!(store.get(HOGE_PATH), Some(&stored));
}

#[test]
fn write_leaves_what_is_stored_at_the_path() {
    let mut store = ObjectStore::new();
    assert!(store.insert(HOGE_PATH.to_string(), vec![1, 2, 3]));
    let hash = git_rs::hash_object::content::write(&mut store, "blob", b"hoge").unwrap();
    assert_eq!(hash, HOGE_HASH);
    assert_eq!(store.get(HOGE_PATH), Some(&vec![1, 2, 3]));
}

#[test]
fn store_then_show_type_and_size() {
    let mut store = ObjectStore::new();
    let hash = git_rs::hash_object::content::write(&mut store, "blob", b"hello").unwrap();
    assert_eq!(types(&store, &hash).unwrap(), "blob object");
    assert_eq!(size(&store, &hash).unwrap(), "5");
}

#[test]
fn store_stream_hands_on_a_fault_of_the_encoder() {
    let mut store = ObjectStore::new();
    let outcome = deflated(Err(Error::new(ErrorKind::Other, "encoder")));
    assert_eq!(outcome, Err(ObjectError::CompressionError));
    assert_eq!(
        store_stream(&mut store, HOGE_HASH.to_string(), outcome),
        Err(ObjectError::CompressionError)
    );
    assert!(!store.contains(HOGE_PATH));
}

#[test]
fn store_stream_stores_unless_the_path_is_taken() {
    let mut store = ObjectStore::new();
    assert_eq!(
        store_stream(&mut store, HOGE_HASH.to_string(), Ok(vec![7, 8])),
        Ok(HOGE_HASH.to_string())
    );
    assert_eq!(store.get(HOGE_PATH), Some(&vec![7, 8]));
    assert_eq!(
        store_stream(&mut store, HOGE_HASH.to_string(), Ok(vec![9])),
        Ok(HOGE_HASH.to_string())
    );
    assert_eq!(store.get(HOGE_PATH), Some(&vec![7, 8]));
    assert_eq!(deflated(Ok(vec![1, 2])), Ok(vec![1, 2]));
}

#[test]
fn decompress_inflates_a_known_stream() {
    let stream = [120u8, 1, 75, 202, 201, 79, 82, 48, 97, 200, 200, 79, 79, 5, 0, 21, 168, 3, 151];
    let mut buffer = b"kept".to_vec();
    decompress(&stream, &mut buffer).unwrap();
    assert_eq!(buffer, b"keptblob 4\0hoge".to_vec());
    assert_eq!(inflate(&stream).unwrap(), b"blob 4\0hoge".to_vec());
}

#[test]
fn decompress_reports_a_malformed_stream() {
    let mut buffer = b"kept".to_vec();
    assert!(decompress(b"hoge", &mut buffer).is_err());
    assert!(buffer.starts_with(b"kept"));
    assert_eq!(inflate(b"hoge"), Err(ObjectError::DecodeError));
    assert_eq!(inflate(b""), Err(ObjectError::DecodeError));
}

#[test]
fn compress_gives_the_same_stream_for_the_same_data() {
    for data in [&b""[..], &b"hoge"[..], &b"blob 4\0hoge"[..], &[0u8; 4096][..]] {
        assert_eq!(compress(data).unwrap(), compress(data).unwrap());
        assert_eq!(deflate(data), Ok(compress(data).unwrap()));
    }
}

fn hash_of_commit_hoge() -> String {
    hash("commit", b"hoge")
}

#[test]
fn write_stores_what_deflate_gives() {
    let mut store = ObjectStore::new();
    let hash = git_rs::hash_object::content::write(&mut store, "commit", b"hoge").unwrap();
    assert_eq!(hash, hash_of_commit_hoge());
    let stored = store.get(&git_rs::store::path_for(&hash)).unwrap();
    assert_eq!(stored, &compress(b"commit 4\0hoge").unwrap());
    assert_eq!(inflate(stored).unwrap(), b"commit 4\0hoge".to_vec());
}

#[test]
fn compress_writes_a_zlib_stream_of_the_data() {
    let data = b"blob 4\0hoge";
    let stream = compress(data).unwrap();
    assert_ne!(stream, data.to_vec());
    assert_eq!(stream[0], 0x78);
    assert_eq!(inflate(&stream).unwrap(), data.to_vec());
    let stream = deflate(b"").unwrap();
    assert!(!stream.is_empty());
    assert_eq!(inflate(&stream).unwrap(), Vec::<u8>::new());
}
