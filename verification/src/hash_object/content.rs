//! The writer: content becomes an object, the object gets its hash, and its
//! compressed stream goes into the store under the path of that hash.

use crate::codec::header::{object_bytes, serialize};
use crate::codec::hex;
use crate::codec::hex::{hex_text, is_hex_text, lemma_hex_text};
use crate::compression::zlib::{deflate, zlib_deflated, zlib_inflated};
use crate::error::ObjectError;
use crate::store::{object_path, path_for, ObjectStore};
use crypto::digest::Digest;
use crypto::sha1::Sha1;
use vstd::prelude::*;
use vstd::string::*;

verus! {

/// The SHA-1 digest of `data`.
pub uninterp spec fn sha1_digest(data: Seq<u8>) -> Seq<u8>;

/// `crypto::sha1::Sha1`: a new hasher is fed `data` with `input` and read
/// with `result` into a buffer of `output_bytes()` bytes. The contract names
/// what `result` writes as `sha1_digest`, and claims its length: the crate's
/// `output_bits` for SHA-1 is 160, which is twenty bytes.
#[verifier::external_body]
fn sha1(data: &[u8]) -> (digest: Vec<u8>)
    ensures
        digest@ == sha1_digest(data@),
        digest@.len() == 20,
{
    let mut hasher = Sha1::new();
    hasher.input(data);
    let mut out = vec![0u8; hasher.output_bytes()];
    hasher.result(&mut out);
    out
}

/// The hash of the object of kind `kind` with content `content`: the digest
/// of its header and content, in lowercase hexadecimal.
pub open spec fn object_hash(kind: Seq<char>, content: Seq<u8>) -> Seq<char> {
    hex_text(sha1_digest(object_bytes(kind, content)))
}

/// The hash of serialized object bytes.
fn hash_bytes(bytes: &[u8]) -> (hash: String)
    ensures
        hash@ == hex_text(sha1_digest(bytes@)),
        hash@.len() == 40,
        is_hex_text(hash@),
{
    let digest = sha1(bytes);
    proof {
        lemma_hex_text(digest@);
    }
    hex::encode(digest.as_slice())
}

/// Computes the hash under which `content` is stored as an object of kind
/// `object_type`. Nothing is read or written, and nothing can fail.
pub fn hash(object_type: &str, content: &[u8]) -> (hash: String)
    ensures
        hash@ == object_hash(object_type@, content@),
        hash@.len() == 40,
        is_hex_text(hash@),
{
    let bytes = serialize(object_type, content);
    hash_bytes(bytes.as_slice())
}

/// What a successful write of `content` as kind `kind` returns and makes of
/// a store. The hash is that of the object. A store that held an object at
/// the path of the hash is left as it was. Otherwise it has gained, at that
/// path and nowhere else, the stream that the object's header and content
/// deflate to, which inflates back to them.
pub open spec fn written(
    before: Map<Seq<char>, Seq<u8>>,
    after: Map<Seq<char>, Seq<u8>>,
    kind: Seq<char>,
    content: Seq<u8>,
    hash: Seq<char>,
) -> bool {
    let path = object_path(hash);
    &&& hash == object_hash(kind, content)
    &&& if before.contains_key(path) {
        after == before
    } else {
        &&& after.contains_key(path)
        &&& zlib_deflated(object_bytes(kind, content)) == Some(after[path])
        &&& zlib_inflated(after[path]) == Some(object_bytes(kind, content))
        &&& after == before.insert(path, after[path])
    }
}

/// Puts the outcome of deflating an object into the store, under the path of
/// `hash`. A stream is stored unless the store holds an object there
/// already; a fault of the encoder is handed on and leaves the store alone.
pub fn store_stream(
    store: &mut ObjectStore,
    hash: String,
    deflated: Result<Vec<u8>, ObjectError>,
) -> (r: Result<String, ObjectError>)
    requires
        old(store).wf(),
        hash@.len() >= 2,
    ensures
        final(store).wf(),
        match deflated {
            Ok(stream) => r == Ok::<String, ObjectError>(hash) && final(store)@ == (if old(
                store,
            )@.contains_key(object_path(hash@)) {
                old(store)@
            } else {
                old(store)@.insert(object_path(hash@), stream@)
            }),
            Err(e) => r == Err::<String, ObjectError>(e) && final(store)@ == old(store)@,
        },
{
    match deflated {
        Ok(stream) => {
            let path = path_for(hash.as_str());
            store.insert(path, stream);
            Ok(hash)
        },
        Err(e) => Err(e),
    }
}

/// Writes `content` into the store as an object of kind `object_type`, and
/// returns its hash. The kind that goes into the stored header is the one
/// given. Where the store holds an object at the path of the hash, nothing
/// is written and the hash is returned. Otherwise the object is deflated and
/// the stream is stored. The write succeeds exactly where the path is taken
/// or the encoder gives a stream; a fault of the encoder comes back as
/// `CompressionError` and leaves the store as it was.
pub fn write(store: &mut ObjectStore, object_type: &str, content: &[u8]) -> (r: Result<
    String,
    ObjectError,
>)
    requires
        old(store).wf(),
    ensures
        final(store).wf(),
        r is Ok <==> (old(store)@.contains_key(object_path(object_hash(object_type@, content@)))
            || zlib_deflated(object_bytes(object_type@, content@)) is Some),
        match r {
            Ok(hash) => hash@.len() == 40 && written(
                old(store)@,
                final(store)@,
                object_type@,
                content@,
                hash@,
            ),
            Err(e) => e == ObjectError::CompressionError && final(store)@ == old(store)@
                && !old(store)@.contains_key(object_path(object_hash(object_type@, content@)))
                && zlib_deflated(object_bytes(object_type@, content@)) is None,
        },
{
    let bytes = serialize(object_type, content);
    let hash = hash_bytes(bytes.as_slice());
    let path = path_for(hash.as_str());
    if store.contains(path.as_str()) {
        return Ok(hash);
    }
    let deflated = deflate(bytes.as_slice());
    let r = store_stream(store, hash, deflated);
    proof {
        if r is Ok {
            let path = object_path(object_hash(object_type@, content@));
            assert(final(store)@[path] == deflated->Ok_0@);
        }
    }
    r
}

} // verus!
