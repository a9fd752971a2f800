//! What holds of the codec and the store as a whole, beyond the contract of
//! any one function.

use crate::cat_file::display::{object_in, stream_at};
use crate::codec::decimal::{all_digits, lemma_digits_free_of, parsed_number};
use crate::codec::header::{
    header_bytes, is_kind, lemma_header_reads_back, object_bytes, object_of, ObjectModel,
};
use crate::codec::records::{lemma_split_first, split_on};
use crate::codec::scan::{free_of, NUL, SPACE};
use crate::codec::tree::{
    canonical, entries_of, lemma_entries_extend, lemma_record_fits, lemma_record_front,
    lemma_record_of_built, record_bytes, record_of, tree_bytes, EntryModel, DIGEST_LEN,
};
use crate::compression::zlib::zlib_inflated;
use crate::error::ObjectError;
use crate::hash_object::content::{object_hash, written};
use crate::store::object_path;
use vstd::prelude::*;

verus! {

/// A tree body that was written from canonical entries reads back as the
/// same entries in the same order.
pub proof fn tree_reads_back(es: Seq<EntryModel>)
    requires
        forall|i: int| 0 <= i < es.len() ==> canonical(#[trigger] es[i]),
    ensures
        entries_of(tree_bytes(es)) == Ok::<Seq<EntryModel>, ObjectError>(es),
    decreases es.len(),
{
    if es.len() == 0 {
        assert(es =~= Seq::<EntryModel>::empty());
    } else {
        let first = record_bytes(es[0]);
        let rest = es.drop_first();
        assert(canonical(es[0]));
        lemma_record_of_built(es[0]);
        lemma_record_fits(first);
        assert(first.skip(first.len() as int) =~= Seq::<u8>::empty());
        assert(entries_of(first.skip(first.len() as int)) == Ok::<Seq<EntryModel>, ObjectError>(
            Seq::empty(),
        ));
        assert(seq![es[0]] + Seq::<EntryModel>::empty() =~= seq![es[0]]);
        assert(entries_of(first) == Ok::<Seq<EntryModel>, ObjectError>(seq![es[0]]));
        assert forall|i: int| 0 <= i < rest.len() implies canonical(#[trigger] rest[i]) by {
            assert(rest[i] == es[i + 1]);
        }
        tree_reads_back(rest);
        lemma_entries_extend(first, tree_bytes(rest));
        assert(seq![es[0]] + rest =~= es);
    }
}

/// A tree body that ends inside the digest of its last record is refused as
/// truncated: where the records before the last read without a fault, and the
/// last has its mode, its name and fewer than twenty bytes after the NUL,
/// the whole body reads as `TruncatedEntry`, and no entry comes out of it.
pub proof fn truncated_digest_is_refused(
    head: Seq<u8>,
    field: Seq<u8>,
    name: Seq<u8>,
    tail: Seq<u8>,
)
    requires
        entries_of(head) is Ok,
        parsed_number(field, u64::MAX as nat) is Some,
        free_of(name, NUL),
        tail.len() < DIGEST_LEN,
    ensures
        entries_of(head + (field + seq![SPACE] + name + seq![NUL] + tail)) == Err::<
            Seq<EntryModel>,
            ObjectError,
        >(ObjectError::TruncatedEntry),
{
    let last = field + seq![SPACE] + name + seq![NUL] + tail;
    assert(all_digits(field));
    lemma_digits_free_of(field, SPACE);
    lemma_record_front(field, name, tail);
    assert(record_of(last) == Err::<(EntryModel, int), ObjectError>(
        ObjectError::TruncatedEntry,
    ));
    assert(last.len() > 0);
    lemma_entries_extend(head, last);
}

/// The bytes of an object read back as the object: its kind, a declared
/// size that is the length of its content, and its content as the body.
pub proof fn object_reads_back(kind: Seq<char>, content: Seq<u8>)
    requires
        is_kind(kind),
        content.len() <= u64::MAX,
    ensures
        object_of(object_bytes(kind, content)) == Ok::<ObjectModel, ObjectError>(
            ObjectModel { kind, size: content.len(), body: content },
        ),
{
    let header = header_bytes(kind, content.len());
    lemma_header_reads_back(kind, content.len(), content);
    assert((header + content).skip(header.len() as int) =~= content);
}

/// What was written reads back: after a successful write of `content` as
/// kind `kind`, the reader of the returned hash finds an object of that kind
/// whose body is `content`. This holds of every kind that a header can
/// carry, and of a store in which the path of the hash was free or held this
/// object already; a write leaves whatever else was stored there as it was.
pub proof fn written_object_reads_back(
    before: Map<Seq<char>, Seq<u8>>,
    after: Map<Seq<char>, Seq<u8>>,
    kind: Seq<char>,
    content: Seq<u8>,
    hash: Seq<char>,
)
    requires
        is_kind(kind),
        content.len() <= u64::MAX,
        written(before, after, kind, content, hash),
        before.contains_key(object_path(hash)) ==> zlib_inflated(before[object_path(hash)])
            == Some(object_bytes(kind, content)),
    ensures
        object_in(stream_at(after, hash)) == Ok::<ObjectModel, ObjectError>(
            ObjectModel { kind, size: content.len(), body: content },
        ),
{
    object_reads_back(kind, content);
}

/// Writing the same content twice is writing it once: the second write
/// returns the hash that the first returned, and leaves the store, and with
/// it the stored stream of the object, exactly as the first left it.
pub proof fn second_write_changes_nothing(
    first: Map<Seq<char>, Seq<u8>>,
    second: Map<Seq<char>, Seq<u8>>,
    third: Map<Seq<char>, Seq<u8>>,
    kind: Seq<char>,
    content: Seq<u8>,
    hash: Seq<char>,
    again: Seq<char>,
)
    requires
        written(first, second, kind, content, hash),
        written(second, third, kind, content, again),
    ensures
        again == hash,
        third == second,
        third[object_path(hash)] == second[object_path(hash)],
{
}

/// Cut at each NUL, the bytes of an object give the header as their first
/// record and the records of the body after it: the first record of the body
/// is the second record of the object.
pub proof fn body_records_follow_the_header(bytes: Seq<u8>)
    requires
        object_of(bytes) is Ok,
    ensures
        split_on(bytes, NUL).len() >= 2,
        split_on(bytes, NUL)[1] == split_on(object_of(bytes).unwrap().body, NUL)[0],
{
    let body = object_of(bytes).unwrap().body;
    lemma_split_first(bytes, NUL);
    lemma_split_first(body, NUL);
}

} // verus!
