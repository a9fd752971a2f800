//! The reader of one object, which remembers each step of its way from the
//! stored stream to the parsed body, and what the commands print of it.

use crate::codec::decimal::{
    decimal_digits, lemma_digits_of, padded_digits, render_decimal, render_padded,
};
use crate::codec::header::{
    header_of, object_of, parse_object, HeaderModel, ObjectHeader, ObjectModel,
};
use crate::codec::records::{copy_pieces, lemma_split_first, split, split_on, views_of};
use crate::codec::scan::{append_bytes, NUL, SPACE};
use crate::codec::tree::{copy_entries, entries_of, parse_entries, EntryModel, TreeEntry};
use crate::compression::zlib::{inflate, zlib_inflated};
use crate::error::ObjectError;
use crate::store::{locate, object_path, path_for, ObjectStore};
use crate::text::{ascii_chars, ascii_text, same_text};
use vstd::prelude::*;
use vstd::slice::{slice_subrange, slice_to_vec};
use vstd::string::*;
use vstd::utf8::encode_utf8;

verus! {

/// How far a reader has come with its object.
#[derive(Debug, Clone, Copy, PartialEq, Eq, Structural)]
pub enum Stage {
    /// Nothing has been read.
    Unread,
    /// The stored stream has been taken from the store.
    RawLoaded,
    /// The stream has been inflated.
    Decompressed,
    /// The header has been read and the declared size holds.
    HeaderParsed,
    /// The body of a blob or a commit has been cut into its records.
    BlobCommitParsed,
    /// The body of a tree has been read into its entries.
    TreeParsed,
}

impl Stage {
    /// The place of a stage on the way; the two kinds of parsed body share the last.
    pub open spec fn rank(self) -> nat {
        match self {
            Stage::Unread => 0,
            Stage::RawLoaded => 1,
            Stage::Decompressed => 2,
            Stage::HeaderParsed => 3,
            Stage::BlobCommitParsed => 4,
            Stage::TreeParsed => 4,
        }
    }
}

/// The stage that is further along; the first, where neither is.
pub open spec fn later(a: Stage, b: Stage) -> Stage {
    if a.rank() >= b.rank() {
        a
    } else {
        b
    }
}

/// The kind of a tree.
pub open spec fn is_tree(kind: Seq<char>) -> bool {
    kind == "tree"@
}

/// The kinds whose body is cut into records: blob and commit.
pub open spec fn is_text_kind(kind: Seq<char>) -> bool {
    kind == "blob"@ || kind == "commit"@
}

/// A tree is neither a blob nor a commit.
pub proof fn lemma_kinds_differ(kind: Seq<char>)
    ensures
        !(is_tree(kind) && is_text_kind(kind)),
{
    reveal_strlit("tree");
    reveal_strlit("blob");
    reveal_strlit("commit");
    if is_tree(kind) {
        assert(kind.len() == 4);
        assert(kind[0] == 't');
    }
}

/// The stream that the store holds for `hash`, or `NotFound`.
pub open spec fn stream_at(store: Map<Seq<char>, Seq<u8>>, hash: Seq<char>) -> Result<
    Seq<u8>,
    ObjectError,
> {
    if store.contains_key(object_path(hash)) {
        Ok(store[object_path(hash)])
    } else {
        Err(ObjectError::NotFound)
    }
}

/// The inflated bytes of a stream, or the fault on the way to them: that of
/// getting the stream, or `DecodeError`.
pub open spec fn decoded_in(src: Result<Seq<u8>, ObjectError>) -> Result<Seq<u8>, ObjectError> {
    match src {
        Err(e) => Err(e),
        Ok(stream) => match zlib_inflated(stream) {
            Some(bytes) => Ok(bytes),
            None => Err(ObjectError::DecodeError),
        },
    }
}

/// The object in a stream, or the first fault on the way to it.
pub open spec fn object_in(src: Result<Seq<u8>, ObjectError>) -> Result<ObjectModel, ObjectError> {
    match decoded_in(src) {
        Err(e) => Err(e),
        Ok(bytes) => object_of(bytes),
    }
}

/// The records of the blob or commit in a stream: its body cut at each NUL.
/// An object of another kind is an `InvalidType`.
pub open spec fn records_in(src: Result<Seq<u8>, ObjectError>) -> Result<
    Seq<Seq<u8>>,
    ObjectError,
> {
    match object_in(src) {
        Err(e) => Err(e),
        Ok(object) => if is_text_kind(object.kind) {
            Ok(split_on(object.body, NUL))
        } else {
            Err(ObjectError::InvalidType)
        },
    }
}

/// The entries of the tree in a stream. An object that is no tree is an
/// `InvalidType`.
pub open spec fn entries_in(src: Result<Seq<u8>, ObjectError>) -> Result<
    Seq<EntryModel>,
    ObjectError,
> {
    match object_in(src) {
        Err(e) => Err(e),
        Ok(object) => if is_tree(object.kind) {
            entries_of(object.body)
        } else {
            Err(ObjectError::InvalidType)
        },
    }
}

/// How far a reader that starts from nothing comes on its way to `goal`:
/// as far as the first step that fails, and no further than `goal`.
pub open spec fn furthest(src: Result<Seq<u8>, ObjectError>, goal: Stage) -> Stage {
    if src is Err || goal.rank() == 0 {
        Stage::Unread
    } else if goal.rank() == 1 || decoded_in(src) is Err {
        Stage::RawLoaded
    } else if goal.rank() == 2 || object_in(src) is Err {
        Stage::Decompressed
    } else if goal == Stage::BlobCommitParsed && records_in(src) is Ok {
        Stage::BlobCommitParsed
    } else if goal == Stage::TreeParsed && entries_in(src) is Ok {
        Stage::TreeParsed
    } else {
        Stage::HeaderParsed
    }
}

/// An object as it was read: its hash, its kind, the size that its header
/// declares, which is the length of its body, and the body.
#[derive(Debug, Clone, PartialEq, Eq)]
pub struct StoredObject {
    pub hash: String,
    pub kind: String,
    pub size: usize,
    pub body: Vec<u8>,
}

impl View for StoredObject {
    type V = ObjectModel;

    open spec fn view(&self) -> ObjectModel {
        ObjectModel { kind: self.kind@, size: self.size as nat, body: self.body@ }
    }
}

/// The reader of the object with one hash. It takes each step once and keeps
/// what the step gave: the stored stream, the inflated bytes, the header, and
/// the records or entries of the body.
pub struct Content {
    hash: String,
    raw: Option<Vec<u8>>,
    decoded: Option<Vec<u8>>,
    header: Option<ObjectHeader>,
    records: Option<Vec<Vec<u8>>>,
    entries: Option<Vec<TreeEntry>>,
}

impl Content {
    /// The hash of the object that this reader reads.
    pub closed spec fn hash_view(&self) -> Seq<char> {
        self.hash@
    }

    /// The stored stream, once the reader has taken it from the store.
    pub closed spec fn raw_view(&self) -> Option<Seq<u8>> {
        match self.raw {
            Some(raw) => Some(raw@),
            None => None,
        }
    }

    /// How far the reader has come.
    pub closed spec fn spec_stage(&self) -> Stage {
        if self.entries is Some {
            Stage::TreeParsed
        } else if self.records is Some {
            Stage::BlobCommitParsed
        } else if self.header is Some {
            Stage::HeaderParsed
        } else if self.decoded is Some {
            Stage::Decompressed
        } else if self.raw is Some {
            Stage::RawLoaded
        } else {
            Stage::Unread
        }
    }

    /// What the reader keeps is what its steps give: the bytes are those
    /// that the stream inflates to, the header is theirs and declares the
    /// length of the body, and the records or entries are those of the body.
    /// No step is kept without the one before it.
    pub closed spec fn wf(&self) -> bool {
        match (self.raw, self.decoded, self.header) {
            (Some(raw), Some(bytes), Some(header)) => {
                &&& zlib_inflated(raw@) == Some(bytes@)
                &&& header_of(bytes@) == Ok::<HeaderModel, ObjectError>(header@)
                &&& header.body_offset + header.size == bytes@.len()
                &&& self.records matches Some(records) ==> is_text_kind(header.kind@) && views_of(
                    records@,
                ) == split_on(bytes@.skip(header.body_offset as int), NUL)
                &&& self.entries matches Some(entries) ==> is_tree(header.kind@) && entries_of(
                    bytes@.skip(header.body_offset as int),
                ) == Ok::<Seq<EntryModel>, ObjectError>(entries.deep_view())
            },
            (Some(raw), Some(bytes), None) => {
                &&& zlib_inflated(raw@) == Some(bytes@)
                &&& self.records is None
                &&& self.entries is None
            },
            (Some(_), None, None) => self.records is None && self.entries is None,
            (None, None, None) => self.records is None && self.entries is None,
            _ => false,
        }
    }

    /// The stream that the reader reads: the one it has taken, or else the
    /// one that the store holds for its hash.
    pub open spec fn source(&self, store: Map<Seq<char>, Seq<u8>>) -> Result<
        Seq<u8>,
        ObjectError,
    > {
        match self.raw_view() {
            Some(stream) => Ok(stream),
            None => stream_at(store, self.hash_view()),
        }
    }

    /// What a call that heads for `goal` makes of the reader: the hash
    /// stays, the stream is kept once it was found, and the stage is the
    /// further of the one before and the one that the call reached.
    pub open spec fn advanced(
        &self,
        before: &Content,
        store: Map<Seq<char>, Seq<u8>>,
        goal: Stage,
    ) -> bool {
        &&& self.wf()
        &&& self.hash_view() == before.hash_view()
        &&& self.raw_view() == match before.source(store) {
            Ok(stream) => Some(stream),
            Err(_) => None,
        }
        &&& self.spec_stage() == later(before.spec_stage(), furthest(before.source(store), goal))
    }

    /// A reader for the object with hash `hash`, which has read nothing yet.
    pub fn new(hash: &str) -> (content: Content)
        ensures
            content.wf(),
            content.hash_view() == hash@,
            content.raw_view() is None,
            content.spec_stage() == Stage::Unread,
    {
        Content {
            hash: hash.to_owned(),
            raw: None,
            decoded: None,
            header: None,
            records: None,
            entries: None,
        }
    }

    /// The hash of the object that this reader reads.
    pub fn hash(&self) -> (hash: &str)
        ensures
            hash@ == self.hash_view(),
    {
        self.hash.as_str()
    }

    /// How far the reader has come.
    #[verifier::when_used_as_spec(spec_stage)]
    pub fn stage(&self) -> (stage: Stage)
        ensures
            stage == self.spec_stage(),
    {
        if self.entries.is_some() {
            Stage::TreeParsed
        } else if self.records.is_some() {
            Stage::BlobCommitParsed
        } else if self.header.is_some() {
            Stage::HeaderParsed
        } else if self.decoded.is_some() {
            Stage::Decompressed
        } else if self.raw.is_some() {
            Stage::RawLoaded
        } else {
            Stage::Unread
        }
    }

    /// The path of the object in the store, or `NotFound` where the store
    /// holds no object there.
    pub fn path(&self, store: &ObjectStore) -> (r: Result<String, ObjectError>)
        requires
            store.wf(),
            self.hash_view().len() >= 2,
        ensures
            match r {
                Ok(path) => path@ == object_path(self.hash_view()) && store@.contains_key(path@),
                Err(e) => e == ObjectError::NotFound && !store@.contains_key(
                    object_path(self.hash_view()),
                ),
            },
    {
        locate(store, self.hash.as_str())
    }

    /// Takes the stored stream from the store, unless the reader has it.
    fn ensure_raw(&mut self, store: &ObjectStore) -> (r: Result<(), ObjectError>)
        requires
            old(self).wf(),
            store.wf(),
            old(self).hash_view().len() >= 2,
        ensures
            final(self).advanced(old(self), store@, Stage::RawLoaded),
            match r {
                Ok(_) => old(self).source(store@) is Ok && final(self).raw is Some,
                Err(e) => old(self).source(store@) == Err::<Seq<u8>, ObjectError>(e),
            },
    {
        if self.raw.is_some() {
            return Ok(());
        }
        let path = path_for(self.hash.as_str());
        match store.get(path.as_str()) {
            Some(stream) => {
                self.raw = Some(slice_to_vec(stream.as_slice()));
                Ok(())
            },
            None => Err(ObjectError::NotFound),
        }
    }

    /// Inflates the stream, unless the reader has its bytes.
    fn ensure_decoded(&mut self, store: &ObjectStore) -> (r: Result<(), ObjectError>)
        requires
            old(self).wf(),
            store.wf(),
            old(self).hash_view().len() >= 2,
        ensures
            final(self).advanced(old(self), store@, Stage::Decompressed),
            match r {
                Ok(_) => decoded_in(old(self).source(store@)) is Ok && final(self).decoded is Some
                    && final(self).decoded->Some_0@ == decoded_in(
                    old(self).source(store@),
                )->Ok_0,
                Err(e) => decoded_in(old(self).source(store@)) == Err::<Seq<u8>, ObjectError>(e),
            },
    {
        self.ensure_raw(store)?;
        if self.decoded.is_some() {
            return Ok(());
        }
        let bytes = inflate(self.raw.as_ref().unwrap().as_slice())?;
        self.decoded = Some(bytes);
        Ok(())
    }

    /// Reads the header and checks the declared size, unless the reader has
    /// the header.
    fn ensure_header(&mut self, store: &ObjectStore) -> (r: Result<(), ObjectError>)
        requires
            old(self).wf(),
            store.wf(),
            old(self).hash_view().len() >= 2,
        ensures
            final(self).advanced(old(self), store@, Stage::HeaderParsed),
            match r {
                Ok(_) => object_in(old(self).source(store@)) is Ok && final(self).has_object(
                    object_in(old(self).source(store@))->Ok_0,
                ),
                Err(e) => object_in(old(self).source(store@)) == Err::<ObjectModel, ObjectError>(
                    e,
                ),
            },
    {
        self.ensure_decoded(store)?;
        if self.header.is_some() {
            return Ok(());
        }
        let header = parse_object(self.decoded.as_ref().unwrap().as_slice())?;
        self.header = Some(header);
        Ok(())
    }

    /// The reader has read the header of `object` and holds its bytes.
    spec fn has_object(&self, object: ObjectModel) -> bool {
        &&& self.decoded is Some
        &&& self.header is Some
        &&& self.header->Some_0.kind@ == object.kind
        &&& self.header->Some_0.size == object.size
        &&& self.header->Some_0.body_offset + object.size == self.decoded->Some_0@.len()
        &&& self.decoded->Some_0@.skip(self.header->Some_0.body_offset as int) == object.body
    }

    /// The kind that the header names.
    fn get_object_type(&self) -> (kind: String)
        requires
            self.header is Some,
        ensures
            kind@ == self.header->Some_0.kind@,
    {
        self.header.as_ref().unwrap().kind.clone()
    }

    /// The size that the header declares.
    fn get_size(&self) -> (size: usize)
        requires
            self.wf(),
            self.header is Some,
        ensures
            size == self.header->Some_0.size,
    {
        let bytes = self.decoded.as_ref().unwrap();
        let header = self.header.as_ref().unwrap();
        assert(header.size <= bytes.len());
        header.size as usize
    }

    /// The body: the bytes after the header.
    fn get_body(&self) -> (body: &[u8])
        requires
            self.wf(),
            self.header is Some,
        ensures
            body@ == self.decoded->Some_0@.skip(self.header->Some_0.body_offset as int),
    {
        let bytes = self.decoded.as_ref().unwrap();
        let header = self.header.as_ref().unwrap();
        slice_subrange(bytes.as_slice(), header.body_offset, bytes.len())
    }

    /// The records of the body, cut at each NUL.
    fn get_data(&self) -> (records: Vec<Vec<u8>>)
        requires
            self.wf(),
            self.header is Some,
        ensures
            views_of(records@) == split_on(
                self.decoded->Some_0@.skip(self.header->Some_0.body_offset as int),
                NUL,
            ),
    {
        split(self.get_body(), NUL)
    }

    /// Inflates the stored object and returns its bytes, header and body.
    /// The store is asked only by a reader that has not taken the stream
    /// yet. Fails with `NotFound` where the store holds nothing at the path
    /// of the hash, and with `DecodeError` where the stream does not inflate.
    pub fn decode(&mut self, store: &ObjectStore) -> (r: Result<Vec<u8>, ObjectError>)
        requires
            old(self).wf(),
            store.wf(),
            old(self).hash_view().len() >= 2,
        ensures
            final(self).advanced(old(self), store@, Stage::Decompressed),
            match r {
                Ok(bytes) => decoded_in(old(self).source(store@)) == Ok::<Seq<u8>, ObjectError>(
                    bytes@,
                ),
                Err(e) => decoded_in(old(self).source(store@)) == Err::<Seq<u8>, ObjectError>(e),
            },
    {
        self.ensure_decoded(store)?;
        Ok(slice_to_vec(self.decoded.as_ref().unwrap().as_slice()))
    }

    /// The kind of the object: the text before the first space of its
    /// header. Fails as `decode` does, with `FormatError` where the header is
    /// malformed, and with `CorruptObject` where it declares a size that is
    /// not the length of the body.
    pub fn object_type(&mut self, store: &ObjectStore) -> (r: Result<String, ObjectError>)
        requires
            old(self).wf(),
            store.wf(),
            old(self).hash_view().len() >= 2,
        ensures
            final(self).advanced(old(self), store@, Stage::HeaderParsed),
            match r {
                Ok(kind) => object_in(old(self).source(store@)) is Ok && kind@ == object_in(
                    old(self).source(store@),
                )->Ok_0.kind,
                Err(e) => object_in(old(self).source(store@)) == Err::<ObjectModel, ObjectError>(
                    e,
                ),
            },
    {
        self.ensure_header(store)?;
        Ok(self.get_object_type())
    }

    /// The size that the header declares, which is the length of the body.
    /// Fails as `object_type` does.
    pub fn size(&mut self, store: &ObjectStore) -> (r: Result<usize, ObjectError>)
        requires
            old(self).wf(),
            store.wf(),
            old(self).hash_view().len() >= 2,
        ensures
            final(self).advanced(old(self), store@, Stage::HeaderParsed),
            match r {
                Ok(size) => object_in(old(self).source(store@)) is Ok && size == object_in(
                    old(self).source(store@),
                )->Ok_0.size && size == object_in(old(self).source(store@))->Ok_0.body.len(),
                Err(e) => object_in(old(self).source(store@)) == Err::<ObjectModel, ObjectError>(
                    e,
                ),
            },
    {
        self.ensure_header(store)?;
        Ok(self.get_size())
    }

    /// The body of the object as the bytes that it is, whatever its kind.
    /// Fails as `object_type` does.
    pub fn body(&mut self, store: &ObjectStore) -> (r: Result<Vec<u8>, ObjectError>)
        requires
            old(self).wf(),
            store.wf(),
            old(self).hash_view().len() >= 2,
        ensures
            final(self).advanced(old(self), store@, Stage::HeaderParsed),
            match r {
                Ok(body) => object_in(old(self).source(store@)) is Ok && body@ == object_in(
                    old(self).source(store@),
                )->Ok_0.body,
                Err(e) => object_in(old(self).source(store@)) == Err::<ObjectModel, ObjectError>(
                    e,
                ),
            },
    {
        self.ensure_header(store)?;
        Ok(slice_to_vec(self.get_body()))
    }

    /// The object as a whole. Fails as `object_type` does.
    pub fn object(&mut self, store: &ObjectStore) -> (r: Result<StoredObject, ObjectError>)
        requires
            old(self).wf(),
            store.wf(),
            old(self).hash_view().len() >= 2,
        ensures
            final(self).advanced(old(self), store@, Stage::HeaderParsed),
            match r {
                Ok(object) => object_in(old(self).source(store@)) == Ok::<
                    ObjectModel,
                    ObjectError,
                >(object@) && object.hash@ == old(self).hash_view() && object.size
                    == object.body@.len(),
                Err(e) => object_in(old(self).source(store@)) == Err::<ObjectModel, ObjectError>(
                    e,
                ),
            },
    {
        self.ensure_header(store)?;
        Ok(
            StoredObject {
                hash: self.hash.clone(),
                kind: self.get_object_type(),
                size: self.get_size(),
                body: slice_to_vec(self.get_body()),
            },
        )
    }

    /// The records of a blob or a commit: its body cut at each NUL, each
    /// record as the bytes that it is. Fails as `object_type` does, and with
    /// `InvalidType` where the object is neither a blob nor a commit.
    pub fn data(&mut self, store: &ObjectStore) -> (r: Result<Vec<Vec<u8>>, ObjectError>)
        requires
            old(self).wf(),
            store.wf(),
            old(self).hash_view().len() >= 2,
        ensures
            final(self).advanced(old(self), store@, Stage::BlobCommitParsed),
            match r {
                Ok(records) => records_in(old(self).source(store@)) == Ok::<
                    Seq<Seq<u8>>,
                    ObjectError,
                >(views_of(records@)),
                Err(e) => records_in(old(self).source(store@)) == Err::<Seq<Seq<u8>>, ObjectError>(
                    e,
                ),
            },
    {
        self.ensure_header(store)?;
        let kind = self.get_object_type();
        if !same_text(kind.as_str(), "blob") && !same_text(kind.as_str(), "commit") {
            return Err(ObjectError::InvalidType);
        }
        proof {
            lemma_kinds_differ(kind@);
        }
        if self.records.is_none() {
            let records = self.get_data();
            self.records = Some(records);
        }
        Ok(copy_pieces(self.records.as_ref().unwrap()))
    }

    /// The entries of a tree, in the order in which its body holds them.
    /// Fails as `object_type` does, with `InvalidType` where the object is
    /// no tree, and with the fault of the first record that does not read.
    pub fn list(&mut self, store: &ObjectStore) -> (r: Result<Vec<TreeEntry>, ObjectError>)
        requires
            old(self).wf(),
            store.wf(),
            old(self).hash_view().len() >= 2,
        ensures
            final(self).advanced(old(self), store@, Stage::TreeParsed),
            match r {
                Ok(entries) => entries_in(old(self).source(store@)) == Ok::<
                    Seq<EntryModel>,
                    ObjectError,
                >(entries.deep_view()),
                Err(e) => entries_in(old(self).source(store@)) == Err::<
                    Seq<EntryModel>,
                    ObjectError,
                >(e),
            },
    {
        self.ensure_header(store)?;
        let kind = self.get_object_type();
        if !same_text(kind.as_str(), "tree") {
            return Err(ObjectError::InvalidType);
        }
        proof {
            lemma_kinds_differ(kind@);
        }
        if self.entries.is_none() {
            let entries = parse_entries(self.get_body())?;
            self.entries = Some(entries);
        }
        Ok(copy_entries(self.entries.as_ref().unwrap()))
    }
}

/// The tab between the hash and the name in a line of a tree listing.
pub const TAB: u8 = 9;

/// The width to which a listing fills the mode with zeros.
pub const MODE_WIDTH: usize = 6;

/// The line that a listing prints for one entry of a tree: the mode in at
/// least six digits, the word for the kind of the child, the child's hash,
/// a tab, and the name.
pub open spec fn entry_line(entry: EntryModel) -> Seq<u8> {
    padded_digits(entry.mode as nat, MODE_WIDTH as nat) + seq![SPACE] + encode_utf8(
        entry.kind.label_text(),
    ) + seq![SPACE] + encode_utf8(entry.hash) + seq![TAB] + entry.name
}

/// The lines of a listing, one for each entry and in their order.
pub open spec fn entry_lines(entries: Seq<EntryModel>) -> Seq<Seq<u8>> {
    Seq::new(entries.len(), |i: int| entry_line(entries[i]))
}

/// What showing the object in a stream prints, line by line. A tree is
/// listed, one line an entry. Of a blob or a commit the first record of the
/// body is printed, which is the second record of the whole object, the
/// header being the first. An object of another kind is an `InvalidType`.
pub open spec fn shown(src: Result<Seq<u8>, ObjectError>) -> Result<Seq<Seq<u8>>, ObjectError> {
    match object_in(src) {
        Err(e) => Err(e),
        Ok(object) => if is_tree(object.kind) {
            match entries_of(object.body) {
                Err(e) => Err(e),
                Ok(entries) => Ok(entry_lines(entries)),
            }
        } else if is_text_kind(object.kind) {
            Ok(seq![split_on(object.body, NUL)[0]])
        } else {
            Err(ObjectError::InvalidType)
        },
    }
}

/// The line that names the kind of an object.
pub open spec fn type_line(kind: Seq<char>) -> Seq<char> {
    kind + " object"@
}

/// The line of a listing for `entry`.
fn show_entry(entry: &TreeEntry) -> (line: Vec<u8>)
    ensures
        line@ == entry_line(entry@),
{
    let mut line = render_padded(entry.mode, MODE_WIDTH);
    line.push(SPACE);
    append_bytes(&mut line, entry.kind.label().as_bytes());
    line.push(SPACE);
    append_bytes(&mut line, entry.hash.as_str().as_bytes());
    line.push(TAB);
    append_bytes(&mut line, entry.name.as_slice());
    line
}

/// The lines of a listing of `entries`.
fn show_entries(entries: &Vec<TreeEntry>) -> (lines: Vec<Vec<u8>>)
    ensures
        views_of(lines@) == entry_lines(entries.deep_view()),
{
    let mut lines: Vec<Vec<u8>> = Vec::new();
    let mut i: usize = 0;
    while i < entries.len()
        invariant
            0 <= i <= entries@.len(),
            views_of(lines@) == entry_lines(entries.deep_view().take(i as int)),
        decreases entries@.len() - i,
    {
        let ghost before = views_of(lines@);
        lines.push(show_entry(&entries[i]));
        assert(views_of(lines@) =~= before.push(entry_line(entries@[i as int]@)));
        assert(entry_lines(entries.deep_view().take(i + 1)) =~= entry_lines(
            entries.deep_view().take(i as int),
        ).push(entry_line(entries@[i as int]@)));
        i += 1;
    }
    assert(entries.deep_view().take(i as int) =~= entries.deep_view());
    lines
}

/// What the command that shows an object prints for the object with hash
/// `hash`, line by line and without the line ends. Fails as the reader does:
/// `NotFound`, `DecodeError`, `FormatError`, `CorruptObject`, the fault of a
/// tree record, and `InvalidType` for a kind that is none of blob, tree and
/// commit.
pub fn contents(store: &ObjectStore, hash: &str) -> (r: Result<Vec<Vec<u8>>, ObjectError>)
    requires
        store.wf(),
        hash@.len() >= 2,
    ensures
        match r {
            Ok(lines) => shown(stream_at(store@, hash@)) == Ok::<Seq<Seq<u8>>, ObjectError>(
                views_of(lines@),
            ),
            Err(e) => shown(stream_at(store@, hash@)) == Err::<Seq<Seq<u8>>, ObjectError>(e),
        },
{
    let mut content = Content::new(hash);
    let kind = content.object_type(store)?;
    proof {
        lemma_kinds_differ(kind@);
    }
    if same_text(kind.as_str(), "tree") {
        let entries = content.list(store)?;
        Ok(show_entries(&entries))
    } else if same_text(kind.as_str(), "blob") || same_text(kind.as_str(), "commit") {
        let records = content.data(store)?;
        proof {
            lemma_split_first(object_in(stream_at(store@, hash@))->Ok_0.body, NUL);
        }
        let mut lines: Vec<Vec<u8>> = Vec::new();
        lines.push(slice_to_vec(records[0].as_slice()));
        assert(views_of(lines@) =~= seq![views_of(records@)[0]]);
        Ok(lines)
    } else {
        Err(ObjectError::InvalidType)
    }
}

/// What the command that shows the kind of an object prints for the object
/// with hash `hash`: the kind, a space, and the word `object`. Fails as
/// `Content::object_type` does.
pub fn types(store: &ObjectStore, hash: &str) -> (r: Result<String, ObjectError>)
    requires
        store.wf(),
        hash@.len() >= 2,
    ensures
        match r {
            Ok(line) => object_in(stream_at(store@, hash@)) is Ok && line@ == type_line(
                object_in(stream_at(store@, hash@))->Ok_0.kind,
            ),
            Err(e) => object_in(stream_at(store@, hash@)) == Err::<ObjectModel, ObjectError>(e),
        },
{
    let mut content = Content::new(hash);
    let kind = content.object_type(store)?;
    Ok(kind.concat(" object"))
}

/// What the command that shows the size of an object prints for the object
/// with hash `hash`: the declared size in decimal digits. Fails as
/// `Content::size` does.
pub fn size(store: &ObjectStore, hash: &str) -> (r: Result<String, ObjectError>)
    requires
        store.wf(),
        hash@.len() >= 2,
    ensures
        match r {
            Ok(line) => object_in(stream_at(store@, hash@)) is Ok && line@ == ascii_chars(
                decimal_digits(object_in(stream_at(store@, hash@))->Ok_0.size),
            ),
            Err(e) => object_in(stream_at(store@, hash@)) == Err::<ObjectModel, ObjectError>(e),
        },
{
    let mut content = Content::new(hash);
    let size = content.size(store)?;
    let digits = render_decimal(size as u64);
    proof {
        lemma_digits_of(size as nat);
    }
    Ok(ascii_text(digits))
}

} // verus!
