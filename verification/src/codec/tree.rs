//! The records of a tree body: a mode in decimal digits, a space, a name, a
//! NUL, and twenty raw bytes of the child's digest.

use crate::codec::decimal::{
    decimal_digits, lemma_digits_free_of, lemma_digits_of, parse_decimal, parsed_number,
    render_decimal,
};
use crate::codec::hex;
use crate::codec::hex::{hex_text, is_hex_text, lemma_hex_text, lemma_unhex, unhex};
use crate::codec::scan::{
    append_bytes, find_byte, first_at, first_index_of, free_of, lemma_first_index_is,
    lemma_first_index_some, NUL, SPACE,
};
use crate::error::ObjectError;
use crate::text::text_of;
use vstd::prelude::*;
use vstd::slice::{slice_subrange, slice_to_vec};
use vstd::utf8::{decode_utf8, valid_utf8};

verus! {

/// The number of raw bytes that a record gives to the child's digest.
pub const DIGEST_LEN: usize = 20;

/// What the mode of a tree entry says the child is.
#[derive(Debug, Clone, Copy, PartialEq, Eq, Structural)]
pub enum EntryKind {
    /// Mode 100644.
    RegularFile,
    /// Mode 100755.
    ExecutableFile,
    /// Mode 40000.
    Directory,
    /// Mode 120000.
    Symlink,
    /// Mode 160000.
    Submodule,
    /// Any other mode, kept as it was read.
    Other(u64),
}

/// The kind that a mode stands for. No mode is refused.
pub open spec fn classify_mode(mode: u64) -> EntryKind {
    if mode == 100644 {
        EntryKind::RegularFile
    } else if mode == 100755 {
        EntryKind::ExecutableFile
    } else if mode == 40000 {
        EntryKind::Directory
    } else if mode == 120000 {
        EntryKind::Symlink
    } else if mode == 160000 {
        EntryKind::Submodule
    } else {
        EntryKind::Other(mode)
    }
}

/// Classifies a mode.
pub fn classify(mode: u64) -> (kind: EntryKind)
    ensures
        kind == classify_mode(mode),
{
    if mode == 100644 {
        EntryKind::RegularFile
    } else if mode == 100755 {
        EntryKind::ExecutableFile
    } else if mode == 40000 {
        EntryKind::Directory
    } else if mode == 120000 {
        EntryKind::Symlink
    } else if mode == 160000 {
        EntryKind::Submodule
    } else {
        EntryKind::Other(mode)
    }
}

impl EntryKind {
    /// The type of object that a child of this kind is stored as: files and
    /// links are blobs, a directory is a tree, a submodule is a commit, and of
    /// any other mode nothing is known.
    pub open spec fn label_text(self) -> Seq<char> {
        match self {
            EntryKind::RegularFile => "blob"@,
            EntryKind::ExecutableFile => "blob"@,
            EntryKind::Directory => "tree"@,
            EntryKind::Symlink => "blob"@,
            EntryKind::Submodule => "commit"@,
            EntryKind::Other(_) => "None"@,
        }
    }

    /// The word that a listing prints for this kind.
    pub fn label(&self) -> (word: &'static str)
        ensures
            word@ == self.label_text(),
    {
        match self {
            EntryKind::RegularFile => "blob",
            EntryKind::ExecutableFile => "blob",
            EntryKind::Directory => "tree",
            EntryKind::Symlink => "blob",
            EntryKind::Submodule => "commit",
            EntryKind::Other(_) => "None",
        }
    }
}

/// One record of a tree: a child object under a name.
#[derive(Debug, Clone, PartialEq, Eq)]
pub struct TreeEntry {
    /// The mode, read as a decimal number.
    pub mode: u64,
    /// The name of the child, as the bytes that the record holds.
    pub name: Vec<u8>,
    /// What the mode says the child is.
    pub kind: EntryKind,
    /// The child's digest in forty lowercase hexadecimal characters.
    pub hash: String,
}

/// A tree entry as plain values.
pub struct EntryModel {
    pub mode: u64,
    pub name: Seq<u8>,
    pub kind: EntryKind,
    pub hash: Seq<char>,
}

impl TreeEntry {
    /// The name as text: the text that the bytes of the name encode, or
    /// `None` where they are not well-formed UTF-8.
    pub fn name_text(&self) -> (r: Option<String>)
        ensures
            r is Some <==> valid_utf8(self.name@),
            r matches Some(text) ==> text@ == decode_utf8(self.name@),
    {
        text_of(self.name.as_slice())
    }
}

impl View for TreeEntry {
    type V = EntryModel;

    open spec fn view(&self) -> EntryModel {
        EntryModel { mode: self.mode, name: self.name@, kind: self.kind, hash: self.hash@ }
    }
}

impl DeepView for TreeEntry {
    type V = EntryModel;

    open spec fn deep_view(&self) -> EntryModel {
        self@
    }
}

/// The record at the front of `rest` and the number of bytes it takes, or
/// the first fault met on the way through it: no space, a mode that is not a
/// 64-bit decimal number, no NUL after the name, or fewer than twenty bytes
/// left for the digest.
pub open spec fn record_of(rest: Seq<u8>) -> Result<(EntryModel, int), ObjectError> {
    match first_index_of(rest, SPACE) {
        None => Err(ObjectError::TruncatedEntry),
        Some(space) => match parsed_number(rest.take(space), u64::MAX as nat) {
            None => Err(ObjectError::FormatError),
            Some(mode) => {
                let after_mode = rest.skip(space + 1);
                match first_index_of(after_mode, NUL) {
                    None => Err(ObjectError::TruncatedEntry),
                    Some(nul) => {
                        let after_name = after_mode.skip(nul + 1);
                        if after_name.len() < DIGEST_LEN {
                            Err(ObjectError::TruncatedEntry)
                        } else {
                            Ok(
                                (
                                    EntryModel {
                                        mode: mode as u64,
                                        name: after_mode.take(nul),
                                        kind: classify_mode(mode as u64),
                                        hash: hex_text(after_name.take(DIGEST_LEN as int)),
                                    },
                                    space + 1 + nul + 1 + DIGEST_LEN,
                                ),
                            )
                        }
                    },
                }
            },
        },
    }
}

/// The entries that follow `done`, or the fault that ends them.
pub open spec fn followed_by(
    done: Seq<EntryModel>,
    tail: Result<Seq<EntryModel>, ObjectError>,
) -> Result<Seq<EntryModel>, ObjectError> {
    match tail {
        Ok(more) => Ok(done + more),
        Err(e) => Err(e),
    }
}

/// The entries of a tree body in the order in which it holds them, or the
/// first fault in it. A body with a fault has no entries at all.
pub open spec fn entries_of(body: Seq<u8>) -> Result<Seq<EntryModel>, ObjectError>
    decreases body.len(),
    via entries_of_ends
{
    if body.len() == 0 {
        Ok(Seq::empty())
    } else {
        match record_of(body) {
            Err(e) => Err(e),
            Ok((entry, used)) => followed_by(seq![entry], entries_of(body.skip(used))),
        }
    }
}

#[via_fn]
proof fn entries_of_ends(body: Seq<u8>) {
    if body.len() != 0 && record_of(body) is Ok {
        lemma_record_fits(body);
    }
}

/// A record that was read lies wholly inside the bytes it was read from.
pub proof fn lemma_record_fits(rest: Seq<u8>)
    requires
        record_of(rest) is Ok,
    ensures
        DIGEST_LEN + 2 <= record_of(rest).unwrap().1 <= rest.len(),
{
    lemma_first_index_some(rest, SPACE);
    let space = first_index_of(rest, SPACE).unwrap();
    let after_mode = rest.skip(space + 1);
    lemma_first_index_some(after_mode, NUL);
}

/// Reads the record at the front of `rest`.
fn parse_entry(rest: &[u8]) -> (r: Result<(TreeEntry, usize), ObjectError>)
    ensures
        match r {
            Ok((entry, used)) => record_of(rest@) == Ok::<(EntryModel, int), ObjectError>(
                (entry@, used as int),
            ) && 0 < used <= rest@.len(),
            Err(e) => record_of(rest@) == Err::<(EntryModel, int), ObjectError>(e),
        },
{
    let len = rest.len();
    let space = match find_byte(rest, SPACE) {
        None => {
            return Err(ObjectError::TruncatedEntry);
        },
        Some(i) => i,
    };
    proof {
        lemma_first_index_some(rest@, SPACE);
    }
    let mode = match parse_decimal(slice_subrange(rest, 0, space)) {
        None => {
            return Err(ObjectError::FormatError);
        },
        Some(m) => m,
    };
    let after_mode = slice_subrange(rest, space + 1, len);
    let nul = match find_byte(after_mode, NUL) {
        None => {
            return Err(ObjectError::TruncatedEntry);
        },
        Some(i) => i,
    };
    proof {
        lemma_first_index_some(after_mode@, NUL);
    }
    let name = slice_to_vec(slice_subrange(after_mode, 0, nul));
    let after_name = slice_subrange(after_mode, nul + 1, after_mode.len());
    if after_name.len() < DIGEST_LEN {
        return Err(ObjectError::TruncatedEntry);
    }
    let hash = hex::encode(slice_subrange(after_name, 0, DIGEST_LEN));
    let entry = TreeEntry { mode, name, kind: classify(mode), hash };
    Ok((entry, space + 1 + nul + 1 + DIGEST_LEN))
}

/// Reads a tree body into its entries, in the order in which the body holds
/// them. The body is read to its end; the first fault ends the reading and
/// nothing of what was read before it is returned.
pub fn parse_entries(body: &[u8]) -> (r: Result<Vec<TreeEntry>, ObjectError>)
    ensures
        match r {
            Ok(entries) => entries_of(body@) == Ok::<Seq<EntryModel>, ObjectError>(
                entries.deep_view(),
            ),
            Err(e) => entries_of(body@) == Err::<Seq<EntryModel>, ObjectError>(e),
        },
{
    let mut out: Vec<TreeEntry> = Vec::new();
    let mut pos: usize = 0;
    assert(body@.skip(0) =~= body@);
    assert(out.deep_view() =~= Seq::<EntryModel>::empty());
    while pos < body.len()
        invariant
            0 <= pos <= body@.len(),
            entries_of(body@) == followed_by(out.deep_view(), entries_of(body@.skip(pos as int))),
        decreases body@.len() - pos,
    {
        let rest = slice_subrange(body, pos, body.len());
        assert(rest@ =~= body@.skip(pos as int));
        match parse_entry(rest) {
            Err(e) => {
                return Err(e);
            },
            Ok((entry, used)) => {
                proof {
                    let ghost before = out.deep_view();
                    assert(rest@.skip(used as int) =~= body@.skip(pos + used));
                    assert(before.push(entry@) =~= before + seq![entry@]);
                    match entries_of(body@.skip(pos + used)) {
                        Ok(more) => {
                            assert(before + (seq![entry@] + more) =~= (before + seq![entry@])
                                + more);
                        },
                        Err(_) => {},
                    }
                }
                let ghost before = out.deep_view();
                out.push(entry);
                assert(out.deep_view() =~= before.push(entry@));
                pos += used;
            },
        }
    }
    proof {
        assert(body@.skip(pos as int) =~= Seq::<u8>::empty());
        assert(out.deep_view() + Seq::<EntryModel>::empty() =~= out.deep_view());
    }
    Ok(out)
}

/// The record can be written: its digest is forty lowercase hexadecimal
/// characters, which stand for twenty bytes.
pub open spec fn writable(e: EntryModel) -> bool {
    e.hash.len() == 2 * DIGEST_LEN && is_hex_text(e.hash)
}

/// Every entry of `es` can be written.
pub open spec fn all_writable(es: Seq<EntryModel>) -> bool {
    forall|i: int| 0 <= i < es.len() ==> writable(#[trigger] es[i])
}

/// The bytes of one record: the mode in decimal digits, a space, the name, a
/// NUL, and the digest as twenty raw bytes.
pub open spec fn record_bytes(e: EntryModel) -> Seq<u8> {
    decimal_digits(e.mode as nat) + seq![SPACE] + e.name + seq![NUL] + unhex(e.hash)
}

/// The tree body that holds the records of `es`, one after the other.
pub open spec fn tree_bytes(es: Seq<EntryModel>) -> Seq<u8>
    decreases es.len(),
{
    if es.len() == 0 {
        Seq::empty()
    } else {
        record_bytes(es[0]) + tree_bytes(es.drop_first())
    }
}

/// A body with one more entry is the body without it, then the record of that entry.
pub proof fn lemma_tree_bytes_push(es: Seq<EntryModel>, e: EntryModel)
    ensures
        tree_bytes(es.push(e)) == tree_bytes(es) + record_bytes(e),
    decreases es.len(),
{
    if es.len() == 0 {
        assert(es.push(e).drop_first() =~= Seq::<EntryModel>::empty());
        assert(tree_bytes(es.push(e).drop_first()) =~= Seq::<u8>::empty());
        assert(tree_bytes(es.push(e)) =~= tree_bytes(es) + record_bytes(e));
    } else {
        assert(es.push(e).drop_first() =~= es.drop_first().push(e));
        lemma_tree_bytes_push(es.drop_first(), e);
        assert(tree_bytes(es.push(e)) =~= tree_bytes(es) + record_bytes(e));
    }
}

/// Writes the tree body that holds `entries` in the order given. An entry
/// whose digest is not forty lowercase hexadecimal characters cannot be
/// written, and then nothing is.
pub fn build_entries(entries: &Vec<TreeEntry>) -> (r: Result<Vec<u8>, ObjectError>)
    ensures
        match r {
            Ok(body) => all_writable(entries.deep_view()) && body@ == tree_bytes(
                entries.deep_view(),
            ),
            Err(e) => e == ObjectError::FormatError && !all_writable(entries.deep_view()),
        },
{
    let mut out: Vec<u8> = Vec::new();
    let mut i: usize = 0;
    let ghost models = entries.deep_view();
    assert(models.take(0) =~= Seq::<EntryModel>::empty());
    while i < entries.len()
        invariant
            0 <= i <= entries@.len(),
            models == entries.deep_view(),
            all_writable(models.take(i as int)),
            out@ == tree_bytes(models.take(i as int)),
        decreases entries@.len() - i,
    {
        let entry = &entries[i];
        assert(models[i as int] == entry@);
        let raw = match hex::decode(entry.hash.as_str()) {
            None => {
                assert(!writable(models[i as int]));
                return Err(ObjectError::FormatError);
            },
            Some(raw) => raw,
        };
        proof {
            lemma_unhex(entry.hash@);
        }
        if raw.len() != DIGEST_LEN {
            assert(!writable(models[i as int]));
            return Err(ObjectError::FormatError);
        }
        let digits = render_decimal(entry.mode);
        append_bytes(&mut out, digits.as_slice());
        out.push(SPACE);
        append_bytes(&mut out, entry.name.as_slice());
        out.push(NUL);
        append_bytes(&mut out, raw.as_slice());
        proof {
            let done = models.take(i as int);
            assert(models.take(i + 1) =~= done.push(entry@));
            lemma_tree_bytes_push(done, entry@);
            assert(out@ =~= tree_bytes(done) + record_bytes(entry@));
            assert forall|j: int| 0 <= j < i + 1 implies writable(
                #[trigger] models.take(i + 1)[j],
            ) by {
                if j < i {
                    assert(models.take(i as int)[j] == models.take(i + 1)[j]);
                }
            }
        }
        i += 1;
    }
    assert(models.take(i as int) =~= models);
    Ok(out)
}

/// A record that was read is read the same from a longer stream.
pub proof fn lemma_record_extends(a: Seq<u8>, b: Seq<u8>)
    requires
        record_of(a) is Ok,
    ensures
        record_of(a + b) == record_of(a),
        (a + b).skip(record_of(a).unwrap().1) == a.skip(record_of(a).unwrap().1) + b,
{
    lemma_record_fits(a);
    lemma_first_index_some(a, SPACE);
    let space = first_index_of(a, SPACE).unwrap();
    assert(first_at(a + b, SPACE, space));
    lemma_first_index_is(a + b, SPACE, space);
    assert((a + b).take(space) =~= a.take(space));
    let after_mode = a.skip(space + 1);
    assert((a + b).skip(space + 1) =~= after_mode + b);
    lemma_first_index_some(after_mode, NUL);
    let nul = first_index_of(after_mode, NUL).unwrap();
    assert(first_at(after_mode + b, NUL, nul));
    lemma_first_index_is(after_mode + b, NUL, nul);
    assert((after_mode + b).take(nul) =~= after_mode.take(nul));
    let after_name = after_mode.skip(nul + 1);
    assert((after_mode + b).skip(nul + 1) =~= after_name + b);
    assert((after_name + b).take(DIGEST_LEN as int) =~= after_name.take(DIGEST_LEN as int));
    let used = record_of(a).unwrap().1;
    assert((a + b).skip(used) =~= a.skip(used) + b);
}

/// Reading goes record by record: where a body reads without a fault, the
/// same body with more bytes behind it reads as the same entries, followed by
/// what the added bytes read as.
pub proof fn lemma_entries_extend(a: Seq<u8>, b: Seq<u8>)
    requires
        entries_of(a) is Ok,
    ensures
        entries_of(a + b) == followed_by(entries_of(a).unwrap(), entries_of(b)),
    decreases a.len(),
{
    if a.len() == 0 {
        assert(a + b =~= b);
        match entries_of(b) {
            Ok(more) => {
                assert(Seq::<EntryModel>::empty() + more =~= more);
            },
            Err(_) => {},
        }
    } else {
        lemma_record_fits(a);
        lemma_record_extends(a, b);
        let (entry, used) = record_of(a).unwrap();
        let rest = a.skip(used);
        lemma_entries_extend(rest, b);
        let head = entries_of(rest).unwrap();
        match entries_of(b) {
            Ok(more) => {
                assert(seq![entry] + (head + more) =~= (seq![entry] + head) + more);
            },
            Err(_) => {},
        }
    }
}

/// An entry reads back as it was written: its digest can be written, its name
/// holds no NUL, and its kind is what its mode stands for.
pub open spec fn canonical(e: EntryModel) -> bool {
    &&& writable(e)
    &&& free_of(e.name, NUL)
    &&& e.kind == classify_mode(e.mode)
}

/// A stream that starts with a mode field, a space, a name and a NUL reads,
/// as far as the name goes, as that mode and that name.
pub proof fn lemma_record_front(field: Seq<u8>, name: Seq<u8>, tail: Seq<u8>)
    requires
        free_of(field, SPACE),
        free_of(name, NUL),
    ensures
        ({
            let stream = field + seq![SPACE] + name + seq![NUL] + tail;
            let after_mode = stream.skip(field.len() as int + 1);
            &&& first_index_of(stream, SPACE) == Some(field.len() as int)
            &&& stream.take(field.len() as int) == field
            &&& first_index_of(after_mode, NUL) == Some(name.len() as int)
            &&& after_mode.take(name.len() as int) == name
            &&& after_mode.skip(name.len() as int + 1) == tail
        }),
{
    let stream = field + seq![SPACE] + name + seq![NUL] + tail;
    assert(first_at(stream, SPACE, field.len() as int));
    lemma_first_index_is(stream, SPACE, field.len() as int);
    assert(stream.take(field.len() as int) =~= field);
    let after_mode = stream.skip(field.len() as int + 1);
    assert(after_mode =~= name + seq![NUL] + tail);
    assert(first_at(after_mode, NUL, name.len() as int));
    lemma_first_index_is(after_mode, NUL, name.len() as int);
    assert(after_mode.take(name.len() as int) =~= name);
    assert(after_mode.skip(name.len() as int + 1) =~= tail);
}

/// The record of a canonical entry reads back as that entry, and takes all of its bytes.
pub proof fn lemma_record_of_built(e: EntryModel)
    requires
        canonical(e),
    ensures
        record_of(record_bytes(e)) == Ok::<(EntryModel, int), ObjectError>(
            (e, record_bytes(e).len() as int),
        ),
{
    let field = decimal_digits(e.mode as nat);
    let raw = unhex(e.hash);
    lemma_digits_of(e.mode as nat);
    lemma_digits_free_of(field, SPACE);
    lemma_unhex(e.hash);
    lemma_record_front(field, e.name, raw);
    assert(raw.take(DIGEST_LEN as int) =~= raw);
}

/// A copy of `entries`.
pub fn copy_entries(entries: &Vec<TreeEntry>) -> (copy: Vec<TreeEntry>)
    ensures
        copy.deep_view() == entries.deep_view(),
{
    let mut out: Vec<TreeEntry> = Vec::new();
    let mut i: usize = 0;
    while i < entries.len()
        invariant
            0 <= i <= entries@.len(),
            out.deep_view() == entries.deep_view().take(i as int),
        decreases entries@.len() - i,
    {
        let entry = &entries[i];
        let ghost before = out.deep_view();
        out.push(
            TreeEntry {
                mode: entry.mode,
                name: slice_to_vec(entry.name.as_slice()),
                kind: entry.kind,
                hash: entry.hash.clone(),
            },
        );
        assert(out.deep_view() =~= before.push(entry@));
        assert(entries.deep_view().take(i + 1) =~= entries.deep_view().take(i as int).push(entry@));
        i += 1;
    }
    assert(entries.deep_view().take(i as int) =~= entries.deep_view());
    out
}

} // verus!
