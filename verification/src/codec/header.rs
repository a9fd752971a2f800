//! The preamble of an object: its kind, a space, the length of its body in
//! decimal digits, and a NUL.

use crate::codec::decimal::{
    decimal_digits, lemma_digits_free_of, lemma_digits_of, parse_decimal, parsed_number,
    render_decimal,
};
use crate::codec::scan::{
    append_bytes, find_byte, first_at, first_index_of, lemma_first_index_is,
    lemma_first_index_some, NUL, SPACE,
};
use crate::error::ObjectError;
use crate::text::{lemma_encoded_text_free_of, text_of};
use vstd::prelude::*;
use vstd::slice::slice_subrange;
use vstd::string::*;
use vstd::utf8::{
    decode_utf8, encode_utf8, encode_utf8_decode_utf8, encode_utf8_valid_utf8, valid_utf8,
};

verus! {

/// What the header of an object says.
#[derive(Debug, Clone, PartialEq, Eq)]
pub struct ObjectHeader {
    /// The kind of the object: the text before the space.
    pub kind: String,
    /// The length that the header declares for the body.
    pub size: u64,
    /// Where the body starts: the position after the NUL.
    pub body_offset: usize,
}

/// A header as plain values.
pub struct HeaderModel {
    pub kind: Seq<char>,
    pub size: nat,
    pub body_offset: nat,
}

impl View for ObjectHeader {
    type V = HeaderModel;

    open spec fn view(&self) -> HeaderModel {
        HeaderModel {
            kind: self.kind@,
            size: self.size as nat,
            body_offset: self.body_offset as nat,
        }
    }
}

/// The header at the front of `bytes`. The bytes before the first NUL are
/// the header; the bytes of it before its first space are the kind, which is
/// text and not empty; the bytes after that space are the size, a decimal
/// number of at most 64 bits. Anything else is a `FormatError`.
pub open spec fn header_of(bytes: Seq<u8>) -> Result<HeaderModel, ObjectError> {
    match first_index_of(bytes, NUL) {
        None => Err(ObjectError::FormatError),
        Some(nul) => {
            let prefix = bytes.take(nul);
            match first_index_of(prefix, SPACE) {
                None => Err(ObjectError::FormatError),
                Some(space) => {
                    let kind = prefix.take(space);
                    match parsed_number(prefix.skip(space + 1), u64::MAX as nat) {
                        None => Err(ObjectError::FormatError),
                        Some(size) => if kind.len() > 0 && valid_utf8(kind) {
                            Ok(
                                HeaderModel {
                                    kind: decode_utf8(kind),
                                    size,
                                    body_offset: (nul + 1) as nat,
                                },
                            )
                        } else {
                            Err(ObjectError::FormatError)
                        },
                    }
                },
            }
        },
    }
}

/// The header of an object of kind `kind` with a body of `len` bytes.
pub open spec fn header_bytes(kind: Seq<char>, len: nat) -> Seq<u8> {
    encode_utf8(kind) + seq![SPACE] + decimal_digits(len) + seq![NUL]
}

/// A kind that a header can carry and give back: text that is not empty and
/// holds neither a space nor a NUL.
pub open spec fn is_kind(kind: Seq<char>) -> bool {
    &&& kind.len() > 0
    &&& forall|i: int| 0 <= i < kind.len() ==> #[trigger] kind[i] as u32 != SPACE as u32
    &&& forall|i: int| 0 <= i < kind.len() ==> #[trigger] kind[i] as u32 != NUL as u32
}

/// An object as plain values: its kind, the size that its header declares,
/// and its body.
pub struct ObjectModel {
    pub kind: Seq<char>,
    pub size: nat,
    pub body: Seq<u8>,
}

/// The object that `bytes` hold: a header, then a body of exactly the length
/// that the header declares. A header that declares another length makes the
/// object a `CorruptObject`.
pub open spec fn object_of(bytes: Seq<u8>) -> Result<ObjectModel, ObjectError> {
    match header_of(bytes) {
        Err(e) => Err(e),
        Ok(header) => if header.size == bytes.len() - header.body_offset {
            Ok(
                ObjectModel {
                    kind: header.kind,
                    size: header.size,
                    body: bytes.skip(header.body_offset as int),
                },
            )
        } else {
            Err(ObjectError::CorruptObject)
        },
    }
}

/// The bytes of an object: its header, then its content.
pub open spec fn object_bytes(kind: Seq<char>, content: Seq<u8>) -> Seq<u8> {
    header_bytes(kind, content.len()) + content
}

/// A header that was read ends inside the bytes that it was read from.
pub proof fn lemma_header_fits(bytes: Seq<u8>)
    requires
        header_of(bytes) is Ok,
    ensures
        1 <= header_of(bytes).unwrap().body_offset <= bytes.len(),
{
    lemma_first_index_some(bytes, NUL);
}

/// Reads the header at the front of `bytes`.
pub fn parse(bytes: &[u8]) -> (r: Result<ObjectHeader, ObjectError>)
    ensures
        match r {
            Ok(header) => header_of(bytes@) == Ok::<HeaderModel, ObjectError>(header@),
            Err(e) => header_of(bytes@) == Err::<HeaderModel, ObjectError>(e),
        },
{
    let len = bytes.len();
    let nul = match find_byte(bytes, NUL) {
        None => {
            return Err(ObjectError::FormatError);
        },
        Some(i) => i,
    };
    proof {
        lemma_first_index_some(bytes@, NUL);
    }
    assert(nul < len);
    let prefix = slice_subrange(bytes, 0, nul);
    let space = match find_byte(prefix, SPACE) {
        None => {
            return Err(ObjectError::FormatError);
        },
        Some(i) => i,
    };
    proof {
        lemma_first_index_some(prefix@, SPACE);
    }
    let size = match parse_decimal(slice_subrange(prefix, space + 1, nul)) {
        None => {
            return Err(ObjectError::FormatError);
        },
        Some(n) => n,
    };
    if space == 0 {
        return Err(ObjectError::FormatError);
    }
    let kind = match text_of(slice_subrange(prefix, 0, space)) {
        None => {
            return Err(ObjectError::FormatError);
        },
        Some(text) => text,
    };
    Ok(ObjectHeader { kind, size, body_offset: nul + 1 })
}

/// Writes the header of an object of kind `kind` with a body of
/// `content_len` bytes.
pub fn build(kind: &str, content_len: usize) -> (header: Vec<u8>)
    ensures
        header@ == header_bytes(kind@, content_len as nat),
{
    let mut out: Vec<u8> = Vec::new();
    append_bytes(&mut out, kind.as_bytes());
    out.push(SPACE);
    let digits = render_decimal(content_len as u64);
    append_bytes(&mut out, digits.as_slice());
    out.push(NUL);
    assert(out@ =~= header_bytes(kind@, content_len as nat));
    out
}

/// Reads the header of an object and holds the size that it declares
/// against the bytes that follow it.
pub fn parse_object(bytes: &[u8]) -> (r: Result<ObjectHeader, ObjectError>)
    ensures
        match r {
            Ok(header) => object_of(bytes@) == Ok::<ObjectModel, ObjectError>(
                ObjectModel {
                    kind: header.kind@,
                    size: header.size as nat,
                    body: bytes@.skip(header.body_offset as int),
                },
            ) && header_of(bytes@) == Ok::<HeaderModel, ObjectError>(header@)
                && header.body_offset + header.size == bytes@.len(),
            Err(e) => object_of(bytes@) == Err::<ObjectModel, ObjectError>(e),
        },
{
    let header = parse(bytes)?;
    proof {
        lemma_header_fits(bytes@);
    }
    let body_len = bytes.len() - header.body_offset;
    if header.size != body_len as u64 {
        return Err(ObjectError::CorruptObject);
    }
    Ok(header)
}

/// Writes an object: the header for `kind` and the length of `content`, then
/// `content` itself.
pub fn serialize(kind: &str, content: &[u8]) -> (bytes: Vec<u8>)
    ensures
        bytes@ == object_bytes(kind@, content@),
{
    let mut out = build(kind, content.len());
    append_bytes(&mut out, content);
    out
}

/// The header of a kind and a length reads back as that kind and that
/// length, whatever follows it, and ends where the header's bytes end.
pub proof fn lemma_header_reads_back(kind: Seq<char>, len: nat, content: Seq<u8>)
    requires
        is_kind(kind),
        len <= u64::MAX,
    ensures
        header_of(header_bytes(kind, len) + content) == Ok::<HeaderModel, ObjectError>(
            HeaderModel { kind, size: len, body_offset: header_bytes(kind, len).len() },
        ),
{
    let name = encode_utf8(kind);
    let digits = decimal_digits(len);
    let stream = header_bytes(kind, len) + content;
    lemma_encoded_text_free_of(kind, SPACE);
    lemma_encoded_text_free_of(kind, NUL);
    lemma_digits_of(len);
    lemma_digits_free_of(digits, NUL);
    let nul = name.len() + 1 + digits.len();
    assert(first_at(stream, NUL, nul as int)) by {
        assert forall|j: int| 0 <= j < nul implies stream[j] != NUL by {
            if j < name.len() {
                assert(stream[j] == name[j]);
            } else if j == name.len() {
            } else {
                assert(stream[j] == digits[j - name.len() - 1]);
            }
        }
    }
    lemma_first_index_is(stream, NUL, nul as int);
    let prefix = stream.take(nul as int);
    assert(prefix =~= name + seq![SPACE] + digits);
    assert(first_at(prefix, SPACE, name.len() as int)) by {
        assert forall|j: int| 0 <= j < name.len() implies prefix[j] != SPACE by {
            assert(prefix[j] == name[j]);
        }
    }
    lemma_first_index_is(prefix, SPACE, name.len() as int);
    assert(prefix.take(name.len() as int) =~= name);
    assert(prefix.skip(name.len() as int + 1) =~= digits);
    encode_utf8_valid_utf8(kind);
    encode_utf8_decode_utf8(kind);
}

} // verus!
