//! The body of a blob or a commit, cut into records at each NUL.

use crate::codec::scan::{find_byte, first_index_of, lemma_first_index_some};
use vstd::prelude::*;
use vstd::slice::{slice_subrange, slice_to_vec};

verus! {

/// The byte sequences that `pieces` hold.
pub open spec fn views_of(pieces: Seq<Vec<u8>>) -> Seq<Seq<u8>> {
    Seq::new(pieces.len(), |i: int| pieces[i]@)
}

/// The pieces into which the delimiter `b` cuts `s`, in order, without the
/// delimiters. A stream without the delimiter is one piece, and a stream
/// that ends in it has an empty last piece.
pub open spec fn split_on(s: Seq<u8>, b: u8) -> Seq<Seq<u8>>
    decreases s.len(),
    via split_on_ends
{
    match first_index_of(s, b) {
        None => seq![s],
        Some(i) => seq![s.take(i)] + split_on(s.skip(i + 1), b),
    }
}

#[via_fn]
proof fn split_on_ends(s: Seq<u8>, b: u8) {
    if first_index_of(s, b) is Some {
        lemma_first_index_some(s, b);
    }
}

/// A stream is cut into at least one piece.
pub proof fn lemma_split_first(s: Seq<u8>, b: u8)
    ensures
        split_on(s, b).len() >= 1,
        split_on(s, b)[0] == match first_index_of(s, b) {
            Some(i) => s.take(i),
            None => s,
        },
{
}

/// Cuts `s` at each `b`.
pub fn split(s: &[u8], b: u8) -> (pieces: Vec<Vec<u8>>)
    ensures
        views_of(pieces@) == split_on(s@, b),
        pieces@.len() >= 1,
{
    let len = s.len();
    let mut out: Vec<Vec<u8>> = Vec::new();
    let mut pos: usize = 0;
    assert(s@.skip(0) =~= s@);
    assert(views_of(out@) + split_on(s@, b) =~= split_on(s@, b));
    loop
        invariant
            len == s@.len(),
            0 <= pos <= len,
            split_on(s@, b) == views_of(out@) + split_on(s@.skip(pos as int), b),
        decreases len - pos,
    {
        let rest = slice_subrange(s, pos, len);
        assert(rest@ =~= s@.skip(pos as int));
        let ghost before = views_of(out@);
        match find_byte(rest, b) {
            None => {
                out.push(slice_to_vec(rest));
                assert(views_of(out@) =~= before + seq![rest@]);
                return out;
            },
            Some(i) => {
                proof {
                    lemma_first_index_some(rest@, b);
                    assert(rest@.skip(i + 1) =~= s@.skip(pos + i + 1));
                    assert(before + (seq![rest@.take(i as int)] + split_on(rest@.skip(i + 1), b))
                        =~= before + seq![rest@.take(i as int)] + split_on(
                        rest@.skip(i + 1),
                        b,
                    ));
                }
                out.push(slice_to_vec(slice_subrange(rest, 0, i)));
                assert(views_of(out@) =~= before + seq![rest@.take(i as int)]);
                pos = pos + i + 1;
            },
        }
    }
}

/// A copy of `pieces`.
pub fn copy_pieces(pieces: &Vec<Vec<u8>>) -> (copy: Vec<Vec<u8>>)
    ensures
        views_of(copy@) == views_of(pieces@),
{
    let mut out: Vec<Vec<u8>> = Vec::new();
    let mut i: usize = 0;
    while i < pieces.len()
        invariant
            0 <= i <= pieces@.len(),
            views_of(out@) == views_of(pieces@).take(i as int),
        decreases pieces@.len() - i,
    {
        let ghost before = views_of(out@);
        out.push(slice_to_vec(pieces[i].as_slice()));
        assert(views_of(out@) =~= before.push(pieces@[i as int]@));
        assert(views_of(pieces@).take(i + 1) =~= views_of(pieces@).take(i as int).push(
            pieces@[i as int]@,
        ));
        i += 1;
    }
    assert(views_of(pieces@).take(i as int) =~= views_of(pieces@));
    out
}

} // verus!
