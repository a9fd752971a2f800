//! Finding a delimiter in a byte stream.

use vstd::prelude::*;

verus! {

/// The space that ends a numeric field.
pub const SPACE: u8 = 32;

/// The NUL that ends a header and a name.
pub const NUL: u8 = 0;

/// `i` is the position of the first `b` in `s`.
pub open spec fn first_at(s: Seq<u8>, b: u8, i: int) -> bool {
    &&& 0 <= i < s.len()
    &&& s[i] == b
    &&& forall|j: int| 0 <= j < i ==> s[j] != b
}

/// The position of the first `b` in `s`, if `s` holds one.
pub open spec fn first_index_of(s: Seq<u8>, b: u8) -> Option<int> {
    if exists|i: int| first_at(s, b, i) {
        Some(choose|i: int| first_at(s, b, i))
    } else {
        None
    }
}

/// No byte of `s` is `b`.
pub open spec fn free_of(s: Seq<u8>, b: u8) -> bool {
    forall|j: int| 0 <= j < s.len() ==> s[j] != b
}

/// A first position is the only one.
pub proof fn lemma_first_index_is(s: Seq<u8>, b: u8, i: int)
    requires
        first_at(s, b, i),
    ensures
        first_index_of(s, b) == Some(i),
{
    let k = choose|k: int| first_at(s, b, k);
    assert(first_at(s, b, k));
    if k < i {
        assert(s[k] != b);
    } else if i < k {
        assert(s[i] != b);
    }
}

/// A stream without the byte has no first position of it, and the other way round.
pub proof fn lemma_first_index_none(s: Seq<u8>, b: u8)
    ensures
        first_index_of(s, b) is None <==> free_of(s, b),
{
    if free_of(s, b) {
        if exists|i: int| first_at(s, b, i) {
            let k = choose|k: int| first_at(s, b, k);
            assert(s[k] != b);
        }
    } else {
        let j = choose|j: int| 0 <= j < s.len() && s[j] == b;
        lemma_first_exists(s, b, j);
    }
}

/// Where `s` holds `b` at `j`, it holds a first `b` at or before `j`.
pub proof fn lemma_first_exists(s: Seq<u8>, b: u8, j: int)
    requires
        0 <= j < s.len(),
        s[j] == b,
    ensures
        exists|i: int| first_at(s, b, i) && i <= j,
    decreases j,
{
    if forall|k: int| 0 <= k < j ==> s[k] != b {
        assert(first_at(s, b, j));
    } else {
        let k = choose|k: int| 0 <= k < j && s[k] == b;
        lemma_first_exists(s, b, k);
    }
}

/// What a found position says of the stream around it.
pub proof fn lemma_first_index_some(s: Seq<u8>, b: u8)
    requires
        first_index_of(s, b) is Some,
    ensures
        first_at(s, b, first_index_of(s, b).unwrap()),
{
}

/// Scans `s` for the first `b`.
pub fn find_byte(s: &[u8], b: u8) -> (r: Option<usize>)
    ensures
        match r {
            Some(i) => first_index_of(s@, b) == Some(i as int),
            None => first_index_of(s@, b) is None,
        },
{
    let mut i: usize = 0;
    while i < s.len()
        invariant
            0 <= i <= s@.len(),
            forall|j: int| 0 <= j < i ==> s@[j] != b,
        decreases s@.len() - i,
    {
        if s[i] == b {
            proof {
                lemma_first_index_is(s@, b, i as int);
            }
            return Some(i);
        }
        i += 1;
    }
    proof {
        lemma_first_index_none(s@, b);
    }
    None
}

/// Appends the bytes of `src` to `out`.
pub fn append_bytes(out: &mut Vec<u8>, src: &[u8])
    ensures
        final(out)@ == old(out)@ + src@,
{
    let mut i: usize = 0;
    while i < src.len()
        invariant
            0 <= i <= src@.len(),
            out@ == old(out)@ + src@.take(i as int),
        decreases src@.len() - i,
    {
        out.push(src[i]);
        assert(out@ =~= old(out)@ + src@.take(i + 1));
        i += 1;
    }
    assert(src@.take(i as int) =~= src@);
}

} // verus!
