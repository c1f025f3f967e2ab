//! Comparing byte strings and writing one into another.

use vstd::prelude::*;

verus! {

/// `bytes` with `piece` written over it from position `start` on.
pub open spec fn splice(bytes: Seq<u8>, start: int, piece: Seq<u8>) -> Seq<u8> {
    bytes.subrange(0, start) + piece + bytes.subrange(start + piece.len(), bytes.len() as int)
}

/// Writing a piece and then a second one right behind it writes the two
/// pieces joined.
pub proof fn lemma_splice_twice(bytes: Seq<u8>, start: int, first: Seq<u8>, second: Seq<u8>)
    requires
        0 <= start,
        start + first.len() + second.len() <= bytes.len(),
    ensures
        splice(splice(bytes, start, first), start + first.len(), second) == splice(
            bytes,
            start,
            first + second,
        ),
{
    assert(splice(splice(bytes, start, first), start + first.len(), second) =~= splice(
        bytes,
        start,
        first + second,
    ));
}

/// Writing nothing changes nothing, and writing over all of a byte string
/// leaves the piece written.
pub proof fn lemma_splice_trivial(bytes: Seq<u8>, start: int, piece: Seq<u8>)
    requires
        0 <= start <= bytes.len(),
    ensures
        splice(bytes, start, Seq::<u8>::empty()) == bytes,
        start == 0 && piece.len() == bytes.len() ==> splice(bytes, start, piece) == piece,
{
    assert(splice(bytes, start, Seq::<u8>::empty()) =~= bytes);
    if start == 0 && piece.len() == bytes.len() {
        assert(splice(bytes, start, piece) =~= piece);
    }
}

/// The bytes from position `from` on.
pub open spec fn tail(bytes: Seq<u8>, from: usize) -> Seq<u8> {
    bytes.skip(from as int)
}

/// The tail from a position on starts with the byte at that position, and
/// goes on with the tail from the next position on.
pub proof fn lemma_tail(bytes: Seq<u8>, from: usize)
    requires
        from < bytes.len() <= usize::MAX,
    ensures
        tail(bytes, from).len() == bytes.len() - from,
        tail(bytes, from)[0] == bytes[from as int],
        tail(bytes, from).drop_first() == tail(bytes, (from + 1) as usize),
        tail(bytes, 0) == bytes,
{
    assert(tail(bytes, from).drop_first() =~= tail(bytes, (from + 1) as usize));
    assert(tail(bytes, 0) =~= bytes);
}

/// Tells whether two byte strings are the same.
pub fn bytes_eq(a: &[u8], b: &[u8]) -> (same: bool)
    ensures
        same == (a@ == b@),
{
    if a.len() != b.len() {
        return false;
    }
    let mut i: usize = 0;
    while i < a.len()
        invariant
            i <= a@.len(),
            a@.len() == b@.len(),
            a@.subrange(0, i as int) == b@.subrange(0, i as int),
        decreases a@.len() - i,
    {
        if a[i] != b[i] {
            assert(a@[i as int] != b@[i as int]);
            return false;
        }
        assert(a@.subrange(0, i as int + 1) =~= a@.subrange(0, i as int).push(a@[i as int]));
        assert(b@.subrange(0, i as int + 1) =~= b@.subrange(0, i as int).push(b@[i as int]));
        i = i + 1;
    }
    assert(a@.subrange(0, i as int) =~= a@);
    assert(b@.subrange(0, i as int) =~= b@);
    true
}

/// Writes `piece` into `slice` from position `start` on.
pub fn copy_at(slice: &mut [u8], start: usize, piece: &[u8])
    requires
        start + piece@.len() <= old(slice)@.len(),
    ensures
        final(slice)@ == splice(old(slice)@, start as int, piece@),
{
    let total = slice.len();
    let mut i: usize = 0;
    assert(slice@ =~= splice(old(slice)@, start as int, piece@.subrange(0, 0)));
    while i < piece.len()
        invariant
            i <= piece@.len(),
            start + piece@.len() <= slice@.len(),
            slice@.len() == total,
            slice@.len() == old(slice)@.len(),
            slice@ == splice(old(slice)@, start as int, piece@.subrange(0, i as int)),
        decreases piece@.len() - i,
    {
        let ghost before = slice@;
        slice[start + i] = piece[i];
        assert(slice@ =~= splice(old(slice)@, start as int, piece@.subrange(0, i as int + 1)));
        i = i + 1;
    }
    assert(piece@.subrange(0, i as int) =~= piece@);
}

} // verus!
