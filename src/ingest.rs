use vstd::prelude::*;
use crate::split::split_on;

verus! {

/// Whether values are sorted as they are read. Percentile slices and the
/// median need sorted values; the other statistics do not.
#[derive(PartialEq, Eq, Structural, Debug, Clone, Copy)]
pub enum SortingPolicy {
    Sorted,
    Unsorted,
}

/// How input that is not a number is handled.
#[derive(PartialEq, Eq, Structural, Debug, Clone, Copy)]
pub enum ErrorPolicy {
    Ignore,
    Mean,
    Median,
    Value,
}

pub const NEWLINE: u8 = 10;

/// The lines of a text: the pieces between newlines, where a newline at the
/// very end (or an empty text) starts no further line.
pub open spec fn lines_of(b: Seq<u8>) -> Seq<Seq<u8>> {
    let pieces = split_on(b, NEWLINE);
    if pieces.last().len() == 0 {
        pieces.drop_last()
    } else {
        pieces
    }
}

/// The byte ranges `[start, end)` of the lines of a text, in order, without
/// their newlines.
pub fn line_ranges(bytes: &[u8]) -> (r: Vec<(usize, usize)>)
    ensures
        r@.len() == lines_of(bytes@).len(),
        forall|k: int|
            0 <= k < r@.len() ==> {
                let (a, b) = #[trigger] r@[k];
                &&& a <= b <= bytes@.len()
                &&& bytes@.subrange(a as int, b as int) == lines_of(bytes@)[k]
            },
{
    let len = bytes.len();
    let mut out: Vec<(usize, usize)> = Vec::new();
    let mut start: usize = 0;
    let mut i: usize = 0;
    let ghost mut done: Seq<Seq<u8>> = Seq::empty();
    assert(bytes@.take(0) =~= Seq::<u8>::empty());
    assert(bytes@.subrange(0, 0) =~= Seq::<u8>::empty());
    assert(done.push(Seq::<u8>::empty()) =~= seq![Seq::<u8>::empty()]);
    while i < len
        invariant
            len == bytes@.len(),
            start <= i <= len,
            split_on(bytes@.take(i as int), NEWLINE) == done.push(
                bytes@.subrange(start as int, i as int),
            ),
            out@.len() == done.len(),
            forall|k: int|
                0 <= k < out@.len() ==> {
                    let (a, b) = #[trigger] out@[k];
                    &&& a <= b <= bytes@.len()
                    &&& bytes@.subrange(a as int, b as int) == done[k]
                },
        decreases len - i,
    {
        let c = bytes[i];
        assert(bytes@.take(i + 1).drop_last() =~= bytes@.take(i as int));
        if c == NEWLINE {
            out.push((start, i));
            proof {
                done = done.push(bytes@.subrange(start as int, i as int));
                assert(bytes@.subrange(i + 1, i + 1) =~= Seq::<u8>::empty());
            }
            start = i + 1;
        } else {
            assert(bytes@.subrange(start as int, i + 1) =~= bytes@.subrange(
                start as int,
                i as int,
            ).push(c));
        }
        i = i + 1;
    }
    assert(bytes@.take(len as int) =~= bytes@);
    if start < len {
        out.push((start, len));
        proof {
            done = done.push(bytes@.subrange(start as int, len as int));
        }
    } else {
        assert(split_on(bytes@, NEWLINE).drop_last() =~= done);
    }
    out
}

} // verus!
