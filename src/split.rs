use vstd::prelude::*;

verus! {

/// The pieces of `s` between the occurrences of `sep`, in order: `k`
/// occurrences give `k + 1` pieces, and an `s` without `sep` is one piece.
pub open spec fn split_on<A>(s: Seq<A>, sep: A) -> Seq<Seq<A>>
    decreases s.len(),
{
    if s.len() == 0 {
        seq![Seq::empty()]
    } else {
        let rest = split_on(s.drop_last(), sep);
        if s.last() == sep {
            rest.push(Seq::empty())
        } else {
            rest.update(rest.len() - 1, rest.last().push(s.last()))
        }
    }
}

pub proof fn lemma_split_nonempty<A>(s: Seq<A>, sep: A)
    ensures
        split_on(s, sep).len() >= 1,
    decreases s.len(),
{
    if s.len() > 0 {
        lemma_split_nonempty(s.drop_last(), sep);
    }
}

/// The pieces of a prefix of `s` are those of `s`, but for the last piece
/// of the prefix, which may be cut short.
pub proof fn lemma_split_prefix<A>(s: Seq<A>, sep: A, i: int)
    requires
        0 <= i <= s.len(),
    ensures
        split_on(s.take(i), sep).len() <= split_on(s, sep).len(),
        forall|j: int|
            0 <= j < split_on(s.take(i), sep).len() - 1 ==> #[trigger] split_on(s.take(i), sep)[j]
                == split_on(s, sep)[j],
    decreases s.len() - i,
{
    if i < s.len() {
        lemma_split_prefix(s, sep, i + 1);
        assert(s.take(i + 1).drop_last() =~= s.take(i));
        lemma_split_nonempty(s.take(i), sep);
        let a = split_on(s.take(i), sep);
        let b = split_on(s.take(i + 1), sep);
        assert forall|j: int| 0 <= j < a.len() - 1 implies #[trigger] a[j] == split_on(s, sep)[j] by {
            assert(b[j] == a[j]);
        }
    } else {
        assert(s.take(i) =~= s);
    }
}

} // verus!
