use vstd::prelude::*;
use crate::percentile::{slice_len, slice_len_spec};

verus! {

/// One group of statistics to compute over a sorted series: the prefix of
/// length `len`, which is the whole series when `percentile` is `None` and
/// the lowest `percentile` percent of it otherwise.
#[derive(PartialEq, Eq, Structural, Debug, Clone, Copy)]
pub struct Scope {
    pub percentile: Option<u8>,
    pub len: usize,
}

/// The percentile scopes over `n` values, in the order asked for, duplicates
/// kept, without those whose slice is empty.
pub open spec fn percentile_scopes(n: nat, ps: Seq<u8>) -> Seq<Scope>
    decreases ps.len(),
{
    if ps.len() == 0 {
        Seq::empty()
    } else {
        let rest = percentile_scopes(n, ps.drop_last());
        let p = ps.last();
        let len = slice_len_spec(n, p as nat);
        if len > 0 {
            rest.push(Scope { percentile: Some(p), len: len as usize })
        } else {
            rest
        }
    }
}

pub open spec fn all_percentiles(ps: Seq<u8>) -> bool {
    forall|i: int| 0 <= i < ps.len() ==> #[trigger] ps[i] <= 100
}

/// The scopes of a bundle over `n` sorted values: none when there are no
/// values; else the whole series first, then the non-empty percentile
/// slices in the order asked for.
pub open spec fn bundle_scopes(n: nat, ps: Seq<u8>) -> Option<Seq<Scope>> {
    if n == 0 {
        None
    } else {
        Some(seq![Scope { percentile: None, len: n as usize }] + percentile_scopes(n, ps))
    }
}

/// Every percentile scope has a non-empty slice within the series, and it
/// is the slice that its percentile gives.
pub proof fn lemma_percentile_scopes_nonempty(n: nat, ps: Seq<u8>)
    requires
        all_percentiles(ps),
        n <= usize::MAX,
    ensures
        forall|i: int|
            0 <= i < percentile_scopes(n, ps).len() ==> {
                let s = #[trigger] percentile_scopes(n, ps)[i];
                &&& s.percentile is Some
                &&& 0 < s.len <= n
                &&& s.len as nat == slice_len_spec(n, s.percentile->Some_0 as nat)
            },
    decreases ps.len(),
{
    if ps.len() > 0 {
        assert(all_percentiles(ps.drop_last()));
        lemma_percentile_scopes_nonempty(n, ps.drop_last());
        let p = ps.last();
        assert(p <= 100);
        assert((p as nat) * n <= 100 * n) by (nonlinear_arith)
            requires
                p <= 100,
        ;
        let rest = percentile_scopes(n, ps.drop_last());
        let all = percentile_scopes(n, ps);
        assert forall|i: int| 0 <= i < all.len() implies {
            let s = #[trigger] all[i];
            &&& s.percentile is Some
            &&& 0 < s.len <= n
            &&& s.len as nat == slice_len_spec(n, s.percentile->Some_0 as nat)
        } by {
            if i < rest.len() {
                assert(all[i] == rest[i]);
            }
        }
    }
}

/// A percentile whose slice is empty adds no scope: the scopes asked for
/// with it are those asked for without it.
pub proof fn lemma_empty_slice_omitted(n: nat, ps: Seq<u8>, i: int)
    requires
        0 <= i < ps.len(),
        slice_len_spec(n, ps[i] as nat) == 0,
    ensures
        percentile_scopes(n, ps) == percentile_scopes(n, ps.remove(i)),
    decreases ps.len(),
{
    if i == ps.len() - 1 {
        assert(ps.remove(i) =~= ps.drop_last());
    } else {
        lemma_empty_slice_omitted(n, ps.drop_last(), i);
        assert(ps.remove(i).drop_last() =~= ps.drop_last().remove(i));
        assert(ps.remove(i).last() == ps.last());
    }
}

/// A bundle over an empty series is absent, whatever the percentiles.
pub proof fn lemma_empty_series_no_bundle(ps: Seq<u8>)
    ensures
        bundle_scopes(0, ps) is None,
{
}

/// Plans the statistics of a bundle over a sorted series of `num_vals`
/// values and the percentiles asked for: `None` when there are no values.
pub fn bundle_scopes_of(num_vals: usize, percentiles: &[u8]) -> (r: Option<Vec<Scope>>)
    requires
        num_vals > 0 ==> all_percentiles(percentiles@),
    ensures
        r is None <==> num_vals == 0,
        r matches Some(v) ==> bundle_scopes(num_vals as nat, percentiles@) == Some(v@),
{
    if num_vals == 0 {
        return None;
    }
    let mut out: Vec<Scope> = Vec::new();
    out.push(Scope { percentile: None, len: num_vals });
    let mut i: usize = 0;
    while i < percentiles.len()
        invariant
            i <= percentiles@.len(),
            all_percentiles(percentiles@),
            out@ == seq![Scope { percentile: None, len: num_vals }] + percentile_scopes(
                num_vals as nat,
                percentiles@.take(i as int),
            ),
        decreases percentiles@.len() - i,
    {
        let p = percentiles[i];
        let len = slice_len(num_vals, p);
        assert(percentiles@.take(i + 1).drop_last() =~= percentiles@.take(i as int));
        if len > 0 {
            out.push(Scope { percentile: Some(p), len: len });
        }
        i = i + 1;
    }
    assert(percentiles@.take(i as int) =~= percentiles@);
    Some(out)
}

/// The positions of the values whose mean is the median of `n` sorted values.
pub open spec fn median_positions_spec(n: nat) -> (nat, nat) {
    if n % 2 == 1 {
        (n / 2, n / 2)
    } else {
        ((n / 2 - 1) as nat, n / 2)
    }
}

/// The positions of the middle value of `len` sorted values, or of the two
/// values next to the midpoint when `len` is even.
pub fn median_positions(len: usize) -> (r: (usize, usize))
    requires
        len >= 1,
    ensures
        r.0 as nat == median_positions_spec(len as nat).0,
        r.1 as nat == median_positions_spec(len as nat).1,
        r.0 <= r.1 < len,
{
    if len % 2 == 1 {
        (len / 2, len / 2)
    } else {
        (len / 2 - 1, len / 2)
    }
}

pub open spec fn sorted(s: Seq<int>) -> bool {
    forall|i: int, j: int| 0 <= i <= j < s.len() ==> s[i] <= s[j]
}

/// In a sorted series the values at the median positions lie between the
/// least and the greatest value.
pub proof fn lemma_median_between(s: Seq<int>)
    requires
        s.len() >= 1,
        sorted(s),
    ensures
        ({
            let (a, b) = median_positions_spec(s.len());
            &&& a <= b < s.len()
            &&& s[0] <= s[a as int] <= s[b as int] <= s[s.len() - 1]
        }),
{
    let (a, b) = median_positions_spec(s.len());
    assert(s[0] <= s[a as int]);
    assert(s[a as int] <= s[b as int]);
    assert(s[b as int] <= s[s.len() - 1]);
}

} // verus!
