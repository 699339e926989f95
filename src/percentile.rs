use vstd::prelude::*;
use crate::split::{split_on, lemma_split_prefix};

verus! {

/// Length of the prefix that holds "the lowest `p` percent" of `n` values.
pub open spec fn slice_len_spec(n: nat, p: nat) -> nat {
    (p * n) / 100
}

/// Number of values in the lowest `percentile` percent of a series of
/// `num_vals` values: `floor(percentile * num_vals / 100)`, in integers.
pub fn slice_len(num_vals: usize, percentile: u8) -> (r: usize)
    requires
        percentile <= 100,
    ensures
        r <= num_vals,
        r as nat == slice_len_spec(num_vals as nat, percentile as nat),
{
    let p = percentile as usize;
    let q = num_vals / 100;
    let m = num_vals % 100;
    proof {
        assert(p * (m as int) <= 100 * m) by (nonlinear_arith)
            requires
                p <= 100,
                m < 100,
        ;
        assert(p * q <= 100 * q) by (nonlinear_arith)
            requires
                p <= 100,
                q >= 0,
        ;
        assert(p * num_vals == 100 * (p * q) + p * m) by (nonlinear_arith)
            requires
                num_vals == 100 * q + m,
        ;
        assert((100 * (p * q) + p * m) / 100 == p * q + (p * m) / 100) by (nonlinear_arith)
            requires
                p * q >= 0,
                p * m >= 0,
        ;
    }
    p * q + (p * m) / 100
}

pub open spec fn is_digit(c: char) -> bool {
    '0' <= c && c <= '9'
}

pub open spec fn digit_value(c: char) -> nat {
    (c as nat - '0' as nat) as nat
}

/// The number that a string of decimal digits denotes.
pub open spec fn digits_value(d: Seq<char>) -> nat
    decreases d.len(),
{
    if d.len() == 0 {
        0
    } else {
        digits_value(d.drop_last()) * 10 + digit_value(d.last())
    }
}

pub open spec fn all_digits(d: Seq<char>) -> bool {
    forall|i: int| 0 <= i < d.len() ==> is_digit(#[trigger] d[i])
}

/// The digits of an unsigned decimal literal: one leading `+` is allowed.
pub open spec fn unsigned_digits(s: Seq<char>) -> Seq<char> {
    if s.len() > 0 && s[0] == '+' {
        s.skip(1)
    } else {
        s
    }
}

/// What parsing `s` as a `u8` gives: an optional `+`, then one or more
/// decimal digits whose value is at most 255.
pub open spec fn parse_u8_spec(s: Seq<char>) -> Option<u8> {
    let d = unsigned_digits(s);
    if d.len() > 0 && all_digits(d) && digits_value(d) <= 255 {
        Some(digits_value(d) as u8)
    } else {
        None
    }
}

proof fn lemma_digits_value_prefix(d: Seq<char>, k: int)
    requires
        0 <= k <= d.len(),
    ensures
        digits_value(d.take(k)) <= digits_value(d),
    decreases d.len(),
{
    if k < d.len() {
        assert(d.drop_last().take(k) =~= d.take(k));
        lemma_digits_value_prefix(d.drop_last(), k);
    } else {
        assert(d.take(k) =~= d);
    }
}

/// Parses an unsigned decimal number that fits in a `u8`.
pub fn parse_u8(s: &str) -> (r: Option<u8>)
    ensures
        r == parse_u8_spec(s@),
{
    let len = s.unicode_len();
    let mut i: usize = 0;
    if len > 0 && s.get_char(0) == '+' {
        i = 1;
    }
    let start = i;
    let ghost d = unsigned_digits(s@);
    assert(d =~= s@.skip(start as int));
    if start == len {
        return None;
    }
    let mut acc: u32 = 0;
    while i < len
        invariant
            start <= i <= len,
            len == s@.len(),
            start < len,
            d == s@.skip(start as int),
            d == unsigned_digits(s@),
            acc as nat == digits_value(d.take(i - start)),
            acc <= 255,
            all_digits(d.take(i - start)),
        decreases len - i,
    {
        let c = s.get_char(i);
        assert(d[i - start] == c);
        if c < '0' || c > '9' {
            assert(!is_digit(d[i - start]));
            return None;
        }
        assert(d.take(i + 1 - start).drop_last() =~= d.take(i - start));
        assert(d.take(i + 1 - start).last() == c);
        acc = acc * 10 + (c as u32 - '0' as u32);
        assert(acc as nat == digits_value(d.take(i + 1 - start)));
        assert(all_digits(d.take(i + 1 - start))) by {
            assert forall|j: int| 0 <= j < i + 1 - start implies is_digit(
                #[trigger] d.take(i + 1 - start)[j],
            ) by {
                if j < i - start {
                    assert(d.take(i + 1 - start)[j] == d.take(i - start)[j]);
                }
            }
        }
        i = i + 1;
        if acc > 255 {
            proof {
                lemma_digits_value_prefix(d, i - start);
            }
            return None;
        }
    }
    assert(d.take(i - start) =~= d);
    Some(acc as u8)
}

/// A piece that names a percentile: a `u8` from 1 to 99.
pub open spec fn valid_percentile(t: Seq<char>) -> bool {
    match parse_u8_spec(t) {
        Some(v) => 1 <= v && v <= 99,
        None => false,
    }
}

pub open spec fn percentile_value(t: Seq<char>) -> u8 {
    match parse_u8_spec(t) {
        Some(v) => v,
        None => 0,
    }
}

/// The percentiles named by the valid pieces, in order; the others are
/// skipped.
pub open spec fn kept_percentiles(toks: Seq<Seq<char>>) -> Seq<u8>
    decreases toks.len(),
{
    if toks.len() == 0 {
        Seq::empty()
    } else {
        let rest = kept_percentiles(toks.drop_last());
        if valid_percentile(toks.last()) {
            rest.push(percentile_value(toks.last()))
        } else {
            rest
        }
    }
}

pub open spec fn all_valid_percentiles(toks: Seq<Seq<char>>) -> bool {
    forall|j: int| 0 <= j < toks.len() ==> valid_percentile(#[trigger] toks[j])
}

/// Index of the first piece that names no percentile.
pub open spec fn first_invalid(toks: Seq<Seq<char>>, k: int) -> bool {
    &&& 0 <= k < toks.len()
    &&& !valid_percentile(toks[k])
    &&& forall|j: int| 0 <= j < k ==> valid_percentile(#[trigger] toks[j])
}

pub open spec fn invalid_percentile_message(t: Seq<char>) -> Seq<char> {
    "Invalid percentile value "@ + t
}

/// Percentiles from a comma separated list, skipping every piece that is not
/// a number from 1 to 99.
pub fn get_percents(pcnt: String) -> (r: Vec<u8>)
    ensures
        r@ == kept_percentiles(split_on(pcnt@, ',')),
{
    let s = pcnt.as_str();
    let len = s.unicode_len();
    let mut out: Vec<u8> = Vec::new();
    let mut start: usize = 0;
    let mut i: usize = 0;
    let ghost mut done: Seq<Seq<char>> = Seq::empty();
    assert(s@.take(0) =~= Seq::<char>::empty());
    assert(s@.subrange(0, 0) =~= Seq::<char>::empty());
    assert(done.push(Seq::<char>::empty()) =~= seq![Seq::<char>::empty()]);
    while i < len
        invariant
            len == s@.len(),
            start <= i <= len,
            split_on(s@.take(i as int), ',') == done.push(s@.subrange(start as int, i as int)),
            out@ == kept_percentiles(done),
        decreases len - i,
    {
        let c = s.get_char(i);
        assert(s@.take(i + 1).drop_last() =~= s@.take(i as int));
        if c == ',' {
            let tok = s.substring_char(start, i);
            if let Some(v) = parse_u8(tok) {
                if 1 <= v && v <= 99 {
                    out.push(v);
                }
            }
            proof {
                assert(done.push(tok@).drop_last() =~= done);
                done = done.push(tok@);
                assert(s@.subrange(i + 1, i + 1) =~= Seq::<char>::empty());
            }
            start = i + 1;
        } else {
            assert(s@.subrange(start as int, i + 1) =~= s@.subrange(start as int, i as int).push(c));
        }
        i = i + 1;
    }
    let tok = s.substring_char(start, len);
    if let Some(v) = parse_u8(tok) {
        if 1 <= v && v <= 99 {
            out.push(v);
        }
    }
    assert(s@.take(len as int) =~= s@);
    assert(done.push(tok@).drop_last() =~= done);
    out
}

/// The percentile that one piece of a list names, if it names one.
fn percentile_piece(tok: &str) -> (r: Option<u8>)
    ensures
        r is Some <==> valid_percentile(tok@),
        r matches Some(v) ==> v == percentile_value(tok@),
{
    match parse_u8(tok) {
        Some(v) => if 1 <= v && v <= 99 {
            Some(v)
        } else {
            None
        },
        None => None,
    }
}

/// The percentiles that statistics are asked for, in the order given.
#[derive(Default, PartialEq, Debug)]
pub struct Percentiles {
    pub value: Vec<u8>,
}

impl Percentiles {
    /// Parses a comma separated list of percentiles. Every piece must be a
    /// number from 1 to 99; the first piece that is not gives the error.
    pub fn parse(val: &str) -> (r: Result<Percentiles, String>)
        ensures
            r is Ok <==> all_valid_percentiles(split_on(val@, ',')),
            r matches Ok(p) ==> p.value@ == kept_percentiles(split_on(val@, ',')),
            r matches Err(e) ==> exists|k: int|
                first_invalid(split_on(val@, ','), k) && e@ == invalid_percentile_message(
                    #[trigger] split_on(val@, ',')[k],
                ),
    {
        let len = val.unicode_len();
        let mut out: Vec<u8> = Vec::new();
        let mut start: usize = 0;
        let mut i: usize = 0;
        let ghost mut done: Seq<Seq<char>> = Seq::empty();
        assert(val@.take(0) =~= Seq::<char>::empty());
        assert(val@.subrange(0, 0) =~= Seq::<char>::empty());
        assert(done.push(Seq::<char>::empty()) =~= seq![Seq::<char>::empty()]);
        while i < len
            invariant
                len == val@.len(),
                start <= i <= len,
                split_on(val@.take(i as int), ',') == done.push(val@.subrange(start as int, i as int)),
                all_valid_percentiles(done),
                out@ == kept_percentiles(done),
            decreases len - i,
        {
            let c = val.get_char(i);
            assert(val@.take(i + 1).drop_last() =~= val@.take(i as int));
            if c == ',' {
                let tok = val.substring_char(start, i);
                let piece = percentile_piece(tok);
                proof {
                    lemma_split_prefix(val@, ',', i + 1);
                    let pre = split_on(val@.take(i + 1), ',');
                    assert(pre == done.push(tok@).push(Seq::<char>::empty()));
                    assert(pre[done.len() as int] == tok@);
                    assert forall|j: int| 0 <= j < done.len() implies done[j] == split_on(
                        val@,
                        ',',
                    )[j] by {
                        assert(pre[j] == done[j]);
                    }
                    assert(split_on(val@, ',')[done.len() as int] == tok@);
                    assert forall|j: int| 0 <= j < done.len() implies valid_percentile(
                        #[trigger] split_on(val@, ',')[j],
                    ) by {
                        assert(valid_percentile(done[j]));
                    }
                }
                match piece {
                    Some(v) => {
                        out.push(v);
                    },
                    None => {
                        proof {
                            assert(first_invalid(split_on(val@, ','), done.len() as int));
                        }
                        return Err(String::from_str("Invalid percentile value ").concat(tok));
                    },
                }
                proof {
                    assert(done.push(tok@).drop_last() =~= done);
                    done = done.push(tok@);
                    assert(val@.subrange(i + 1, i + 1) =~= Seq::<char>::empty());
                }
                start = i + 1;
            } else {
                assert(val@.subrange(start as int, i + 1) =~= val@.subrange(
                    start as int,
                    i as int,
                ).push(c));
            }
            i = i + 1;
        }
        let tok = val.substring_char(start, len);
        assert(val@.take(len as int) =~= val@);
        assert(done.push(tok@).drop_last() =~= done);
        match percentile_piece(tok) {
            Some(v) => {
                out.push(v);
            },
            None => {
                proof {
                    assert(first_invalid(split_on(val@, ','), done.len() as int));
                }
                return Err(String::from_str("Invalid percentile value ").concat(tok));
            },
        }
        Ok(Percentiles { value: out })
    }
}

impl std::str::FromStr for Percentiles {
    type Err = String;

    fn from_str(val: &str) -> (r: Result<Percentiles, String>)
        ensures
            r is Ok <==> all_valid_percentiles(split_on(val@, ',')),
            r matches Ok(p) ==> p.value@ == kept_percentiles(split_on(val@, ',')),
            r matches Err(e) ==> exists|k: int|
                first_invalid(split_on(val@, ','), k) && e@ == invalid_percentile_message(
                    #[trigger] split_on(val@, ',')[k],
                ),
    {
        Percentiles::parse(val)
    }
}

} // verus!
