use vstd::prelude::*;
use crate::separator::KeyValueSep;

verus! {

pub open spec fn digit_char(d: nat) -> char {
    if d == 0 {
        '0'
    } else if d == 1 {
        '1'
    } else if d == 2 {
        '2'
    } else if d == 3 {
        '3'
    } else if d == 4 {
        '4'
    } else if d == 5 {
        '5'
    } else if d == 6 {
        '6'
    } else if d == 7 {
        '7'
    } else if d == 8 {
        '8'
    } else {
        '9'
    }
}

/// The decimal digits of `n`, without leading zeros.
pub open spec fn decimal(n: nat) -> Seq<char>
    decreases n,
{
    if n < 10 {
        seq![digit_char(n)]
    } else {
        decimal(n / 10).push(digit_char(n % 10))
    }
}

fn digit_str(d: usize) -> (r: &'static str)
    requires
        d < 10,
    ensures
        r@ == seq![digit_char(d as nat)],
{
    proof {
        reveal_strlit("0");
        reveal_strlit("1");
        reveal_strlit("2");
        reveal_strlit("3");
        reveal_strlit("4");
        reveal_strlit("5");
        reveal_strlit("6");
        reveal_strlit("7");
        reveal_strlit("8");
        reveal_strlit("9");
    }
    match d {
        0 => "0",
        1 => "1",
        2 => "2",
        3 => "3",
        4 => "4",
        5 => "5",
        6 => "6",
        7 => "7",
        8 => "8",
        _ => "9",
    }
}

/// Writes `n` in decimal.
pub fn decimal_string(n: usize) -> (r: String)
    ensures
        r@ == decimal(n as nat),
    decreases n,
{
    if n < 10 {
        String::from_str(digit_str(n))
    } else {
        let mut s = decimal_string(n / 10);
        s.append(digit_str(n % 10));
        s
    }
}

/// One group of statistics ready to be written: its percentile (`None` for
/// the whole series), its count, and each real-valued statistic already
/// written as text with five decimals. The count is written with five
/// zero decimals too.
#[derive(PartialEq, Debug)]
pub struct StatisticsText {
    pub percentile: Option<u8>,
    pub count: usize,
    pub sum: String,
    pub mean: String,
    pub upper: String,
    pub lower: String,
    pub median: String,
    pub stddev: String,
}

/// The fraction written after a count, so that every value shows five
/// decimals.
pub open spec fn count_decimals() -> Seq<char> {
    ".00000"@
}

/// Number of lines written for each group of statistics.
pub const NUM_FIELDS: usize = 7;

/// The name of each field, in the order they are written.
pub open spec fn field_name(f: int) -> Seq<char> {
    if f == 0 {
        "count"@
    } else if f == 1 {
        "sum"@
    } else if f == 2 {
        "mean"@
    } else if f == 3 {
        "upper"@
    } else if f == 4 {
        "lower"@
    } else if f == 5 {
        "median"@
    } else {
        "stddev"@
    }
}

/// The key of field `f`: its bare name for the whole series, and the name
/// followed by `_` and the percentile for a percentile slice.
pub open spec fn field_key(f: int, percentile: Option<u8>) -> Seq<char> {
    match percentile {
        None => field_name(f),
        Some(p) => field_name(f) + "_"@ + decimal(p as nat),
    }
}

impl StatisticsText {
    /// The text of field `f`.
    pub open spec fn field_value(&self, f: int) -> Seq<char> {
        if f == 0 {
            decimal(self.count as nat) + count_decimals()
        } else if f == 1 {
            self.sum@
        } else if f == 2 {
            self.mean@
        } else if f == 3 {
            self.upper@
        } else if f == 4 {
            self.lower@
        } else if f == 5 {
            self.median@
        } else {
            self.stddev@
        }
    }

    /// The key and value of each line of this group, in order.
    pub open spec fn lines(&self) -> Seq<(Seq<char>, Seq<char>)> {
        Seq::new(NUM_FIELDS as nat, |f: int| (field_key(f, self.percentile), self.field_value(f)))
    }
}

/// One line of output: the key, the separator, the value, a newline.
pub open spec fn line(kv: (Seq<char>, Seq<char>), sep: Seq<char>) -> Seq<char> {
    kv.0 + sep + kv.1 + seq!['\n']
}

/// The lines, each joined by `sep`, one after another.
pub open spec fn join_lines(lines: Seq<(Seq<char>, Seq<char>)>, sep: Seq<char>) -> Seq<char>
    decreases lines.len(),
{
    if lines.len() == 0 {
        Seq::empty()
    } else {
        join_lines(lines.drop_last(), sep) + line(lines.last(), sep)
    }
}

/// The key and value of every line written for the groups, in order.
pub open spec fn all_lines(groups: Seq<StatisticsText>) -> Seq<(Seq<char>, Seq<char>)>
    decreases groups.len(),
{
    if groups.len() == 0 {
        Seq::empty()
    } else {
        all_lines(groups.drop_last()) + groups.last().lines()
    }
}

/// The text written for the groups: each group's lines in turn.
pub open spec fn rendered(groups: Seq<StatisticsText>, sep: Seq<char>) -> Seq<char>
    decreases groups.len(),
{
    if groups.len() == 0 {
        Seq::empty()
    } else {
        rendered(groups.drop_last(), sep) + join_lines(groups.last().lines(), sep)
    }
}

fn field_name_str(f: usize) -> (r: &'static str)
    requires
        f < NUM_FIELDS,
    ensures
        r@ == field_name(f as int),
{
    match f {
        0 => "count",
        1 => "sum",
        2 => "mean",
        3 => "upper",
        4 => "lower",
        5 => "median",
        _ => "stddev",
    }
}

/// The key of field `f` of a group with the given percentile.
pub fn field_key_string(f: usize, percentile: Option<u8>) -> (r: String)
    requires
        f < NUM_FIELDS,
    ensures
        r@ == field_key(f as int, percentile),
{
    let mut key = String::from_str(field_name_str(f));
    if let Some(p) = percentile {
        key.append("_");
        let digits = decimal_string(p as usize);
        key.append(digits.as_str());
    }
    key
}

impl StatisticsText {
    /// The text of field `f`.
    pub fn field_value_string(&self, f: usize) -> (r: String)
        requires
            f < NUM_FIELDS,
        ensures
            r@ == self.field_value(f as int),
    {
        match f {
            0 => {
                let mut text = decimal_string(self.count);
                text.append(".00000");
                text
            },
            1 => self.sum.clone(),
            2 => self.mean.clone(),
            3 => self.upper.clone(),
            4 => self.lower.clone(),
            5 => self.median.clone(),
            _ => self.stddev.clone(),
        }
    }
}

/// Appends the lines of one group to `buf`.
fn write_group(buf: &mut String, group: &StatisticsText, sep: &str)
    ensures
        final(buf)@ == old(buf)@ + join_lines(group.lines(), sep@),
{
    let ghost start = buf@;
    let mut f: usize = 0;
    assert(group.lines().take(0) =~= Seq::<(Seq<char>, Seq<char>)>::empty());
    while f < NUM_FIELDS
        invariant
            f <= NUM_FIELDS,
            buf@ == start + join_lines(group.lines().take(f as int), sep@),
        decreases NUM_FIELDS - f,
    {
        let key = field_key_string(f, group.percentile);
        let value = group.field_value_string(f);
        buf.append(key.as_str());
        buf.append(sep);
        buf.append(value.as_str());
        buf.append("\n");
        proof {
            reveal_strlit("\n");
            let ls = group.lines().take(f + 1);
            assert(ls.drop_last() =~= group.lines().take(f as int));
            assert(ls.last() == (key@, value@));
            assert(buf@ =~= start + join_lines(ls, sep@));
        }
        f = f + 1;
    }
    assert(group.lines().take(NUM_FIELDS as int) =~= group.lines());
}

/// Writes every group of statistics, in order, as `key<sep>value` lines.
pub fn render(groups: &Vec<StatisticsText>, sep: &KeyValueSep) -> (r: String)
    ensures
        r@ == rendered(groups@, sep.sep_text()),
{
    let sep_str = sep.get_sep();
    let mut buf = String::new();
    let mut i: usize = 0;
    assert(groups@.take(0) =~= Seq::<StatisticsText>::empty());
    while i < groups.len()
        invariant
            i <= groups@.len(),
            sep_str@ == sep.sep_text(),
            buf@ == rendered(groups@.take(i as int), sep.sep_text()),
        decreases groups@.len() - i,
    {
        write_group(&mut buf, &groups[i], sep_str);
        assert(groups@.take(i + 1).drop_last() =~= groups@.take(i as int));
        i = i + 1;
    }
    assert(groups@.take(i as int) =~= groups@);
    buf
}

proof fn lemma_join_lines_append(
    a: Seq<(Seq<char>, Seq<char>)>,
    b: Seq<(Seq<char>, Seq<char>)>,
    sep: Seq<char>,
)
    ensures
        join_lines(a + b, sep) == join_lines(a, sep) + join_lines(b, sep),
    decreases b.len(),
{
    if b.len() == 0 {
        assert(a + b =~= a);
        assert(join_lines(b, sep) =~= Seq::<char>::empty());
        assert(join_lines(a, sep) + join_lines(b, sep) =~= join_lines(a, sep));
    } else {
        assert((a + b).drop_last() =~= a + b.drop_last());
        assert((a + b).last() == b.last());
        lemma_join_lines_append(a, b.drop_last(), sep);
        assert(join_lines(a + b, sep) =~= join_lines(a, sep) + join_lines(b, sep));
    }
}

proof fn lemma_rendered_is_joined(groups: Seq<StatisticsText>, sep: Seq<char>)
    ensures
        rendered(groups, sep) == join_lines(all_lines(groups), sep),
    decreases groups.len(),
{
    if groups.len() > 0 {
        lemma_rendered_is_joined(groups.drop_last(), sep);
        lemma_join_lines_append(all_lines(groups.drop_last()), groups.last().lines(), sep);
    }
}

proof fn lemma_all_lines_index(groups: Seq<StatisticsText>)
    ensures
        all_lines(groups).len() == NUM_FIELDS * groups.len(),
        forall|j: int, f: int|
            0 <= j < groups.len() && 0 <= f < NUM_FIELDS ==> #[trigger] all_lines(groups)[NUM_FIELDS
                * j + f] == (field_key(f, groups[j].percentile), #[trigger] groups[j].field_value(
                f,
            )),
    decreases groups.len(),
{
    if groups.len() > 0 {
        let prev = groups.drop_last();
        lemma_all_lines_index(prev);
        let all = all_lines(groups);
        assert forall|j: int, f: int|
            0 <= j < groups.len() && 0 <= f < NUM_FIELDS implies #[trigger] all[NUM_FIELDS * j
            + f] == (field_key(f, groups[j].percentile), #[trigger] groups[j].field_value(f)) by {
            assert(NUM_FIELDS * j + f < NUM_FIELDS * groups.len()) by (nonlinear_arith)
                requires
                    0 <= j < groups.len(),
                    0 <= f < NUM_FIELDS,
            ;
            if j < prev.len() {
                assert(NUM_FIELDS * j + f < NUM_FIELDS * prev.len()) by (nonlinear_arith)
                    requires
                        0 <= j < prev.len(),
                        0 <= f < NUM_FIELDS,
                ;
                assert(groups[j] == prev[j]);
                assert(all[NUM_FIELDS * j + f] == all_lines(prev)[NUM_FIELDS * j + f]);
            } else {
                assert(NUM_FIELDS * j + f - NUM_FIELDS * prev.len() == f) by (nonlinear_arith)
                    requires
                        j == prev.len(),
                ;
                assert(all[NUM_FIELDS * j + f] == groups.last().lines()[f]);
            }
        }
    }
}

/// Changing the separator changes only the text between each key and its
/// value. For any two separators the output is the same list of lines, in
/// the same order, each one key, then the separator, then one value, and
/// the keys and values do not depend on the separator: line `7 * j + f` is
/// field `f` of group `j`.
pub proof fn lemma_separator_only_joins(
    groups: Seq<StatisticsText>,
    sep1: Seq<char>,
    sep2: Seq<char>,
)
    ensures
        rendered(groups, sep1) == join_lines(all_lines(groups), sep1),
        rendered(groups, sep2) == join_lines(all_lines(groups), sep2),
        all_lines(groups).len() == NUM_FIELDS * groups.len(),
        forall|j: int, f: int|
            0 <= j < groups.len() && 0 <= f < NUM_FIELDS ==> #[trigger] all_lines(groups)[NUM_FIELDS
                * j + f] == (field_key(f, groups[j].percentile), #[trigger] groups[j].field_value(
                f,
            )),
{
    lemma_rendered_is_joined(groups, sep1);
    lemma_rendered_is_joined(groups, sep2);
    lemma_all_lines_index(groups);
}

} // verus!
