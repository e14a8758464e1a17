//! Character-level helpers: splitting a line into fields and reading
//! unsigned decimal numbers.
use vstd::prelude::*;

verus! {

broadcast use vstd::string::axiom_spec_iter;

/// The characters of `s`, in order.
pub fn chars_of(s: &str) -> (r: Vec<char>)
    ensures
        r@ == s@,
{
    let mut r: Vec<char> = Vec::new();
    for c in it: s.chars()
        invariant
            r@ == it.seq().take(it.index() as int),
    {
        r.push(c);
    }
    r
}

} // verus!

verus! {

/// The pieces of `s` between occurrences of `sep`, read from left to right.
/// There is always at least one piece; two adjacent separators give an empty one.
pub open spec fn split_on(s: Seq<char>, sep: char) -> Seq<Seq<char>>
    decreases s.len(),
{
    if s.len() == 0 {
        seq![Seq::empty()]
    } else {
        let init = split_on(s.drop_last(), sep);
        if s.last() == sep {
            init.push(Seq::empty())
        } else {
            init.update(init.len() - 1, init.last().push(s.last()))
        }
    }
}

/// Splitting always gives at least one piece.
pub proof fn lemma_split_nonempty(s: Seq<char>, sep: char)
    ensures
        split_on(s, sep).len() >= 1,
    decreases s.len(),
{
    if s.len() > 0 {
        lemma_split_nonempty(s.drop_last(), sep);
    }
}

/// The index spans of the pieces of `s` between occurrences of `sep`:
/// piece `k` is `s[spans[k].0 .. spans[k].1]`.
pub fn split_spans(s: &Vec<char>, sep: char) -> (spans: Vec<(usize, usize)>)
    ensures
        spans@.len() == split_on(s@, sep).len(),
        spans@.len() >= 1,
        forall|k: int|
            0 <= k < spans@.len() ==> {
                &&& (#[trigger] spans@[k]).0 <= spans@[k].1 <= s@.len()
                &&& s@.subrange(spans@[k].0 as int, spans@[k].1 as int) == split_on(s@, sep)[k]
            },
{
    let mut spans: Vec<(usize, usize)> = Vec::new();
    let mut start: usize = 0;
    let mut i: usize = 0;
    while i < s.len()
        invariant
            i <= s@.len(),
            start <= i,
            split_on(s@.take(i as int), sep).len() == spans@.len() + 1,
            s@.subrange(start as int, i as int) == split_on(s@.take(i as int), sep).last(),
            forall|k: int|
                0 <= k < spans@.len() ==> {
                    &&& (#[trigger] spans@[k]).0 <= spans@[k].1 <= i
                    &&& s@.subrange(spans@[k].0 as int, spans@[k].1 as int) == split_on(
                        s@.take(i as int),
                        sep,
                    )[k]
                },
        decreases s@.len() - i,
    {
        let ghost prev = split_on(s@.take(i as int), sep);
        assert(s@.take(i + 1).drop_last() == s@.take(i as int));
        assert(s@.take(i + 1).last() == s@[i as int]);
        let ghost next = split_on(s@.take(i + 1), sep);
        if s[i] == sep {
            assert(next == prev.push(Seq::empty()));
            assert(forall|k: int| 0 <= k < spans@.len() ==> next[k] == prev[k]);
            spans.push((start, i));
            assert(next[spans@.len() - 1] == s@.subrange(spans@.last().0 as int, spans@.last().1 as int));
            start = i + 1;
            assert(s@.subrange(start as int, start as int) == Seq::<char>::empty());
        } else {
            assert(next == prev.update(prev.len() - 1, prev.last().push(s@[i as int])));
            assert(forall|k: int| 0 <= k < spans@.len() ==> next[k] == prev[k]);
            assert(s@.subrange(start as int, i + 1) == s@.subrange(start as int, i as int).push(
                s@[i as int],
            ));
        }
        i = i + 1;
    }
    assert(s@.take(s@.len() as int) == s@);
    proof {
        lemma_split_nonempty(s@, sep);
    }
    spans.push((start, i));
    spans
}

pub open spec fn is_digit(c: char) -> bool {
    '0' <= c && c <= '9'
}

pub open spec fn all_digits(s: Seq<char>) -> bool {
    forall|i: int| 0 <= i < s.len() ==> is_digit(#[trigger] s[i])
}

pub open spec fn digit_value(c: char) -> nat {
    (c as nat - '0' as nat) as nat
}

/// The number that the digits of `s` write in base ten (0 for no digits).
pub open spec fn decimal_value(s: Seq<char>) -> nat
    decreases s.len(),
{
    if s.len() == 0 {
        0
    } else {
        decimal_value(s.drop_last()) * 10 + digit_value(s.last())
    }
}

/// `s` writes an unsigned number in base ten that is at most `max`.
pub open spec fn is_number_upto(s: Seq<char>, max: nat) -> bool {
    s.len() > 0 && all_digits(s) && decimal_value(s) <= max
}

/// A prefix of a digit string is worth no more than the whole.
pub proof fn lemma_decimal_prefix(s: Seq<char>, k: int)
    requires
        0 <= k <= s.len(),
        all_digits(s),
    ensures
        decimal_value(s.take(k)) <= decimal_value(s),
    decreases s.len() - k,
{
    if k < s.len() {
        let t = s.take(k + 1);
        assert(t.drop_last() == s.take(k));
        lemma_decimal_prefix(s, k + 1);
    } else {
        assert(s.take(k) == s);
    }
}

/// Reads `s[start..end]` as an unsigned base-ten number no larger than `max`.
pub fn read_number(s: &Vec<char>, start: usize, end: usize, max: u64) -> (r: Option<u64>)
    requires
        start <= end <= s@.len(),
    ensures
        r matches Some(v) ==> v as nat == decimal_value(s@.subrange(start as int, end as int)),
        r is Some <==> is_number_upto(s@.subrange(start as int, end as int), max as nat),
{
    let ghost w = s@.subrange(start as int, end as int);
    if start == end {
        return None;
    }
    let mut acc: u64 = 0;
    let mut i: usize = start;
    while i < end
        invariant
            start <= i <= end <= s@.len(),
            w == s@.subrange(start as int, end as int),
            all_digits(w.take(i - start)),
            acc as nat == decimal_value(w.take(i - start)),
            acc <= max,
        decreases end - i,
    {
        let c = s[i];
        assert(w.take(i - start + 1).drop_last() == w.take(i - start));
        assert(w.take(i - start + 1).last() == c);
        if c < '0' || c > '9' {
            assert(!all_digits(w));
            return None;
        }
        let d = (c as u64) - ('0' as u64);
        if d > max || acc > (max - d) / 10 {
            proof {
                assert(acc * 10 + d > max) by (nonlinear_arith)
                    requires
                        d > max || acc > (max - d) / 10,
                        d <= max ==> acc > (max - d) / 10 || d > max,
                ;
                if all_digits(w) {
                    lemma_decimal_prefix(w, i - start + 1);
                }
            }
            return None;
        }
        assert(acc * 10 + d <= max) by (nonlinear_arith)
            requires
                acc <= (max - d) / 10,
                d <= max,
        ;
        acc = acc * 10 + d;
        i = i + 1;
    }
    assert(w.take(end - start) == w);
    Some(acc)
}

} // verus!
