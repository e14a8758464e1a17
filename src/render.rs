//! Text forms: a record as tab-separated fields, and the report as
//! `tag<TAB>threshold<TAB>count` lines.
use vstd::prelude::*;
use vstd::string::StringExecFns;

use crate::bucket::counts_view;
use crate::classify::{names_view, Report, ReportView};
use crate::record::{
    secondaries_view, supplementaries_view, Mapped, MappedView, Sam, SamView, Secondary,
    SecondaryView, Supplementary, SupplementaryView, Unmapped, UnmappedView,
};

verus! {

/// The character of a digit below ten.
pub open spec fn digit_char(d: nat) -> char {
    if d == 0 {
        '0'
    } else if d == 1 {
        '1'
    } else if d == 2 {
        '2'
    } else if d == 3 {
        '3'
    } else if d == 4 {
        '4'
    } else if d == 5 {
        '5'
    } else if d == 6 {
        '6'
    } else if d == 7 {
        '7'
    } else if d == 8 {
        '8'
    } else {
        '9'
    }
}

/// `n` written in base ten, without leading zeros.
pub open spec fn decimal_of(n: nat) -> Seq<char>
    decreases n,
{
    if n < 10 {
        seq![digit_char(n)]
    } else {
        decimal_of(n / 10).push(digit_char(n % 10))
    }
}

fn push_digit(s: &mut String, d: u64)
    requires
        d < 10,
    ensures
        final(s)@ == old(s)@.push(digit_char(d as nat)),
{
    proof {
        reveal_strlit("0");
        reveal_strlit("1");
        reveal_strlit("2");
        reveal_strlit("3");
        reveal_strlit("4");
        reveal_strlit("5");
        reveal_strlit("6");
        reveal_strlit("7");
        reveal_strlit("8");
        reveal_strlit("9");
    }
    if d == 0 {
        s.append("0");
    } else if d == 1 {
        s.append("1");
    } else if d == 2 {
        s.append("2");
    } else if d == 3 {
        s.append("3");
    } else if d == 4 {
        s.append("4");
    } else if d == 5 {
        s.append("5");
    } else if d == 6 {
        s.append("6");
    } else if d == 7 {
        s.append("7");
    } else if d == 8 {
        s.append("8");
    } else {
        s.append("9");
    }
}

/// Appends `n` in base ten.
pub fn push_decimal(s: &mut String, n: u64)
    ensures
        final(s)@ == old(s)@ + decimal_of(n as nat),
    decreases n,
{
    if n >= 10 {
        push_decimal(s, n / 10);
    }
    push_digit(s, n % 10);
    assert(decimal_of(n as nat) == if n < 10 {
        seq![digit_char(n as nat)]
    } else {
        decimal_of((n / 10) as nat).push(digit_char((n % 10) as nat))
    });
}

fn push_char_of(s: &mut String, c: char)
    requires
        c == '\t' || c == '[' || c == ']' || c == '+' || c == '-' || c == 'G' || c == 'L' || c
            == 'D' || c == 'M',
    ensures
        final(s)@ == old(s)@.push(c),
{
    proof {
        reveal_strlit("\t");
        reveal_strlit("[");
        reveal_strlit("]");
        reveal_strlit("+");
        reveal_strlit("-");
        reveal_strlit("G");
        reveal_strlit("L");
        reveal_strlit("D");
        reveal_strlit("M");
    }
    if c == '\t' {
        s.append("\t");
    } else if c == '[' {
        s.append("[");
    } else if c == ']' {
        s.append("]");
    } else if c == '+' {
        s.append("+");
    } else if c == '-' {
        s.append("-");
    } else if c == 'G' {
        s.append("G");
    } else if c == 'L' {
        s.append("L");
    } else if c == 'D' {
        s.append("D");
    } else {
        s.append("M");
    }
}

pub open spec fn strand_char(reverse: bool) -> char {
    if reverse {
        '-'
    } else {
        '+'
    }
}

/// `\t[rname\tpos\tstrand]`
pub open spec fn secondary_text(x: SecondaryView) -> Seq<char> {
    seq!['\t', '['] + x.rname + seq!['\t'] + decimal_of(x.pos as nat) + seq![
        '\t',
        strand_char(x.reverse),
        ']',
    ]
}

/// `\t[rname\tpos\tlen\tstrand]`
pub open spec fn supplementary_text(x: SupplementaryView) -> Seq<char> {
    seq!['\t', '['] + x.rname + seq!['\t'] + decimal_of(x.pos as nat) + seq!['\t'] + decimal_of(
        x.len as nat,
    ) + seq!['\t', strand_char(x.reverse), ']']
}

pub open spec fn secondaries_text(v: Seq<SecondaryView>) -> Seq<char>
    decreases v.len(),
{
    if v.len() == 0 {
        Seq::empty()
    } else {
        secondaries_text(v.drop_last()) + secondary_text(v.last())
    }
}

pub open spec fn supplementaries_text(v: Seq<SupplementaryView>) -> Seq<char>
    decreases v.len(),
{
    if v.len() == 0 {
        Seq::empty()
    } else {
        supplementaries_text(v.drop_last()) + supplementary_text(v.last())
    }
}

/// `qname\tlen\trname\tpos\tstrand\tmapq`, then each secondary, then each
/// supplementary.
pub open spec fn mapped_text(m: MappedView) -> Seq<char> {
    m.qname + seq!['\t'] + decimal_of(m.len as nat) + seq!['\t'] + m.rname + seq!['\t']
        + decimal_of(m.pos as nat) + seq!['\t', strand_char(m.reverse), '\t'] + decimal_of(
        m.mapq as nat,
    ) + secondaries_text(m.secondaries) + supplementaries_text(m.supplementaries)
}

/// `qname\tlen`
pub open spec fn unmapped_text(u: UnmappedView) -> Seq<char> {
    u.qname + seq!['\t'] + decimal_of(u.len as nat)
}

/// The text of a record.
pub open spec fn sam_text(r: SamView) -> Seq<char> {
    match r {
        SamView::Mapped(m) => mapped_text(m),
        SamView::Unmapped(u) => unmapped_text(u),
    }
}

impl Secondary {
    fn push_text(&self, s: &mut String)
        ensures
            final(s)@ == old(s)@ + secondary_text(self@),
    {
        push_char_of(s, '\t');
        push_char_of(s, '[');
        s.append(self.rname.as_str());
        push_char_of(s, '\t');
        push_decimal(s, self.pos as u64);
        push_char_of(s, '\t');
        push_char_of(s, if self.reverse { '-' } else { '+' });
        push_char_of(s, ']');
        assert(s@ == old(s)@ + secondary_text(self@));
    }
}

impl Supplementary {
    fn push_text(&self, s: &mut String)
        ensures
            final(s)@ == old(s)@ + supplementary_text(self@),
    {
        push_char_of(s, '\t');
        push_char_of(s, '[');
        s.append(self.rname.as_str());
        push_char_of(s, '\t');
        push_decimal(s, self.pos as u64);
        push_char_of(s, '\t');
        push_decimal(s, self.len as u64);
        push_char_of(s, '\t');
        push_char_of(s, if self.reverse { '-' } else { '+' });
        push_char_of(s, ']');
        assert(s@ == old(s)@ + supplementary_text(self@));
    }
}

impl Mapped {
    /// The record as tab-separated text; each secondary and supplementary
    /// placement follows in brackets.
    pub fn to_text(&self) -> (r: String)
        ensures
            r@ == mapped_text(self@),
    {
        let mut s = self.qname.clone();
        push_char_of(&mut s, '\t');
        push_decimal(&mut s, self.len as u64);
        push_char_of(&mut s, '\t');
        s.append(self.rname.as_str());
        push_char_of(&mut s, '\t');
        push_decimal(&mut s, self.pos as u64);
        push_char_of(&mut s, '\t');
        push_char_of(&mut s, if self.reverse { '-' } else { '+' });
        push_char_of(&mut s, '\t');
        push_decimal(&mut s, self.mapq as u64);
        let ghost head = s@;
        let ghost sec = secondaries_view(self.secondaries@);
        let mut i: usize = 0;
        while i < self.secondaries.len()
            invariant
                i <= self.secondaries@.len(),
                sec == secondaries_view(self.secondaries@),
                s@ == head + secondaries_text(sec.take(i as int)),
            decreases self.secondaries@.len() - i,
        {
            self.secondaries[i].push_text(&mut s);
            assert(sec.take(i + 1).drop_last() == sec.take(i as int));
            assert(sec.take(i + 1).last() == self.secondaries@[i as int]@);
            i = i + 1;
        }
        assert(sec.take(sec.len() as int) == sec);
        let ghost mid = s@;
        let ghost sup = supplementaries_view(self.supplementaries@);
        let mut j: usize = 0;
        while j < self.supplementaries.len()
            invariant
                j <= self.supplementaries@.len(),
                sup == supplementaries_view(self.supplementaries@),
                s@ == mid + supplementaries_text(sup.take(j as int)),
            decreases self.supplementaries@.len() - j,
        {
            self.supplementaries[j].push_text(&mut s);
            assert(sup.take(j + 1).drop_last() == sup.take(j as int));
            assert(sup.take(j + 1).last() == self.supplementaries@[j as int]@);
            j = j + 1;
        }
        assert(sup.take(sup.len() as int) == sup);
        assert(s@ == mapped_text(self@));
        s
    }
}

impl Unmapped {
    /// `qname`, a tab, and the read length.
    pub fn to_text(&self) -> (r: String)
        ensures
            r@ == unmapped_text(self@),
    {
        let mut s = self.qname.clone();
        push_char_of(&mut s, '\t');
        push_decimal(&mut s, self.len as u64);
        s
    }
}

impl Sam {
    pub fn to_text(&self) -> (r: String)
        ensures
            r@ == sam_text(self@),
    {
        match self {
            Sam::Mapped(m) => m.to_text(),
            Sam::Unmapped(u) => u.to_text(),
        }
    }
}

/// A report tag: gain, loss, diff, or mapped reads.
pub open spec fn is_tag(c: char) -> bool {
    c == 'G' || c == 'L' || c == 'D' || c == 'M'
}

/// `tag\tthreshold\tcount`
pub open spec fn count_line(tag: char, threshold: u8, count: int) -> Seq<char> {
    seq![tag, '\t'] + decimal_of(threshold as nat) + seq!['\t'] + decimal_of(count as nat)
}

/// One line per threshold, in the order of the table.
pub open spec fn count_lines(tag: char, thresholds: Seq<u8>, counts: Seq<int>) -> Seq<Seq<char>> {
    Seq::new(thresholds.len(), |k: int| count_line(tag, thresholds[k], counts[k]))
}

/// The gain lines, an empty line, the loss lines, an empty line, the diff lines.
pub open spec fn report_text(r: ReportView, thresholds: Seq<u8>) -> Seq<Seq<char>> {
    count_lines('G', thresholds, r.gain) + seq![Seq::empty()] + count_lines('L', thresholds, r.loss)
        + seq![Seq::empty()] + count_lines('D', thresholds, r.diff)
}

/// `M\tthreshold\ttarget count\ttest count`
pub open spec fn mapped_line(threshold: u8, target: int, test: int) -> Seq<char> {
    seq!['M', '\t'] + decimal_of(threshold as nat) + seq!['\t'] + decimal_of(target as nat) + seq![
        '\t',
    ] + decimal_of(test as nat)
}

/// Appends one count line per threshold.
fn push_count_lines(
    lines: &mut Vec<String>,
    tag: char,
    thresholds: &Vec<u8>,
    counts: &Vec<usize>,
)
    requires
        is_tag(tag),
        thresholds@.len() == counts@.len(),
    ensures
        names_view(final(lines)@) == names_view(old(lines)@) + count_lines(
            tag,
            thresholds@,
            counts_view(counts@),
        ),
{
    let ghost start = names_view(lines@);
    let ghost all = count_lines(tag, thresholds@, counts_view(counts@));
    let mut k: usize = 0;
    while k < thresholds.len()
        invariant
            k <= thresholds@.len() == counts@.len(),
            is_tag(tag),
            all == count_lines(tag, thresholds@, counts_view(counts@)),
            names_view(lines@) == start + all.take(k as int),
        decreases thresholds@.len() - k,
    {
        let mut s = String::new();
        push_char_of(&mut s, tag);
        push_char_of(&mut s, '\t');
        push_decimal(&mut s, thresholds[k] as u64);
        push_char_of(&mut s, '\t');
        push_decimal(&mut s, counts[k] as u64);
        assert(s@ == all[k as int]);
        let ghost before = lines@;
        lines.push(s);
        assert(names_view(lines@) =~= names_view(before).push(all[k as int]));
        assert(all.take(k + 1) == all.take(k as int).push(all[k as int]));
        assert(start + all.take(k + 1) =~= (start + all.take(k as int)).push(all[k as int]));
        k = k + 1;
    }
    assert(all.take(thresholds@.len() as int) == all);
}

impl Report {
    /// The report as lines: per threshold a gain line, then after an empty
    /// line the loss lines, then after another the diff lines.
    pub fn to_lines(&self, thresholds: &Vec<u8>) -> (r: Vec<String>)
        requires
            self.gain@.len() == thresholds@.len(),
            self.loss@.len() == thresholds@.len(),
            self.diff@.len() == thresholds@.len(),
        ensures
            names_view(r@) == report_text(self@, thresholds@),
    {
        let mut lines: Vec<String> = Vec::new();
        assert(names_view(lines@) == Seq::<Seq<char>>::empty());
        push_count_lines(&mut lines, 'G', thresholds, &self.gain);
        let ghost a = lines@;
        lines.push(String::new());
        assert(names_view(lines@) =~= names_view(a) + seq![Seq::<char>::empty()]);
        push_count_lines(&mut lines, 'L', thresholds, &self.loss);
        let ghost b = lines@;
        lines.push(String::new());
        assert(names_view(lines@) =~= names_view(b) + seq![Seq::<char>::empty()]);
        push_count_lines(&mut lines, 'D', thresholds, &self.diff);
        assert(names_view(lines@) =~= report_text(self@, thresholds@));
        lines
    }
}

/// Per threshold, the count of mapped reads in the target and in the test.
pub fn mapped_lines(thresholds: &Vec<u8>, target: &Vec<usize>, test: &Vec<usize>) -> (r: Vec<
    String,
>)
    requires
        target@.len() == thresholds@.len(),
        test@.len() == thresholds@.len(),
    ensures
        names_view(r@) == Seq::new(
            thresholds@.len(),
            |k: int| mapped_line(thresholds@[k], target@[k] as int, test@[k] as int),
        ),
{
    let ghost all = Seq::new(
        thresholds@.len(),
        |k: int| mapped_line(thresholds@[k], target@[k] as int, test@[k] as int),
    );
    let mut lines: Vec<String> = Vec::new();
    let mut k: usize = 0;
    while k < thresholds.len()
        invariant
            k <= thresholds@.len() == target@.len() == test@.len(),
            all == Seq::new(
                thresholds@.len(),
                |k: int| mapped_line(thresholds@[k], target@[k] as int, test@[k] as int),
            ),
            names_view(lines@) == all.take(k as int),
        decreases thresholds@.len() - k,
    {
        let mut s = String::new();
        push_char_of(&mut s, 'M');
        push_char_of(&mut s, '\t');
        push_decimal(&mut s, thresholds[k] as u64);
        push_char_of(&mut s, '\t');
        push_decimal(&mut s, target[k] as u64);
        push_char_of(&mut s, '\t');
        push_decimal(&mut s, test[k] as u64);
        assert(s@ == all[k as int]);
        lines.push(s);
        assert(all.take(k + 1) == all.take(k as int).push(all[k as int]));
        k = k + 1;
    }
    assert(all.take(thresholds@.len() as int) == all);
    lines
}

} // verus!
