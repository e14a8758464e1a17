//! Reading tab-separated alignment lines into per-read records. Secondary and
//! supplementary lines are attached to the record of the line before them,
//! which must have a primary placement.
use vstd::prelude::*;
use vstd::string::StrSliceExecFns;

use crate::bucket::{counts_view, histogram, increase_counter, lemma_histogram_bounds};
use crate::classify::zero_counts;
use crate::record::{
    records_view, Mapped, MappedView, Sam, SamView, Secondary, SecondaryView, Supplementary,
    SupplementaryView, Unmapped, UnmappedView,
};
use crate::text::{chars_of, decimal_value, is_number_upto, read_number, split_on, split_spans};

verus! {

/// What one line says, before it is joined to the records read so far.
pub enum LineModel {
    Header,
    Primary(MappedView),
    Secondary(SecondaryView),
    Supplementary(SupplementaryView),
    Unmapped(UnmappedView),
    Malformed,
    UnknownFlag(u16),
}

/// Why a line cannot be read.
#[derive(Clone, Copy, Debug, PartialEq, Eq, Structural)]
pub enum LineError {
    /// A field is missing, or a numeric field does not hold a number in range.
    MalformedRecord,
    /// The flag is none of 0, 16, 4, and has neither bit 256 nor bit 2048.
    UnknownFlag(u16),
    /// A secondary or supplementary line that does not follow a record with a
    /// primary placement.
    OrphanSubAlignment,
}

/// A line that cannot be read, with its index among the lines (from 0).
#[derive(Clone, Copy, Debug, PartialEq, Eq, Structural)]
pub struct ParseError {
    pub line: usize,
    pub kind: LineError,
}

/// Bit `bit` of the flag is set.
pub open spec fn has_flag_bit(flag: u16, bit: u16) -> bool {
    flag & bit != 0
}

/// The read length that a sequence field gives, when it fits.
pub open spec fn fits_u32(s: Seq<char>) -> bool {
    s.len() <= u32::MAX
}

/// What a line says: header lines start with `@`; other lines are split on
/// tabs and classified by the flag in field 1.
pub open spec fn line_model(line: Seq<char>) -> LineModel {
    let f = split_on(line, '\t');
    if line.len() > 0 && line[0] == '@' {
        LineModel::Header
    } else if !(f.len() >= 2 && is_number_upto(f[1], u16::MAX as nat)) {
        LineModel::Malformed
    } else {
        let flag = decimal_value(f[1]) as u16;
        if flag == 0 || flag == 16 {
            if f.len() >= 10 && is_number_upto(f[3], u32::MAX as nat) && is_number_upto(
                f[4],
                u8::MAX as nat,
            ) && fits_u32(f[9]) {
                LineModel::Primary(
                    MappedView {
                        qname: f[0],
                        len: f[9].len() as u32,
                        rname: f[2],
                        pos: decimal_value(f[3]) as u32,
                        reverse: flag == 16,
                        mapq: decimal_value(f[4]) as u8,
                        secondaries: Seq::empty(),
                        supplementaries: Seq::empty(),
                    },
                )
            } else {
                LineModel::Malformed
            }
        } else if has_flag_bit(flag, 256) {
            if f.len() >= 4 && is_number_upto(f[3], u32::MAX as nat) {
                LineModel::Secondary(
                    SecondaryView {
                        rname: f[2],
                        pos: decimal_value(f[3]) as u32,
                        reverse: has_flag_bit(flag, 16),
                    },
                )
            } else {
                LineModel::Malformed
            }
        } else if has_flag_bit(flag, 2048) {
            if f.len() >= 10 && is_number_upto(f[3], u32::MAX as nat) && fits_u32(f[9]) {
                LineModel::Supplementary(
                    SupplementaryView {
                        rname: f[2],
                        pos: decimal_value(f[3]) as u32,
                        reverse: has_flag_bit(flag, 16),
                        len: f[9].len() as u32,
                    },
                )
            } else {
                LineModel::Malformed
            }
        } else if flag == 4 {
            if f.len() >= 10 && fits_u32(f[9]) {
                LineModel::Unmapped(UnmappedView { qname: f[0], len: f[9].len() as u32 })
            } else {
                LineModel::Malformed
            }
        } else {
            LineModel::UnknownFlag(flag)
        }
    }
}

/// The records after one more line.
pub open spec fn parse_step(recs: Seq<SamView>, m: LineModel) -> Result<Seq<SamView>, LineError> {
    match m {
        LineModel::Header => Ok(recs),
        LineModel::Primary(v) => Ok(recs.push(SamView::Mapped(v))),
        LineModel::Unmapped(u) => Ok(recs.push(SamView::Unmapped(u))),
        LineModel::Secondary(x) => if recs.len() > 0 && recs.last() is Mapped {
            let p = recs.last()->Mapped_0;
            Ok(
                recs.update(
                    recs.len() - 1,
                    SamView::Mapped(MappedView { secondaries: p.secondaries.push(x), ..p }),
                ),
            )
        } else {
            Err(LineError::OrphanSubAlignment)
        },
        LineModel::Supplementary(x) => if recs.len() > 0 && recs.last() is Mapped {
            let p = recs.last()->Mapped_0;
            Ok(
                recs.update(
                    recs.len() - 1,
                    SamView::Mapped(MappedView { supplementaries: p.supplementaries.push(x), ..p }),
                ),
            )
        } else {
            Err(LineError::OrphanSubAlignment)
        },
        LineModel::Malformed => Err(LineError::MalformedRecord),
        LineModel::UnknownFlag(flag) => Err(LineError::UnknownFlag(flag)),
    }
}

/// The records of a whole stream, or the first line that cannot be read.
pub open spec fn parse_lines(lines: Seq<Seq<char>>) -> Result<Seq<SamView>, ParseError>
    decreases lines.len(),
{
    if lines.len() == 0 {
        Ok(Seq::empty())
    } else {
        match parse_lines(lines.drop_last()) {
            Err(e) => Err(e),
            Ok(recs) => match parse_step(recs, line_model(lines.last())) {
                Ok(next) => Ok(next),
                Err(kind) => Err(ParseError { line: (lines.len() - 1) as usize, kind }),
            },
        }
    }
}

/// The mapping qualities of the records with a primary placement, in order.
pub open spec fn mapped_scores(recs: Seq<SamView>) -> Seq<u8>
    decreases recs.len(),
{
    if recs.len() == 0 {
        Seq::empty()
    } else {
        let prev = mapped_scores(recs.drop_last());
        match recs.last() {
            SamView::Mapped(m) => prev.push(m.mapq),
            SamView::Unmapped(_) => prev,
        }
    }
}

/// At most one quality per record.
pub proof fn lemma_mapped_scores_len(recs: Seq<SamView>)
    ensures
        mapped_scores(recs).len() <= recs.len(),
    decreases recs.len(),
{
    if recs.len() > 0 {
        lemma_mapped_scores_len(recs.drop_last());
    }
}

/// One line, read on its own.
pub enum Line {
    Header,
    Primary(Mapped),
    Secondary(Secondary),
    Supplementary(Supplementary),
    Unmapped(Unmapped),
    Malformed,
    UnknownFlag(u16),
}

impl View for Line {
    type V = LineModel;

    open spec fn view(&self) -> LineModel {
        match self {
            Line::Header => LineModel::Header,
            Line::Primary(m) => LineModel::Primary(m@),
            Line::Secondary(x) => LineModel::Secondary(x@),
            Line::Supplementary(x) => LineModel::Supplementary(x@),
            Line::Unmapped(u) => LineModel::Unmapped(u@),
            Line::Malformed => LineModel::Malformed,
            Line::UnknownFlag(flag) => LineModel::UnknownFlag(*flag),
        }
    }
}

/// Field `k` of `line`, whose characters are `chars` and whose fields lie at `spans`.
fn field_string(line: &str, chars: &Vec<char>, spans: &Vec<(usize, usize)>, k: usize) -> (r: String)
    requires
        chars@ == line@,
        k < spans@.len() == split_on(chars@, '\t').len(),
        forall|j: int|
            0 <= j < spans@.len() ==> {
                &&& (#[trigger] spans@[j]).0 <= spans@[j].1 <= chars@.len()
                &&& chars@.subrange(spans@[j].0 as int, spans@[j].1 as int) == split_on(
                    chars@,
                    '\t',
                )[j]
            },
    ensures
        r@ == split_on(line@, '\t')[k as int],
{
    let (a, b) = spans[k];
    assert(spans@[k as int].0 <= spans@[k as int].1 <= chars@.len());
    line.substring_char(a, b).to_owned()
}

/// Reads one line on its own.
pub fn read_line(line: &str) -> (r: Line)
    ensures
        r@ == line_model(line@),
{
    let chars = chars_of(line);
    if chars.len() > 0 && chars[0] == '@' {
        return Line::Header;
    }
    let spans = split_spans(&chars, '\t');
    if spans.len() < 2 {
        return Line::Malformed;
    }
    assert(spans@[1].0 <= spans@[1].1 <= chars@.len());
    let flag = match read_number(&chars, spans[1].0, spans[1].1, 65535) {
        Some(v) => v as u16,
        None => {
            return Line::Malformed;
        },
    };
    if flag == 0 || flag == 16 {
        if spans.len() < 10 {
            return Line::Malformed;
        }
        assert(spans@[3].0 <= spans@[3].1 <= chars@.len());
        assert(spans@[4].0 <= spans@[4].1 <= chars@.len());
        assert(spans@[9].0 <= spans@[9].1 <= chars@.len());
        let pos = match read_number(&chars, spans[3].0, spans[3].1, 0xffff_ffff) {
            Some(v) => v as u32,
            None => {
                return Line::Malformed;
            },
        };
        let mapq = match read_number(&chars, spans[4].0, spans[4].1, 255) {
            Some(v) => v as u8,
            None => {
                return Line::Malformed;
            },
        };
        let len = spans[9].1 - spans[9].0;
        if len > 0xffff_ffff {
            return Line::Malformed;
        }
        let qname = field_string(line, &chars, &spans, 0);
        let rname = field_string(line, &chars, &spans, 2);
        let m = Mapped {
            qname,
            len: len as u32,
            rname,
            pos,
            reverse: flag == 16,
            mapq,
            secondaries: Vec::new(),
            supplementaries: Vec::new(),
        };
        assert(m@.secondaries == Seq::<SecondaryView>::empty());
        assert(m@.supplementaries == Seq::<SupplementaryView>::empty());
        Line::Primary(m)
    } else if flag & 256 != 0 {
        if spans.len() < 4 {
            return Line::Malformed;
        }
        assert(spans@[3].0 <= spans@[3].1 <= chars@.len());
        let pos = match read_number(&chars, spans[3].0, spans[3].1, 0xffff_ffff) {
            Some(v) => v as u32,
            None => {
                return Line::Malformed;
            },
        };
        let rname = field_string(line, &chars, &spans, 2);
        Line::Secondary(Secondary { rname, pos, reverse: flag & 16 != 0 })
    } else if flag & 2048 != 0 {
        if spans.len() < 10 {
            return Line::Malformed;
        }
        assert(spans@[3].0 <= spans@[3].1 <= chars@.len());
        assert(spans@[9].0 <= spans@[9].1 <= chars@.len());
        let pos = match read_number(&chars, spans[3].0, spans[3].1, 0xffff_ffff) {
            Some(v) => v as u32,
            None => {
                return Line::Malformed;
            },
        };
        let len = spans[9].1 - spans[9].0;
        if len > 0xffff_ffff {
            return Line::Malformed;
        }
        let rname = field_string(line, &chars, &spans, 2);
        Line::Supplementary(Supplementary { rname, pos, reverse: flag & 16 != 0, len: len as u32 })
    } else if flag == 4 {
        if spans.len() < 10 {
            return Line::Malformed;
        }
        assert(spans@[9].0 <= spans@[9].1 <= chars@.len());
        let len = spans[9].1 - spans[9].0;
        if len > 0xffff_ffff {
            return Line::Malformed;
        }
        let qname = field_string(line, &chars, &spans, 0);
        Line::Unmapped(Unmapped { qname, len: len as u32 })
    } else {
        Line::UnknownFlag(flag)
    }
}

proof fn lemma_mapped_scores_attach(recs: Seq<SamView>, p: MappedView)
    requires
        recs.len() > 0,
        recs.last() matches SamView::Mapped(m) && m.mapq == p.mapq,
    ensures
        mapped_scores(recs.update(recs.len() - 1, SamView::Mapped(p))) == mapped_scores(recs),
{
    let next = recs.update(recs.len() - 1, SamView::Mapped(p));
    assert(next.drop_last() == recs.drop_last());
}

/// Reads a stream line by line. Besides the records, it counts the records
/// with a primary placement per quality bucket.
pub struct SamParser {
    records: Vec<Sam>,
    mapped: Vec<usize>,
    qualities: Vec<u8>,
}

impl SamParser {
    /// The records read so far.
    pub closed spec fn records(&self) -> Seq<SamView> {
        records_view(self.records@)
    }

    /// The quality thresholds of the mapped-read counts.
    pub closed spec fn thresholds(&self) -> Seq<u8> {
        self.qualities@
    }

    pub closed spec fn wf(&self) -> bool {
        &&& self.mapped@.len() == self.qualities@.len()
        &&& counts_view(self.mapped@) == histogram(
            mapped_scores(records_view(self.records@)),
            self.qualities@,
        )
    }

    pub fn new(qualities: &Vec<u8>) -> (p: SamParser)
        ensures
            p.wf(),
            p.records() == Seq::<SamView>::empty(),
            p.thresholds() == qualities@,
    {
        let mapped = zero_counts(qualities.len());
        let p = SamParser { records: Vec::new(), mapped, qualities: qualities.clone() };
        assert(p.qualities@ == qualities@);
        assert(p.records() == Seq::<SamView>::empty());
        assert(mapped_scores(p.records()) == Seq::<u8>::empty());
        assert(counts_view(p.mapped@) =~= histogram(Seq::<u8>::empty(), qualities@));
        p
    }

    /// Takes in one more line. On an error the records are left as they were.
    pub fn push_line(&mut self, line: &str) -> (r: Result<(), LineError>)
        requires
            old(self).wf(),
        ensures
            final(self).wf(),
            final(self).thresholds() == old(self).thresholds(),
            match parse_step(old(self).records(), line_model(line@)) {
                Ok(recs) => r is Ok && final(self).records() == recs,
                Err(e) => r == Err::<(), LineError>(e) && final(self).records() == old(self).records(),
            },
    {
        let ghost old_recs = self.records();
        match read_line(line) {
            Line::Header => Ok(()),
            Line::Malformed => Err(LineError::MalformedRecord),
            Line::UnknownFlag(flag) => Err(LineError::UnknownFlag(flag)),
            Line::Unmapped(u) => {
                self.records.push(Sam::Unmapped(u));
                assert(self.records() == old_recs.push(SamView::Unmapped(u@)));
                assert(self.records().drop_last() == old_recs);
                Ok(())
            },
            Line::Primary(m) => {
                let q = m.mapq;
                let ghost scores = mapped_scores(old_recs);
                proof {
                    lemma_mapped_scores_len(old_recs);
                    lemma_histogram_bounds(scores, self.qualities@);
                }
                self.records.push(Sam::Mapped(m));
                let n = self.records.len();
                assert(self.records() == old_recs.push(SamView::Mapped(m@)));
                assert(self.records().drop_last() == old_recs);
                assert(mapped_scores(self.records()) == scores.push(q));
                assert(scores.push(q).drop_last() == scores);
                assert forall|k: int| 0 <= k < self.mapped@.len() implies self.mapped@[k]
                    < usize::MAX by {
                    assert(counts_view(self.mapped@)[k] == self.mapped@[k] as int);
                }
                increase_counter(&mut self.mapped, &self.qualities, q);
                Ok(())
            },
            Line::Secondary(x) => {
                match self.records.pop() {
                    Some(Sam::Mapped(mut p)) => {
                        let ghost before = p@;
                        p.secondaries.push(x);
                        assert(p@.secondaries == before.secondaries.push(x@));
                        assert(p@ == MappedView { secondaries: before.secondaries.push(x@), ..before });
                        self.records.push(Sam::Mapped(p));
                        assert(self.records() == old_recs.update(
                            old_recs.len() - 1,
                            SamView::Mapped(p@),
                        ));
                        proof {
                            lemma_mapped_scores_attach(old_recs, p@);
                        }
                        Ok(())
                    },
                    Some(other) => {
                        self.records.push(other);
                        assert(self.records@ == old(self).records@);
                        Err(LineError::OrphanSubAlignment)
                    },
                    None => Err(LineError::OrphanSubAlignment),
                }
            },
            Line::Supplementary(x) => {
                match self.records.pop() {
                    Some(Sam::Mapped(mut p)) => {
                        let ghost before = p@;
                        p.supplementaries.push(x);
                        assert(p@.supplementaries == before.supplementaries.push(x@));
                        assert(p@ == MappedView {
                            supplementaries: before.supplementaries.push(x@),
                            ..before
                        });
                        self.records.push(Sam::Mapped(p));
                        assert(self.records() == old_recs.update(
                            old_recs.len() - 1,
                            SamView::Mapped(p@),
                        ));
                        proof {
                            lemma_mapped_scores_attach(old_recs, p@);
                        }
                        Ok(())
                    },
                    Some(other) => {
                        self.records.push(other);
                        assert(self.records@ == old(self).records@);
                        Err(LineError::OrphanSubAlignment)
                    },
                    None => Err(LineError::OrphanSubAlignment),
                }
            },
        }
    }

    /// The records, and the count of records with a primary placement per
    /// quality bucket.
    pub fn finish(self) -> (r: (Vec<Sam>, Vec<usize>))
        requires
            self.wf(),
        ensures
            records_view(r.0@) == self.records(),
            counts_view(r.1@) == histogram(mapped_scores(self.records()), self.thresholds()),
    {
        (self.records, self.mapped)
    }
}

pub open spec fn lines_view(lines: Seq<String>) -> Seq<Seq<char>> {
    lines.map_values(|s: String| s@)
}

/// Reads a whole stream: the records in the order of their lines, and the
/// count of records with a primary placement per quality bucket; or the first
/// line that cannot be read.
pub fn parse_sam(lines: &Vec<String>, qualities: &Vec<u8>) -> (r: Result<
    (Vec<Sam>, Vec<usize>),
    ParseError,
>)
    ensures
        match parse_lines(lines_view(lines@)) {
            Ok(recs) => r matches Ok(v) && records_view(v.0@) == recs && counts_view(v.1@)
                == histogram(mapped_scores(recs), qualities@),
            Err(e) => r == Err::<(Vec<Sam>, Vec<usize>), ParseError>(e),
        },
{
    let ghost lv = lines_view(lines@);
    let mut parser = SamParser::new(qualities);
    let mut i: usize = 0;
    while i < lines.len()
        invariant
            i <= lines@.len(),
            lv == lines_view(lines@),
            parser.wf(),
            parser.thresholds() == qualities@,
            parse_lines(lv.take(i as int)) == Ok::<Seq<SamView>, ParseError>(parser.records()),
        decreases lines@.len() - i,
    {
        assert(lv.take(i + 1).drop_last() == lv.take(i as int));
        assert(lv.take(i + 1).last() == lines@[i as int]@);
        match parser.push_line(lines[i].as_str()) {
            Ok(()) => {},
            Err(kind) => {
                proof {
                    lemma_parse_error_stays(lv, i + 1);
                }
                return Err(ParseError { line: i, kind });
            },
        }
        i = i + 1;
    }
    assert(lv.take(lines@.len() as int) == lv);
    Ok(parser.finish())
}

/// Once a prefix of the lines fails, the whole stream fails the same way.
pub proof fn lemma_parse_error_stays(lines: Seq<Seq<char>>, k: int)
    requires
        0 <= k <= lines.len(),
        parse_lines(lines.take(k)) is Err,
    ensures
        parse_lines(lines) == parse_lines(lines.take(k)),
    decreases lines.len() - k,
{
    if k < lines.len() {
        assert(lines.take(k + 1).drop_last() == lines.take(k));
        lemma_parse_error_stays(lines, k + 1);
    } else {
        assert(lines.take(k) == lines);
    }
}

} // verus!
