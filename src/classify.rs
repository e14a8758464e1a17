//! Pairing of target and test records by their position in the streams, and
//! the gain / loss / diff report.
use vstd::prelude::*;

use crate::bucket::{counts_view, histogram, increase_counter, lemma_histogram_bounds};
use crate::compare::{compare_mapped, concordant, tolerance, tolerance_of, DistanceFraction, Mode};
use crate::record::{records_view, Sam, SamView};

verus! {

/// What became of one read in the test mapping, compared with the target.
#[derive(Clone, Copy, Debug, PartialEq, Eq, Structural)]
pub enum Outcome {
    /// Unmapped in both, or mapped in both and in agreement.
    Concordant,
    /// Unmapped in the target, mapped in the test.
    Gain,
    /// Mapped in the target, unmapped in the test.
    Loss,
    /// Mapped in both, not in agreement.
    Discordant,
}

/// The outcome of pairing target record `t` with test record `s`.
pub open spec fn outcome(t: SamView, s: SamView, mode: Mode, f: DistanceFraction) -> Outcome {
    match t {
        SamView::Unmapped(_) => match s {
            SamView::Unmapped(_) => Outcome::Concordant,
            SamView::Mapped(_) => Outcome::Gain,
        },
        SamView::Mapped(tm) => match s {
            SamView::Unmapped(_) => Outcome::Loss,
            SamView::Mapped(sm) => if concordant(mode, tm, sm, tolerance_of(f, tm.len)) {
                Outcome::Concordant
            } else {
                Outcome::Discordant
            },
        },
    }
}

/// The mapping quality that a pair is counted under: the target's when it is
/// mapped, else the test's.
pub open spec fn subject_mapq(t: SamView, s: SamView) -> u8 {
    match t {
        SamView::Mapped(m) => m.mapq,
        SamView::Unmapped(_) => match s {
            SamView::Mapped(m) => m.mapq,
            SamView::Unmapped(_) => 0,
        },
    }
}

/// The read name that a pair is reported under, chosen as `subject_mapq` is.
pub open spec fn subject_qname(t: SamView, s: SamView) -> Seq<char> {
    match t {
        SamView::Mapped(m) => m.qname,
        SamView::Unmapped(u) => match s {
            SamView::Mapped(m) => m.qname,
            SamView::Unmapped(_) => u.qname,
        },
    }
}

/// The qualities of the first `n` pairs whose outcome is `cat`, in order.
pub open spec fn scores_of(
    tgt: Seq<SamView>,
    test: Seq<SamView>,
    mode: Mode,
    f: DistanceFraction,
    cat: Outcome,
    n: int,
) -> Seq<u8>
    decreases n,
{
    if n <= 0 {
        Seq::empty()
    } else {
        let prev = scores_of(tgt, test, mode, f, cat, n - 1);
        if outcome(tgt[n - 1], test[n - 1], mode, f) == cat {
            prev.push(subject_mapq(tgt[n - 1], test[n - 1]))
        } else {
            prev
        }
    }
}

/// The read names of the first `n` pairs whose outcome is `cat`, in order.
pub open spec fn names_of(
    tgt: Seq<SamView>,
    test: Seq<SamView>,
    mode: Mode,
    f: DistanceFraction,
    cat: Outcome,
    n: int,
) -> Seq<Seq<char>>
    decreases n,
{
    if n <= 0 {
        Seq::empty()
    } else {
        let prev = names_of(tgt, test, mode, f, cat, n - 1);
        if outcome(tgt[n - 1], test[n - 1], mode, f) == cat {
            prev.push(subject_qname(tgt[n - 1], test[n - 1]))
        } else {
            prev
        }
    }
}

/// At most one quality per pair.
pub proof fn lemma_scores_len(
    tgt: Seq<SamView>,
    test: Seq<SamView>,
    mode: Mode,
    f: DistanceFraction,
    cat: Outcome,
    n: int,
)
    requires
        n >= 0,
    ensures
        scores_of(tgt, test, mode, f, cat, n).len() <= n,
    decreases n,
{
    if n > 0 {
        lemma_scores_len(tgt, test, mode, f, cat, n - 1);
    }
}

/// Classifies one pair of records.
pub fn classify(tgt: &Sam, test: &Sam, mode: Mode, fraction: &DistanceFraction) -> (r: Outcome)
    requires
        fraction.wf(),
    ensures
        r == outcome(tgt@, test@, mode, *fraction),
{
    match tgt {
        Sam::Unmapped(_) => match test {
            Sam::Unmapped(_) => Outcome::Concordant,
            Sam::Mapped(_) => Outcome::Gain,
        },
        Sam::Mapped(t) => match test {
            Sam::Unmapped(_) => Outcome::Loss,
            Sam::Mapped(s) => {
                let distance = tolerance(fraction, t.len);
                if compare_mapped(mode, t, s, distance) {
                    Outcome::Concordant
                } else {
                    Outcome::Discordant
                }
            },
        },
    }
}

/// Per-threshold counts of gained, lost and discordant reads, and, when asked
/// for, their names in the order of the streams.
pub struct Report {
    pub gain: Vec<usize>,
    pub loss: Vec<usize>,
    pub diff: Vec<usize>,
    pub gain_names: Vec<String>,
    pub loss_names: Vec<String>,
    pub diff_names: Vec<String>,
}

/// A report's counts as integers and its names as characters.
pub struct ReportView {
    pub gain: Seq<int>,
    pub loss: Seq<int>,
    pub diff: Seq<int>,
    pub gain_names: Seq<Seq<char>>,
    pub loss_names: Seq<Seq<char>>,
    pub diff_names: Seq<Seq<char>>,
}

pub open spec fn names_view(v: Seq<String>) -> Seq<Seq<char>> {
    v.map_values(|s: String| s@)
}

impl View for Report {
    type V = ReportView;

    open spec fn view(&self) -> ReportView {
        ReportView {
            gain: counts_view(self.gain@),
            loss: counts_view(self.loss@),
            diff: counts_view(self.diff@),
            gain_names: names_view(self.gain_names@),
            loss_names: names_view(self.loss_names@),
            diff_names: names_view(self.diff_names@),
        }
    }
}

/// The report on two record sequences of equal length.
pub open spec fn report_of(
    tgt: Seq<SamView>,
    test: Seq<SamView>,
    mode: Mode,
    f: DistanceFraction,
    thresholds: Seq<u8>,
    with_names: bool,
) -> ReportView {
    let n = tgt.len() as int;
    ReportView {
        gain: histogram(scores_of(tgt, test, mode, f, Outcome::Gain, n), thresholds),
        loss: histogram(scores_of(tgt, test, mode, f, Outcome::Loss, n), thresholds),
        diff: histogram(scores_of(tgt, test, mode, f, Outcome::Discordant, n), thresholds),
        gain_names: if with_names {
            names_of(tgt, test, mode, f, Outcome::Gain, n)
        } else {
            Seq::empty()
        },
        loss_names: if with_names {
            names_of(tgt, test, mode, f, Outcome::Loss, n)
        } else {
            Seq::empty()
        },
        diff_names: if with_names {
            names_of(tgt, test, mode, f, Outcome::Discordant, n)
        } else {
            Seq::empty()
        },
    }
}

/// The two record sequences differ in length.
#[derive(Clone, Copy, Debug, PartialEq, Eq, Structural)]
pub struct RecordCountMismatch {
    pub target: usize,
    pub test: usize,
}

/// A zero for each threshold.
pub fn zero_counts(n: usize) -> (r: Vec<usize>)
    ensures
        counts_view(r@) == Seq::new(n as nat, |k: int| 0int),
{
    let mut r: Vec<usize> = Vec::new();
    while r.len() < n
        invariant
            r@.len() <= n,
            forall|k: int| 0 <= k < r@.len() ==> r@[k] == 0,
        decreases n - r@.len(),
    {
        r.push(0);
    }
    assert(counts_view(r@) == Seq::new(n as nat, |k: int| 0int));
    r
}

/// Counts `q` into `counts`, where `counts` is the histogram of `scores`.
fn count_into(
    counts: &mut Vec<usize>,
    thresholds: &Vec<u8>,
    q: u8,
    Ghost(scores): Ghost<Seq<u8>>,
    Ghost(bound): Ghost<int>,
)
    requires
        counts_view(old(counts)@) == histogram(scores, thresholds@),
        scores.len() < bound <= usize::MAX,
    ensures
        counts_view(final(counts)@) == histogram(scores.push(q), thresholds@),
{
    proof {
        lemma_histogram_bounds(scores, thresholds@);
        assert(scores.push(q).drop_last() == scores);
        assert forall|k: int| 0 <= k < counts@.len() implies counts@[k] < usize::MAX by {
            assert(counts_view(counts@)[k] == counts@[k] as int);
        }
    }
    increase_counter(counts, thresholds, q);
}

/// Pairs `tgt[i]` with `test[i]` and reports the gained, lost and discordant
/// reads, bucketed by quality. Names are collected only when `with_names`.
pub fn compare_sam(
    tgt: &Vec<Sam>,
    test: &Vec<Sam>,
    fraction: &DistanceFraction,
    qualities: &Vec<u8>,
    with_names: bool,
    mode: Mode,
) -> (r: Result<Report, RecordCountMismatch>)
    requires
        fraction.wf(),
    ensures
        r matches Ok(rep) ==> tgt@.len() == test@.len() && rep@ == report_of(
            records_view(tgt@),
            records_view(test@),
            mode,
            *fraction,
            qualities@,
            with_names,
        ),
        r matches Err(e) ==> tgt@.len() != test@.len() && e == (RecordCountMismatch {
            target: tgt@.len() as usize,
            test: test@.len() as usize,
        }),
        r is Ok <==> tgt@.len() == test@.len(),
{
    if tgt.len() != test.len() {
        return Err(RecordCountMismatch { target: tgt.len(), test: test.len() });
    }
    let ghost tv = records_view(tgt@);
    let ghost sv = records_view(test@);
    let ghost f = *fraction;
    let ghost q = qualities@;
    let mut gain = zero_counts(qualities.len());
    let mut loss = zero_counts(qualities.len());
    let mut diff = zero_counts(qualities.len());
    let mut gain_names: Vec<String> = Vec::new();
    let mut loss_names: Vec<String> = Vec::new();
    let mut diff_names: Vec<String> = Vec::new();
    let n = tgt.len();
    let mut i: usize = 0;
    while i < n
        invariant
            n == tgt@.len() == test@.len(),
            i <= n,
            fraction.wf(),
            tv == records_view(tgt@),
            sv == records_view(test@),
            f == *fraction,
            q == qualities@,
            counts_view(gain@) == histogram(scores_of(tv, sv, mode, f, Outcome::Gain, i as int), q),
            counts_view(loss@) == histogram(scores_of(tv, sv, mode, f, Outcome::Loss, i as int), q),
            counts_view(diff@) == histogram(
                scores_of(tv, sv, mode, f, Outcome::Discordant, i as int),
                q,
            ),
            names_view(gain_names@) == (if with_names {
                names_of(tv, sv, mode, f, Outcome::Gain, i as int)
            } else {
                Seq::empty()
            }),
            names_view(loss_names@) == (if with_names {
                names_of(tv, sv, mode, f, Outcome::Loss, i as int)
            } else {
                Seq::empty()
            }),
            names_view(diff_names@) == (if with_names {
                names_of(tv, sv, mode, f, Outcome::Discordant, i as int)
            } else {
                Seq::empty()
            }),
        decreases n - i,
    {
        proof {
            lemma_scores_len(tv, sv, mode, f, Outcome::Gain, i as int);
            lemma_scores_len(tv, sv, mode, f, Outcome::Loss, i as int);
            lemma_scores_len(tv, sv, mode, f, Outcome::Discordant, i as int);
        }
        let t = &tgt[i];
        let s = &test[i];
        assert(tv[i as int] == t@ && sv[i as int] == s@);
        let o = classify(t, s, mode, fraction);
        match o {
            Outcome::Concordant => {},
            Outcome::Gain => {
                if let Sam::Mapped(m) = s {
                    count_into(
                        &mut gain,
                        qualities,
                        m.mapq,
                        Ghost(scores_of(tv, sv, mode, f, Outcome::Gain, i as int)),
                        Ghost(n as int),
                    );
                    if with_names {
                        gain_names.push(m.qname.clone());
                        assert(names_view(gain_names@) == names_of(
                            tv,
                            sv,
                            mode,
                            f,
                            Outcome::Gain,
                            i + 1,
                        ));
                    }
                }
            },
            Outcome::Loss | Outcome::Discordant => {
                if let Sam::Mapped(m) = t {
                    if o == Outcome::Loss {
                        count_into(
                            &mut loss,
                            qualities,
                            m.mapq,
                            Ghost(scores_of(tv, sv, mode, f, Outcome::Loss, i as int)),
                            Ghost(n as int),
                        );
                        if with_names {
                            loss_names.push(m.qname.clone());
                            assert(names_view(loss_names@) == names_of(
                                tv,
                                sv,
                                mode,
                                f,
                                Outcome::Loss,
                                i + 1,
                            ));
                        }
                    } else {
                        count_into(
                            &mut diff,
                            qualities,
                            m.mapq,
                            Ghost(scores_of(tv, sv, mode, f, Outcome::Discordant, i as int)),
                            Ghost(n as int),
                        );
                        if with_names {
                            diff_names.push(m.qname.clone());
                            assert(names_view(diff_names@) == names_of(
                                tv,
                                sv,
                                mode,
                                f,
                                Outcome::Discordant,
                                i + 1,
                            ));
                        }
                    }
                }
            },
        }
        i = i + 1;
    }
    Ok(Report { gain, loss, diff, gain_names, loss_names, diff_names })
}

} // verus!
