//! Properties that hold of every comparison.
use vstd::arithmetic::div_mod::{lemma_fundamental_div_mod, lemma_mod_pos_bound};
use vstd::prelude::*;

use crate::bucket::{bucket_of, lemma_bucket_of, strictly_descending};
use crate::classify::{outcome, report_of, Outcome, Report};
use crate::compare::{
    agrees, concordant, found_in_secondaries, found_in_supplementaries, tolerance_of, within,
    DistanceFraction, Mode,
};
use crate::record::{MappedView, SamView, SecondaryView, SupplementaryView};

verus! {

/// With a strictly descending table whose last threshold is 0, every score has
/// exactly one bucket: the `k` with `thresholds[k] <= score`, and
/// `score < thresholds[k - 1]` unless `k` is the first.
pub proof fn law_every_score_has_one_bucket(thresholds: Seq<u8>, score: u8)
    requires
        strictly_descending(thresholds),
        thresholds.len() > 0,
        thresholds.last() == 0,
    ensures
        bucket_of(thresholds, score) is Some,
        forall|k: int|
            0 <= k < thresholds.len() ==> (bucket_of(thresholds, score) == Some(k) <==> (
            thresholds[k] <= score && (k == 0 || score < thresholds[k - 1]))),
{
    lemma_bucket_of(thresholds, score);
    let n = thresholds.len() - 1;
    assert(score >= thresholds[n]);
    let b = bucket_of(thresholds, score);
    assert forall|k: int| 0 <= k < thresholds.len() implies (b == Some(k) <==> (thresholds[k]
        <= score && (k == 0 || score < thresholds[k - 1]))) by {
        if thresholds[k] <= score && (k == 0 || score < thresholds[k - 1]) {
            let kk = b->0;
            if kk < k {
                assert(thresholds[kk] >= thresholds[k - 1]);
            } else if kk > k {
                assert(score < thresholds[k]);
            }
        }
    }
}

/// A report is fixed by the records and the configuration: two runs on the
/// same records with the same configuration give the same counts and the
/// same names.
pub proof fn law_report_is_deterministic(
    tgt: Seq<SamView>,
    test: Seq<SamView>,
    mode: Mode,
    f: DistanceFraction,
    thresholds: Seq<u8>,
    with_names: bool,
    first: Report,
    second: Report,
)
    requires
        first@ == report_of(tgt, test, mode, f, thresholds, with_names),
        second@ == report_of(tgt, test, mode, f, thresholds, with_names),
    ensures
        first@ == second@,
{
}

/// A test placement at exactly the target position lies within any
/// non-negative tolerance, and agrees with the target when reference and
/// strand are the same.
pub proof fn law_equal_positions_agree(rname: Seq<char>, reverse: bool, pos: u32, d: int)
    requires
        d >= 0,
    ensures
        within(pos, pos, d),
        agrees(rname, reverse, pos, rname, reverse, pos, d),
{
}

/// `f` is at most `g` as a fraction.
pub open spec fn fraction_le(f: DistanceFraction, g: DistanceFraction) -> bool {
    f.num * g.den <= g.num * f.den
}

/// `(a + b - 1) / b` is the least `c` with `c * b >= a`.
proof fn lemma_ceil_div(a: int, b: int, c: int)
    requires
        a >= 0,
        b > 0,
    ensures
        ((a + b - 1) / b) * b >= a,
        c * b >= a ==> (a + b - 1) / b <= c,
{
    let c0 = (a + b - 1) / b;
    lemma_fundamental_div_mod(a + b - 1, b);
    lemma_mod_pos_bound(a + b - 1, b);
    assert(c0 * b >= a);
    if c * b >= a {
        assert(c0 * b <= a + b - 1);
        assert(c0 <= c) by (nonlinear_arith)
            requires
                c0 * b <= a + b - 1,
                c * b >= a,
                b > 0,
        ;
    }
}

/// A larger fraction never gives a smaller tolerance.
pub proof fn law_tolerance_monotone(f: DistanceFraction, g: DistanceFraction, len: u32)
    requires
        f.wf(),
        g.wf(),
        fraction_le(f, g),
    ensures
        tolerance_of(f, len) <= tolerance_of(g, len),
{
    let a1 = f.num * len;
    let b1 = f.den as int;
    let a2 = g.num * len;
    let b2 = g.den as int;
    let c2 = tolerance_of(g, len);
    lemma_ceil_div(a2, b2, c2);
    assert(c2 * b2 >= a2);
    assert(a1 * b2 <= a2 * b1) by (nonlinear_arith)
        requires
            f.num * g.den <= g.num * f.den,
            a1 == f.num * len,
            a2 == g.num * len,
            b1 == f.den,
            b2 == g.den,
            len >= 0,
    ;
    assert(c2 * b1 >= a1) by (nonlinear_arith)
        requires
            a1 * b2 <= a2 * b1,
            c2 * b2 >= a2,
            b1 > 0,
            b2 > 0,
    ;
    lemma_ceil_div(a1, b1, c2);
}

proof fn lemma_found_secondaries_monotone(
    rname: Seq<char>,
    reverse: bool,
    pos: u32,
    among: Seq<SecondaryView>,
    d1: int,
    d2: int,
)
    requires
        d1 <= d2,
        found_in_secondaries(rname, reverse, pos, among, d1),
    ensures
        found_in_secondaries(rname, reverse, pos, among, d2),
{
    let j = choose|j: int|
        0 <= j < among.len() && agrees(
            rname,
            reverse,
            pos,
            (#[trigger] among[j]).rname,
            among[j].reverse,
            among[j].pos,
            d1,
        );
    assert(agrees(rname, reverse, pos, among[j].rname, among[j].reverse, among[j].pos, d2));
}

proof fn lemma_found_supplementaries_monotone(
    rname: Seq<char>,
    reverse: bool,
    pos: u32,
    among: Seq<SupplementaryView>,
    d1: int,
    d2: int,
)
    requires
        d1 <= d2,
        found_in_supplementaries(rname, reverse, pos, among, d1),
    ensures
        found_in_supplementaries(rname, reverse, pos, among, d2),
{
    let j = choose|j: int|
        0 <= j < among.len() && agrees(
            rname,
            reverse,
            pos,
            (#[trigger] among[j]).rname,
            among[j].reverse,
            among[j].pos,
            d1,
        );
    assert(agrees(rname, reverse, pos, among[j].rname, among[j].reverse, among[j].pos, d2));
}

/// Under every mode, a record that agrees with tolerance `d1` agrees with any
/// larger tolerance.
pub proof fn law_concordance_monotone(mode: Mode, t: MappedView, s: MappedView, d1: int, d2: int)
    requires
        d1 <= d2,
        concordant(mode, t, s, d1),
    ensures
        concordant(mode, t, s, d2),
{
    match mode {
        Mode::All => {
            assert forall|i: int| 0 <= i < t.secondaries.len() implies found_in_secondaries(
                (#[trigger] t.secondaries[i]).rname,
                t.secondaries[i].reverse,
                t.secondaries[i].pos,
                s.secondaries,
                d2,
            ) by {
                lemma_found_secondaries_monotone(
                    t.secondaries[i].rname,
                    t.secondaries[i].reverse,
                    t.secondaries[i].pos,
                    s.secondaries,
                    d1,
                    d2,
                );
            }
        },
        Mode::PrimTgt => {
            if found_in_secondaries(t.rname, t.reverse, t.pos, s.secondaries, d1) {
                lemma_found_secondaries_monotone(t.rname, t.reverse, t.pos, s.secondaries, d1, d2);
            }
            if found_in_supplementaries(t.rname, t.reverse, t.pos, s.supplementaries, d1) {
                lemma_found_supplementaries_monotone(
                    t.rname,
                    t.reverse,
                    t.pos,
                    s.supplementaries,
                    d1,
                    d2,
                );
            }
        },
        Mode::Prim => {},
        Mode::PrimSupp => {
            if found_in_supplementaries(t.rname, t.reverse, t.pos, s.supplementaries, d1) {
                lemma_found_supplementaries_monotone(
                    t.rname,
                    t.reverse,
                    t.pos,
                    s.supplementaries,
                    d1,
                    d2,
                );
            }
        },
    }
}

/// Raising the distance fraction from `f` to `g` can turn a discordant read
/// concordant and never the reverse; every other outcome stays as it was.
pub proof fn law_wider_fraction_only_helps(
    t: SamView,
    s: SamView,
    mode: Mode,
    f: DistanceFraction,
    g: DistanceFraction,
)
    requires
        f.wf(),
        g.wf(),
        fraction_le(f, g),
    ensures
        outcome(t, s, mode, g) == Outcome::Discordant ==> outcome(t, s, mode, f)
            == Outcome::Discordant,
        outcome(t, s, mode, f) != Outcome::Discordant ==> outcome(t, s, mode, g) == outcome(
            t,
            s,
            mode,
            f,
        ),
{
    if let SamView::Mapped(tm) = t {
        if let SamView::Mapped(sm) = s {
            law_tolerance_monotone(f, g, tm.len);
            if concordant(mode, tm, sm, tolerance_of(f, tm.len)) {
                law_concordance_monotone(
                    mode,
                    tm,
                    sm,
                    tolerance_of(f, tm.len),
                    tolerance_of(g, tm.len),
                );
            }
        }
    }
}

/// `All` is at least as strict as `Prim`: whatever agrees under `All` agrees
/// under `Prim`, so a read that `Prim` finds discordant `All` finds discordant.
pub proof fn law_all_stricter_than_prim(t: SamView, s: SamView, f: DistanceFraction)
    ensures
        outcome(t, s, Mode::Prim, f) == Outcome::Discordant ==> outcome(t, s, Mode::All, f)
            == Outcome::Discordant,
        outcome(t, s, Mode::All, f) == Outcome::Concordant ==> outcome(t, s, Mode::Prim, f)
            == Outcome::Concordant,
{
}

} // verus!
