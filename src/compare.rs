//! Tolerance-based comparison of a test mapping against a target mapping.
use vstd::prelude::*;

use crate::record::{
    secondaries_view, supplementaries_view, Mapped, MappedView, Secondary, SecondaryView,
    Supplementary, SupplementaryView,
};

verus! {

/// A positional tolerance as a fraction `num / den` of the target read's length.
#[derive(Clone, Copy, Debug, PartialEq, Eq, Structural)]
pub struct DistanceFraction {
    pub num: u32,
    pub den: u32,
}

impl DistanceFraction {
    pub open spec fn wf(&self) -> bool {
        self.den > 0
    }

    /// One full read length.
    pub fn one() -> (r: DistanceFraction)
        ensures
            r.num == 1,
            r.den == 1,
    {
        DistanceFraction { num: 1, den: 1 }
    }
}

/// The tolerance in bases for a read of length `len`: `ceil(num * len / den)`.
pub open spec fn tolerance_of(f: DistanceFraction, len: u32) -> int {
    (f.num * len + f.den - 1) / (f.den as int)
}

/// `test_pos` lies within `d` of `target_pos`, either side.
pub open spec fn within(test_pos: u32, target_pos: u32, d: int) -> bool {
    test_pos + d >= target_pos && test_pos <= target_pos + d
}

/// A test placement agrees with a target placement: same reference, same
/// strand, position within `d`.
pub open spec fn agrees(
    target_rname: Seq<char>,
    target_reverse: bool,
    target_pos: u32,
    test_rname: Seq<char>,
    test_reverse: bool,
    test_pos: u32,
    d: int,
) -> bool {
    &&& target_rname == test_rname
    &&& target_reverse == test_reverse
    &&& within(test_pos, target_pos, d)
}

pub open spec fn primary_agrees(t: MappedView, s: MappedView, d: int) -> bool {
    agrees(t.rname, t.reverse, t.pos, s.rname, s.reverse, s.pos, d)
}

/// Some secondary of `among` agrees with the target placement.
pub open spec fn found_in_secondaries(
    rname: Seq<char>,
    reverse: bool,
    pos: u32,
    among: Seq<SecondaryView>,
    d: int,
) -> bool {
    exists|j: int|
        0 <= j < among.len() && agrees(
            rname,
            reverse,
            pos,
            (#[trigger] among[j]).rname,
            among[j].reverse,
            among[j].pos,
            d,
        )
}

/// Some supplementary of `among` agrees with the target placement.
pub open spec fn found_in_supplementaries(
    rname: Seq<char>,
    reverse: bool,
    pos: u32,
    among: Seq<SupplementaryView>,
    d: int,
) -> bool {
    exists|j: int|
        0 <= j < among.len() && agrees(
            rname,
            reverse,
            pos,
            (#[trigger] among[j]).rname,
            among[j].reverse,
            among[j].pos,
            d,
        )
}

/// Every secondary of the target has an agreeing secondary in the test.
pub open spec fn secondaries_found(t: MappedView, s: MappedView, d: int) -> bool {
    forall|i: int|
        0 <= i < t.secondaries.len() ==> found_in_secondaries(
            (#[trigger] t.secondaries[i]).rname,
            t.secondaries[i].reverse,
            t.secondaries[i].pos,
            s.secondaries,
            d,
        )
}

/// How a test record with a primary placement is held against the target's.
#[derive(Clone, Copy, Debug, PartialEq, Eq, Structural)]
pub enum Mode {
    /// Primaries agree, and each target secondary has an agreeing test secondary.
    All,
    /// Primaries agree, or a test secondary or supplementary agrees with the
    /// target primary.
    PrimTgt,
    /// Primaries agree.
    Prim,
    /// Primaries agree, or a test supplementary agrees with the target primary.
    PrimSupp,
}

/// Whether test record `s` agrees with target record `t` under `mode`, with
/// tolerance `d`.
pub open spec fn concordant(mode: Mode, t: MappedView, s: MappedView, d: int) -> bool {
    match mode {
        Mode::All => primary_agrees(t, s, d) && secondaries_found(t, s, d),
        Mode::PrimTgt => primary_agrees(t, s, d) || found_in_secondaries(
            t.rname,
            t.reverse,
            t.pos,
            s.secondaries,
            d,
        ) || found_in_supplementaries(t.rname, t.reverse, t.pos, s.supplementaries, d),
        Mode::Prim => primary_agrees(t, s, d),
        Mode::PrimSupp => primary_agrees(t, s, d) || found_in_supplementaries(
            t.rname,
            t.reverse,
            t.pos,
            s.supplementaries,
            d,
        ),
    }
}

/// The ceiling of `fraction * read_len`.
pub fn tolerance(fraction: &DistanceFraction, read_len: u32) -> (d: u64)
    requires
        fraction.wf(),
    ensures
        d as int == tolerance_of(*fraction, read_len),
{
    let num = fraction.num as u64;
    let den = fraction.den as u64;
    let len = read_len as u64;
    assert(num * len <= 0xffff_fffe_0000_0001) by (nonlinear_arith)
        requires
            num <= 0xffff_ffff,
            len <= 0xffff_ffff,
    ;
    (num * len + (den - 1)) / den
}

fn placement_agrees(
    target_rname: &String,
    target_reverse: bool,
    target_pos: u32,
    test_rname: &String,
    test_reverse: bool,
    test_pos: u32,
    d: u64,
) -> (r: bool)
    ensures
        r == agrees(
            target_rname@,
            target_reverse,
            target_pos,
            test_rname@,
            test_reverse,
            test_pos,
            d as int,
        ),
{
    let near = (test_pos as u128) + (d as u128) >= (target_pos as u128) && (test_pos as u128) <= (
    target_pos as u128) + (d as u128);
    near && target_reverse == test_reverse && target_rname.eq(test_rname)
}

fn find_in_secondaries(
    rname: &String,
    reverse: bool,
    pos: u32,
    among: &Vec<Secondary>,
    d: u64,
) -> (r: bool)
    ensures
        r == found_in_secondaries(
            rname@,
            reverse,
            pos,
            secondaries_view(among@),
            d as int,
        ),
{
    let ghost v = secondaries_view(among@);
    let mut j: usize = 0;
    while j < among.len()
        invariant
            j <= among@.len(),
            v == secondaries_view(among@),
            forall|k: int|
                0 <= k < j ==> !agrees(
                    rname@,
                    reverse,
                    pos,
                    (#[trigger] v[k]).rname,
                    v[k].reverse,
                    v[k].pos,
                    d as int,
                ),
        decreases among@.len() - j,
    {
        let x = &among[j];
        if placement_agrees(rname, reverse, pos, &x.rname, x.reverse, x.pos, d) {
            assert(v[j as int] == x@);
            return true;
        }
        j = j + 1;
    }
    false
}

fn find_in_supplementaries(
    rname: &String,
    reverse: bool,
    pos: u32,
    among: &Vec<Supplementary>,
    d: u64,
) -> (r: bool)
    ensures
        r == found_in_supplementaries(
            rname@,
            reverse,
            pos,
            supplementaries_view(among@),
            d as int,
        ),
{
    let ghost v = supplementaries_view(among@);
    let mut j: usize = 0;
    while j < among.len()
        invariant
            j <= among@.len(),
            v == supplementaries_view(among@),
            forall|k: int|
                0 <= k < j ==> !agrees(
                    rname@,
                    reverse,
                    pos,
                    (#[trigger] v[k]).rname,
                    v[k].reverse,
                    v[k].pos,
                    d as int,
                ),
        decreases among@.len() - j,
    {
        let x = &among[j];
        if placement_agrees(rname, reverse, pos, &x.rname, x.reverse, x.pos, d) {
            assert(v[j as int] == x@);
            return true;
        }
        j = j + 1;
    }
    false
}

fn primaries_agree(tgt: &Mapped, test: &Mapped, distance: u64) -> (r: bool)
    ensures
        r == primary_agrees(tgt@, test@, distance as int),
{
    placement_agrees(&tgt.rname, tgt.reverse, tgt.pos, &test.rname, test.reverse, test.pos, distance)
}

/// Concordance under `Mode::All`: the first target secondary without an
/// agreeing test secondary makes the read discordant.
pub fn compare_all(tgt: &Mapped, test: &Mapped, distance: u64) -> (r: bool)
    ensures
        r == concordant(Mode::All, tgt@, test@, distance as int),
{
    if !primaries_agree(tgt, test, distance) {
        return false;
    }
    let ghost t = tgt@;
    let mut i: usize = 0;
    while i < tgt.secondaries.len()
        invariant
            i <= tgt.secondaries@.len(),
            t == tgt@,
            forall|k: int|
                0 <= k < i ==> found_in_secondaries(
                    (#[trigger] t.secondaries[k]).rname,
                    t.secondaries[k].reverse,
                    t.secondaries[k].pos,
                    test@.secondaries,
                    distance as int,
                ),
        decreases tgt.secondaries@.len() - i,
    {
        let x = &tgt.secondaries[i];
        assert(t.secondaries[i as int] == x@);
        if !find_in_secondaries(&x.rname, x.reverse, x.pos, &test.secondaries, distance) {
            return false;
        }
        i = i + 1;
    }
    true
}

/// Concordance under `Mode::PrimTgt`.
pub fn compare_prim_tgt(tgt: &Mapped, test: &Mapped, distance: u64) -> (r: bool)
    ensures
        r == concordant(Mode::PrimTgt, tgt@, test@, distance as int),
{
    primaries_agree(tgt, test, distance) || find_in_supplementaries(
        &tgt.rname,
        tgt.reverse,
        tgt.pos,
        &test.supplementaries,
        distance,
    ) || find_in_secondaries(&tgt.rname, tgt.reverse, tgt.pos, &test.secondaries, distance)
}

/// Concordance under `Mode::Prim`.
pub fn compare_prim(tgt: &Mapped, test: &Mapped, distance: u64) -> (r: bool)
    ensures
        r == concordant(Mode::Prim, tgt@, test@, distance as int),
{
    primaries_agree(tgt, test, distance)
}

/// Concordance under `Mode::PrimSupp`.
pub fn compare_prim_supp(tgt: &Mapped, test: &Mapped, distance: u64) -> (r: bool)
    ensures
        r == concordant(Mode::PrimSupp, tgt@, test@, distance as int),
{
    primaries_agree(tgt, test, distance) || find_in_supplementaries(
        &tgt.rname,
        tgt.reverse,
        tgt.pos,
        &test.supplementaries,
        distance,
    )
}

/// Concordance of two records with primary placements under `mode`.
pub fn compare_mapped(mode: Mode, tgt: &Mapped, test: &Mapped, distance: u64) -> (r: bool)
    ensures
        r == concordant(mode, tgt@, test@, distance as int),
{
    match mode {
        Mode::All => compare_all(tgt, test, distance),
        Mode::PrimTgt => compare_prim_tgt(tgt, test, distance),
        Mode::Prim => compare_prim(tgt, test, distance),
        Mode::PrimSupp => compare_prim_supp(tgt, test, distance),
    }
}

} // verus!
