//! The per-read record: a mapped primary placement with its secondary and
//! supplementary placements, or an unmapped read.
use vstd::prelude::*;

verus! {

/// An alternative, lower-confidence placement of a mapped read.
#[derive(Clone, Debug)]
pub struct Secondary {
    pub rname: String,
    pub pos: u32,
    /// Aligned to the reverse strand.
    pub reverse: bool,
}

/// A segment of a split alignment of a mapped read.
#[derive(Clone, Debug)]
pub struct Supplementary {
    pub rname: String,
    pub pos: u32,
    pub reverse: bool,
    /// Length of the sequence field of the supplementary line.
    pub len: u32,
}

/// A read with a primary placement.
#[derive(Clone, Debug)]
pub struct Mapped {
    pub qname: String,
    /// Length of the read's sequence.
    pub len: u32,
    pub rname: String,
    /// 1-based position of the primary placement.
    pub pos: u32,
    pub reverse: bool,
    pub mapq: u8,
    pub secondaries: Vec<Secondary>,
    pub supplementaries: Vec<Supplementary>,
}

/// A read that the aligner did not place.
#[derive(Clone, Debug)]
pub struct Unmapped {
    pub qname: String,
    pub len: u32,
}

/// One read's alignment outcome.
#[derive(Clone, Debug)]
pub enum Sam {
    Mapped(Mapped),
    Unmapped(Unmapped),
}

/// What a `Secondary` holds, with the reference name as characters.
pub struct SecondaryView {
    pub rname: Seq<char>,
    pub pos: u32,
    pub reverse: bool,
}

/// What a `Supplementary` holds.
pub struct SupplementaryView {
    pub rname: Seq<char>,
    pub pos: u32,
    pub reverse: bool,
    pub len: u32,
}

/// What a `Mapped` record holds, with its placements as sequences.
pub struct MappedView {
    pub qname: Seq<char>,
    pub len: u32,
    pub rname: Seq<char>,
    pub pos: u32,
    pub reverse: bool,
    pub mapq: u8,
    pub secondaries: Seq<SecondaryView>,
    pub supplementaries: Seq<SupplementaryView>,
}

/// What an `Unmapped` record holds.
pub struct UnmappedView {
    pub qname: Seq<char>,
    pub len: u32,
}

/// What a `Sam` record holds.
pub enum SamView {
    Mapped(MappedView),
    Unmapped(UnmappedView),
}

impl View for Secondary {
    type V = SecondaryView;

    open spec fn view(&self) -> SecondaryView {
        SecondaryView { rname: self.rname@, pos: self.pos, reverse: self.reverse }
    }
}

impl View for Supplementary {
    type V = SupplementaryView;

    open spec fn view(&self) -> SupplementaryView {
        SupplementaryView {
            rname: self.rname@,
            pos: self.pos,
            reverse: self.reverse,
            len: self.len,
        }
    }
}

pub open spec fn secondaries_view(v: Seq<Secondary>) -> Seq<SecondaryView> {
    v.map_values(|x: Secondary| x@)
}

pub open spec fn supplementaries_view(v: Seq<Supplementary>) -> Seq<SupplementaryView> {
    v.map_values(|x: Supplementary| x@)
}

impl View for Mapped {
    type V = MappedView;

    open spec fn view(&self) -> MappedView {
        MappedView {
            qname: self.qname@,
            len: self.len,
            rname: self.rname@,
            pos: self.pos,
            reverse: self.reverse,
            mapq: self.mapq,
            secondaries: secondaries_view(self.secondaries@),
            supplementaries: supplementaries_view(self.supplementaries@),
        }
    }
}

impl View for Unmapped {
    type V = UnmappedView;

    open spec fn view(&self) -> UnmappedView {
        UnmappedView { qname: self.qname@, len: self.len }
    }
}

impl View for Sam {
    type V = SamView;

    open spec fn view(&self) -> SamView {
        match self {
            Sam::Mapped(m) => SamView::Mapped(m@),
            Sam::Unmapped(u) => SamView::Unmapped(u@),
        }
    }
}

/// The views of a sequence of records.
pub open spec fn records_view(v: Seq<Sam>) -> Seq<SamView> {
    v.map_values(|r: Sam| r@)
}

} // verus!
