//! The typed records decoded from the trace: anchors, chains, and reads.
//!
//! Text that comes out of the trace (read names, scores, CIGAR strings) is
//! held as the raw bytes of the scanned span; the records never compute with
//! it, and the rendering collaborator converts it for display.

use vstd::prelude::*;

verus! {

/// A single k-mer match between the query read and the reference, given as
/// a start coordinate on each axis.
#[derive(Debug, Clone, Copy, PartialEq, Eq)]
pub struct Anchor {
    pub ref_start: u32,
    pub query_start: u32,
}

/// Whether the aligner picked a chain as its final alignment for the read.
/// `Unclassified` only exists while a read is being decoded: every chain of
/// a returned read is either `Considered` or `NotConsidered`, so downstream
/// geometry cannot mistake "unknown" for "not considered".
#[derive(Debug, Clone, Copy, PartialEq, Eq)]
pub enum Classification {
    Unclassified,
    Considered,
    NotConsidered,
}

/// The second-pass data attached to a chain in full-detail mode: the primary
/// alignment's CIGAR text and reference start, and the secondary ("ssw")
/// alignment's CIGAR text and reference start.
#[derive(Debug, Clone, PartialEq, Eq)]
pub struct ChainDetail {
    pub cigar: Vec<u8>,
    pub cigar_ref_start: u32,
    pub ssw_cigar: Vec<u8>,
    pub ssw_ref_start: u32,
}

pub ghost struct ChainDetailView {
    pub cigar: Seq<u8>,
    pub cigar_ref_start: u32,
    pub ssw_cigar: Seq<u8>,
    pub ssw_ref_start: u32,
}

impl View for ChainDetail {
    type V = ChainDetailView;

    open spec fn view(&self) -> ChainDetailView {
        ChainDetailView {
            cigar: self.cigar@,
            cigar_ref_start: self.cigar_ref_start,
            ssw_cigar: self.ssw_cigar@,
            ssw_ref_start: self.ssw_ref_start,
        }
    }
}

/// One candidate alignment: an ordered subset of anchors judged by the
/// aligner to form one alignment, with its score (kept as the raw decimal
/// text of the trace), query span, reference span and strand. `anchors`
/// preserves the order of the trace, which is the chaining order.
#[derive(Debug, Clone, PartialEq, Eq)]
pub struct Chain {
    pub ref_id: u32,
    pub score: Vec<u8>,
    pub qspan0: u32,
    pub qspan1: u32,
    pub rspan0: u32,
    pub rspan1: u32,
    pub is_revcomp: bool,
    pub anchors: Vec<Anchor>,
    pub considered: Classification,
    pub detail: Option<ChainDetail>,
}

pub ghost struct ChainView {
    pub ref_id: u32,
    pub score: Seq<u8>,
    pub qspan0: u32,
    pub qspan1: u32,
    pub rspan0: u32,
    pub rspan1: u32,
    pub is_revcomp: bool,
    pub anchors: Seq<Anchor>,
    pub considered: Classification,
    pub detail: Option<ChainDetailView>,
}

impl View for Chain {
    type V = ChainView;

    open spec fn view(&self) -> ChainView {
        ChainView {
            ref_id: self.ref_id,
            score: self.score@,
            qspan0: self.qspan0,
            qspan1: self.qspan1,
            rspan0: self.rspan0,
            rspan1: self.rspan1,
            is_revcomp: self.is_revcomp,
            anchors: self.anchors@,
            considered: self.considered,
            detail: match self.detail {
                Some(d) => Some(d@),
                None => None,
            },
        }
    }
}

/// One decoded read record: its name (the raw bytes of the trace span), its
/// length, the k-mer size, the background anchor pools of both strands, and
/// the candidate chains in trace order. A read returned by the scanner
/// always has at least one chain.
#[derive(Debug, Clone, PartialEq, Eq)]
pub struct Read {
    pub name: Vec<u8>,
    pub read_len: u32,
    pub k: u32,
    pub fwd_anchors: Vec<Anchor>,
    pub rev_anchors: Vec<Anchor>,
    pub chains: Vec<Chain>,
}

pub ghost struct ReadView {
    pub name: Seq<u8>,
    pub read_len: u32,
    pub k: u32,
    pub fwd_anchors: Seq<Anchor>,
    pub rev_anchors: Seq<Anchor>,
    pub chains: Seq<ChainView>,
}

impl View for Read {
    type V = ReadView;

    open spec fn view(&self) -> ReadView {
        ReadView {
            name: self.name@,
            read_len: self.read_len,
            k: self.k,
            fwd_anchors: self.fwd_anchors@,
            rev_anchors: self.rev_anchors@,
            chains: self.chains@.map_values(|c: Chain| c@),
        }
    }
}

} // verus!
