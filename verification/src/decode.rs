//! The decoders: anchor lists, chain lists, the chain-detail pass, whole
//! read records, and the trace scanner.
//!
//! The trace layout is positional: each field is a fixed-length literal
//! label followed by text up to a delimiter byte, and each list closes with
//! `]`. The `spec_*` functions are the mathematical definition of that
//! layout — a parse result is `None` exactly when the bytes violate it —
//! and every executable decoder returns exactly what its `spec_*` function
//! says, or a `DecodeError` exactly when it says `None`. Decoding is a pure
//! function of the input bytes, the mode and the cap: re-decoding the same
//! buffer always yields the same records.
//!
//! Field layout of one read record, as skip lengths and delimiters:
//! marker `Query: ` (7), name to `\n`; label (2), read length to `,`;
//! label (2), k to `\n`; label (28) ending in `[`, forward anchors; label
//! (29) ending in `[`, reverse anchors; label (8) ending in `[`, chains;
//! one trailing byte. A chain entry is labels of 8, 6, 12, 10, 10, 8 and 11
//! bytes for ref id, score, query span, reference span and strand, a label
//! of 9 ending in `[` for its anchors, and one trailing byte. In full mode
//! a label (8) ending in `[` opens the detail list; a detail entry is a
//! 1-byte label, the CIGAR to `,`, a 15-byte label, the considered flag
//! byte (`1` or other), 8 more label bytes, the CIGAR's reference start to
//! `,`, a 4-byte label, the secondary CIGAR to `,`, an 11-byte label, and
//! the secondary reference start to `)`. An anchor entry is a 1-byte label,
//! the reference start to `,`, and the query start to `}`.

use vstd::prelude::*;
use crate::cursor::{
    DecodeError, DecodeErrorKind, field_bool, field_score, field_span, field_u32, skip,
    spec_field_bool, spec_field_score, spec_field_span, spec_field_u32, spec_skip,
};
use crate::records::{
    Anchor, Chain, ChainDetail, ChainDetailView, ChainView, Classification, Read, ReadView,
};

verus! {

/// Which of the two trace variants is being decoded: `MappingOnly` has no
/// detail pass (the first chain is synthetically the considered one), `Full`
/// attaches a CIGAR, a considered flag and a secondary alignment per chain.
#[derive(Debug, Clone, Copy, PartialEq, Eq)]
pub enum DecodeMode {
    MappingOnly,
    Full,
}

/// One entry of the chain-detail pass, before it is attached to its chain.
#[derive(Debug, Clone, PartialEq, Eq)]
pub struct DetailEntry {
    pub cigar: Vec<u8>,
    pub considered: bool,
    pub cigar_ref_start: u32,
    pub ssw_cigar: Vec<u8>,
    pub ssw_ref_start: u32,
}

pub ghost struct DetailEntryView {
    pub cigar: Seq<u8>,
    pub considered: bool,
    pub cigar_ref_start: u32,
    pub ssw_cigar: Seq<u8>,
    pub ssw_ref_start: u32,
}

impl View for DetailEntry {
    type V = DetailEntryView;

    open spec fn view(&self) -> DetailEntryView {
        DetailEntryView {
            cigar: self.cigar@,
            considered: self.considered,
            cigar_ref_start: self.cigar_ref_start,
            ssw_cigar: self.ssw_cigar@,
            ssw_ref_start: self.ssw_ref_start,
        }
    }
}

/// The literal marker a read record begins at: `Query: `.
pub open spec fn read_marker() -> Seq<u8> {
    seq![81u8, 117u8, 101u8, 114u8, 121u8, 58u8, 32u8]
}

/// One anchor entry: `{ref_start,query_start}`.
pub open spec fn spec_anchor(s: Seq<u8>, pos: int) -> Option<(Anchor, int)> {
    match spec_field_u32(s, pos, 1, 44) {
        None => None,
        Some((rs, p1)) => match spec_field_u32(s, p1, 0, 125) {
            None => None,
            Some((qs, p2)) => Some((Anchor { ref_start: rs, query_start: qs }, p2)),
        },
    }
}

/// An anchor list from `pos` up to and past its closing `]`, in file order.
pub open spec fn spec_anchors(s: Seq<u8>, pos: int) -> Option<(Seq<Anchor>, int)>
    decreases s.len() - pos,
{
    if pos < 0 || pos >= s.len() {
        None
    } else if s[pos] == 93 {
        Some((Seq::empty(), pos + 1))
    } else {
        match spec_anchor(s, pos) {
            None => None,
            Some((a, p)) => if pos < p <= s.len() {
                match spec_anchors(s, p) {
                    None => None,
                    Some((rest, q)) => Some((seq![a] + rest, q)),
                }
            } else {
                None
            },
        }
    }
}

/// One chain entry: ref id, score, query span, reference span, strand flag,
/// nested anchor list, one trailing byte. `considered` and the detail fields
/// stay unset here.
pub open spec fn spec_chain(s: Seq<u8>, pos: int) -> Option<(ChainView, int)> {
    match spec_field_u32(s, pos, 8, 44) {
        None => None,
        Some((ref_id, p1)) => match spec_field_score(s, p1, 6, 44) {
            None => None,
            Some((score, p2)) => match spec_field_u32(s, p2, 12, 44) {
                None => None,
                Some((q0, p3)) => match spec_field_u32(s, p3, 10, 44) {
                    None => None,
                    Some((q1, p4)) => match spec_field_u32(s, p4, 10, 44) {
                        None => None,
                        Some((r0, p5)) => match spec_field_u32(s, p5, 8, 44) {
                            None => None,
                            Some((r1, p6)) => match spec_field_bool(s, p6, 11, 44) {
                                None => None,
                                Some((rev, p7)) => match spec_skip(s, p7, 9) {
                                    None => None,
                                    Some(p8) => match spec_anchors(s, p8) {
                                        None => None,
                                        Some((anchors, p9)) => match spec_skip(s, p9, 1) {
                                            None => None,
                                            Some(p10) => Some(
                                                (
                                                    ChainView {
                                                        ref_id,
                                                        score,
                                                        qspan0: q0,
                                                        qspan1: q1,
                                                        rspan0: r0,
                                                        rspan1: r1,
                                                        is_revcomp: rev,
                                                        anchors,
                                                        considered: Classification::Unclassified,
                                                        detail: None,
                                                    },
                                                    p10,
                                                ),
                                            ),
                                        },
                                    },
                                },
                            },
                        },
                    },
                },
            },
        },
    }
}

/// A chain list from `pos` up to and past its closing `]`, in file order
/// (the order downstream consumers read as rank).
pub open spec fn spec_chains(s: Seq<u8>, pos: int) -> Option<(Seq<ChainView>, int)>
    decreases s.len() - pos,
{
    if pos < 0 || pos >= s.len() {
        None
    } else if s[pos] == 93 {
        Some((Seq::empty(), pos + 1))
    } else {
        match spec_chain(s, pos) {
            None => None,
            Some((c, p)) => if pos < p <= s.len() {
                match spec_chains(s, p) {
                    None => None,
                    Some((rest, q)) => Some((seq![c] + rest, q)),
                }
            } else {
                None
            },
        }
    }
}

/// One chain-detail entry: CIGAR text, considered flag byte, the CIGAR's
/// reference start, the secondary CIGAR text and its reference start.
pub open spec fn spec_detail(s: Seq<u8>, pos: int) -> Option<(DetailEntryView, int)> {
    match spec_field_span(s, pos, 1, 44) {
        None => None,
        Some((cig, p1)) => match spec_skip(s, p1, 15) {
            None => None,
            Some(p2) => match spec_skip(s, p2, 9) {
                None => None,
                Some(p3) => match spec_field_u32(s, p3, 0, 44) {
                    None => None,
                    Some((crs, p4)) => match spec_field_span(s, p4, 4, 44) {
                        None => None,
                        Some((scig, p5)) => match spec_field_u32(s, p5, 11, 41) {
                            None => None,
                            Some((srs, p6)) => Some(
                                (
                                    DetailEntryView {
                                        cigar: cig,
                                        considered: s[p2] == 49,
                                        cigar_ref_start: crs,
                                        ssw_cigar: scig,
                                        ssw_ref_start: srs,
                                    },
                                    p6,
                                ),
                            ),
                        },
                    },
                },
            },
        },
    }
}

/// The chain-detail list from `pos` up to and past its closing `]`, in the
/// same order as the chain list it describes.
pub open spec fn spec_details(s: Seq<u8>, pos: int) -> Option<(Seq<DetailEntryView>, int)>
    decreases s.len() - pos,
{
    if pos < 0 || pos >= s.len() {
        None
    } else if s[pos] == 93 {
        Some((Seq::empty(), pos + 1))
    } else {
        match spec_detail(s, pos) {
            None => None,
            Some((d, p)) => if pos < p <= s.len() {
                match spec_details(s, p) {
                    None => None,
                    Some((rest, q)) => Some((seq![d] + rest, q)),
                }
            } else {
                None
            },
        }
    }
}

/// Mapping-only mode's synthetic classification: the first chain in decode
/// order is the considered one, all others are not.
pub open spec fn classify_first(chains: Seq<ChainView>) -> Seq<ChainView> {
    chains.map(
        |i: int, c: ChainView|
            ChainView {
                considered: if i == 0 {
                    Classification::Considered
                } else {
                    Classification::NotConsidered
                },
                ..c
            },
    )
}

/// Positional attachment of the detail pass: the n-th detail entry updates
/// the n-th chain. Meaningful only when the two lists have equal length.
pub open spec fn attach_details(chains: Seq<ChainView>, dets: Seq<DetailEntryView>) -> Seq<
    ChainView,
> {
    chains.map(
        |i: int, c: ChainView|
            if 0 <= i < dets.len() {
                ChainView {
                    considered: if dets[i].considered {
                        Classification::Considered
                    } else {
                        Classification::NotConsidered
                    },
                    detail: Some(
                        ChainDetailView {
                            cigar: dets[i].cigar,
                            cigar_ref_start: dets[i].cigar_ref_start,
                            ssw_cigar: dets[i].ssw_cigar,
                            ssw_ref_start: dets[i].ssw_ref_start,
                        },
                    ),
                    ..c
                }
            } else {
                c
            },
    )
}

/// One read record from its marker: name, read length, k, forward and
/// reverse anchor pools, chain list, then the classification the mode calls
/// for. The inner `None` is a degenerate record: a read whose chain list is
/// empty is decoded but dropped. The outer `None` is a format violation —
/// including a detail list whose length disagrees with the chain list.
#[verifier::opaque]
pub open spec fn spec_read(s: Seq<u8>, pos: int, mode: DecodeMode) -> Option<
    (Option<ReadView>, int),
> {
    match spec_field_span(s, pos, 7, 10) {
        None => None,
        Some((name, p1)) => match spec_field_u32(s, p1, 2, 44) {
            None => None,
            Some((read_len, p2)) => match spec_field_u32(s, p2, 2, 10) {
                None => None,
                Some((k, p3)) => match spec_skip(s, p3, 28) {
                    None => None,
                    Some(p4) => match spec_anchors(s, p4) {
                        None => None,
                        Some((fwd, p5)) => match spec_skip(s, p5, 29) {
                            None => None,
                            Some(p6) => match spec_anchors(s, p6) {
                                None => None,
                                Some((rev, p7)) => match spec_skip(s, p7, 8) {
                                    None => None,
                                    Some(p8) => match spec_chains(s, p8) {
                                        None => None,
                                        Some((chains, p9)) => match spec_skip(s, p9, 1) {
                                            None => None,
                                            Some(p10) => if chains.len() == 0 {
                                                Some((None, p10))
                                            } else {
                                                spec_read_tail(
                                                    s,
                                                    p10,
                                                    mode,
                                                    ReadView {
                                                        name,
                                                        read_len,
                                                        k,
                                                        fwd_anchors: fwd,
                                                        rev_anchors: rev,
                                                        chains,
                                                    },
                                                )
                                            },
                                        },
                                    },
                                },
                            },
                        },
                    },
                },
            },
        },
    }
}

/// The mode-dependent tail of a read record: synthetic classification in
/// mapping-only mode, the decoded and length-checked detail pass in full
/// mode.
pub open spec fn spec_read_tail(s: Seq<u8>, pos: int, mode: DecodeMode, rd: ReadView) -> Option<
    (Option<ReadView>, int),
> {
    match mode {
        DecodeMode::MappingOnly => Some(
            (Some(ReadView { chains: classify_first(rd.chains), ..rd }), pos),
        ),
        DecodeMode::Full => match spec_skip(s, pos, 8) {
            None => None,
            Some(p1) => match spec_details(s, p1) {
                None => None,
                Some((dets, p2)) => if dets.len() == rd.chains.len() {
                    Some((Some(ReadView { chains: attach_details(rd.chains, dets), ..rd }), p2))
                } else {
                    None
                },
            },
        },
    }
}

/// One read was accepted: the remaining cap, if any, shrinks by one.
pub open spec fn dec_cap(cap: Option<int>) -> Option<int> {
    match cap {
        Some(c) => Some(c - 1),
        None => None,
    }
}

/// The scan from `pos` on: at each marker occurrence one read record is
/// decoded; accepted reads are accumulated until the remaining cap runs out
/// or fewer than eight bytes are left. `None` is a fatal decode error: the
/// scan is all-or-nothing.
pub open spec fn spec_scan_from(s: Seq<u8>, pos: int, mode: DecodeMode, cap: Option<int>) -> Option<
    Seq<ReadView>,
>
    decreases s.len() - pos,
{
    let capped = match cap {
        Some(c) => c <= 0,
        None => false,
    };
    if capped {
        Some(Seq::empty())
    } else if pos < 0 || pos + 7 >= s.len() {
        Some(Seq::empty())
    } else if s.subrange(pos, pos + 7) == read_marker() {
        match spec_read(s, pos, mode) {
            None => None,
            Some((opt, p)) => if pos < p <= s.len() {
                match opt {
                    None => spec_scan_from(s, p, mode, cap),
                    Some(r) => match spec_scan_from(s, p, mode, dec_cap(cap)) {
                        None => None,
                        Some(rest) => Some(seq![r] + rest),
                    },
                }
            } else {
                None
            },
        }
    } else {
        spec_scan_from(s, pos + 1, mode, cap)
    }
}

/// What decoding a whole trace buffer yields: the accepted reads in trace
/// order, at most `cap` of them where a cap is given.
pub open spec fn spec_scan_trace(s: Seq<u8>, mode: DecodeMode, cap: Option<int>) -> Option<
    Seq<ReadView>,
> {
    spec_scan_from(s, 0, mode, cap)
}

/// Decoding has no hidden state: what a trace buffer decodes to is a
/// function of the bytes, the mode and the cap alone, so decoding the same
/// buffer twice yields structurally identical read lists. `scan_trace`'s
/// contract equates each run's result with `spec_scan_trace`, and this law
/// equates any two such results.
pub proof fn lemma_decode_deterministic(
    s: Seq<u8>,
    mode: DecodeMode,
    cap: Option<int>,
    r1: Seq<ReadView>,
    r2: Seq<ReadView>,
)
    requires
        spec_scan_trace(s, mode, cap) == Some(r1),
        spec_scan_trace(s, mode, cap) == Some(r2),
    ensures
        r1 == r2,
{
}

/// The scanner's cap as the model sees it.
pub open spec fn cap_int(cap: Option<usize>) -> Option<int> {
    match cap {
        Some(c) => Some(c as int),
        None => None,
    }
}

/// Prepends already-decoded anchors onto the model's answer for the rest of
/// the list; the decoding loops maintain this as their invariant.
pub open spec fn glue_anchors(prefix: Seq<Anchor>, rest: Option<(Seq<Anchor>, int)>) -> Option<
    (Seq<Anchor>, int),
> {
    match rest {
        None => None,
        Some((r, q)) => Some((prefix + r, q)),
    }
}

/// Decode an anchor list starting at `pos`, exactly as `spec_anchors` says.
pub fn parse_anchors(bytes: &[u8], pos: usize) -> (r: Result<(Vec<Anchor>, usize), DecodeError>)
    ensures
        match r {
            Ok((v, p)) => spec_anchors(bytes@, pos as int) == Some((v@, p as int)) && pos < p
                <= bytes.len(),
            Err(_) => spec_anchors(bytes@, pos as int) is None,
        },
{
    let mut acc: Vec<Anchor> = Vec::new();
    let mut cur = pos;
    loop
        invariant
            pos <= cur,
            glue_anchors(acc@, spec_anchors(bytes@, cur as int)) == spec_anchors(
                bytes@,
                pos as int,
            ),
        decreases bytes.len() - cur,
    {
        if cur >= bytes.len() {
            assert(spec_anchors(bytes@, cur as int) is None);
            return Err(DecodeError { offset: cur, kind: DecodeErrorKind::UnexpectedEnd });
        }
        if bytes[cur] == 93 {
            proof {
                assert(spec_anchors(bytes@, cur as int) == Some(
                    (Seq::<Anchor>::empty(), cur + 1),
                ));
                assert(acc@ + Seq::<Anchor>::empty() =~= acc@);
            }
            return Ok((acc, cur + 1));
        }
        let (rs, p1) = match field_u32(bytes, cur, 1, 44) {
            Ok(x) => x,
            Err(e) => {
                assert(spec_anchor(bytes@, cur as int) is None);
                assert(spec_anchors(bytes@, cur as int) is None);
                return Err(e);
            },
        };
        let (qs, p2) = match field_u32(bytes, p1, 0, 125) {
            Ok(x) => x,
            Err(e) => {
                assert(spec_anchor(bytes@, cur as int) is None);
                assert(spec_anchors(bytes@, cur as int) is None);
                return Err(e);
            },
        };
        let a = Anchor { ref_start: rs, query_start: qs };
        proof {
            assert(spec_anchor(bytes@, cur as int) == Some((a, p2 as int)));
        }
        let ghost acc_old = acc@;
        acc.push(a);
        proof {
            match spec_anchors(bytes@, p2 as int) {
                None => {},
                Some((rest, q)) => {
                    assert(acc_old + (seq![a] + rest) =~= acc_old.push(a) + rest);
                },
            }
        }
        cur = p2;
    }
}

/// The chains of a decoded vector, as the model's values.
pub open spec fn chains_view(v: Seq<Chain>) -> Seq<ChainView> {
    v.map_values(|c: Chain| c@)
}

/// The detail entries of a decoded vector, as the model's values.
pub open spec fn dets_view(v: Seq<DetailEntry>) -> Seq<DetailEntryView> {
    v.map_values(|d: DetailEntry| d@)
}

/// Prepends already-decoded chains onto the model's answer for the rest of
/// the list; the decoding loops maintain this as their invariant.
pub open spec fn glue_chains(prefix: Seq<ChainView>, rest: Option<(Seq<ChainView>, int)>) -> Option<
    (Seq<ChainView>, int),
> {
    match rest {
        None => None,
        Some((r, q)) => Some((prefix + r, q)),
    }
}

/// Prepends already-decoded detail entries onto the model's answer for the
/// rest of the list; the decoding loops maintain this as their invariant.
pub open spec fn glue_details(
    prefix: Seq<DetailEntryView>,
    rest: Option<(Seq<DetailEntryView>, int)>,
) -> Option<(Seq<DetailEntryView>, int)> {
    match rest {
        None => None,
        Some((r, q)) => Some((prefix + r, q)),
    }
}

/// Decode one chain entry starting at `pos`, exactly as `spec_chain` says.
pub fn parse_chain(bytes: &[u8], pos: usize) -> (r: Result<(Chain, usize), DecodeError>)
    ensures
        match r {
            Ok((c, p)) => spec_chain(bytes@, pos as int) == Some((c@, p as int)) && pos < p
                <= bytes.len(),
            Err(_) => spec_chain(bytes@, pos as int) is None,
        },
{
    let (ref_id, p1) = match field_u32(bytes, pos, 8, 44) {
        Ok(x) => x,
        Err(e) => return Err(e),
    };
    let (score, p2) = match field_score(bytes, p1, 6, 44) {
        Ok(x) => x,
        Err(e) => return Err(e),
    };
    let (q0, p3) = match field_u32(bytes, p2, 12, 44) {
        Ok(x) => x,
        Err(e) => return Err(e),
    };
    let (q1, p4) = match field_u32(bytes, p3, 10, 44) {
        Ok(x) => x,
        Err(e) => return Err(e),
    };
    let (r0, p5) = match field_u32(bytes, p4, 10, 44) {
        Ok(x) => x,
        Err(e) => return Err(e),
    };
    let (r1, p6) = match field_u32(bytes, p5, 8, 44) {
        Ok(x) => x,
        Err(e) => return Err(e),
    };
    let (rev, p7) = match field_bool(bytes, p6, 11, 44) {
        Ok(x) => x,
        Err(e) => return Err(e),
    };
    let p8 = match skip(bytes, p7, 9) {
        Ok(x) => x,
        Err(e) => return Err(e),
    };
    let (anchors, p9) = match parse_anchors(bytes, p8) {
        Ok(x) => x,
        Err(e) => return Err(e),
    };
    let p10 = match skip(bytes, p9, 1) {
        Ok(x) => x,
        Err(e) => return Err(e),
    };
    let c = Chain {
        ref_id,
        score,
        qspan0: q0,
        qspan1: q1,
        rspan0: r0,
        rspan1: r1,
        is_revcomp: rev,
        anchors,
        considered: Classification::Unclassified,
        detail: None,
    };
    Ok((c, p10))
}

/// Decode a chain list starting at `pos`, exactly as `spec_chains` says.
pub fn parse_chains(bytes: &[u8], pos: usize) -> (r: Result<(Vec<Chain>, usize), DecodeError>)
    ensures
        match r {
            Ok((v, p)) => spec_chains(bytes@, pos as int) == Some((chains_view(v@), p as int))
                && pos < p <= bytes.len(),
            Err(_) => spec_chains(bytes@, pos as int) is None,
        },
{
    let mut acc: Vec<Chain> = Vec::new();
    let mut cur = pos;
    loop
        invariant
            pos <= cur,
            glue_chains(chains_view(acc@), spec_chains(bytes@, cur as int)) == spec_chains(
                bytes@,
                pos as int,
            ),
        decreases bytes.len() - cur,
    {
        if cur >= bytes.len() {
            assert(spec_chains(bytes@, cur as int) is None);
            return Err(DecodeError { offset: cur, kind: DecodeErrorKind::UnexpectedEnd });
        }
        if bytes[cur] == 93 {
            proof {
                assert(spec_chains(bytes@, cur as int) == Some(
                    (Seq::<ChainView>::empty(), cur + 1),
                ));
                assert(chains_view(acc@) + Seq::<ChainView>::empty() =~= chains_view(acc@));
            }
            return Ok((acc, cur + 1));
        }
        let (c, p) = match parse_chain(bytes, cur) {
            Ok(x) => x,
            Err(e) => {
                assert(spec_chains(bytes@, cur as int) is None);
                return Err(e);
            },
        };
        let ghost acc_old = chains_view(acc@);
        let ghost cv = c@;
        acc.push(c);
        proof {
            assert(chains_view(acc@) =~= acc_old.push(cv));
            match spec_chains(bytes@, p as int) {
                None => {},
                Some((rest, q)) => {
                    assert(acc_old + (seq![cv] + rest) =~= acc_old.push(cv) + rest);
                },
            }
        }
        cur = p;
    }
}

/// Decode one chain-detail entry starting at `pos`, exactly as `spec_detail`
/// says.
pub fn parse_detail(bytes: &[u8], pos: usize) -> (r: Result<(DetailEntry, usize), DecodeError>)
    ensures
        match r {
            Ok((d, p)) => spec_detail(bytes@, pos as int) == Some((d@, p as int)) && pos < p
                <= bytes.len(),
            Err(_) => spec_detail(bytes@, pos as int) is None,
        },
{
    let (cigar, p1) = match field_span(bytes, pos, 1, 44) {
        Ok(x) => x,
        Err(e) => return Err(e),
    };
    let p2 = match skip(bytes, p1, 15) {
        Ok(x) => x,
        Err(e) => return Err(e),
    };
    let p3 = match skip(bytes, p2, 9) {
        Ok(x) => x,
        Err(e) => return Err(e),
    };
    let considered = bytes[p2] == 49;
    let (crs, p4) = match field_u32(bytes, p3, 0, 44) {
        Ok(x) => x,
        Err(e) => return Err(e),
    };
    let (scig, p5) = match field_span(bytes, p4, 4, 44) {
        Ok(x) => x,
        Err(e) => return Err(e),
    };
    let (srs, p6) = match field_u32(bytes, p5, 11, 41) {
        Ok(x) => x,
        Err(e) => return Err(e),
    };
    let d = DetailEntry {
        cigar,
        considered,
        cigar_ref_start: crs,
        ssw_cigar: scig,
        ssw_ref_start: srs,
    };
    Ok((d, p6))
}

/// Decode the chain-detail list starting at `pos`, exactly as `spec_details`
/// says.
pub fn parse_details(bytes: &[u8], pos: usize) -> (r: Result<
    (Vec<DetailEntry>, usize),
    DecodeError,
>)
    ensures
        match r {
            Ok((v, p)) => spec_details(bytes@, pos as int) == Some((dets_view(v@), p as int))
                && pos < p <= bytes.len(),
            Err(_) => spec_details(bytes@, pos as int) is None,
        },
{
    let mut acc: Vec<DetailEntry> = Vec::new();
    let mut cur = pos;
    loop
        invariant
            pos <= cur,
            glue_details(dets_view(acc@), spec_details(bytes@, cur as int)) == spec_details(
                bytes@,
                pos as int,
            ),
        decreases bytes.len() - cur,
    {
        if cur >= bytes.len() {
            assert(spec_details(bytes@, cur as int) is None);
            return Err(DecodeError { offset: cur, kind: DecodeErrorKind::UnexpectedEnd });
        }
        if bytes[cur] == 93 {
            proof {
                assert(spec_details(bytes@, cur as int) == Some(
                    (Seq::<DetailEntryView>::empty(), cur + 1),
                ));
                assert(dets_view(acc@) + Seq::<DetailEntryView>::empty() =~= dets_view(acc@));
            }
            return Ok((acc, cur + 1));
        }
        let (d, p) = match parse_detail(bytes, cur) {
            Ok(x) => x,
            Err(e) => {
                assert(spec_details(bytes@, cur as int) is None);
                return Err(e);
            },
        };
        let ghost acc_old = dets_view(acc@);
        let ghost dv = d@;
        acc.push(d);
        proof {
            assert(dets_view(acc@) =~= acc_old.push(dv));
            match spec_details(bytes@, p as int) {
                None => {},
                Some((rest, q)) => {
                    assert(acc_old + (seq![dv] + rest) =~= acc_old.push(dv) + rest);
                },
            }
        }
        cur = p;
    }
}

/// Mapping-only mode's synthetic classification, applied to the decoded
/// chains: the first is the considered one.
fn classify_chains(chains: Vec<Chain>) -> (r: Vec<Chain>)
    ensures
        chains_view(r@) == classify_first(chains_view(chains@)),
{
    let ghost orig = chains_view(chains@);
    let mut rest = chains;
    let mut out: Vec<Chain> = Vec::new();
    while rest.len() > 0
        invariant
            out@.len() + rest@.len() == orig.len(),
            chains_view(rest@) == orig.subrange(out@.len() as int, orig.len() as int),
            chains_view(out@) == classify_first(orig).subrange(0, out@.len() as int),
        decreases rest@.len(),
    {
        let n = out.len();
        let ghost rest_old = rest@;
        let c = rest.remove(0);
        proof {
            assert(chains_view(rest_old)[0] == c@);
            assert(c@ == orig[n as int]);
            assert(rest@ =~= rest_old.subrange(1, rest_old.len() as int));
            assert forall|j: int| 0 <= j < rest@.len() implies chains_view(rest@)[j]
                == orig.subrange(n + 1, orig.len() as int)[j] by {
                assert(rest@[j] == rest_old[j + 1]);
                assert(chains_view(rest_old)[j + 1] == rest_old[j + 1]@);
            }
            assert(chains_view(rest@) =~= orig.subrange(n + 1, orig.len() as int));
        }
        let cls = if n == 0 {
            Classification::Considered
        } else {
            Classification::NotConsidered
        };
        let c2 = Chain { considered: cls, ..c };
        let ghost out_old = chains_view(out@);
        out.push(c2);
        proof {
            assert(classify_first(orig)[n as int] == ChainView {
                considered: if n == 0 {
                    Classification::Considered
                } else {
                    Classification::NotConsidered
                },
                ..orig[n as int]
            });
            assert(chains_view(out@) =~= classify_first(orig).subrange(0, n + 1));
        }
    }
    proof {
        assert(classify_first(orig).subrange(0, orig.len() as int) =~= classify_first(orig));
    }
    out
}

/// Positional attachment of the detail pass onto the decoded chains; the
/// caller has already checked that the lengths agree.
fn attach_chain_details(chains: Vec<Chain>, dets: Vec<DetailEntry>) -> (r: Vec<Chain>)
    requires
        dets@.len() == chains@.len(),
    ensures
        chains_view(r@) == attach_details(chains_view(chains@), dets_view(dets@)),
{
    let ghost orig = chains_view(chains@);
    let ghost origd = dets_view(dets@);
    let mut rest = chains;
    let mut rest_d = dets;
    let mut out: Vec<Chain> = Vec::new();
    while rest.len() > 0
        invariant
            out@.len() + rest@.len() == orig.len(),
            rest_d@.len() == rest@.len(),
            origd.len() == orig.len(),
            chains_view(rest@) == orig.subrange(out@.len() as int, orig.len() as int),
            dets_view(rest_d@) == origd.subrange(out@.len() as int, origd.len() as int),
            chains_view(out@) == attach_details(orig, origd).subrange(0, out@.len() as int),
        decreases rest@.len(),
    {
        let n = out.len();
        let ghost rest_old = rest@;
        let ghost rest_d_old = rest_d@;
        let c = rest.remove(0);
        let d = rest_d.remove(0);
        proof {
            assert(chains_view(rest_old)[0] == c@);
            assert(dets_view(rest_d_old)[0] == d@);
            assert(c@ == orig[n as int]);
            assert(d@ == origd[n as int]);
            assert(rest@ =~= rest_old.subrange(1, rest_old.len() as int));
            assert(rest_d@ =~= rest_d_old.subrange(1, rest_d_old.len() as int));
            assert forall|j: int| 0 <= j < rest@.len() implies chains_view(rest@)[j]
                == orig.subrange(n + 1, orig.len() as int)[j] by {
                assert(rest@[j] == rest_old[j + 1]);
                assert(chains_view(rest_old)[j + 1] == rest_old[j + 1]@);
            }
            assert forall|j: int| 0 <= j < rest_d@.len() implies dets_view(rest_d@)[j]
                == origd.subrange(n + 1, origd.len() as int)[j] by {
                assert(rest_d@[j] == rest_d_old[j + 1]);
                assert(dets_view(rest_d_old)[j + 1] == rest_d_old[j + 1]@);
            }
            assert(chains_view(rest@) =~= orig.subrange(n + 1, orig.len() as int));
            assert(dets_view(rest_d@) =~= origd.subrange(n + 1, origd.len() as int));
        }
        let ghost dv = d@;
        let DetailEntry { cigar, considered, cigar_ref_start, ssw_cigar, ssw_ref_start } = d;
        let cls = if considered {
            Classification::Considered
        } else {
            Classification::NotConsidered
        };
        let c2 = Chain {
            considered: cls,
            detail: Some(ChainDetail { cigar, cigar_ref_start, ssw_cigar, ssw_ref_start }),
            ..c
        };
        out.push(c2);
        proof {
            assert(attach_details(orig, origd)[n as int] == ChainView {
                considered: if origd[n as int].considered {
                    Classification::Considered
                } else {
                    Classification::NotConsidered
                },
                detail: Some(
                    ChainDetailView {
                        cigar: origd[n as int].cigar,
                        cigar_ref_start: origd[n as int].cigar_ref_start,
                        ssw_cigar: origd[n as int].ssw_cigar,
                        ssw_ref_start: origd[n as int].ssw_ref_start,
                    },
                ),
                ..orig[n as int]
            });
            assert(chains_view(out@) =~= attach_details(orig, origd).subrange(0, n + 1));
        }
    }
    proof {
        assert(attach_details(orig, origd).subrange(0, orig.len() as int) =~= attach_details(
            orig,
            origd,
        ));
    }
    out
}

/// The model's value of a possibly-dropped read.
pub open spec fn opt_read_view(o: Option<Read>) -> Option<ReadView> {
    match o {
        Some(rd) => Some(rd@),
        None => None,
    }
}

/// Decode one read record starting at its marker, exactly as `spec_read`
/// says: `Ok((None, _))` is a degenerate read (zero chains) that the caller
/// drops; every returned read has at least one chain.
pub fn parse_read(bytes: &[u8], pos: usize, mode: DecodeMode) -> (r: Result<
    (Option<Read>, usize),
    DecodeError,
>)
    ensures
        match r {
            Ok((opt, p)) => {
                &&& spec_read(bytes@, pos as int, mode) == Some((opt_read_view(opt), p as int))
                &&& pos < p <= bytes.len()
                &&& (opt matches Some(rd) ==> rd@.chains.len() >= 1)
            },
            Err(_) => spec_read(bytes@, pos as int, mode) is None,
        },
{
    proof {
        reveal(spec_read);
    }
    let (name, p1) = match field_span(bytes, pos, 7, 10) {
        Ok(x) => x,
        Err(e) => return Err(e),
    };
    let (read_len, p2) = match field_u32(bytes, p1, 2, 44) {
        Ok(x) => x,
        Err(e) => return Err(e),
    };
    let (k, p3) = match field_u32(bytes, p2, 2, 10) {
        Ok(x) => x,
        Err(e) => return Err(e),
    };
    let p4 = match skip(bytes, p3, 28) {
        Ok(x) => x,
        Err(e) => return Err(e),
    };
    let (fwd, p5) = match parse_anchors(bytes, p4) {
        Ok(x) => x,
        Err(e) => return Err(e),
    };
    let p6 = match skip(bytes, p5, 29) {
        Ok(x) => x,
        Err(e) => return Err(e),
    };
    let (rev, p7) = match parse_anchors(bytes, p6) {
        Ok(x) => x,
        Err(e) => return Err(e),
    };
    let p8 = match skip(bytes, p7, 8) {
        Ok(x) => x,
        Err(e) => return Err(e),
    };
    let (chains, p9) = match parse_chains(bytes, p8) {
        Ok(x) => x,
        Err(e) => return Err(e),
    };
    let p10 = match skip(bytes, p9, 1) {
        Ok(x) => x,
        Err(e) => return Err(e),
    };
    if chains.len() == 0 {
        return Ok((None, p10));
    }
    match mode {
        DecodeMode::MappingOnly => {
            let classified = classify_chains(chains);
            let rd = Read {
                name,
                read_len,
                k,
                fwd_anchors: fwd,
                rev_anchors: rev,
                chains: classified,
            };
            Ok((Some(rd), p10))
        },
        DecodeMode::Full => {
            let p11 = match skip(bytes, p10, 8) {
                Ok(x) => x,
                Err(e) => return Err(e),
            };
            let (dets, p12) = match parse_details(bytes, p11) {
                Ok(x) => x,
                Err(e) => return Err(e),
            };
            if dets.len() != chains.len() {
                // structural mismatch: the detail pass must describe every
                // chain exactly once
                return Err(
                    DecodeError { offset: p11, kind: DecodeErrorKind::DetailCountMismatch },
                );
            }
            let merged = attach_chain_details(chains, dets);
            let rd = Read { name, read_len, k, fwd_anchors: fwd, rev_anchors: rev, chains: merged };
            Ok((Some(rd), p12))
        },
    }
}

/// The reads of a decoded vector, as the model's values.
pub open spec fn reads_view(v: Seq<Read>) -> Seq<ReadView> {
    v.map_values(|rd: Read| rd@)
}

/// Prepends already-accepted reads onto the model's answer for the rest of
/// the buffer; the scanner's loop maintains this as its invariant.
pub open spec fn glue_scan(prefix: Seq<ReadView>, rest: Option<Seq<ReadView>>) -> Option<
    Seq<ReadView>,
> {
    match rest {
        None => None,
        Some(r) => Some(prefix + r),
    }
}

/// How many more reads the cap allows after `n` were accepted.
pub open spec fn cap_rem(cap: Option<usize>, n: int) -> Option<int> {
    match cap {
        Some(c) => Some(c - n),
        None => None,
    }
}

/// Whether the read-record marker stands at `pos`.
fn marker_at(bytes: &[u8], pos: usize) -> (r: bool)
    requires
        pos + 7 < bytes@.len(),
    ensures
        r == (bytes@.subrange(pos as int, pos as int + 7) == read_marker()),
{
    let r = bytes[pos] == 81 && bytes[pos + 1] == 117 && bytes[pos + 2] == 101 && bytes[pos + 3]
        == 114 && bytes[pos + 4] == 121 && bytes[pos + 5] == 58 && bytes[pos + 6] == 32;
    proof {
        let sub = bytes@.subrange(pos as int, pos as int + 7);
        assert(sub[0] == bytes@[pos as int]);
        assert(sub[1] == bytes@[pos as int + 1]);
        assert(sub[2] == bytes@[pos as int + 2]);
        assert(sub[3] == bytes@[pos as int + 3]);
        assert(sub[4] == bytes@[pos as int + 4]);
        assert(sub[5] == bytes@[pos as int + 5]);
        assert(sub[6] == bytes@[pos as int + 6]);
        if r {
            assert(sub =~= read_marker());
        } else {
            if sub == read_marker() {
                assert(sub[0] == 81 && sub[1] == 117 && sub[2] == 101 && sub[3] == 114 && sub[4]
                    == 121 && sub[5] == 58 && sub[6] == 32);
            }
        }
    }
    r
}

/// Scan the whole buffer for read records and decode them, exactly as
/// `spec_scan_trace` says. Every returned read has at least one chain (a
/// read whose chain list is empty is dropped), and no more than `cap` reads
/// are returned where a cap is given. The result is a function of the bytes,
/// the mode and the cap alone, so re-decoding the same buffer yields the
/// same records.
#[verifier::rlimit(60)]
pub fn scan_trace(bytes: &[u8], mode: DecodeMode, cap: Option<usize>) -> (r: Result<
    Vec<Read>,
    DecodeError,
>)
    ensures
        match r {
            Ok(reads) => {
                &&& spec_scan_trace(bytes@, mode, cap_int(cap)) == Some(reads_view(reads@))
                &&& forall|i: int|
                    0 <= i < reads@.len() ==> (#[trigger] reads@[i])@.chains.len() >= 1
                &&& (cap matches Some(c) ==> reads@.len() <= c)
            },
            Err(_) => spec_scan_trace(bytes@, mode, cap_int(cap)) is None,
        },
{
    let mut reads: Vec<Read> = Vec::new();
    if let Some(c) = cap {
        if c == 0 {
            proof {
                assert(reads_view(reads@) =~= Seq::<ReadView>::empty());
            }
            return Ok(reads);
        }
    }
    let mut pos: usize = 0;
    loop
        invariant
            pos <= bytes.len(),
            glue_scan(
                reads_view(reads@),
                spec_scan_from(bytes@, pos as int, mode, cap_rem(cap, reads@.len() as int)),
            ) == spec_scan_trace(bytes@, mode, cap_int(cap)),
            match cap {
                Some(c) => reads@.len() < c,
                None => true,
            },
            forall|i: int| 0 <= i < reads@.len() ==> (#[trigger] reads@[i])@.chains.len() >= 1,
        decreases bytes.len() - pos,
    {
        if bytes.len() < 8 || pos >= bytes.len() - 7 {
            proof {
                assert(spec_scan_from(
                    bytes@,
                    pos as int,
                    mode,
                    cap_rem(cap, reads@.len() as int),
                ) == Some(Seq::<ReadView>::empty()));
                assert(reads_view(reads@) + Seq::<ReadView>::empty() =~= reads_view(reads@));
            }
            return Ok(reads);
        }
        if marker_at(bytes, pos) {
            match parse_read(bytes, pos, mode) {
                Err(e) => {
                    proof {
                        assert(spec_scan_from(
                            bytes@,
                            pos as int,
                            mode,
                            cap_rem(cap, reads@.len() as int),
                        ) is None);
                    }
                    return Err(e);
                },
                Ok((None, p)) => {
                    pos = p;
                },
                Ok((Some(rd), p)) => {
                    let ghost prefix_old = reads_view(reads@);
                    let ghost rem_old = cap_rem(cap, reads@.len() as int);
                    let ghost rdv = rd@;
                    reads.push(rd);
                    pos = p;
                    proof {
                        assert(reads_view(reads@) =~= prefix_old.push(rdv));
                        assert(dec_cap(rem_old) == cap_rem(cap, reads@.len() as int));
                        match spec_scan_from(
                            bytes@,
                            p as int,
                            mode,
                            cap_rem(cap, reads@.len() as int),
                        ) {
                            None => {},
                            Some(rest) => {
                                assert(prefix_old + (seq![rdv] + rest) =~= prefix_old.push(rdv)
                                    + rest);
                            },
                        }
                    }
                    if let Some(c) = cap {
                        if reads.len() >= c {
                            proof {
                                assert(spec_scan_from(
                                    bytes@,
                                    pos as int,
                                    mode,
                                    cap_rem(cap, reads@.len() as int),
                                ) == Some(Seq::<ReadView>::empty()));
                                assert(reads_view(reads@) + Seq::<ReadView>::empty()
                                    =~= reads_view(reads@));
                            }
                            return Ok(reads);
                        }
                    }
                },
            }
        } else {
            pos = pos + 1;
        }
    }
}

} // verus!
