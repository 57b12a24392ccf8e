use chaintrace::cursor::DecodeErrorKind;
use chaintrace::decode::{scan_trace, DecodeMode};
use chaintrace::records::{Anchor, ChainDetail, Classification};

fn anchors_text(list: &[(u32, u32)]) -> String {
    let mut s = String::new();
    for (r, q) in list {
        s.push_str(&format!("{{{},{}}}", r, q));
    }
    s
}

fn chain_text(
    ref_id: u32,
    score: &str,
    q0: u32,
    q1: u32,
    r0: u32,
    r1: u32,
    rev: bool,
    anchors: &[(u32, u32)],
) -> String {
    format!(
        "{{ref_id={},score={},qspan_start={},qspan_end={},rspan_beg={},rsp_end={},is_revcomp={},anchors:[{}]}}",
        ref_id,
        score,
        q0,
        q1,
        r0,
        r1,
        if rev { "1" } else { "0" },
        anchors_text(anchors)
    )
}

fn read_text(
    name: &str,
    len: u32,
    k: u32,
    fwd: &[(u32, u32)],
    rev: &[(u32, u32)],
    chains: &[String],
) -> String {
    format!(
        "Query: {}\nL={},K={}\nForward anchors (r, query):[{}]Reverse anchors (r, query): [{}]Chains:[{}]\n",
        name,
        len,
        k,
        anchors_text(fwd),
        anchors_text(rev),
        chains.concat()
    )
}

fn detail_text(cigar: &str, considered: bool, crs: u32, ssw: &str, srs: u32) -> String {
    format!(
        "({},considered_bit={},cg_ref={},ssw={},ssw_ref_st={})",
        cigar,
        if considered { "1" } else { "0" },
        crs,
        ssw,
        srs
    )
}

fn one_read_mapping_only() -> String {
    read_text(
        "r1",
        150,
        15,
        &[(100, 0), (120, 20)],
        &[(300, 5)],
        &[
            chain_text(0, "25.5", 0, 40, 100, 140, false, &[(100, 0), (120, 20)]),
            chain_text(1, "10.25", 5, 30, 300, 325, true, &[(300, 5)]),
        ],
    )
}

#[test]
fn scan_mapping_only_decodes_fields() {
    let trace = one_read_mapping_only();
    let reads = scan_trace(trace.as_bytes(), DecodeMode::MappingOnly, None).unwrap();
    assert_eq!(reads.len(), 1);
    let rd = &reads[0];
    assert_eq!(rd.name, b"r1".to_vec());
    assert_eq!(rd.read_len, 150);
    assert_eq!(rd.k, 15);
    assert_eq!(
        rd.fwd_anchors,
        vec![
            Anchor { ref_start: 100, query_start: 0 },
            Anchor { ref_start: 120, query_start: 20 }
        ]
    );
    assert_eq!(rd.rev_anchors, vec![Anchor { ref_start: 300, query_start: 5 }]);
    assert_eq!(rd.chains.len(), 2);
    let c0 = &rd.chains[0];
    assert_eq!(c0.ref_id, 0);
    assert_eq!(c0.score, b"25.5".to_vec());
    assert_eq!((c0.qspan0, c0.qspan1), (0, 40));
    assert_eq!((c0.rspan0, c0.rspan1), (100, 140));
    assert!(!c0.is_revcomp);
    assert_eq!(c0.anchors.len(), 2);
    assert_eq!(c0.considered, Classification::Considered);
    assert_eq!(c0.detail, None);
    let c1 = &rd.chains[1];
    assert_eq!(c1.ref_id, 1);
    assert!(c1.is_revcomp);
    assert_eq!(c1.considered, Classification::NotConsidered);
    assert_eq!(c1.detail, None);
}

#[test]
fn scan_full_mode_attaches_details_positionally() {
    let mut trace = one_read_mapping_only();
    trace.push_str("Cigars:[");
    trace.push_str(&detail_text("40M", false, 100, "20M1D19M", 98));
    trace.push_str(&detail_text("25M", true, 300, "25M", 301));
    trace.push(']');
    let reads = scan_trace(trace.as_bytes(), DecodeMode::Full, None).unwrap();
    assert_eq!(reads.len(), 1);
    let rd = &reads[0];
    assert_eq!(rd.chains.len(), 2);
    assert_eq!(rd.chains[0].considered, Classification::NotConsidered);
    assert_eq!(
        rd.chains[0].detail,
        Some(ChainDetail {
            cigar: b"40M".to_vec(),
            cigar_ref_start: 100,
            ssw_cigar: b"20M1D19M".to_vec(),
            ssw_ref_start: 98,
        })
    );
    assert_eq!(rd.chains[1].considered, Classification::Considered);
    assert_eq!(
        rd.chains[1].detail,
        Some(ChainDetail {
            cigar: b"25M".to_vec(),
            cigar_ref_start: 300,
            ssw_cigar: b"25M".to_vec(),
            ssw_ref_start: 301,
        })
    );
}

#[test]
fn read_with_empty_chain_list_is_dropped() {
    let trace = read_text("r1", 100, 10, &[(1, 2)], &[], &[]);
    let reads = scan_trace(trace.as_bytes(), DecodeMode::MappingOnly, None).unwrap();
    assert_eq!(reads.len(), 0);
}

#[test]
fn dropped_read_does_not_hide_later_reads() {
    let empty = read_text("r1", 100, 10, &[], &[], &[]);
    let good = read_text(
        "r2",
        80,
        10,
        &[],
        &[],
        &[chain_text(3, "7.0", 0, 10, 50, 60, false, &[(50, 0)])],
    );
    let trace = format!("{}{}", empty, good);
    let reads = scan_trace(trace.as_bytes(), DecodeMode::MappingOnly, None).unwrap();
    assert_eq!(reads.len(), 1);
    assert_eq!(reads[0].name, b"r2".to_vec());
}

#[test]
fn every_returned_read_has_at_least_one_chain() {
    let empty = read_text("r1", 100, 10, &[], &[], &[]);
    let good = read_text(
        "r2",
        80,
        10,
        &[],
        &[],
        &[chain_text(3, "7.0", 0, 10, 50, 60, false, &[])],
    );
    let trace = format!("{}{}{}", empty, good, empty);
    let reads = scan_trace(trace.as_bytes(), DecodeMode::MappingOnly, None).unwrap();
    for rd in &reads {
        assert!(rd.chains.len() >= 1);
    }
    assert_eq!(reads.len(), 1);
}

#[test]
fn cap_limits_the_number_of_reads() {
    let one = chain_text(0, "1.0", 0, 5, 10, 15, false, &[]);
    let trace = format!(
        "{}{}{}",
        read_text("a", 10, 4, &[], &[], &[one.clone()]),
        read_text("b", 10, 4, &[], &[], &[one.clone()]),
        read_text("c", 10, 4, &[], &[], &[one]),
    );
    let all = scan_trace(trace.as_bytes(), DecodeMode::MappingOnly, None).unwrap();
    assert_eq!(all.len(), 3);
    let capped = scan_trace(trace.as_bytes(), DecodeMode::MappingOnly, Some(2)).unwrap();
    assert_eq!(capped.len(), 2);
    assert_eq!(capped[0].name, b"a".to_vec());
    assert_eq!(capped[1].name, b"b".to_vec());
    let none = scan_trace(trace.as_bytes(), DecodeMode::MappingOnly, Some(0)).unwrap();
    assert_eq!(none.len(), 0);
}

#[test]
fn garbage_between_records_is_skipped() {
    let one = chain_text(0, "1.0", 0, 5, 10, 15, false, &[]);
    let trace = format!(
        "noise noise\n{}more noise{}",
        read_text("a", 10, 4, &[], &[], &[one.clone()]),
        read_text("b", 10, 4, &[], &[], &[one]),
    );
    let reads = scan_trace(trace.as_bytes(), DecodeMode::MappingOnly, None).unwrap();
    assert_eq!(reads.len(), 2);
}

#[test]
fn redecoding_the_same_buffer_is_identical() {
    let mut trace = one_read_mapping_only();
    trace.push_str("Cigars:[");
    trace.push_str(&detail_text("40M", true, 100, "40M", 100));
    trace.push_str(&detail_text("25M", false, 300, "25M", 300));
    trace.push(']');
    let first = scan_trace(trace.as_bytes(), DecodeMode::Full, None).unwrap();
    let second = scan_trace(trace.as_bytes(), DecodeMode::Full, None).unwrap();
    assert_eq!(first, second);
}

#[test]
fn malformed_numeral_is_a_fatal_error() {
    let trace = read_text(
        "r1",
        100,
        10,
        &[],
        &[],
        &[chain_text(0, "1.0", 0, 5, 10, 15, false, &[])],
    )
    .replace("qspan_start=0", "qspan_start=x");
    let err = scan_trace(trace.as_bytes(), DecodeMode::MappingOnly, None).unwrap_err();
    assert_eq!(err.kind, DecodeErrorKind::MalformedNumber);
}

#[test]
fn malformed_score_is_a_fatal_error() {
    for bad in ["score=1.2.3", "score=.5", "score=-", "score=abc"] {
        let trace = read_text(
            "r1",
            100,
            10,
            &[],
            &[],
            &[chain_text(0, "1.0", 0, 5, 10, 15, false, &[])],
        )
        .replace("score=1.0", bad);
        let err = scan_trace(trace.as_bytes(), DecodeMode::MappingOnly, None).unwrap_err();
        assert_eq!(err.kind, DecodeErrorKind::MalformedNumber);
    }
}

#[test]
fn negative_score_is_accepted() {
    let trace = read_text(
        "r1",
        100,
        10,
        &[],
        &[],
        &[chain_text(0, "-3.25", 0, 5, 10, 15, false, &[])],
    );
    let reads = scan_trace(trace.as_bytes(), DecodeMode::MappingOnly, None).unwrap();
    assert_eq!(reads[0].chains[0].score, b"-3.25".to_vec());
}

#[test]
fn strand_flag_other_than_0_or_1_is_a_fatal_error() {
    let trace = read_text(
        "r1",
        100,
        10,
        &[],
        &[],
        &[chain_text(0, "1.0", 0, 5, 10, 15, false, &[])],
    )
    .replace("is_revcomp=0", "is_revcomp=2");
    let err = scan_trace(trace.as_bytes(), DecodeMode::MappingOnly, None).unwrap_err();
    assert_eq!(err.kind, DecodeErrorKind::MalformedNumber);
}

#[test]
fn truncated_record_is_a_fatal_error() {
    let full = read_text(
        "r1",
        100,
        10,
        &[(1, 2)],
        &[],
        &[chain_text(0, "1.0", 0, 5, 10, 15, false, &[])],
    );
    let truncated = &full[..full.len() - 30];
    let err = scan_trace(truncated.as_bytes(), DecodeMode::MappingOnly, None).unwrap_err();
    assert_eq!(err.kind, DecodeErrorKind::UnexpectedEnd);
}

#[test]
fn detail_count_mismatch_is_a_fatal_error() {
    let mut trace = one_read_mapping_only();
    trace.push_str("Cigars:[");
    trace.push_str(&detail_text("40M", true, 100, "40M", 100));
    trace.push(']');
    let err = scan_trace(trace.as_bytes(), DecodeMode::Full, None).unwrap_err();
    assert_eq!(err.kind, DecodeErrorKind::DetailCountMismatch);

    let mut trace = one_read_mapping_only();
    trace.push_str("Cigars:[");
    trace.push_str(&detail_text("40M", true, 100, "40M", 100));
    trace.push_str(&detail_text("25M", false, 300, "25M", 300));
    trace.push_str(&detail_text("5M", false, 10, "5M", 10));
    trace.push(']');
    let err = scan_trace(trace.as_bytes(), DecodeMode::Full, None).unwrap_err();
    assert_eq!(err.kind, DecodeErrorKind::DetailCountMismatch);
}

#[test]
fn error_reports_a_plausible_offset() {
    let trace = one_read_mapping_only().replace("L=150", "L=xyz");
    let err = scan_trace(trace.as_bytes(), DecodeMode::MappingOnly, None).unwrap_err();
    assert!(err.offset <= trace.len());
    assert_eq!(err.kind, DecodeErrorKind::MalformedNumber);
}

#[test]
fn considered_flag_is_one_or_other() {
    // any byte other than '1' counts as not considered, without error
    let mut trace = one_read_mapping_only();
    trace.push_str("Cigars:[");
    trace.push_str(&detail_text("40M", true, 100, "40M", 100).replace("considered_bit=1", "considered_bit=x"));
    trace.push_str(&detail_text("25M", true, 300, "25M", 300));
    trace.push(']');
    let reads = scan_trace(trace.as_bytes(), DecodeMode::Full, None).unwrap();
    assert_eq!(reads[0].chains[0].considered, Classification::NotConsidered);
    assert_eq!(reads[0].chains[1].considered, Classification::Considered);
}

#[test]
fn numerals_at_the_u32_boundary() {
    let ok = one_read_mapping_only().replace("L=150", "L=4294967295");
    let reads = scan_trace(ok.as_bytes(), DecodeMode::MappingOnly, None).unwrap();
    assert_eq!(reads[0].read_len, u32::MAX);

    let too_big = one_read_mapping_only().replace("L=150", "L=4294967296");
    let err = scan_trace(too_big.as_bytes(), DecodeMode::MappingOnly, None).unwrap_err();
    assert_eq!(err.kind, DecodeErrorKind::MalformedNumber);
}

#[test]
fn degenerate_read_in_full_mode_reads_no_detail_pass() {
    // a dropped read ends right after its empty chain list, so the next
    // record is found even though no detail list follows
    let empty = read_text("r1", 100, 10, &[], &[], &[]);
    let good = format!(
        "{}Cigars:[{}]",
        read_text(
            "r2",
            80,
            10,
            &[],
            &[],
            &[chain_text(3, "7.0", 0, 10, 50, 60, false, &[(50, 0)])],
        ),
        detail_text("10M", true, 50, "10M", 50),
    );
    let trace = format!("{}{}", empty, good);
    let reads = scan_trace(trace.as_bytes(), DecodeMode::Full, None).unwrap();
    assert_eq!(reads.len(), 1);
    assert_eq!(reads[0].name, b"r2".to_vec());
}

#[test]
fn anchor_order_is_preserved_as_emitted() {
    // no sorting: the emitter's order is kept even when it is decreasing
    let trace = read_text(
        "r1",
        100,
        10,
        &[(500, 9), (100, 1)],
        &[],
        &[chain_text(0, "1.0", 0, 5, 10, 15, false, &[(20, 3), (5, 0)])],
    );
    let reads = scan_trace(trace.as_bytes(), DecodeMode::MappingOnly, None).unwrap();
    assert_eq!(
        reads[0].fwd_anchors,
        vec![
            Anchor { ref_start: 500, query_start: 9 },
            Anchor { ref_start: 100, query_start: 1 }
        ]
    );
    assert_eq!(
        reads[0].chains[0].anchors,
        vec![
            Anchor { ref_start: 20, query_start: 3 },
            Anchor { ref_start: 5, query_start: 0 }
        ]
    );
}
