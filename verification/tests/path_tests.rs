use chaintrace::path::reconstruct_path;

#[test]
fn match_insert_delete_path() {
    let path = reconstruct_path(b"3M2I2D", 10);
    assert_eq!(path, vec![(10, 0), (13, 3), (13, 5), (15, 5)]);
}

#[test]
fn empty_cigar_gives_a_single_vertex() {
    let path = reconstruct_path(b"", 5);
    assert_eq!(path, vec![(5, 0)]);
}

#[test]
fn equals_and_x_behave_like_match() {
    let path = reconstruct_path(b"2=3X", 0);
    assert_eq!(path, vec![(0, 0), (2, 2), (5, 5)]);
}

#[test]
fn soft_clip_advances_query_and_skip_advances_reference() {
    let path = reconstruct_path(b"4S10M20N6M", 100);
    assert_eq!(path, vec![(100, 0), (100, 4), (110, 14), (130, 14), (136, 20)]);
}

#[test]
fn unrecognized_operation_is_silently_ignored() {
    let path = reconstruct_path(b"3M2Q4I", 0);
    assert_eq!(path, vec![(0, 0), (3, 3), (3, 7)]);
}

#[test]
fn missing_count_is_taken_as_zero() {
    let path = reconstruct_path(b"M3I", 5);
    assert_eq!(path, vec![(5, 0), (5, 0), (5, 3)]);
}

#[test]
fn count_too_large_for_u32_is_taken_as_zero() {
    let path = reconstruct_path(b"99999999999M2M", 7);
    assert_eq!(path, vec![(7, 0), (7, 0), (9, 2)]);
}

#[test]
fn trailing_digits_without_an_operation_contribute_nothing() {
    let path = reconstruct_path(b"3M12", 0);
    assert_eq!(path, vec![(0, 0), (3, 3)]);
}

#[test]
fn advances_saturate_at_the_top_of_the_range() {
    let path = reconstruct_path(b"4294967295M2M", 10);
    assert_eq!(path, vec![(10, 0), (u32::MAX, u32::MAX), (u32::MAX, u32::MAX)]);
}
