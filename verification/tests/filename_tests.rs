use chaintrace::filename::sanitize_filename;

#[test]
fn separators_become_underscores() {
    assert_eq!(sanitize_filename(b"read/1:a b"), "read_1_a_b");
}

#[test]
fn allowed_characters_pass_through_unchanged() {
    assert_eq!(sanitize_filename(b"Read_01-z"), "Read_01-z");
}

#[test]
fn empty_name_stays_empty() {
    assert_eq!(sanitize_filename(b""), "");
}

#[test]
fn every_byte_outside_the_allowed_set_is_replaced() {
    assert_eq!(sanitize_filename(b"a.b,c;d\te\nf\\g"), "a_b_c_d_e_f_g");
    assert_eq!(sanitize_filename(&[0xC3u8, 0xA9u8]), "__");
}
