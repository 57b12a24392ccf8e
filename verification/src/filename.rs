//! Filename sanitization for the per-read output directories: every byte of
//! the read name outside `[A-Za-z0-9_-]` is replaced with an underscore, so
//! the result is always a plain ASCII string safe to use as a path segment.

use vstd::prelude::*;

verus! {

/// Whether a name byte may appear unchanged in a filename.
pub open spec fn keep_byte(b: u8) -> bool {
    (48 <= b && b <= 57)  // '0'..='9'
    || (65 <= b && b <= 90)  // 'A'..='Z'
    || (97 <= b && b <= 122)  // 'a'..='z'
    || b == 45  // '-'
    || b == 95  // '_'
}

pub open spec fn sanitize_byte(b: u8) -> u8 {
    if keep_byte(b) {
        b
    } else {
        95u8
    }
}

/// Relies on `String::from_utf8` of std: a sequence of bytes below 128 is
/// valid UTF-8 and decodes to the characters with the same code points.
#[verifier::external_body]
fn ascii_string(bytes: Vec<u8>) -> (r: String)
    requires
        forall|i: int| 0 <= i < bytes@.len() ==> bytes@[i] < 128,
    ensures
        r@.len() == bytes@.len(),
        forall|i: int| 0 <= i < bytes@.len() ==> r@[i] == bytes@[i] as char,
{
    String::from_utf8(bytes).unwrap()
}

/// The sanitized filename for a read name: each byte kept if it is ASCII
/// alphanumeric, `-` or `_`, and replaced with `_` otherwise.
pub fn sanitize_filename(name: &[u8]) -> (r: String)
    ensures
        r@.len() == name@.len(),
        forall|i: int| 0 <= i < name@.len() ==> r@[i] == sanitize_byte(name@[i]) as char,
{
    let mut out: Vec<u8> = Vec::new();
    let mut i: usize = 0;
    while i < name.len()
        invariant
            i <= name.len(),
            out@.len() == i,
            forall|j: int| 0 <= j < i ==> out@[j] == sanitize_byte(name@[j]),
            forall|j: int| 0 <= j < i ==> out@[j] < 128,
        decreases name.len() - i,
    {
        let b = name[i];
        let kept = (48 <= b && b <= 57) || (65 <= b && b <= 90) || (97 <= b && b <= 122) || b
            == 45 || b == 95;
        if kept {
            out.push(b);
        } else {
            out.push(95);
        }
        i = i + 1;
    }
    ascii_string(out)
}

} // verus!
