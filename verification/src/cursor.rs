//! The cursor over the raw trace bytes and the field decoder built on it.
//!
//! The trace format has no grammar: it is decoded by skipping fixed-length
//! literal labels and scanning to the next delimiter byte. `spec_skip`,
//! `spec_scan` and the `spec_field_*` functions are the mathematical model
//! of those moves; the executable functions return exactly what the model
//! says, and fail (with the offset of the mismatch) exactly when the model
//! has no answer.

use vstd::prelude::*;
use vstd::slice::{slice_subrange, slice_to_vec};

verus! {

/// What kind of fatal decode failure occurred.
#[derive(Debug, Clone, Copy, PartialEq, Eq)]
pub enum DecodeErrorKind {
    /// A skip or scan ran past the end of the buffer.
    UnexpectedEnd,
    /// A scanned span was not the numeric or boolean text the field needs.
    MalformedNumber,
    /// The chain-detail list's length disagrees with the chain list's.
    DetailCountMismatch,
}

/// A fatal decode error: the byte offset at which the trace stopped matching
/// the expected layout, and the kind of mismatch. Decoding is all-or-nothing:
/// any such error aborts the whole scan.
#[derive(Debug, Clone, Copy, PartialEq, Eq)]
pub struct DecodeError {
    pub offset: usize,
    pub kind: DecodeErrorKind,
}

pub open spec fn is_digit(b: u8) -> bool {
    48 <= b && b <= 57
}

pub open spec fn is_digits(s: Seq<u8>) -> bool {
    forall|i: int| 0 <= i < s.len() ==> is_digit(#[trigger] s[i])
}

/// The value of a span read as a decimal numeral, most significant digit
/// first. Only meaningful when the span is all digits.
pub open spec fn dec_val(s: Seq<u8>) -> nat
    decreases s.len(),
{
    if s.len() == 0 {
        0
    } else {
        10 * dec_val(s.drop_last()) + (s.last() - 48) as nat
    }
}

/// What a span decodes to as a `u32`: defined exactly for a nonempty
/// all-digit span whose value fits.
pub open spec fn spec_parse_u32(s: Seq<u8>) -> Option<u32> {
    if s.len() > 0 && is_digits(s) && dec_val(s) <= u32::MAX {
        Some(dec_val(s) as u32)
    } else {
        None
    }
}

/// What a span decodes to as a boolean: the literal `1` or `0`.
pub open spec fn spec_parse_bool01(s: Seq<u8>) -> Option<bool> {
    if s.len() == 1 && s[0] == 49 {
        Some(true)
    } else if s.len() == 1 && s[0] == 48 {
        Some(false)
    } else {
        None
    }
}

/// Acceptance automaton for the tail of a decimal score numeral, starting at
/// index `i`: digits, at most one point with at least one digit on each side.
pub open spec fn score_tail_ok(s: Seq<u8>, i: int, have_digit: bool, have_dot: bool) -> bool
    decreases s.len() - i,
{
    if i < 0 {
        false
    } else if i >= s.len() {
        have_digit
    } else if is_digit(s[i]) {
        score_tail_ok(s, i + 1, true, have_dot)
    } else if s[i] == 46 && have_digit && !have_dot {
        score_tail_ok(s, i + 1, false, true)
    } else {
        false
    }
}

/// Whether a span is well-formed decimal score text: an optional leading
/// minus sign, then digits with at most one decimal point and at least one
/// digit on each side of it.
pub open spec fn is_score_text(s: Seq<u8>) -> bool {
    if s.len() > 0 && s[0] == 45 {
        score_tail_ok(s, 1, false, false)
    } else {
        score_tail_ok(s, 0, false, false)
    }
}

/// The first position at or after `pos` holding `delim`, if any.
pub open spec fn find(s: Seq<u8>, pos: int, delim: u8) -> Option<int>
    decreases s.len() - pos,
{
    if pos < 0 || pos >= s.len() {
        None
    } else if s[pos] == delim {
        Some(pos)
    } else {
        find(s, pos + 1, delim)
    }
}

/// Advancing past a known-length literal label: defined only when it stays
/// inside the buffer.
pub open spec fn spec_skip(s: Seq<u8>, pos: int, n: int) -> Option<int> {
    if 0 <= pos && pos + n <= s.len() {
        Some(pos + n)
    } else {
        None
    }
}

/// Scanning to the next occurrence of a delimiter: the span up to (and
/// excluding) the delimiter, and the position just past it.
pub open spec fn spec_scan(s: Seq<u8>, pos: int, delim: u8) -> Option<(Seq<u8>, int)> {
    match find(s, pos, delim) {
        Some(j) => Some((s.subrange(pos, j), j + 1)),
        None => None,
    }
}

pub fn skip(bytes: &[u8], pos: usize, n: usize) -> (r: Result<usize, DecodeError>)
    ensures
        match r {
            Ok(p) => spec_skip(bytes@, pos as int, n as int) == Some(p as int) && p <= bytes.len(),
            Err(_) => spec_skip(bytes@, pos as int, n as int) is None,
        },
{
    if pos <= bytes.len() && n <= bytes.len() - pos {
        Ok(pos + n)
    } else {
        Err(DecodeError { offset: pos, kind: DecodeErrorKind::UnexpectedEnd })
    }
}

pub fn scan_until(bytes: &[u8], pos: usize, delim: u8) -> (r: Result<(usize, usize), DecodeError>)
    ensures
        match r {
            Ok((end, newpos)) => {
                &&& spec_scan(bytes@, pos as int, delim) == Some(
                    (bytes@.subrange(pos as int, end as int), newpos as int),
                )
                &&& pos <= end < bytes.len()
                &&& newpos == end + 1
            },
            Err(_) => spec_scan(bytes@, pos as int, delim) is None,
        },
{
    let mut j = pos;
    while j < bytes.len()
        invariant
            pos <= j,
            find(bytes@, pos as int, delim) == find(bytes@, j as int, delim),
        decreases bytes.len() - j,
    {
        if bytes[j] == delim {
            return Ok((j, j + 1));
        }
        j = j + 1;
    }
    Err(DecodeError { offset: pos, kind: DecodeErrorKind::UnexpectedEnd })
}

proof fn lemma_dec_val_extend(s: Seq<u8>, m: int)
    requires
        0 <= m < s.len(),
    ensures
        dec_val(s.subrange(0, m + 1)) == 10 * dec_val(s.subrange(0, m)) + (s[m] - 48) as nat,
{
    assert(s.subrange(0, m + 1).drop_last() =~= s.subrange(0, m));
    assert(s.subrange(0, m + 1).last() == s[m]);
}

proof fn lemma_dec_val_mono(s: Seq<u8>, m: int)
    requires
        0 <= m <= s.len(),
        is_digits(s),
    ensures
        dec_val(s) >= dec_val(s.subrange(0, m)),
    decreases s.len() - m,
{
    if m == s.len() {
        assert(s.subrange(0, m) =~= s);
    } else {
        lemma_dec_val_extend(s, m);
        lemma_dec_val_mono(s, m + 1);
    }
}

/// Decode the span `bytes[start..end]` as a `u32`, exactly when the model
/// says the span is a numeral that fits; malformed numeric text is a fatal
/// error, as the format is assumed exact.
pub fn parse_u32_span(bytes: &[u8], start: usize, end: usize) -> (r: Result<u32, DecodeError>)
    requires
        start <= end <= bytes.len(),
    ensures
        match r {
            Ok(v) => spec_parse_u32(bytes@.subrange(start as int, end as int)) == Some(v),
            Err(_) => spec_parse_u32(bytes@.subrange(start as int, end as int)) is None,
        },
{
    let ghost span = bytes@.subrange(start as int, end as int);
    if start == end {
        return Err(DecodeError { offset: start, kind: DecodeErrorKind::MalformedNumber });
    }
    let mut acc: u64 = 0;
    let mut i = start;
    while i < end
        invariant
            start <= i <= end <= bytes.len(),
            span == bytes@.subrange(start as int, end as int),
            span.len() == end - start,
            is_digits(span.subrange(0, i - start)),
            acc == dec_val(span.subrange(0, i - start)),
            acc <= u32::MAX,
        decreases end - i,
    {
        let b = bytes[i];
        assert(span[i - start] == b);
        if b < 48 || b > 57 {
            assert(!is_digits(span));
            return Err(DecodeError { offset: i, kind: DecodeErrorKind::MalformedNumber });
        }
        let acc2 = acc * 10 + ((b - 48) as u64);
        proof {
            lemma_dec_val_extend(span, i - start);
        }
        if acc2 > u32::MAX as u64 {
            proof {
                if is_digits(span) {
                    lemma_dec_val_mono(span, i + 1 - start);
                }
            }
            return Err(DecodeError { offset: start, kind: DecodeErrorKind::MalformedNumber });
        }
        acc = acc2;
        i = i + 1;
    }
    proof {
        assert(span.subrange(0, i - start) =~= span);
    }
    Ok(acc as u32)
}

/// Decode the span as the boolean literal `1` or `0`; anything else is a
/// fatal error.
pub fn parse_bool_span(bytes: &[u8], start: usize, end: usize) -> (r: Result<bool, DecodeError>)
    requires
        start <= end <= bytes.len(),
    ensures
        match r {
            Ok(v) => spec_parse_bool01(bytes@.subrange(start as int, end as int)) == Some(v),
            Err(_) => spec_parse_bool01(bytes@.subrange(start as int, end as int)) is None,
        },
{
    if end - start == 1 {
        let b = bytes[start];
        assert(bytes@.subrange(start as int, end as int)[0] == b);
        if b == 49 {
            return Ok(true);
        }
        if b == 48 {
            return Ok(false);
        }
    }
    Err(DecodeError { offset: start, kind: DecodeErrorKind::MalformedNumber })
}

/// Check that the span is well-formed decimal score text; malformed score
/// text is a fatal error.
pub fn check_score_span(bytes: &[u8], start: usize, end: usize) -> (r: Result<(), DecodeError>)
    requires
        start <= end <= bytes.len(),
    ensures
        r is Ok <==> is_score_text(bytes@.subrange(start as int, end as int)),
{
    let ghost span = bytes@.subrange(start as int, end as int);
    let mut i = start;
    let mut have_digit = false;
    let mut have_dot = false;
    if end - start > 0 && bytes[start] == 45 {
        assert(span[0] == 45);
        i = start + 1;
    }
    while i < end
        invariant
            start <= i <= end <= bytes.len(),
            span == bytes@.subrange(start as int, end as int),
            span.len() == end - start,
            is_score_text(span) == score_tail_ok(span, i - start, have_digit, have_dot),
        decreases end - i,
    {
        let b = bytes[i];
        assert(span[i - start] == b);
        if b >= 48 && b <= 57 {
            have_digit = true;
        } else if b == 46 && have_digit && !have_dot {
            have_dot = true;
            have_digit = false;
        } else {
            return Err(DecodeError { offset: i, kind: DecodeErrorKind::MalformedNumber });
        }
        i = i + 1;
    }
    if have_digit {
        Ok(())
    } else {
        Err(DecodeError { offset: start, kind: DecodeErrorKind::MalformedNumber })
    }
}

/// A label-then-delimiter field holding a `u32` numeral: skip `n` literal
/// bytes, scan to `delim`, decode the span.
pub open spec fn spec_field_u32(s: Seq<u8>, pos: int, n: int, delim: u8) -> Option<(u32, int)> {
    match spec_skip(s, pos, n) {
        None => None,
        Some(p1) => match spec_scan(s, p1, delim) {
            None => None,
            Some((span, p2)) => match spec_parse_u32(span) {
                None => None,
                Some(v) => Some((v, p2)),
            },
        },
    }
}

/// A label-then-delimiter field taken as its raw span.
pub open spec fn spec_field_span(s: Seq<u8>, pos: int, n: int, delim: u8) -> Option<
    (Seq<u8>, int),
> {
    match spec_skip(s, pos, n) {
        None => None,
        Some(p1) => spec_scan(s, p1, delim),
    }
}

/// A label-then-delimiter field holding a boolean literal.
pub open spec fn spec_field_bool(s: Seq<u8>, pos: int, n: int, delim: u8) -> Option<(bool, int)> {
    match spec_skip(s, pos, n) {
        None => None,
        Some(p1) => match spec_scan(s, p1, delim) {
            None => None,
            Some((span, p2)) => match spec_parse_bool01(span) {
                None => None,
                Some(v) => Some((v, p2)),
            },
        },
    }
}

/// A label-then-delimiter field holding score text, kept as its raw span.
pub open spec fn spec_field_score(s: Seq<u8>, pos: int, n: int, delim: u8) -> Option<
    (Seq<u8>, int),
> {
    match spec_field_span(s, pos, n, delim) {
        None => None,
        Some((span, p2)) => if is_score_text(span) {
            Some((span, p2))
        } else {
            None
        },
    }
}

pub fn field_u32(bytes: &[u8], pos: usize, n: usize, delim: u8) -> (r: Result<
    (u32, usize),
    DecodeError,
>)
    ensures
        match r {
            Ok((v, p)) => spec_field_u32(bytes@, pos as int, n as int, delim) == Some(
                (v, p as int),
            ) && pos < p <= bytes.len(),
            Err(_) => spec_field_u32(bytes@, pos as int, n as int, delim) is None,
        },
{
    let p1 = match skip(bytes, pos, n) {
        Ok(p) => p,
        Err(e) => return Err(e),
    };
    let (end, p2) = match scan_until(bytes, p1, delim) {
        Ok(x) => x,
        Err(e) => return Err(e),
    };
    match parse_u32_span(bytes, p1, end) {
        Ok(v) => Ok((v, p2)),
        Err(e) => Err(e),
    }
}

pub fn field_span(bytes: &[u8], pos: usize, n: usize, delim: u8) -> (r: Result<
    (Vec<u8>, usize),
    DecodeError,
>)
    ensures
        match r {
            Ok((v, p)) => spec_field_span(bytes@, pos as int, n as int, delim) == Some(
                (v@, p as int),
            ) && pos < p <= bytes.len(),
            Err(_) => spec_field_span(bytes@, pos as int, n as int, delim) is None,
        },
{
    let p1 = match skip(bytes, pos, n) {
        Ok(p) => p,
        Err(e) => return Err(e),
    };
    let (end, p2) = match scan_until(bytes, p1, delim) {
        Ok(x) => x,
        Err(e) => return Err(e),
    };
    let span = slice_subrange(bytes, p1, end);
    Ok((slice_to_vec(span), p2))
}

pub fn field_bool(bytes: &[u8], pos: usize, n: usize, delim: u8) -> (r: Result<
    (bool, usize),
    DecodeError,
>)
    ensures
        match r {
            Ok((v, p)) => spec_field_bool(bytes@, pos as int, n as int, delim) == Some(
                (v, p as int),
            ) && pos < p <= bytes.len(),
            Err(_) => spec_field_bool(bytes@, pos as int, n as int, delim) is None,
        },
{
    let p1 = match skip(bytes, pos, n) {
        Ok(p) => p,
        Err(e) => return Err(e),
    };
    let (end, p2) = match scan_until(bytes, p1, delim) {
        Ok(x) => x,
        Err(e) => return Err(e),
    };
    match parse_bool_span(bytes, p1, end) {
        Ok(v) => Ok((v, p2)),
        Err(e) => Err(e),
    }
}

pub fn field_score(bytes: &[u8], pos: usize, n: usize, delim: u8) -> (r: Result<
    (Vec<u8>, usize),
    DecodeError,
>)
    ensures
        match r {
            Ok((v, p)) => spec_field_score(bytes@, pos as int, n as int, delim) == Some(
                (v@, p as int),
            ) && pos < p <= bytes.len(),
            Err(_) => spec_field_score(bytes@, pos as int, n as int, delim) is None,
        },
{
    let p1 = match skip(bytes, pos, n) {
        Ok(p) => p,
        Err(e) => return Err(e),
    };
    let (end, p2) = match scan_until(bytes, p1, delim) {
        Ok(x) => x,
        Err(e) => return Err(e),
    };
    match check_score_span(bytes, p1, end) {
        Ok(_) => {
            let span = slice_subrange(bytes, p1, end);
            Ok((slice_to_vec(span), p2))
        },
        Err(e) => Err(e),
    }
}

} // verus!
