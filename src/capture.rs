use vstd::prelude::*;
use vstd::string::StringSliceAdditionalSpecFns;
use vstd::utf8::encode_utf8;

use crate::frame::report_views;

verus! {

/// `b` is an ASCII hexadecimal digit.
pub open spec fn is_hex_digit(b: u8) -> bool {
    (0x30 <= b <= 0x39) || (0x41 <= b <= 0x46) || (0x61 <= b <= 0x66)
}

/// Value of a hexadecimal digit.
pub open spec fn hex_value(b: u8) -> int {
    if b <= 0x39 {
        b - 0x30
    } else if b <= 0x46 {
        b - 0x41 + 10
    } else {
        b - 0x61 + 10
    }
}

/// The hexadecimal digits of `s`, in order; everything else is dropped.
pub open spec fn hex_digits(s: Seq<u8>) -> Seq<u8>
    decreases s.len(),
{
    if s.len() == 0 {
        Seq::empty()
    } else if is_hex_digit(s.last()) {
        hex_digits(s.drop_last()).push(s.last())
    } else {
        hex_digits(s.drop_last())
    }
}

/// The bytes spelled by a run of hexadecimal digits, two digits per byte,
/// high digit first.
pub open spec fn hex_bytes(d: Seq<u8>) -> Seq<u8> {
    Seq::new(d.len() / 2, |i: int| (16 * hex_value(d[2 * i]) + hex_value(d[2 * i + 1])) as u8)
}

/// `b` is ASCII white space: space, tab, line feed, vertical tab, form feed
/// or carriage return.
pub open spec fn is_blank(b: u8) -> bool {
    b == 0x20 || (0x09 <= b <= 0x0d)
}

/// The line's first character after leading white space is `#`.
pub open spec fn is_comment(l: Seq<u8>) -> bool
    decreases l.len(),
{
    l.len() > 0 && (l[0] == 0x23 || (is_blank(l[0]) && is_comment(l.drop_first())))
}

/// A line that loads: a comment, or an even number of hexadecimal digits.
pub open spec fn line_ok(l: Seq<u8>) -> bool {
    is_comment(l) || hex_digits(l).len() % 2 == 0
}

/// The reports that a sequence of loadable lines holds: one for each line
/// that is not a comment and spells at least one byte.
pub open spec fn capture_reports(lines: Seq<Seq<u8>>) -> Seq<Seq<u8>>
    decreases lines.len(),
{
    if lines.len() == 0 {
        Seq::empty()
    } else {
        let l = lines.last();
        let rest = capture_reports(lines.drop_last());
        if !is_comment(l) && hex_bytes(hex_digits(l)).len() > 0 {
            rest.push(hex_bytes(hex_digits(l)))
        } else {
            rest
        }
    }
}

/// The UTF-8 bytes of each line.
pub open spec fn line_bytes(lines: Seq<String>) -> Seq<Seq<u8>> {
    Seq::new(lines.len(), |i: int| encode_utf8(lines[i]@))
}

/// Why a line of hexadecimal text could not be decoded.
#[derive(Debug, Clone, Copy, PartialEq, Eq, Structural)]
pub enum HexError {
    /// The line holds an odd number of hexadecimal digits.
    OddDigitCount,
}

/// Why a capture could not be loaded.
#[derive(Debug, Clone, Copy, PartialEq, Eq, Structural)]
pub enum CaptureError {
    /// The line at this index (from zero) holds an odd number of
    /// hexadecimal digits.
    OddDigitCount { line: usize },
    /// No line holds a report.
    NoData,
}

fn is_hex_digit_exec(b: u8) -> (r: bool)
    ensures
        r == is_hex_digit(b),
{
    (0x30 <= b && b <= 0x39) || (0x41 <= b && b <= 0x46) || (0x61 <= b && b <= 0x66)
}

fn hex_value_exec(b: u8) -> (r: u8)
    requires
        is_hex_digit(b),
    ensures
        r as int == hex_value(b),
        r < 16,
{
    if b <= 0x39 {
        b - 0x30
    } else if b <= 0x46 {
        b - 0x41 + 10
    } else {
        b - 0x61 + 10
    }
}

/// Decodes one line of hexadecimal text. Characters that are not hexadecimal
/// digits are ignored; the digits that remain are read in pairs.
pub fn parse_hex_line(line: &str) -> (r: Result<Vec<u8>, HexError>)
    ensures
        hex_digits(line.spec_bytes()).len() % 2 == 1 <==> r is Err,
        r is Err ==> r == Err::<Vec<u8>, HexError>(HexError::OddDigitCount),
        r is Ok ==> r->Ok_0@ == hex_bytes(hex_digits(line.spec_bytes())),
{
    let bytes = line.as_bytes();
    let mut clean: Vec<u8> = Vec::new();
    let mut i: usize = 0;
    while i < bytes.len()
        invariant
            i <= bytes@.len(),
            bytes@ == line.spec_bytes(),
            clean@ == hex_digits(bytes@.take(i as int)),
        decreases bytes@.len() - i,
    {
        assert(bytes@.take(i + 1).drop_last() =~= bytes@.take(i as int));
        if is_hex_digit_exec(bytes[i]) {
            clean.push(bytes[i]);
        }
        i += 1;
    }
    assert(bytes@.take(bytes@.len() as int) =~= bytes@);
    if clean.len() % 2 == 1 {
        return Err(HexError::OddDigitCount);
    }
    proof {
        lemma_hex_digits_are_digits(bytes@);
    }
    let mut out: Vec<u8> = Vec::new();
    let mut k: usize = 0;
    while k + 1 < clean.len()
        invariant
            clean@ == hex_digits(line.spec_bytes()),
            clean@.len() % 2 == 0,
            forall|j: int| 0 <= j < clean@.len() ==> is_hex_digit(#[trigger] clean@[j]),
            k % 2 == 0,
            k <= clean@.len(),
            out@ == hex_bytes(clean@).take(k as int / 2),
        decreases clean@.len() - k,
    {
        let hi = hex_value_exec(clean[k]);
        let lo = hex_value_exec(clean[k + 1]);
        out.push(hi * 16 + lo);
        assert(out@ =~= hex_bytes(clean@).take(k as int / 2 + 1));
        k += 2;
    }
    assert(out@ =~= hex_bytes(clean@));
    Ok(out)
}

proof fn lemma_hex_digits_are_digits(s: Seq<u8>)
    ensures
        forall|j: int| 0 <= j < hex_digits(s).len() ==> is_hex_digit(#[trigger] hex_digits(s)[j]),
    decreases s.len(),
{
    if s.len() > 0 {
        lemma_hex_digits_are_digits(s.drop_last());
        let r = hex_digits(s.drop_last());
        assert forall|j: int| 0 <= j < hex_digits(s).len() implies is_hex_digit(
            #[trigger] hex_digits(s)[j],
        ) by {
            if j < r.len() {
                assert(is_hex_digit(r[j]));
            }
        }
    }
}

/// Whether a line is a comment: its first byte after leading white space
/// is `#`.
pub fn line_is_comment(b: &[u8]) -> (r: bool)
    ensures
        r == is_comment(b@),
{
    let mut i: usize = 0;
    assert(b@.subrange(0, b@.len() as int) =~= b@);
    while i < b.len() && (b[i] == 0x20 || (0x09 <= b[i] && b[i] <= 0x0d))
        invariant
            i <= b@.len(),
            is_comment(b@) == is_comment(b@.subrange(i as int, b@.len() as int)),
        decreases b@.len() - i,
    {
        assert(b@.subrange(i as int, b@.len() as int).drop_first() =~= b@.subrange(
            i + 1,
            b@.len() as int,
        ));
        i += 1;
    }
    i < b.len() && b[i] == 0x23
}

/// Loads the reports of a capture, given as its lines: comment lines (first
/// non-blank character `#`) are skipped, every other line is decoded as
/// hexadecimal, and the lines that spell at least one byte become reports,
/// in order. The first line with an odd number of digits fails the whole
/// load, as does a capture with no report.
pub fn parse_capture_lines(lines: &Vec<String>) -> (r: Result<Vec<Vec<u8>>, CaptureError>)
    ensures
        ({
            let ls = line_bytes(lines@);
            match r {
                Err(CaptureError::OddDigitCount { line }) => {
                    &&& line < ls.len()
                    &&& !line_ok(ls[line as int])
                    &&& forall|j: int| 0 <= j < line ==> line_ok(#[trigger] ls[j])
                },
                Err(CaptureError::NoData) => {
                    &&& forall|j: int| 0 <= j < ls.len() ==> line_ok(#[trigger] ls[j])
                    &&& capture_reports(ls).len() == 0
                },
                Ok(v) => {
                    &&& forall|j: int| 0 <= j < ls.len() ==> line_ok(#[trigger] ls[j])
                    &&& report_views(v@) == capture_reports(ls)
                    &&& v@.len() > 0
                },
            }
        }),
{
    let ghost ls = line_bytes(lines@);
    let mut reports: Vec<Vec<u8>> = Vec::new();
    let mut i: usize = 0;
    while i < lines.len()
        invariant
            i <= lines@.len(),
            ls == line_bytes(lines@),
            forall|j: int| 0 <= j < i ==> line_ok(#[trigger] ls[j]),
            report_views(reports@) == capture_reports(ls.take(i as int)),
        decreases lines@.len() - i,
    {
        let line = lines[i].as_str();
        assert(ls[i as int] == line.spec_bytes());
        assert(ls.take(i + 1).drop_last() =~= ls.take(i as int));
        if line_is_comment(line.as_bytes()) {
        } else {
            match parse_hex_line(line) {
                Err(_) => {
                    return Err(CaptureError::OddDigitCount { line: i });
                },
                Ok(bytes) => {
                    if bytes.len() > 0 {
                        let ghost prev = reports@;
                        reports.push(bytes);
                        assert(report_views(reports@) =~= report_views(prev).push(
                            reports@.last()@,
                        ));
                    }
                },
            }
        }
        i += 1;
    }
    assert(ls.take(lines@.len() as int) =~= ls);
    if reports.len() == 0 {
        Err(CaptureError::NoData)
    } else {
        Ok(reports)
    }
}

} // verus!
