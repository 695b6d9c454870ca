//! The building blocks of the wire grammar: lines that end in CRLF, decimal
//! fields, and the three outcomes of reading a record from a buffer.

use crate::decimal::{all_digits, decimal_value, is_digit};
use vstd::prelude::*;

verus! {

/// What reading one record from a buffer, starting at some position, comes
/// to.
pub enum Scan<T> {
    /// The record is there in full: it denotes `value` and stops just before
    /// position `end`.
    Complete { value: T, end: int },
    /// The buffer ends before the record does; more bytes may complete it.
    Incomplete,
    /// The bytes cannot begin any record, however the buffer goes on.
    Malformed,
}

/// Carriage return, the first byte of a line end.
pub const CR: u8 = 13;

/// Line feed, the second byte of a line end.
pub const LF: u8 = 10;

/// The two bytes that end every line: carriage return, line feed.
pub open spec fn crlf() -> Seq<u8> {
    seq![CR, LF]
}

/// Whether `s` contains a carriage return.
pub open spec fn has_cr(s: Seq<u8>) -> bool {
    exists|i: int| 0 <= i < s.len() && s[i] == CR
}

/// The position of the first carriage return at or after `from`, if there
/// is one.
pub open spec fn find_cr(data: Seq<u8>, from: int) -> Option<int>
    decreases data.len() - from,
{
    if from < 0 || from >= data.len() {
        None
    } else if data[from] == CR {
        Some(from)
    } else {
        find_cr(data, from + 1)
    }
}

/// The line that starts at `pos`: the bytes up to the first carriage return,
/// which a line feed must follow, with `end` just behind that line feed.
///
/// The line is incomplete where the buffer holds no carriage return or ends
/// on it. A carriage return that another byte follows is no line end and
/// makes the line malformed: a line holds no carriage return.
pub open spec fn scan_line(data: Seq<u8>, pos: int) -> Scan<Seq<u8>> {
    match find_cr(data, pos) {
        Some(i) => if i + 1 >= data.len() {
            Scan::Incomplete
        } else if data[i + 1] == LF {
            Scan::Complete { value: data.subrange(pos, i), end: i + 2 }
        } else {
            Scan::Malformed
        },
        None => Scan::Incomplete,
    }
}

/// The decimal field that starts at `pos`: a line that holds an unsigned
/// 64-bit decimal number and nothing else.
pub open spec fn scan_decimal(data: Seq<u8>, pos: int) -> Scan<u64> {
    match scan_line(data, pos) {
        Scan::Complete { value, end } => match decimal_value(value) {
            Some(n) => Scan::Complete { value: n, end },
            None => Scan::Malformed,
        },
        Scan::Incomplete => Scan::Incomplete,
        Scan::Malformed => Scan::Malformed,
    }
}

/// Whether `data` holds exactly the bytes of `part` from position `pos` on.
pub open spec fn holds_at(data: Seq<u8>, pos: int, part: Seq<u8>) -> bool {
    &&& 0 <= pos
    &&& pos + part.len() <= data.len()
    &&& forall|i: int| 0 <= i < part.len() ==> data[pos + i] == #[trigger] part[i]
}

/// Holding a concatenation means holding its parts one behind the other.
pub proof fn lemma_holds_at_concat(data: Seq<u8>, pos: int, a: Seq<u8>, b: Seq<u8>)
    ensures
        holds_at(data, pos, a + b) <==> holds_at(data, pos, a) && holds_at(
            data,
            pos + a.len(),
            b,
        ),
{
    if holds_at(data, pos, a + b) {
        assert forall|i: int| 0 <= i < a.len() implies data[pos + i] == #[trigger] a[i] by {
            assert((a + b)[i] == a[i]);
        }
        assert forall|i: int| 0 <= i < b.len() implies data[pos + a.len() + i]
            == #[trigger] b[i] by {
            assert((a + b)[a.len() + i] == b[i]);
        }
    }
    if holds_at(data, pos, a) && holds_at(data, pos + a.len(), b) {
        assert forall|i: int| 0 <= i < (a + b).len() implies data[pos + i] == #[trigger] (a
            + b)[i] by {
            if i < a.len() {
                assert((a + b)[i] == a[i]);
            } else {
                assert((a + b)[i] == b[i - a.len()]);
                assert(data[pos + a.len() + (i - a.len())] == b[i - a.len()]);
            }
        }
    }
}

/// The bytes that `data` holds at `pos` are the matching subrange of `data`.
pub proof fn lemma_holds_at_subrange(data: Seq<u8>, pos: int, part: Seq<u8>)
    requires
        holds_at(data, pos, part),
    ensures
        data.subrange(pos, pos + part.len()) == part,
{
    assert(data.subrange(pos, pos + part.len()) =~= part);
}

/// Where `find_cr` finds a carriage return, it is the first one at or after
/// `from`.
pub proof fn lemma_find_cr_some(data: Seq<u8>, from: int)
    requires
        find_cr(data, from) is Some,
    ensures
        0 <= from <= find_cr(data, from)->0 < data.len(),
        data[find_cr(data, from)->0] == CR,
        forall|j: int| from <= j < find_cr(data, from)->0 ==> data[j] != CR,
    decreases data.len() - from,
{
    if data[from] != CR {
        lemma_find_cr_some(data, from + 1);
    }
}

/// The first carriage return at or after `from` is what `find_cr` returns.
pub proof fn lemma_find_cr_first(data: Seq<u8>, from: int, at: int)
    requires
        0 <= from <= at < data.len(),
        data[at] == CR,
        forall|j: int| from <= j < at ==> data[j] != CR,
    ensures
        find_cr(data, from) == Some(at),
    decreases at - from,
{
    if from < at {
        lemma_find_cr_first(data, from + 1, at);
    }
}

/// Without a carriage return at or after `from`, `find_cr` returns nothing.
pub proof fn lemma_find_cr_absent(data: Seq<u8>, from: int)
    requires
        forall|j: int| from <= j < data.len() && 0 <= j ==> data[j] != CR,
    ensures
        find_cr(data, from) is None,
    decreases data.len() - from,
{
    if 0 <= from < data.len() {
        lemma_find_cr_absent(data, from + 1);
    }
}

/// A complete line ends inside the buffer, behind where it began, and holds
/// no carriage return.
pub proof fn lemma_scan_line_bounds(data: Seq<u8>, pos: int)
    requires
        scan_line(data, pos) is Complete,
    ensures
        0 <= pos,
        pos + 2 <= scan_line(data, pos)->end <= data.len(),
        scan_line(data, pos)->value.len() == scan_line(data, pos)->end - 2 - pos,
        !has_cr(scan_line(data, pos)->value),
{
    lemma_find_cr_some(data, pos);
    let at = find_cr(data, pos)->0;
    let line = data.subrange(pos, at);
    if has_cr(line) {
        let i = choose|i: int| 0 <= i < line.len() && line[i] == CR;
        assert(data[pos + i] == CR);
    }
}

/// A complete decimal field ends inside the buffer, behind where it began.
pub proof fn lemma_scan_decimal_bounds(data: Seq<u8>, pos: int)
    requires
        scan_decimal(data, pos) is Complete,
    ensures
        0 <= pos,
        pos + 2 < scan_decimal(data, pos)->end <= data.len(),
{
    lemma_scan_line_bounds(data, pos);
}

/// A run of digits contains no carriage return.
pub proof fn lemma_digits_have_no_cr(s: Seq<u8>)
    requires
        all_digits(s),
    ensures
        !has_cr(s),
{
    if has_cr(s) {
        let i = choose|i: int| 0 <= i < s.len() && s[i] == CR;
        assert(is_digit(s[i]));
    }
}

/// A buffer that holds `text` and then a line end at `pos`, where `text`
/// itself contains no carriage return, holds the line `text` there.
pub proof fn lemma_scan_line_of_text(data: Seq<u8>, pos: int, text: Seq<u8>)
    requires
        !has_cr(text),
        holds_at(data, pos, text + crlf()),
    ensures
        scan_line(data, pos) == (Scan::Complete { value: text, end: pos + text.len() + 2 }),
{
    lemma_holds_at_concat(data, pos, text, crlf());
    let at = pos + text.len();
    assert(crlf()[0] == CR && crlf()[1] == LF);
    assert(data[at + 0] == crlf()[0]);
    assert(data[at + 1] == crlf()[1]);
    assert forall|j: int| pos <= j < at implies data[j] != CR by {
        assert(data[pos + (j - pos)] == text[j - pos]);
    }
    lemma_find_cr_first(data, pos, at);
    lemma_holds_at_subrange(data, pos, text);
}

} // verus!
