//! Lines and decimal numbers of the text forms, as bytes.

use vstd::prelude::*;
use vstd::slice::{slice_subrange, slice_to_vec};

verus! {

/// The byte that ends a line.
pub const NEWLINE: u8 = 10;

/// The byte that is dropped from the end of a line, if it is there.
pub const CARRIAGE_RETURN: u8 = 13;

/// The byte of the digit 0.
pub const ZERO: u8 = 48;

/// The byte of the plus sign.
pub const PLUS: u8 = 43;

/// Whether a byte is a decimal digit.
pub open spec fn is_digit(b: u8) -> bool {
    48 <= b <= 57
}

/// Whether every byte of a text is a decimal digit.
pub open spec fn all_digits(text: Seq<u8>) -> bool {
    forall|i: int| 0 <= i < text.len() ==> is_digit(#[trigger] text[i])
}

/// The number that a text of digits stands for.
pub open spec fn digits_number(text: Seq<u8>) -> int
    decreases text.len(),
{
    if text.len() == 0 {
        0
    } else {
        digits_number(text.drop_last()) * 10 + (text.last() - 48)
    }
}

/// The digits of a text without the plus sign that may stand before them.
pub open spec fn unsigned_part(text: Seq<u8>) -> Seq<u8> {
    if text.len() > 0 && text[0] == 43 {
        text.subrange(1, text.len() as int)
    } else {
        text
    }
}

/// The number that a decimal text stands for: an optional plus sign and then one or
/// more digits whose number is at most `u64::MAX`. Any other text stands for nothing.
pub open spec fn decimal_value(text: Seq<u8>) -> Option<u64> {
    let digits = unsigned_part(text);
    if digits.len() > 0 && all_digits(digits) && digits_number(digits) <= u64::MAX {
        Some(digits_number(digits) as u64)
    } else {
        None
    }
}

/// The decimal text of a number: its digits without leading zeros.
pub open spec fn decimal_text(n: u64) -> Seq<u8>
    decreases n,
{
    if n < 10 {
        seq![(48 + n) as u8]
    } else {
        decimal_text(n / 10) + seq![(48 + n % 10) as u8]
    }
}

/// The number of a text of digits is not negative and not less than that of any
/// beginning of the text.
pub proof fn lemma_digits_number_grows(text: Seq<u8>, n: int)
    requires
        all_digits(text),
        0 <= n <= text.len(),
    ensures
        0 <= digits_number(text.subrange(0, n)) <= digits_number(text),
    decreases text.len() - n,
{
    if n == text.len() {
        assert(text.subrange(0, n) =~= text);
        lemma_digits_number_nonnegative(text);
    } else {
        lemma_digits_number_grows(text, n + 1);
        let longer = text.subrange(0, n + 1);
        assert(longer.drop_last() =~= text.subrange(0, n));
        assert(is_digit(text[n]));
        assert(longer.last() == text[n]);
        lemma_digits_number_nonnegative(text.subrange(0, n));
    }
}

/// The number of a text of digits is not negative.
pub proof fn lemma_digits_number_nonnegative(text: Seq<u8>)
    requires
        all_digits(text),
    ensures
        0 <= digits_number(text),
    decreases text.len(),
{
    if text.len() > 0 {
        assert(is_digit(text[text.len() - 1]));
        lemma_digits_number_nonnegative(text.drop_last());
    }
}

/// The decimal text of a number is made of digits, stands for the number, and is at
/// most 20 bytes long.
pub proof fn lemma_decimal_text(n: u64)
    ensures
        decimal_text(n).len() >= 1,
        all_digits(decimal_text(n)),
        digits_number(decimal_text(n)) == n,
        decimal_value(decimal_text(n)) == Some(n),
    decreases n,
{
    let text = decimal_text(n);
    if n < 10 {
        assert(text.drop_last() =~= Seq::<u8>::empty());
        assert(digits_number(text.drop_last()) == 0);
        assert(text.last() == (48 + n) as u8);
        assert(digits_number(text) == n);
    } else {
        lemma_decimal_text(n / 10);
        assert(text.drop_last() =~= decimal_text(n / 10));
        assert(text.last() == (48 + n % 10) as u8);
        assert(digits_number(text) == n);
        assert forall|i: int| 0 <= i < text.len() implies is_digit(#[trigger] text[i]) by {
            if i < text.len() - 1 {
                assert(text[i] == decimal_text(n / 10)[i]);
            }
        }
    }
    assert(is_digit(text[0]));
    assert(unsigned_part(text) == text);
}

/// Reads a decimal number.
pub fn parse_decimal(text: &[u8]) -> (out: Option<u64>)
    ensures
        out == decimal_value(text@),
{
    let start: usize = if text.len() > 0 && text[0] == PLUS {
        1
    } else {
        0
    };
    let ghost digits = unsigned_part(text@);
    if start == text.len() {
        return None;
    }
    let mut value: u64 = 0;
    let mut i: usize = start;
    while i < text.len()
        invariant
            start <= i <= text@.len(),
            start <= 1,
            digits == text@.subrange(start as int, text@.len() as int),
            digits == unsigned_part(text@),
            all_digits(digits.subrange(0, i - start)),
            value == digits_number(digits.subrange(0, i - start)),
        decreases text@.len() - i,
    {
        let b = text[i];
        let ghost upto = digits.subrange(0, i - start + 1);
        proof {
            assert(upto.drop_last() =~= digits.subrange(0, i - start));
            assert(upto.last() == b);
        }
        if b < ZERO || b > 57 {
            assert(!is_digit(digits[i - start]));
            return None;
        }
        let d: u64 = (b - ZERO) as u64;
        proof {
            assert forall|k: int| 0 <= k < upto.len() implies is_digit(#[trigger] upto[k]) by {
                if k < upto.len() - 1 {
                    assert(upto[k] == digits.subrange(0, i - start)[k]);
                }
            }
        }
        if value > (u64::MAX - d) / 10 {
            proof {
                assert(digits_number(upto) > u64::MAX);
                if all_digits(digits) {
                    lemma_digits_number_grows(digits, i - start + 1);
                }
            }
            return None;
        }
        value = value * 10 + d;
        i += 1;
    }
    assert(digits.subrange(0, digits.len() as int) =~= digits);
    Some(value)
}

/// Appends the decimal text of a number.
pub fn push_decimal(buf: &mut Vec<u8>, n: u64)
    ensures
        final(buf)@ == old(buf)@ + decimal_text(n),
    decreases n,
{
    if n >= 10 {
        push_decimal(buf, n / 10);
    }
    let ghost before = buf@;
    buf.push(ZERO + (n % 10) as u8);
    assert(buf@ =~= old(buf)@ + decimal_text(n));
}

/// A line without the carriage return that may end it.
pub open spec fn without_carriage_return(line: Seq<u8>) -> Seq<u8> {
    if line.len() > 0 && line.last() == 13 {
        line.drop_last()
    } else {
        line
    }
}

/// Where the first line of a text ends: at its first newline, or at the end of the text.
pub open spec fn line_end(text: Seq<u8>) -> int
    decreases text.len(),
{
    if text.len() == 0 || text[0] == 10 {
        0
    } else {
        1 + line_end(text.drop_first())
    }
}

/// The lines of a text. A line ends with a newline or with the text; the newline is
/// no part of it, nor is a carriage return before the newline. Nothing follows the
/// newline that ends the last line.
pub open spec fn lines_of(text: Seq<u8>) -> Seq<Seq<u8>>
    decreases text.len(),
{
    if text.len() == 0 {
        Seq::empty()
    } else {
        let end = line_end(text);
        let line = without_carriage_return(text.subrange(0, end));
        if end < 0 || end >= text.len() {
            seq![line]
        } else {
            seq![line] + lines_of(text.subrange(end + 1, text.len() as int))
        }
    }
}

/// The first line of a text ends inside the text, at a newline unless at the end, and
/// holds no newline.
pub proof fn lemma_line_end(text: Seq<u8>)
    ensures
        0 <= line_end(text) <= text.len(),
        line_end(text) < text.len() ==> text[line_end(text)] == 10,
        forall|i: int| 0 <= i < line_end(text) ==> #[trigger] text[i] != 10,
    decreases text.len(),
{
    if text.len() == 0 || text[0] == 10 {
    } else {
        let rest = text.drop_first();
        lemma_line_end(rest);
        assert forall|i: int| 0 <= i < line_end(text) implies #[trigger] text[i] != 10 by {
            if i > 0 {
                assert(text[i] == rest[i - 1]);
            }
        }
    }
}

/// A place of a text up to which no newline stands, followed by a newline or by the
/// end of the text, is where the first line ends.
pub proof fn lemma_line_end_found(text: Seq<u8>, end: int)
    requires
        0 <= end <= text.len(),
        forall|i: int| 0 <= i < end ==> #[trigger] text[i] != 10,
        end < text.len() ==> text[end] == 10,
    ensures
        line_end(text) == end,
    decreases text.len(),
{
    if text.len() == 0 || text[0] == 10 {
        if end > 0 {
            assert(text[0] != 10);
        }
    } else {
        let rest = text.drop_first();
        assert forall|i: int| 0 <= i < end - 1 implies #[trigger] rest[i] != 10 by {
            assert(rest[i] == text[i + 1]);
        }
        lemma_line_end_found(rest, end - 1);
    }
}

/// Whether a text may stand as a line of its own: it holds no newline and does not end
/// with a carriage return.
pub open spec fn is_line(line: Seq<u8>) -> bool {
    &&& forall|i: int| 0 <= i < line.len() ==> #[trigger] line[i] != 10
    &&& (line.len() > 0 ==> line.last() != 13)
}

/// A text of lines that is followed by one more line and a newline has the lines of the
/// text and then that line.
pub proof fn lemma_lines_push(buf: Seq<u8>, line: Seq<u8>)
    requires
        buf.len() == 0 || buf.last() == 10,
        is_line(line),
    ensures
        lines_of(buf + line + seq![10u8]) == lines_of(buf).push(line),
    decreases buf.len(),
{
    let text = buf + line + seq![10u8];
    if buf.len() == 0 {
        assert forall|i: int| 0 <= i < line.len() implies #[trigger] text[i] != 10 by {
            assert(text[i] == line[i]);
        }
        lemma_line_end_found(text, line.len() as int);
        assert(text.subrange(0, line.len() as int) =~= line);
        assert(without_carriage_return(line) == line);
        let rest = text.subrange(line.len() as int + 1, text.len() as int);
        assert(rest =~= Seq::<u8>::empty());
        assert(lines_of(rest) =~= Seq::<Seq<u8>>::empty());
        assert(lines_of(buf) =~= Seq::<Seq<u8>>::empty());
        assert(lines_of(text) == seq![line] + lines_of(rest));
        assert(lines_of(text) =~= lines_of(buf).push(line));
    } else {
        lemma_line_end(buf);
        let e = line_end(buf);
        if e >= buf.len() {
            assert(buf[buf.len() - 1] != 10);
        }
        assert forall|i: int| 0 <= i < e implies #[trigger] text[i] != 10 by {
            assert(text[i] == buf[i]);
        }
        assert(text[e] == buf[e]);
        lemma_line_end_found(text, e);
        let buf_rest = buf.subrange(e + 1, buf.len() as int);
        assert(text.subrange(0, e) =~= buf.subrange(0, e));
        assert(text.subrange(e + 1, text.len() as int) =~= buf_rest + line + seq![10u8]);
        if buf_rest.len() > 0 {
            assert(buf_rest.last() == buf.last());
        }
        lemma_lines_push(buf_rest, line);
        let first = without_carriage_return(buf.subrange(0, e));
        assert(lines_of(buf) == seq![first] + lines_of(buf_rest));
        assert(lines_of(text) == seq![first] + lines_of(buf_rest + line + seq![10u8]));
        assert(seq![first] + lines_of(buf_rest).push(line) =~= (seq![first] + lines_of(
            buf_rest,
        )).push(line));
    }
}

/// A text of digits or letters may stand as a line of its own.
pub proof fn lemma_alphanumeric_is_line(line: Seq<u8>)
    requires
        forall|i: int|
            0 <= i < line.len() ==> {
                ||| 48 <= #[trigger] line[i] <= 57
                ||| 65 <= line[i] <= 90
                ||| 97 <= line[i] <= 122
            },
    ensures
        is_line(line),
{
    if line.len() > 0 {
        assert(line[line.len() - 1] != 13);
    }
}

/// Splits a text into its lines.
pub fn split_lines(text: &[u8]) -> (out: Vec<Vec<u8>>)
    ensures
        out@.len() == lines_of(text@).len(),
        forall|i: int| 0 <= i < out@.len() ==> (#[trigger] out@[i])@ == lines_of(text@)[i],
{
    let mut lines: Vec<Vec<u8>> = Vec::new();
    let ghost mut done: Seq<Seq<u8>> = Seq::empty();
    let mut start: usize = 0;
    let mut i: usize = 0;
    assert(text@.subrange(0, text@.len() as int) =~= text@);
    while i < text.len()
        invariant
            start <= i <= text@.len(),
            done.len() == lines@.len(),
            forall|k: int| 0 <= k < done.len() ==> (#[trigger] lines@[k])@ == done[k],
            forall|k: int| start <= k < i ==> #[trigger] text@[k] != 10,
            lines_of(text@) == done + lines_of(text@.subrange(start as int, text@.len() as int)),
        decreases text@.len() - i,
    {
        if text[i] == NEWLINE {
            let ghost rest = text@.subrange(start as int, text@.len() as int);
            let end: usize = if i > start && text[i - 1] == CARRIAGE_RETURN {
                i - 1
            } else {
                i
            };
            let line = slice_to_vec(slice_subrange(text, start, end));
            proof {
                assert forall|k: int| 0 <= k < i - start implies #[trigger] rest[k] != 10 by {
                    assert(rest[k] == text@[start + k]);
                }
                lemma_line_end_found(rest, i - start);
                assert(rest.subrange(0, i - start) =~= text@.subrange(start as int, i as int));
                assert(line@ =~= without_carriage_return(rest.subrange(0, i - start)));
                assert(rest.subrange(i - start + 1, rest.len() as int) =~= text@.subrange(
                    i + 1,
                    text@.len() as int,
                ));
                if i + 1 == text@.len() {
                    assert(lines_of(text@.subrange(i + 1, text@.len() as int))
                        =~= Seq::<Seq<u8>>::empty());
                    assert(lines_of(rest) =~= seq![line@] + lines_of(
                        text@.subrange(i + 1, text@.len() as int),
                    ));
                }
                assert(done + (seq![line@] + lines_of(text@.subrange(i + 1, text@.len() as int)))
                    =~= done.push(line@) + lines_of(text@.subrange(i + 1, text@.len() as int)));
                done = done.push(line@);
            }
            lines.push(line);
            start = i + 1;
        }
        i += 1;
    }
    if start < text.len() {
        let ghost rest = text@.subrange(start as int, text@.len() as int);
        let end: usize = if text[text.len() - 1] == CARRIAGE_RETURN {
            text.len() - 1
        } else {
            text.len()
        };
        let line = slice_to_vec(slice_subrange(text, start, end));
        proof {
            assert forall|k: int| 0 <= k < rest.len() implies #[trigger] rest[k] != 10 by {
                assert(rest[k] == text@[start + k]);
            }
            lemma_line_end_found(rest, rest.len() as int);
            assert(rest.subrange(0, rest.len() as int) =~= rest);
            assert(line@ =~= without_carriage_return(rest));
            done = done.push(line@);
        }
        lines.push(line);
    } else {
        proof {
            assert(done + Seq::<Seq<u8>>::empty() =~= done);
        }
    }
    lines
}

} // verus!
