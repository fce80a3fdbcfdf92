//! Reading a capture's metadata from the listing of a metadata tool.
//!
//! The listing is text, one entry per line, each of the form `key : value`.
//! Four entries matter here: the size of the raw plane, the capture's
//! sequence number and the offset of the raw samples within the file.
//! [`read_exif`] takes the listing as bytes; running the tool is the caller's
//! business.

use vstd::prelude::*;
use crate::error::{MergeError, MetadataField};

verus! {

/// What the merge needs to know of one capture.
#[derive(Clone, Copy, Debug, PartialEq, Eq, Structural)]
pub struct ExifData {
    /// Width of the raw plane, in pixels.
    pub width: u32,
    /// Height of the raw plane, in pixels.
    pub height: u32,
    /// One-based number of the capture within its series.
    pub sequence_number: u32,
    /// Byte offset at which the raw samples start.
    pub offset: u32,
}

/// The byte that ends a line.
pub const LINE_FEED: u8 = 0x0a;

/// The byte between a key and its value.
pub const SEPARATOR: u8 = 0x3a;

/// A space, or one of the control characters from tab to carriage return.
pub open spec fn is_blank(b: u8) -> bool {
    b == 0x20 || (0x09 <= b && b <= 0x0d)
}

/// A decimal digit.
pub open spec fn is_digit(b: u8) -> bool {
    0x30 <= b && b <= 0x39
}

/// `s` without the blanks it starts with.
pub open spec fn trim_start(s: Seq<u8>) -> Seq<u8>
    decreases s.len(),
{
    if s.len() > 0 && is_blank(s[0]) {
        trim_start(s.drop_first())
    } else {
        s
    }
}

/// `s` without the blanks it ends with.
pub open spec fn trim_end(s: Seq<u8>) -> Seq<u8>
    decreases s.len(),
{
    if s.len() > 0 && is_blank(s.last()) {
        trim_end(s.drop_last())
    } else {
        s
    }
}

/// `s` without the blanks at either end.
pub open spec fn trim(s: Seq<u8>) -> Seq<u8> {
    trim_end(trim_start(s))
}

/// The index of the first `b` in `s`, or the length of `s` if it holds none.
pub open spec fn first_index(s: Seq<u8>, b: u8) -> nat
    decreases s.len(),
{
    if s.len() == 0 || s[0] == b {
        0
    } else {
        1 + first_index(s.drop_first(), b)
    }
}

/// The lines of `text`. A line feed ends a line; the last line needs none.
pub open spec fn lines(text: Seq<u8>) -> Seq<Seq<u8>>
    decreases text.len(),
{
    if text.len() == 0 {
        Seq::empty()
    } else {
        let n = first_index(text, LINE_FEED);
        if n >= text.len() {
            seq![text]
        } else {
            seq![text.subrange(0, n as int)] + lines(text.subrange(n as int + 1, text.len() as int))
        }
    }
}

/// Whether the line holds a separator, and so a key and a value.
pub open spec fn has_separator(line: Seq<u8>) -> bool {
    first_index(line, SEPARATOR) < line.len()
}

/// What stands before the line's first separator, trimmed.
pub open spec fn key_of(line: Seq<u8>) -> Seq<u8> {
    trim(line.subrange(0, first_index(line, SEPARATOR) as int))
}

/// What stands after the line's first separator, trimmed.
pub open spec fn value_of(line: Seq<u8>) -> Seq<u8> {
    trim(line.subrange(first_index(line, SEPARATOR) as int + 1, line.len() as int))
}

/// The number that a run of decimal digits denotes.
pub open spec fn decimal_value(digits: Seq<u8>) -> nat
    decreases digits.len(),
{
    if digits.len() == 0 {
        0
    } else {
        10 * decimal_value(digits.drop_last()) + (digits.last() - 0x30) as nat
    }
}

/// Whether every byte of `s` is a decimal digit.
pub open spec fn all_digits(s: Seq<u8>) -> bool {
    forall|i: int| 0 <= i < s.len() ==> is_digit(#[trigger] s[i])
}

/// The value of `s` as an unsigned 32-bit number: one or more decimal
/// digits, after an optional `+`, that denote a number below 2^32.
pub open spec fn parse_u32(s: Seq<u8>) -> Option<u32> {
    let digits = if s.len() > 0 && s[0] == 0x2b {
        s.drop_first()
    } else {
        s
    };
    if digits.len() > 0 && all_digits(digits) && decimal_value(digits) <= u32::MAX {
        Some(decimal_value(digits) as u32)
    } else {
        None
    }
}

impl MetadataField {
    /// The key under which the listing gives the field.
    pub open spec fn name(self) -> Seq<char> {
        match self {
            MetadataField::Width => "Image Width"@,
            MetadataField::Height => "Image Height"@,
            MetadataField::SequenceNumber => "Sequence Number"@,
            MetadataField::Offset => "Strip Offsets"@,
        }
    }

    /// The key as bytes.
    pub open spec fn key(self) -> Seq<u8> {
        Seq::new(self.name().len(), |i: int| self.name()[i] as u8)
    }
}

/// The field that a key names, if any.
pub open spec fn field_named(key: Seq<u8>) -> Option<MetadataField> {
    if key == MetadataField::Offset.key() {
        Some(MetadataField::Offset)
    } else if key == MetadataField::Width.key() {
        Some(MetadataField::Width)
    } else if key == MetadataField::Height.key() {
        Some(MetadataField::Height)
    } else if key == MetadataField::SequenceNumber.key() {
        Some(MetadataField::SequenceNumber)
    } else {
        None
    }
}

/// What is wrong with the line at `index`, if anything: it has no separator,
/// or it gives one of the four fields a value that is no 32-bit number.
pub open spec fn line_error(line: Seq<u8>, index: int) -> Option<MergeError> {
    if !has_separator(line) {
        Some(MergeError::MetadataLineMalformed(index as usize))
    } else {
        match field_named(key_of(line)) {
            Some(field) => if parse_u32(value_of(line)) is None {
                Some(MergeError::MetadataFieldInvalid(field))
            } else {
                None
            },
            None => None,
        }
    }
}

/// The error of the first line that has one.
pub open spec fn first_error(lines: Seq<Seq<u8>>) -> Option<MergeError>
    decreases lines.len(),
{
    if lines.len() == 0 {
        None
    } else {
        match first_error(lines.drop_last()) {
            Some(error) => Some(error),
            None => line_error(lines.last(), lines.len() - 1),
        }
    }
}

/// The number that the last line with the field's key gives it.
pub open spec fn last_value(lines: Seq<Seq<u8>>, field: MetadataField) -> Option<u32>
    decreases lines.len(),
{
    if lines.len() == 0 {
        None
    } else if has_separator(lines.last()) && field_named(key_of(lines.last())) == Some(field) {
        parse_u32(value_of(lines.last()))
    } else {
        last_value(lines.drop_last(), field)
    }
}

/// The field's value, which must be there and must not be zero.
pub open spec fn required(lines: Seq<Seq<u8>>, field: MetadataField) -> Result<u32, MergeError> {
    match last_value(lines, field) {
        None => Err(MergeError::MetadataFieldMissing(field)),
        Some(value) => if value == 0 {
            Err(MergeError::MetadataFieldInvalid(field))
        } else {
            Ok(value)
        },
    }
}

/// What a listing says of a capture.
///
/// The error of the first faulty line comes first. Without one, the fields
/// are looked up in the order width, height, sequence number, offset, and
/// the first that is missing or zero is reported. Where a key occurs more
/// than once, its last value counts.
pub open spec fn parse_listing(text: Seq<u8>) -> Result<ExifData, MergeError> {
    let lines = lines(text);
    if let Some(error) = first_error(lines) {
        Err(error)
    } else if let Err(error) = required(lines, MetadataField::Width) {
        Err(error)
    } else if let Err(error) = required(lines, MetadataField::Height) {
        Err(error)
    } else if let Err(error) = required(lines, MetadataField::SequenceNumber) {
        Err(error)
    } else if let Err(error) = required(lines, MetadataField::Offset) {
        Err(error)
    } else {
        Ok(
            ExifData {
                width: required(lines, MetadataField::Width)->Ok_0,
                height: required(lines, MetadataField::Height)->Ok_0,
                sequence_number: required(lines, MetadataField::SequenceNumber)->Ok_0,
                offset: required(lines, MetadataField::Offset)->Ok_0,
            },
        )
    }
}

proof fn lemma_first_index(s: Seq<u8>, b: u8, n: int)
    requires
        0 <= n <= s.len(),
        forall|j: int| 0 <= j < n ==> s[j] != b,
        n == s.len() || s[n] == b,
    ensures
        first_index(s, b) == n,
    decreases n,
{
    if n > 0 {
        lemma_first_index(s.drop_first(), b, n - 1);
    }
}

proof fn lemma_decimal_prefix(s: Seq<u8>, k: int)
    requires
        0 <= k <= s.len(),
    ensures
        decimal_value(s.take(k)) <= decimal_value(s),
    decreases s.len(),
{
    if k == s.len() {
        assert(s.take(k) =~= s);
    } else {
        lemma_decimal_prefix(s.drop_last(), k);
        assert(s.drop_last().take(k) =~= s.take(k));
    }
}

proof fn lemma_first_error_extends(head: Seq<Seq<u8>>, tail: Seq<Seq<u8>>)
    requires
        first_error(head) is Some,
    ensures
        first_error(head + tail) == first_error(head),
    decreases tail.len(),
{
    if tail.len() == 0 {
        assert(head + tail =~= head);
    } else {
        lemma_first_error_extends(head, tail.drop_last());
        assert((head + tail).drop_last() =~= head + tail.drop_last());
    }
}

/// Finds the first `b` in `text[from..to]`; gives `to` if there is none.
fn find_byte(text: &[u8], from: usize, to: usize, b: u8) -> (at: usize)
    requires
        from <= to <= text@.len(),
    ensures
        from <= at <= to,
        at - from == first_index(text@.subrange(from as int, to as int), b),
{
    let mut at: usize = from;
    while at < to && text[at] != b
        invariant
            from <= at <= to <= text@.len(),
            forall|j: int| from <= j < at ==> text@[j] != b,
        decreases to - at,
    {
        at = at + 1;
    }
    proof {
        lemma_first_index(text@.subrange(from as int, to as int), b, at - from);
    }
    at
}

fn blank(b: u8) -> (r: bool)
    ensures
        r == is_blank(b),
{
    b == 0x20 || (0x09 <= b && b <= 0x0d)
}

/// Narrows `text[from..to]` to what is left of it after trimming.
fn trim_range(text: &[u8], from: usize, to: usize) -> (range: (usize, usize))
    requires
        from <= to <= text@.len(),
    ensures
        from <= range.0 <= range.1 <= to,
        text@.subrange(range.0 as int, range.1 as int) == trim(
            text@.subrange(from as int, to as int),
        ),
{
    let mut start: usize = from;
    while start < to && blank(text[start])
        invariant
            from <= start <= to <= text@.len(),
            trim_start(text@.subrange(from as int, to as int)) == trim_start(
                text@.subrange(start as int, to as int),
            ),
        decreases to - start,
    {
        assert(text@.subrange(start as int, to as int).drop_first() =~= text@.subrange(
            start + 1,
            to as int,
        ));
        start = start + 1;
    }
    let mut end: usize = to;
    while start < end && blank(text[end - 1])
        invariant
            start <= end <= to <= text@.len(),
            trim_end(text@.subrange(start as int, to as int)) == trim_end(
                text@.subrange(start as int, end as int),
            ),
        decreases end - start,
    {
        assert(text@.subrange(start as int, end as int).drop_last() =~= text@.subrange(
            start as int,
            end - 1,
        ));
        end = end - 1;
    }
    (start, end)
}

/// Reads `text[from..to]` as an unsigned 32-bit number.
fn parse_number(text: &[u8], from: usize, to: usize) -> (value: Option<u32>)
    requires
        from <= to <= text@.len(),
    ensures
        value == parse_u32(text@.subrange(from as int, to as int)),
{
    let ghost s = text@.subrange(from as int, to as int);
    let start: usize = if from < to && text[from] == 0x2b {
        from + 1
    } else {
        from
    };
    let ghost digits = text@.subrange(start as int, to as int);
    assert(digits =~= if s.len() > 0 && s[0] == 0x2b {
        s.drop_first()
    } else {
        s
    });
    if start == to {
        return None;
    }
    let mut at: usize = start;
    let mut value: u32 = 0;
    while at < to
        invariant
            start <= at <= to <= text@.len(),
            digits == text@.subrange(start as int, to as int),
            digits.len() > 0,
            parse_u32(text@.subrange(from as int, to as int)) == if all_digits(digits)
                && decimal_value(digits) <= u32::MAX {
                Some(decimal_value(digits) as u32)
            } else {
                None
            },
            all_digits(digits.take(at - start)),
            value == decimal_value(digits.take(at - start)),
        decreases to - at,
    {
        let b: u8 = text[at];
        let ghost longer = digits.take(at - start + 1);
        assert(longer.drop_last() =~= digits.take(at - start));
        assert(longer.last() == b);
        if b < 0x30 || b > 0x39 {
            assert(!is_digit(digits[at - start]));
            return None;
        }
        let digit: u64 = (b - 0x30) as u64;
        let next: u64 = value as u64 * 10 + digit;
        if next > u32::MAX as u64 {
            proof {
                lemma_decimal_prefix(digits, at - start + 1);
            }
            return None;
        }
        value = next as u32;
        at = at + 1;
    }
    assert(digits.take(at - start) =~= digits);
    Some(value)
}

/// Whether `text[from..to]` is the key of `field`.
fn is_key(text: &[u8], from: usize, to: usize, field: MetadataField) -> (same: bool)
    requires
        from <= to <= text@.len(),
    ensures
        same == (text@.subrange(from as int, to as int) == field.key()),
{
    let name: &str = match field {
        MetadataField::Width => "Image Width",
        MetadataField::Height => "Image Height",
        MetadataField::SequenceNumber => "Sequence Number",
        MetadataField::Offset => "Strip Offsets",
    };
    proof {
        reveal_strlit("Image Width");
        reveal_strlit("Image Height");
        reveal_strlit("Sequence Number");
        reveal_strlit("Strip Offsets");
    }
    assert(name@ == field.name());
    assert(name.is_ascii());
    let key: &[u8] = name.as_bytes();
    proof {
        vstd::string::is_ascii_spec_bytes(name);
    }
    assert(key@ =~= field.key());
    if key.len() != to - from {
        return false;
    }
    let ghost part = text@.subrange(from as int, to as int);
    let mut i: usize = 0;
    while i < key.len()
        invariant
            from <= to <= text@.len(),
            key@.len() == to - from,
            key@ == field.key(),
            i <= key@.len(),
            part == text@.subrange(from as int, to as int),
            forall|j: int| 0 <= j < i ==> part[j] == key@[j],
        decreases key@.len() - i,
    {
        if text[from + i] != key[i] {
            assert(part[i as int] != key@[i as int]);
            return false;
        }
        i = i + 1;
    }
    assert(part =~= key@);
    true
}

/// The field whose key is `text[from..to]`, if it is one.
fn named_field(text: &[u8], from: usize, to: usize) -> (field: Option<MetadataField>)
    requires
        from <= to <= text@.len(),
    ensures
        field == field_named(text@.subrange(from as int, to as int)),
{
    if is_key(text, from, to, MetadataField::Offset) {
        Some(MetadataField::Offset)
    } else if is_key(text, from, to, MetadataField::Width) {
        Some(MetadataField::Width)
    } else if is_key(text, from, to, MetadataField::Height) {
        Some(MetadataField::Height)
    } else if is_key(text, from, to, MetadataField::SequenceNumber) {
        Some(MetadataField::SequenceNumber)
    } else {
        None
    }
}

/// Checks that a field was given and is not zero.
fn require(value: Option<u32>, field: MetadataField) -> (checked: Result<u32, MergeError>)
    ensures
        checked == match value {
            None => Err::<u32, MergeError>(MergeError::MetadataFieldMissing(field)),
            Some(v) => if v == 0 {
                Err::<u32, MergeError>(MergeError::MetadataFieldInvalid(field))
            } else {
                Ok::<u32, MergeError>(v)
            },
        },
{
    match value {
        None => Err(MergeError::MetadataFieldMissing(field)),
        Some(v) => if v == 0 {
            Err(MergeError::MetadataFieldInvalid(field))
        } else {
            Ok(v)
        },
    }
}

/// Reads a capture's metadata from the listing that the metadata tool printed.
///
/// Lines have the form `key : value`; blanks around either are ignored. The
/// keys `Image Width`, `Image Height`, `Sequence Number` and `Strip Offsets`
/// are read, each as an unsigned decimal number; other keys are passed over.
/// A line without `:` is an error, and so is a value of one of the four keys
/// that is no number below 2^32. All four must be given, and none may be zero.
pub fn read_exif(output: &[u8]) -> (data: Result<ExifData, MergeError>)
    ensures
        data == parse_listing(output@),
        data matches Ok(d) ==> d.width > 0 && d.height > 0 && d.sequence_number > 0 && d.offset
            > 0,
{
    let len: usize = output.len();
    let mut width: Option<u32> = None;
    let mut height: Option<u32> = None;
    let mut sequence_number: Option<u32> = None;
    let mut offset: Option<u32> = None;
    let mut pos: usize = 0;
    let mut index: usize = 0;
    let ghost mut done: Seq<Seq<u8>> = Seq::empty();
    assert(output@.subrange(0, len as int) =~= output@);
    while pos < len
        invariant
            pos <= len == output@.len(),
            index == done.len(),
            index <= pos,
            lines(output@) == done + lines(output@.subrange(pos as int, len as int)),
            first_error(done) is None,
            width == last_value(done, MetadataField::Width),
            height == last_value(done, MetadataField::Height),
            sequence_number == last_value(done, MetadataField::SequenceNumber),
            offset == last_value(done, MetadataField::Offset),
        decreases len - pos,
    {
        let ghost rest = output@.subrange(pos as int, len as int);
        let end: usize = find_byte(output, pos, len, LINE_FEED);
        let ghost line = output@.subrange(pos as int, end as int);
        let next: usize = if end < len {
            end + 1
        } else {
            len
        };
        let ghost tail = lines(output@.subrange(next as int, len as int));
        proof {
            assert(rest.subrange(0, end - pos) =~= line);
            if end < len {
                assert(rest.subrange(end - pos + 1, rest.len() as int) =~= output@.subrange(
                    next as int,
                    len as int,
                ));
            } else {
                assert(rest =~= line);
            }
            assert(lines(rest) =~= seq![line] + tail);
            assert(lines(output@) =~= done.push(line) + tail);
            assert(done.push(line).drop_last() =~= done);
        }
        let colon: usize = find_byte(output, pos, end, SEPARATOR);
        proof {
            assert(line.subrange(0, colon - pos) =~= output@.subrange(pos as int, colon as int));
        }
        if colon == end {
            proof {
                lemma_first_error_extends(done.push(line), tail);
            }
            return Err(MergeError::MetadataLineMalformed(index));
        }
        proof {
            assert(line.subrange(colon - pos + 1, line.len() as int) =~= output@.subrange(
                colon + 1,
                end as int,
            ));
        }
        let key: (usize, usize) = trim_range(output, pos, colon);
        match named_field(output, key.0, key.1) {
            Some(field) => {
                let value: (usize, usize) = trim_range(output, colon + 1, end);
                match parse_number(output, value.0, value.1) {
                    Some(number) => {
                        match field {
                            MetadataField::Width => {
                                width = Some(number);
                            },
                            MetadataField::Height => {
                                height = Some(number);
                            },
                            MetadataField::SequenceNumber => {
                                sequence_number = Some(number);
                            },
                            MetadataField::Offset => {
                                offset = Some(number);
                            },
                        }
                    },
                    None => {
                        proof {
                            lemma_first_error_extends(done.push(line), tail);
                        }
                        return Err(MergeError::MetadataFieldInvalid(field));
                    },
                }
            },
            None => {},
        }
        proof {
            done = done.push(line);
        }
        pos = next;
        index = index + 1;
    }
    proof {
        assert(lines(output@.subrange(pos as int, len as int)) =~= Seq::<Seq<u8>>::empty());
        assert(lines(output@) =~= done);
    }
    let width: u32 = require(width, MetadataField::Width)?;
    let height: u32 = require(height, MetadataField::Height)?;
    let sequence_number: u32 = require(sequence_number, MetadataField::SequenceNumber)?;
    let offset: u32 = require(offset, MetadataField::Offset)?;
    Ok(ExifData { width, height, sequence_number, offset })
}

} // verus!
