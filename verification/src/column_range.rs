use vstd::prelude::*;
use vstd::utf8::{decode_utf8, encode_utf8, encode_utf8_decode_utf8};

use crate::text::{decimal_text, push_decimal};

verus! {

/// Represents a range of columns (inclusive) in a given sheet in a Google Sheet.
///
/// The columns are strings and not characters because columns after "Z" have
/// several letters, e.g. "AA", "AB", "AC".
#[derive(Debug)]
pub struct ColumnRange {
    pub sheet_name: String,
    pub start_col: String,
    pub end_col: String,
}

/// Why a list of command-line values does not describe a column range.
#[derive(Debug, PartialEq, Eq, Structural)]
pub enum ColumnRangeError {
    /// A column range takes exactly three values: sheet, first column, last column.
    WrongParameterCount { found: usize },
}

impl ColumnRangeError {
    /// The message that describes the error.
    pub fn message(&self) -> (msg: String)
        ensures
            match self {
                ColumnRangeError::WrongParameterCount { found } => msg@
                    == "Expecting 3 parameters for column range, found "@ + decimal_text(
                    *found as nat,
                ),
            },
    {
        match self {
            ColumnRangeError::WrongParameterCount { found } => {
                let mut msg = String::new();
                msg.append("Expecting 3 parameters for column range, found ");
                push_decimal(&mut msg, *found);
                msg
            },
        }
    }
}

/// Is `b` an ASCII letter, digit, or one of `-` `.` `_` `~`? Such bytes are
/// left as they are by percent-encoding.
pub open spec fn is_unreserved(b: u8) -> bool {
    (0x30 <= b <= 0x39) || (0x41 <= b <= 0x5a) || (0x61 <= b <= 0x7a) || b == 0x2d || b == 0x2e
        || b == 0x5f || b == 0x7e
}

/// The upper-case hexadecimal digit for `d` (below sixteen).
pub open spec fn hex_digit(d: int) -> char {
    if d < 10 {
        (0x30 + d) as char
    } else {
        (0x41 + d - 10) as char
    }
}

/// The percent-encoding of one byte: the byte itself when it is unreserved,
/// else `%` and its two upper-case hex digits.
pub open spec fn percent_encode_byte(b: u8) -> Seq<char> {
    if is_unreserved(b) {
        seq![b as char]
    } else {
        seq!['%', hex_digit(b as int / 16), hex_digit(b as int % 16)]
    }
}

/// The percent-encoding of a byte string, byte by byte.
pub open spec fn percent_encode(bytes: Seq<u8>) -> Seq<char>
    decreases bytes.len(),
{
    if bytes.len() == 0 {
        Seq::empty()
    } else {
        percent_encode(bytes.drop_last()) + percent_encode_byte(bytes.last())
    }
}

/// The text of a column range before it is encoded: `sheet!start:end`.
pub open spec fn range_text(sheet_name: Seq<char>, start_col: Seq<char>, end_col: Seq<char>) -> Seq<char> {
    sheet_name + seq!['!'] + start_col + seq![':'] + end_col
}

/// A character that can stand in a URL path segment as it is: an ASCII
/// letter or digit, one of `-` `.` `_` `~`, or the `%` of an escape.
pub open spec fn is_url_safe_char(c: char) -> bool {
    ('0' <= c <= '9') || ('A' <= c <= 'Z') || ('a' <= c <= 'z') || c == '-' || c == '.' || c == '_'
        || c == '~' || c == '%'
}

/// Percent-encoding leaves only URL-safe characters: whatever the sheet name
/// and columns hold (spaces, `!`, `:`, non-ASCII letters), the encoded range
/// can stand in the request path as it is.
pub proof fn lemma_percent_encoding_is_url_safe(bytes: Seq<u8>)
    ensures
        forall|i: int|
            0 <= i < percent_encode(bytes).len() ==> is_url_safe_char(#[trigger] percent_encode(bytes)[i]),
    decreases bytes.len(),
{
    if bytes.len() > 0 {
        lemma_percent_encoding_is_url_safe(bytes.drop_last());
        let b = bytes.last();
        let prefix = percent_encode(bytes.drop_last());
        let tail = percent_encode_byte(b);
        assert(forall|i: int| 0 <= i < tail.len() ==> is_url_safe_char(#[trigger] tail[i])) by {
            if !is_unreserved(b) {
                let hi = b as int / 16;
                let lo = b as int % 16;
                assert(0 <= hi < 16 && 0 <= lo < 16);
            }
        }
        assert forall|i: int| 0 <= i < percent_encode(bytes).len() implies is_url_safe_char(
            #[trigger] percent_encode(bytes)[i],
        ) by {
            if i < prefix.len() {
                assert(percent_encode(bytes)[i] == prefix[i]);
            } else {
                assert(percent_encode(bytes)[i] == tail[i - prefix.len()]);
            }
        }
    }
}

/// The value of a hexadecimal digit written as `hex_digit` writes it.
pub open spec fn hex_value(c: char) -> int {
    if '0' <= c <= '9' {
        c as int - 0x30
    } else {
        c as int - 0x41 + 10
    }
}

/// Percent-decoding: `%` followed by two hex digits stands for the byte they
/// spell, and any other character for its own (ASCII) byte.
pub open spec fn percent_decode(text: Seq<char>) -> Seq<u8>
    decreases text.len(),
{
    if text.len() == 0 {
        Seq::empty()
    } else if text[0] == '%' && text.len() >= 3 {
        seq![(hex_value(text[1]) * 16 + hex_value(text[2])) as u8] + percent_decode(text.skip(3))
    } else {
        seq![text[0] as u8] + percent_decode(text.skip(1))
    }
}

proof fn lemma_percent_encode_append(a: Seq<u8>, b: Seq<u8>)
    ensures
        percent_encode(a + b) == percent_encode(a) + percent_encode(b),
    decreases b.len(),
{
    if b.len() == 0 {
        assert(a + b =~= a);
        assert(percent_encode(a) + percent_encode(b) =~= percent_encode(a));
    } else {
        lemma_percent_encode_append(a, b.drop_last());
        assert((a + b).drop_last() =~= a + b.drop_last());
        assert((a + b).last() == b.last());
        assert(percent_encode(a) + percent_encode(b.drop_last()) + percent_encode_byte(b.last())
            =~= percent_encode(a) + (percent_encode(b.drop_last()) + percent_encode_byte(b.last())));
    }
}

proof fn lemma_percent_decode_byte(b: u8, rest: Seq<char>)
    ensures
        percent_decode(percent_encode_byte(b) + rest) == seq![b] + percent_decode(rest),
{
    let text = percent_encode_byte(b) + rest;
    if is_unreserved(b) {
        assert(text[0] == b as char);
        assert(text.skip(1) =~= rest);
    } else {
        let hi = b as int / 16;
        let lo = b as int % 16;
        assert(text[0] == '%');
        assert(text[1] == hex_digit(hi));
        assert(text[2] == hex_digit(lo));
        assert(hex_value(hex_digit(hi)) == hi);
        assert(hex_value(hex_digit(lo)) == lo);
        assert(text.skip(3) =~= rest);
        assert((hi * 16 + lo) as u8 == b);
    }
}

/// Decoding undoes percent-encoding: the encoded text spells every byte back.
pub proof fn lemma_percent_decode_encode(bytes: Seq<u8>)
    ensures
        percent_decode(percent_encode(bytes)) == bytes,
    decreases bytes.len(),
{
    if bytes.len() > 0 {
        let rest = bytes.drop_first();
        lemma_percent_decode_encode(rest);
        assert(seq![bytes[0]] + rest =~= bytes);
        lemma_percent_encode_append(seq![bytes[0]], rest);
        let single = seq![bytes[0]];
        assert(single.drop_last() =~= Seq::<u8>::empty());
        assert(single.last() == bytes[0]);
        assert(percent_encode(single.drop_last()) == Seq::<char>::empty());
        assert(percent_encode(single) == percent_encode(single.drop_last()) + percent_encode_byte(bytes[0]));
        assert(percent_encode(single) =~= percent_encode_byte(bytes[0]));
        lemma_percent_decode_byte(bytes[0], percent_encode(rest));
    }
}

/// The URL form of a column range (what `to_api_string` gives) decodes back
/// to the sheet name, `!`, the start column, `:` and the end column, always
/// all five, whatever the columns are (the same column twice too): percent
/// decoding gives the UTF-8 bytes of that text, and they decode to it.
pub proof fn lemma_api_string_round_trip(sheet_name: Seq<char>, start_col: Seq<char>, end_col: Seq<char>)
    ensures
        decode_utf8(percent_decode(percent_encode(encode_utf8(range_text(sheet_name, start_col, end_col)))))
            == sheet_name + seq!['!'] + start_col + seq![':'] + end_col,
{
    let text = range_text(sheet_name, start_col, end_col);
    lemma_percent_decode_encode(encode_utf8(text));
    encode_utf8_decode_utf8(text);
}

/// Calls `urlencoding::encode`, which percent-encodes every byte of the UTF-8
/// form of `data` except ASCII letters, digits and `-` `.` `_` `~`, writing
/// the hex digits in upper case; the contract states that, byte by byte.
#[verifier::external_body]
fn url_encode(data: &str) -> (encoded: String)
    ensures
        encoded@ == percent_encode(encode_utf8(data@)),
{
    urlencoding::encode(data).into_owned()
}

impl ColumnRange {
    /// Creates a new range for a specific sheet and column span, e.g. sheet
    /// "Sheet1" from column "A" to column "Z".
    pub fn new(sheet_name: &str, start_col: &str, end_col: &str) -> (range: Self)
        ensures
            range.sheet_name@ == sheet_name@,
            range.start_col@ == start_col@,
            range.end_col@ == end_col@,
    {
        Self {
            sheet_name: sheet_name.to_string(),
            start_col: start_col.to_string(),
            end_col: end_col.to_string(),
        }
    }

    /// The range as the Sheets API takes it in a URL: `sheet!start:end`,
    /// percent-encoded so that spaces and other special characters are safe.
    pub fn to_api_string(&self) -> (encoded: String)
        ensures
            encoded@ == percent_encode(
                encode_utf8(range_text(self.sheet_name@, self.start_col@, self.end_col@)),
            ),
    {
        let mut raw = String::new();
        raw.append(self.sheet_name.as_str());
        raw.append("!");
        raw.append(self.start_col.as_str());
        raw.append(":");
        raw.append(self.end_col.as_str());
        proof {
            reveal_strlit("!");
            reveal_strlit(":");
        }
        assert(raw@ =~= range_text(self.sheet_name@, self.start_col@, self.end_col@));
        url_encode(raw.as_str())
    }

    /// Reads a column range from the three command-line values sheet name,
    /// start column and end column; any other number of values is an error.
    pub fn try_from(parameters: &Vec<String>) -> (range: Result<Self, ColumnRangeError>)
        ensures
            parameters@.len() != 3 ==> range == Err::<Self, ColumnRangeError>(
                ColumnRangeError::WrongParameterCount { found: parameters@.len() as usize },
            ),
            parameters@.len() == 3 ==> (range matches Ok(r) && r.sheet_name@ == parameters@[0]@
                && r.start_col@ == parameters@[1]@ && r.end_col@ == parameters@[2]@),
    {
        if parameters.len() != 3 {
            return Err(ColumnRangeError::WrongParameterCount { found: parameters.len() });
        }
        Ok(Self::new(parameters[0].as_str(), parameters[1].as_str(), parameters[2].as_str()))
    }
}

} // verus!
