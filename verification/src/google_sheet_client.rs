use vstd::prelude::*;

use crate::column_range::{percent_encode, range_text, ColumnRange};
use crate::text::{decimal_text, push_decimal};
use crate::json::{entry_keys, find_key, JsonObject, JsonValue};
use vstd::utf8::encode_utf8;

verus! {

// ---------------------------------------------------------------------------
// Turning the `values` of a sheet into header-keyed records
// ---------------------------------------------------------------------------

/// Why the rows of a sheet could not be turned into records.
#[derive(Debug)]
pub enum TransformError {
    /// The `values` of the sheet were not a JSON array.
    NotAnArray,
    /// The sheet had no rows at all, not even a header row.
    NoRows,
    /// The first row was not an array of strings.
    HeadersNotStrings,
    /// The records could not be read as the requested row type.
    RecordsRejected,
}

/// A row that was left out or cut short while the records were built.
#[derive(Debug, Clone, Copy, PartialEq, Eq, Structural)]
pub enum RowWarning {
    /// The row was not a JSON array; it was left out.
    NotAnArray,
    /// The row had more cells than there are headers; the extra cells were dropped.
    ExtraValues { values: usize, headers: usize },
}

/// The records built from a sheet, one per data row that was an array, and
/// the warnings raised on the way, in row order.
#[derive(Debug)]
pub struct SheetRecords {
    pub records: Vec<JsonObject>,
    pub warnings: Vec<RowWarning>,
}

/// The index of the last column whose header is `key`, or -1 if there is none.
pub open spec fn last_column(headers: Seq<Seq<char>>, key: Seq<char>) -> int
    decreases headers.len(),
{
    if headers.len() == 0 {
        -1
    } else if headers.last() == key {
        headers.len() - 1
    } else {
        last_column(headers.drop_last(), key)
    }
}

/// The value that column `column` gives a row with these cells: the cell
/// itself, or an empty string where the row is shorter than the headers.
pub open spec fn is_cell_of(value: JsonValue, cells: Seq<JsonValue>, column: int) -> bool {
    if 0 <= column < cells.len() {
        value == cells[column]
    } else {
        match value {
            JsonValue::Str(s) => s@.len() == 0,
            _ => false,
        }
    }
}

/// `record` is the record of a row with these cells under these headers:
/// one entry per distinct header, holding the cell of the last column with
/// that header.
pub open spec fn is_record_of(record: JsonObject, headers: Seq<Seq<char>>, cells: Seq<JsonValue>) -> bool {
    &&& record.wf()
    &&& record.keys().to_set() == headers.to_set()
    &&& forall|i: int|
        0 <= i < record.entries@.len() ==> is_cell_of(
            #[trigger] record.entries@[i].1,
            cells,
            last_column(headers, record.entries@[i].0@),
        )
}

/// A header row is an array of strings.
pub open spec fn is_header_row(row: JsonValue) -> bool {
    match row {
        JsonValue::Array(items) => forall|i: int| 0 <= i < items@.len() ==> (#[trigger] items@[i]) is Str,
        _ => false,
    }
}

/// The text of a string value (empty for other values).
pub open spec fn text_of(value: JsonValue) -> Seq<char> {
    match value {
        JsonValue::Str(s) => s@,
        _ => Seq::empty(),
    }
}

/// The header names that a header row holds.
pub open spec fn header_names(row: JsonValue) -> Seq<Seq<char>> {
    match row {
        JsonValue::Array(items) => items@.map_values(|v: JsonValue| text_of(v)),
        _ => Seq::empty(),
    }
}

/// The warning that a data row raises, if any.
pub open spec fn row_warning(row: JsonValue, header_count: nat) -> Option<RowWarning> {
    match row {
        JsonValue::Array(cells) => if cells@.len() > header_count {
            Some(RowWarning::ExtraValues { values: cells@.len() as usize, headers: header_count as usize })
        } else {
            None
        },
        _ => Some(RowWarning::NotAnArray),
    }
}

/// The warnings that the data rows raise, in row order.
pub open spec fn row_warnings(rows: Seq<JsonValue>, header_count: nat) -> Seq<RowWarning>
    decreases rows.len(),
{
    if rows.len() == 0 {
        Seq::empty()
    } else {
        row_warnings(rows.drop_last(), header_count) + match row_warning(rows.last(), header_count) {
            Some(w) => seq![w],
            None => Seq::empty(),
        }
    }
}

/// The cells of the data rows that are arrays, in row order.
pub open spec fn array_rows(rows: Seq<JsonValue>) -> Seq<Seq<JsonValue>>
    decreases rows.len(),
{
    if rows.len() == 0 {
        Seq::empty()
    } else {
        array_rows(rows.drop_last()) + match rows.last() {
            JsonValue::Array(cells) => seq![cells@],
            _ => Seq::empty(),
        }
    }
}

/// `out` holds, in order, the record of every data row that is an array, and
/// the warnings that the data rows raise.
pub open spec fn records_of_rows(out: SheetRecords, headers: Seq<Seq<char>>, rows: Seq<JsonValue>) -> bool {
    &&& out.records@.len() == array_rows(rows).len()
    &&& forall|j: int|
        0 <= j < out.records@.len() ==> is_record_of(#[trigger] out.records@[j], headers, array_rows(rows)[j])
    &&& out.warnings@ == row_warnings(rows, headers.len())
}

/// What turning the `values` of a sheet into records gives: an error when
/// they are not an array, have no rows, or the first row is not an array of
/// strings; otherwise the records and warnings of the data rows under the
/// names of the first row (see `records_of_rows`).
pub open spec fn transforms_values(values: JsonValue, result: Result<SheetRecords, TransformError>) -> bool {
    match values {
        JsonValue::Array(rows) => if rows@.len() == 0 {
            result == Err::<SheetRecords, TransformError>(TransformError::NoRows)
        } else if !is_header_row(rows@[0]) {
            result == Err::<SheetRecords, TransformError>(TransformError::HeadersNotStrings)
        } else {
            result matches Ok(out) && records_of_rows(out, header_names(rows@[0]), rows@.drop_first())
        },
        _ => result == Err::<SheetRecords, TransformError>(TransformError::NotAnArray),
    }
}

/// A lookup in the record of a row: the record has a key exactly when some
/// column has it as header, and the value under the key is the row's cell in
/// the last column with that header (an empty string past the end of the row).
pub proof fn lemma_record_lookup(record: JsonObject, headers: Seq<Seq<char>>, cells: Seq<JsonValue>, key: Seq<char>)
    requires
        is_record_of(record, headers, cells),
    ensures
        record.has_key(key) <==> headers.contains(key),
        forall|i: int|
            0 <= i < record.entries@.len() && (#[trigger] record.entries@[i]).0@ == key ==> is_cell_of(
                record.entries@[i].1,
                cells,
                last_column(headers, key),
            ),
{
    assert(record.keys().to_set().contains(key) == record.keys().contains(key));
    assert(headers.to_set().contains(key) == headers.contains(key));
}

proof fn lemma_array_rows_append(a: Seq<JsonValue>, b: Seq<JsonValue>)
    ensures
        array_rows(a + b) == array_rows(a) + array_rows(b),
    decreases b.len(),
{
    if b.len() == 0 {
        assert(a + b =~= a);
        assert(array_rows(a) + array_rows(b) =~= array_rows(a));
    } else {
        lemma_array_rows_append(a, b.drop_last());
        assert((a + b).drop_last() =~= a + b.drop_last());
        assert((a + b).last() == b.last());
        let tail = match b.last() {
            JsonValue::Array(cells) => seq![cells@],
            _ => Seq::empty(),
        };
        assert(array_rows(a) + array_rows(b.drop_last()) + tail =~= array_rows(a) + (array_rows(
            b.drop_last(),
        ) + tail));
    }
}

proof fn lemma_row_warnings_append(a: Seq<JsonValue>, b: Seq<JsonValue>, header_count: nat)
    ensures
        row_warnings(a + b, header_count) == row_warnings(a, header_count) + row_warnings(b, header_count),
    decreases b.len(),
{
    if b.len() == 0 {
        assert(a + b =~= a);
        assert(row_warnings(a, header_count) + row_warnings(b, header_count) =~= row_warnings(
            a,
            header_count,
        ));
    } else {
        lemma_row_warnings_append(a, b.drop_last(), header_count);
        assert((a + b).drop_last() =~= a + b.drop_last());
        assert((a + b).last() == b.last());
        let tail = match row_warning(b.last(), header_count) {
            Some(w) => seq![w],
            None => Seq::empty(),
        };
        assert(row_warnings(a, header_count) + row_warnings(b.drop_last(), header_count) + tail
            =~= row_warnings(a, header_count) + (row_warnings(b.drop_last(), header_count) + tail));
    }
}

/// Adding a data row that is not an array (anywhere after the header row)
/// changes nothing but the warnings, which get one `NotAnArray` more, at the
/// place of that row: both sheets fail alike or both succeed, with records of
/// the same rows under the same headers.
pub proof fn lemma_non_array_row_only_warns(
    rows: Vec<JsonValue>,
    more_rows: Vec<JsonValue>,
    index: int,
    extra: JsonValue,
    result: Result<SheetRecords, TransformError>,
    more_result: Result<SheetRecords, TransformError>,
)
    requires
        1 <= index <= rows@.len(),
        !(extra is Array),
        more_rows@ == rows@.insert(index, extra),
        transforms_values(JsonValue::Array(rows), result),
        transforms_values(JsonValue::Array(more_rows), more_result),
    ensures
        result is Ok <==> more_result is Ok,
        result is Err ==> result == more_result,
        array_rows(more_rows@.drop_first()) == array_rows(rows@.drop_first()),
        match (result, more_result) {
            (Ok(out), Ok(more_out)) => {
                let k = row_warnings(rows@.subrange(1, index), header_names(rows@[0]).len()).len() as int;
                &&& more_out.records@.len() == out.records@.len()
                &&& forall|j: int|
                    0 <= j < more_out.records@.len() ==> is_record_of(
                        #[trigger] more_out.records@[j],
                        header_names(rows@[0]),
                        array_rows(rows@.drop_first())[j],
                    )
                &&& more_out.warnings@ == out.warnings@.take(k) + seq![RowWarning::NotAnArray]
                    + out.warnings@.skip(k)
            },
            _ => true,
        },
{
    let data = rows@.drop_first();
    let more_data = more_rows@.drop_first();
    let before = rows@.subrange(1, index);
    let after = rows@.subrange(index, rows@.len() as int);
    assert(more_rows@[0] == rows@[0]);
    assert(data =~= before + after);
    assert(more_data =~= before + seq![extra] + after);
    let h = header_names(rows@[0]).len();
    lemma_array_rows_append(before, after);
    lemma_array_rows_append(before, seq![extra]);
    lemma_array_rows_append(before + seq![extra], after);
    lemma_row_warnings_append(before, after, h);
    lemma_row_warnings_append(before, seq![extra], h);
    lemma_row_warnings_append(before + seq![extra], after, h);
    let one = seq![extra];
    assert(one.drop_last() =~= Seq::<JsonValue>::empty());
    assert(one.last() == extra);
    assert(array_rows(one.drop_last()) == Seq::<Seq<JsonValue>>::empty());
    assert(row_warnings(one.drop_last(), h) == Seq::<RowWarning>::empty());
    assert(row_warning(extra, h) == Some(RowWarning::NotAnArray));
    assert(array_rows(seq![extra]) =~= Seq::<Seq<JsonValue>>::empty());
    assert(row_warnings(seq![extra], h) =~= seq![RowWarning::NotAnArray]);
    assert(array_rows(before) + Seq::<Seq<JsonValue>>::empty() =~= array_rows(before));
    let wb = row_warnings(before, h);
    let wa = row_warnings(after, h);
    assert((wb + wa).take(wb.len() as int) =~= wb);
    assert((wb + wa).skip(wb.len() as int) =~= wa);
    assert(wb + seq![RowWarning::NotAnArray] + wa =~= (wb + wa).take(wb.len() as int) + seq![
        RowWarning::NotAnArray,
    ] + (wb + wa).skip(wb.len() as int));
}

proof fn lemma_array_rows_positions(rows: Seq<JsonValue>)
    ensures
        array_rows(rows).len() == rows.filter(|r: JsonValue| r is Array).len(),
        forall|k: int|
            #![trigger rows[k]]
            0 <= k < rows.len() ==> match rows[k] {
                JsonValue::Array(cells) => {
                    &&& rows.take(k).filter(|r: JsonValue| r is Array).len() < array_rows(rows).len()
                    &&& array_rows(rows)[rows.take(k).filter(|r: JsonValue| r is Array).len() as int]
                        == cells@
                },
                _ => true,
            },
    decreases rows.len(),
{
    reveal(Seq::filter);
    if rows.len() == 0 {
        assert(rows.filter(|r: JsonValue| r is Array) == rows);
    } else {
        let p = rows.drop_last();
        lemma_array_rows_positions(p);
        let f = rows.filter(|r: JsonValue| r is Array);
        let fp = p.filter(|r: JsonValue| r is Array);
        assert(f == (if rows.last() is Array { fp.push(rows.last()) } else { fp }));
        if rows.last() is Array {
            assert(f == fp.push(rows.last()));
        } else {
            assert(f == fp);
        }
        assert forall|k: int|
            #![trigger rows[k]]
            0 <= k < rows.len() implies match rows[k] {
                JsonValue::Array(cells) => {
                    &&& rows.take(k).filter(|r: JsonValue| r is Array).len() < array_rows(rows).len()
                    &&& array_rows(rows)[rows.take(k).filter(|r: JsonValue| r is Array).len() as int]
                        == cells@
                },
                _ => true,
            } by {
            if k < rows.len() - 1 {
                assert(rows.take(k) =~= p.take(k));
                assert(p[k] == rows[k]);
            } else {
                assert(rows.take(k) =~= p);
            }
        }
    }
}

/// Every data row that is a JSON array becomes a record, however short it is
/// (an empty row too), and no other row does: there are as many records as
/// array rows, in row order, and the record of an array row (at the place
/// given by the number of array rows before it) has exactly the headers as
/// keys, each key once, and under each header the row's cell in the last
/// column with that header, or an empty string past the end of the row.
pub proof fn lemma_every_array_row_becomes_a_record(rows: Vec<JsonValue>, out: SheetRecords)
    requires
        transforms_values(JsonValue::Array(rows), Ok(out)),
    ensures
        rows@.len() > 0,
        out.records@.len() == rows@.drop_first().filter(|r: JsonValue| r is Array).len(),
        forall|k: int|
            #![trigger rows@.drop_first()[k]]
            0 <= k < rows@.drop_first().len() ==> match rows@.drop_first()[k] {
                JsonValue::Array(cells) => {
                    let record = out.records@[rows@.drop_first().take(k).filter(|r: JsonValue| r is Array).len() as int];
                    let headers = header_names(rows@[0]);
                    &&& forall|c: int| 0 <= c < headers.len() ==> record.keys().contains(#[trigger] headers[c])
                    &&& forall|i: int|
                        0 <= i < record.entries@.len() ==> headers.contains(
                            (#[trigger] record.entries@[i]).0@,
                        )
                    &&& record.keys().no_duplicates()
                    &&& forall|i: int, c: int|
                        0 <= i < record.entries@.len() && 0 <= c < headers.len()
                            && #[trigger] headers[c] == (#[trigger] record.entries@[i]).0@ && (forall|d: int|
                            c < d < headers.len() ==> headers[d] != headers[c]) ==> if c < cells@.len() {
                            record.entries@[i].1 == cells@[c]
                        } else {
                            record.entries@[i].1 matches JsonValue::Str(t) && t@.len() == 0
                        }
                },
                _ => true,
            },
{
    let data = rows@.drop_first();
    lemma_array_rows_positions(data);
    let headers = header_names(rows@[0]);
    assert forall|k: int|
        #![trigger rows@.drop_first()[k]]
        0 <= k < rows@.drop_first().len() implies match rows@.drop_first()[k] {
            JsonValue::Array(cells) => {
                let record = out.records@[rows@.drop_first().take(k).filter(|r: JsonValue| r is Array).len() as int];
                &&& forall|c: int| 0 <= c < headers.len() ==> record.keys().contains(#[trigger] headers[c])
                &&& forall|i: int|
                    0 <= i < record.entries@.len() ==> headers.contains((#[trigger] record.entries@[i]).0@)
                &&& record.keys().no_duplicates()
                &&& forall|i: int, c: int|
                    0 <= i < record.entries@.len() && 0 <= c < headers.len() && #[trigger] headers[c]
                        == (#[trigger] record.entries@[i]).0@ && (forall|d: int|
                        c < d < headers.len() ==> headers[d] != headers[c]) ==> if c < cells@.len() {
                        record.entries@[i].1 == cells@[c]
                    } else {
                        record.entries@[i].1 matches JsonValue::Str(t) && t@.len() == 0
                    }
            },
            _ => true,
        } by {
        if let JsonValue::Array(cells) = data[k] {
            let j = data.take(k).filter(|r: JsonValue| r is Array).len() as int;
            let record = out.records@[j];
            assert(is_record_of(record, headers, cells@));
            assert forall|c: int| 0 <= c < headers.len() implies record.keys().contains(#[trigger] headers[c]) by {
                assert(headers.to_set().contains(headers[c]));
                assert(record.keys().to_set().contains(headers[c]));
            }
            assert forall|i: int| 0 <= i < record.entries@.len() implies headers.contains(
                (#[trigger] record.entries@[i]).0@,
            ) by {
                assert(record.keys()[i] == record.entries@[i].0@);
                assert(record.keys().to_set().contains(record.entries@[i].0@));
            }
            assert forall|i: int, c: int|
                0 <= i < record.entries@.len() && 0 <= c < headers.len() && #[trigger] headers[c]
                    == (#[trigger] record.entries@[i]).0@ && (forall|d: int|
                    c < d < headers.len() ==> headers[d] != headers[c]) implies if c < cells@.len() {
                record.entries@[i].1 == cells@[c]
            } else {
                record.entries@[i].1 matches JsonValue::Str(t) && t@.len() == 0
            } by {
                let key = record.entries@[i].0@;
                lemma_last_column(headers, key);
                assert(headers.contains(key));
                let p = last_column(headers, key);
                if p < c {
                    assert(headers[c] == key);
                } else if p > c {
                    assert(headers[p] == key);
                }
                assert(p == c);
            }
        }
    }
}

proof fn lemma_last_column(headers: Seq<Seq<char>>, key: Seq<char>)
    ensures
        -1 <= last_column(headers, key) < headers.len(),
        headers.contains(key) <==> last_column(headers, key) >= 0,
        last_column(headers, key) >= 0 ==> headers[last_column(headers, key)] == key,
        forall|j: int| last_column(headers, key) < j < headers.len() ==> headers[j] != key,
    decreases headers.len(),
{
    if headers.len() > 0 {
        lemma_last_column(headers.drop_last(), key);
        if headers.last() != key {
            if headers.contains(key) {
                let j = choose|j: int| 0 <= j < headers.len() && headers[j] == key;
                assert(headers.drop_last()[j] == key);
            }
            if headers.drop_last().contains(key) {
                let j = choose|j: int| 0 <= j < headers.drop_last().len() && headers.drop_last()[j] == key;
                assert(headers[j] == key);
            }
            assert forall|j: int| last_column(headers, key) < j < headers.len() implies headers[j] != key by {
                if j < headers.len() - 1 {
                    assert(headers.drop_last()[j] == headers[j]);
                }
            }
        } else {
            assert(headers[headers.len() - 1] == key);
        }
    }
}

/// Ensures that the outermost JSON value is an array and hands back its rows.
fn vet_outermost_json(values: JsonValue) -> (rows: Result<Vec<JsonValue>, TransformError>)
    ensures
        match values {
            JsonValue::Array(items) => rows == Ok::<Vec<JsonValue>, TransformError>(items),
            _ => rows == Err::<Vec<JsonValue>, TransformError>(TransformError::NotAnArray),
        },
{
    match values {
        JsonValue::Array(rows) => Ok(rows),
        _ => Err(TransformError::NotAnArray),
    }
}

/// The texts of `items` when every item is a string.
fn texts_of(items: &Vec<JsonValue>) -> (texts: Option<Vec<String>>)
    ensures
        match texts {
            Some(t) => (forall|i: int| 0 <= i < items@.len() ==> (#[trigger] items@[i]) is Str)
                && t@.map_values(|s: String| s@) == items@.map_values(|v: JsonValue| text_of(v)),
            None => !(forall|i: int| 0 <= i < items@.len() ==> (#[trigger] items@[i]) is Str),
        },
{
    let mut texts: Vec<String> = Vec::new();
    for i in 0..items.len()
        invariant
            texts@.len() == i,
            forall|j: int| 0 <= j < i ==> (#[trigger] items@[j]) is Str,
            forall|j: int| 0 <= j < i ==> (#[trigger] texts@[j])@ == text_of(items@[j]),
    {
        match &items[i] {
            JsonValue::Str(s) => {
                texts.push(s.clone());
            },
            _ => {
                return None;
            },
        }
    }
    assert(texts@.map_values(|s: String| s@) =~= items@.map_values(|v: JsonValue| text_of(v)));
    Some(texts)
}

/// Splits off the header row: returns the header names and the data rows.
fn extract_headers_from_rows(rows: Vec<JsonValue>) -> (split: Result<
    (Vec<String>, Vec<JsonValue>),
    TransformError,
>)
    ensures
        rows@.len() == 0 ==> split == Err::<(Vec<String>, Vec<JsonValue>), TransformError>(
            TransformError::NoRows,
        ),
        rows@.len() > 0 && !is_header_row(rows@[0]) ==> split == Err::<
            (Vec<String>, Vec<JsonValue>),
            TransformError,
        >(TransformError::HeadersNotStrings),
        rows@.len() > 0 && is_header_row(rows@[0]) ==> (split matches Ok((headers, data))
            && headers@.map_values(|s: String| s@) == header_names(rows@[0]) && data@
            == rows@.drop_first()),
{
    if rows.len() == 0 {
        return Err(TransformError::NoRows);
    }
    let mut data = rows;
    let first = data.remove(0);
    match first {
        JsonValue::Array(items) => match texts_of(&items) {
            Some(headers) => Ok((headers, data)),
            None => Err(TransformError::HeadersNotStrings),
        },
        _ => Err(TransformError::HeadersNotStrings),
    }
}

/// Vets a data row: an array passes, with the number of empty cells it needs
/// to reach one cell per header; anything else is left out. The warning says
/// when the row was left out or has more cells than there are headers.
fn vet_row(row: JsonValue, header_count: usize) -> (vetted: (Option<(Vec<JsonValue>, usize)>, Option<RowWarning>))
    ensures
        vetted.1 == row_warning(row, header_count as nat),
        match row {
            JsonValue::Array(cells) => vetted.0 == Some(
                (cells, if cells@.len() < header_count { (header_count - cells@.len()) as usize } else { 0usize }),
            ),
            _ => vetted.0 is None,
        },
{
    match row {
        JsonValue::Array(cells) => {
            let row_len = cells.len();
            let warning = if row_len > header_count {
                Some(RowWarning::ExtraValues { values: row_len, headers: header_count })
            } else {
                None
            };
            let padding = header_count.saturating_sub(row_len);
            (Some((cells, padding)), warning)
        },
        _ => (None, Some(RowWarning::NotAnArray)),
    }
}

/// Builds the record of one row: each header is paired with the row's cell in
/// its column (an empty string past the end of the row); cells beyond the
/// last header are dropped, and of two columns with the same header the
/// later one wins.
fn record_from_row(headers: &Vec<String>, cells: Vec<JsonValue>, padding: usize) -> (record: JsonObject)
    requires
        padding == (if cells@.len() < headers@.len() { headers@.len() - cells@.len() } else { 0 }),
    ensures
        is_record_of(record, headers@.map_values(|s: String| s@), cells@),
{
    let ghost names = headers@.map_values(|s: String| s@);
    let ghost original = cells@;
    let h = headers.len();
    let mut cells = cells;
    let mut k: usize = 0;
    while k < padding
        invariant
            k <= padding,
            padding == (if original.len() < h { h - original.len() } else { 0 }),
            cells@.len() == original.len() + k,
            forall|j: int| 0 <= j < cells@.len() ==> is_cell_of(#[trigger] cells@[j], original, j),
        decreases padding - k,
    {
        cells.push(JsonValue::Str(String::new()));
        k = k + 1;
    }
    cells.truncate(h);
    let ghost padded = cells@;
    assert(padded.len() == h);
    let mut entries: Vec<(String, JsonValue)> = Vec::new();
    let mut n: usize = h;
    while n > 0
        invariant
            n <= h,
            h == headers@.len(),
            names == headers@.map_values(|s: String| s@),
            padded.len() == h,
            forall|j: int| 0 <= j < h ==> is_cell_of(#[trigger] padded[j], original, j),
            cells@ == padded.subrange(0, n as int),
            entry_keys(entries@).no_duplicates(),
            entry_keys(entries@).to_set() == names.subrange(n as int, h as int).to_set(),
            forall|i: int|
                0 <= i < entries@.len() ==> is_cell_of(
                    #[trigger] entries@[i].1,
                    original,
                    last_column(names, entries@[i].0@),
                ),
        decreases n,
    {
        let cell = cells.pop().unwrap();
        n = n - 1;
        let ghost key = names[n as int];
        let ghost before = entry_keys(entries@);
        let ghost tail = names.subrange(n + 1, h as int);
        let ghost full = seq![key] + tail;
        proof {
            lemma_last_column(names, key);
            assert(names.subrange(n as int, h as int) =~= full);
            assert(full.to_set() =~= tail.to_set().insert(key)) by {
                assert forall|x: Seq<char>| full.contains(x) <==> tail.to_set().insert(key).contains(x) by {
                    if full.contains(x) && x != key {
                        let j = choose|j: int| 0 <= j < full.len() && #[trigger] full[j] == x;
                        assert(tail[j - 1] == x);
                    }
                    if tail.contains(x) {
                        let j = choose|j: int| 0 <= j < tail.len() && #[trigger] tail[j] == x;
                        assert(full[j + 1] == x);
                    }
                    if x == key {
                        assert(full[0] == x);
                    }
                }
            }
        }
        let existing = find_key(&entries, &headers[n]);
        if existing.is_none() {
            proof {
                assert(!names.subrange(n + 1, h as int).contains(key)) by {
                    if names.subrange(n + 1, h as int).contains(key) {
                        assert(before.to_set().contains(key));
                    }
                }
                assert forall|j: int| n < j < h implies names[j] != key by {
                    assert(names.subrange(n + 1, h as int)[j - n - 1] == names[j]);
                }
                assert(last_column(names, key) == n);
            }
            entries.push((headers[n].clone(), cell));
            proof {
                assert(entry_keys(entries@) =~= before.push(key));
                before.lemma_push_to_set_commute(key);
            }
        } else {
            proof {
                let i = existing.unwrap() as int;
                assert(before[i] == key);
                assert(before.to_set().contains(key));
                assert(tail.to_set().insert(key) =~= tail.to_set());
            }
        }
    }
    assert(names.subrange(0, h as int) =~= names);
    JsonObject { entries }
}

/// Turns the `values` of a sheet into records. The first row names the
/// columns; every later row that is an array becomes a record keyed by those
/// names (see `is_record_of`), and every other row is left out. The warnings
/// list, in row order, the rows that were left out and the rows whose extra
/// cells were dropped.
pub fn rows_to_records(values: JsonValue) -> (result: Result<SheetRecords, TransformError>)
    ensures
        transforms_values(values, result),
{
    let rows = vet_outermost_json(values)?;
    let (headers, data) = extract_headers_from_rows(rows)?;
    let ghost names = headers@.map_values(|s: String| s@);
    let ghost data_rows = data@;
    let header_count = headers.len();
    let mut records: Vec<JsonObject> = Vec::new();
    let mut warnings: Vec<RowWarning> = Vec::new();
    for row in it: data.into_iter()
        invariant
            it.seq() == data_rows,
            header_count == headers@.len(),
            names == headers@.map_values(|s: String| s@),
            records@.len() == array_rows(data_rows.take(it.index() as int)).len(),
            forall|j: int|
                0 <= j < records@.len() ==> is_record_of(
                    #[trigger] records@[j],
                    names,
                    array_rows(data_rows.take(it.index() as int))[j],
                ),
            warnings@ == row_warnings(data_rows.take(it.index() as int), header_count as nat),
    {
        let ghost i = it.index() as int;
        let ghost prev_rows = array_rows(data_rows.take(i));
        assert(data_rows.take(i + 1).drop_last() =~= data_rows.take(i));
        assert(data_rows.take(i + 1).last() == row);
        let (vetted, warning) = vet_row(row, header_count);
        if let Some(w) = warning {
            warnings.push(w);
        }
        if let Some((cells, padding)) = vetted {
            let record = record_from_row(&headers, cells, padding);
            records.push(record);
            assert(array_rows(data_rows.take(i + 1)) =~= prev_rows.push(cells@));
        } else {
            assert(array_rows(data_rows.take(i + 1)) =~= prev_rows);
        }
    }
    assert(data_rows.take(data_rows.len() as int) =~= data_rows);
    Ok(SheetRecords { records, warnings })
}

// ---------------------------------------------------------------------------
// Fetching a sheet
// ---------------------------------------------------------------------------

impl TransformError {
    /// The message that describes the error.
    pub fn message(&self) -> (msg: &'static str)
        ensures
            msg@ == match self {
                TransformError::NotAnArray => "Unexpected Google Sheet format, expected array"@,
                TransformError::NoRows => "No rows found, is the Google Sheet empty?"@,
                TransformError::HeadersNotStrings => "Failed to deserialize headers from fetched Google Sheet"@,
                TransformError::RecordsRejected => "Failed to deserialize Google Sheet rows containing contact information"@,
            },
    {
        match self {
            TransformError::NotAnArray => "Unexpected Google Sheet format, expected array",
            TransformError::NoRows => "No rows found, is the Google Sheet empty?",
            TransformError::HeadersNotStrings => "Failed to deserialize headers from fetched Google Sheet",
            TransformError::RecordsRejected => "Failed to deserialize Google Sheet rows containing contact information",
        }
    }
}

impl RowWarning {
    /// The message that describes the warning.
    pub fn message(&self) -> (msg: String)
        ensures
            msg@ == match self {
                RowWarning::NotAnArray => "Row is not an array, will be ignored."@,
                RowWarning::ExtraValues { values, headers } => "Warning: Row has "@ + decimal_text(
                    *values as nat,
                ) + " values, but only "@ + decimal_text(*headers as nat)
                    + " headers defined. Extra values will be ignored."@,
            },
    {
        let mut msg = String::new();
        match self {
            RowWarning::NotAnArray => {
                msg.append("Row is not an array, will be ignored.");
            },
            RowWarning::ExtraValues { values, headers } => {
                msg.append("Warning: Row has ");
                push_decimal(&mut msg, *values);
                msg.append(" values, but only ");
                push_decimal(&mut msg, *headers);
                msg.append(" headers defined. Extra values will be ignored.");
            },
        }
        msg
    }
}

/// What went wrong while fetching a sheet.
#[derive(Debug)]
pub enum FetchError {
    /// The request could not be sent, or no answer came back.
    SendFailed { spreadsheet_id: String, range: String },
    /// The answer's status was not a success (2xx); `status` is its text, e.g. "500 Internal Server Error".
    UnsuccessfulStatus { status: String, spreadsheet_id: String, range: String },
    /// The answer's body was not JSON.
    InvalidJson { spreadsheet_id: String, range: String },
    /// The answer's JSON had no `values` property.
    NoValuesProperty,
    /// The values could not be turned into rows.
    Deserialize(TransformError),
}

impl FetchError {
    /// The message that describes the error (its outermost context only).
    pub fn message(&self) -> (msg: String)
        ensures
            msg@ == match self {
                FetchError::SendFailed { spreadsheet_id, range } => "Failure sending request to fetch Google Sheet id "@
                    + spreadsheet_id@ + ", range "@ + range@,
                FetchError::UnsuccessfulStatus { status, spreadsheet_id, range } => "Unsuccessful return code "@
                    + status@ + " fetching Google Sheet id "@ + spreadsheet_id@ + ", range "@ + range@,
                FetchError::InvalidJson { spreadsheet_id, range } => "Failed to parse JSON of Google Sheet id "@
                    + spreadsheet_id@ + ", range "@ + range@,
                FetchError::NoValuesProperty => "No values property found in Google Sheet JSON"@,
                FetchError::Deserialize(_) => "Failed to deserialize Google Sheet"@,
            },
    {
        let mut msg = String::new();
        match self {
            FetchError::SendFailed { spreadsheet_id, range } => {
                msg.append("Failure sending request to fetch Google Sheet id ");
                msg.append(spreadsheet_id.as_str());
                msg.append(", range ");
                msg.append(range.as_str());
            },
            FetchError::UnsuccessfulStatus { status, spreadsheet_id, range } => {
                msg.append("Unsuccessful return code ");
                msg.append(status.as_str());
                msg.append(" fetching Google Sheet id ");
                msg.append(spreadsheet_id.as_str());
                msg.append(", range ");
                msg.append(range.as_str());
            },
            FetchError::InvalidJson { spreadsheet_id, range } => {
                msg.append("Failed to parse JSON of Google Sheet id ");
                msg.append(spreadsheet_id.as_str());
                msg.append(", range ");
                msg.append(range.as_str());
            },
            FetchError::NoValuesProperty => {
                msg.append("No values property found in Google Sheet JSON");
            },
            FetchError::Deserialize(_) => {
                msg.append("Failed to deserialize Google Sheet");
            },
        }
        msg
    }

    /// The error beneath this one, if there is one.
    pub fn cause(&self) -> (inner: Option<&TransformError>)
        ensures
            inner == match self {
                FetchError::Deserialize(e) => Some(e),
                _ => None::<&TransformError>,
            },
    {
        match self {
            FetchError::Deserialize(e) => Some(e),
            _ => None,
        }
    }
}

/// A client for interacting with the Google Sheets API: the access token it
/// presents and the base URL of the service.
#[derive(Debug)]
pub struct GoogleSheetClient {
    pub access_token: String,
    pub base_url: String,
}

/// The URL of the values of a range of a spreadsheet.
pub open spec fn values_url(base_url: Seq<char>, spreadsheet_id: Seq<char>, range: Seq<char>) -> Seq<char> {
    base_url + "/v4/spreadsheets/"@ + spreadsheet_id + "/values/"@ + range
}

/// The value of the `values` property of a JSON object, if it has one.
pub open spec fn is_values_property(json: JsonValue, values: JsonValue) -> bool {
    match json {
        JsonValue::Object(o) => exists|i: int|
            0 <= i < o.entries@.len() && (#[trigger] o.entries@[i]).0@ == "values"@ && o.entries@[i].1
                == values,
        _ => false,
    }
}

/// Does the JSON value have a `values` property?
pub open spec fn has_values_property(json: JsonValue) -> bool {
    match json {
        JsonValue::Object(o) => o.has_key("values"@),
        _ => false,
    }
}

/// Takes the `values` property out of the JSON of an answer, if there is one.
fn take_values(json: JsonValue) -> (values: Option<JsonValue>)
    ensures
        values is Some <==> has_values_property(json),
        values matches Some(v) ==> is_values_property(json, v),
{
    match json {
        JsonValue::Object(object) => {
            let key = "values".to_string();
            match find_key(&object.entries, &key) {
                Some(i) => {
                    let mut entries = object.entries;
                    let ghost before = entries@;
                    assert(object.keys()[i as int] == key@);
                    let (_, v) = entries.remove(i);
                    assert(before[i as int].1 == v);
                    assert((#[trigger] before[i as int]).0@ == "values"@);
                    Some(v)
                },
                None => None,
            }
        },
        _ => None,
    }
}

/// Where a fetch stands.
#[derive(Debug, Clone, Copy, PartialEq, Eq, Structural)]
pub enum FetchStage {
    /// Nothing has happened yet.
    Start,
    /// The request is out; the answer is awaited.
    AwaitingResponse,
    /// The answer succeeded; its JSON body is awaited.
    AwaitingBody,
    /// The records are out; whether they read as rows is awaited.
    AwaitingRows,
    /// The fetch is over.
    Finished,
}

/// What the outside world reports to a fetch.
#[derive(Debug)]
pub enum FetchEvent {
    /// Start the fetch.
    Begin,
    /// The request could not be sent.
    SendFailed,
    /// An answer came back with this status code and status text.
    Responded { status: u16, status_text: String },
    /// The answer's body was not JSON.
    BodyNotJson,
    /// The answer's body, read as JSON.
    BodyParsed(JsonValue),
    /// The records were read as rows.
    RowsRead,
    /// The records could not be read as rows.
    RowsRejected,
}

/// What a fetch asks the outside world to do next.
#[derive(Debug)]
pub enum FetchAction {
    /// Send a GET request to `url` with these `Authorization` and `Content-Type` headers.
    SendRequest { url: String, authorization: String, content_type: String },
    /// Read the answer's body as JSON.
    ReadJsonBody,
    /// Read these records as rows (and report the warnings).
    ReadRows(SheetRecords),
    /// The fetch is over, with this outcome.
    Finish(Result<(), FetchError>),
}

/// One fetch of the values of a range of a spreadsheet, driven event by event.
#[derive(Debug)]
pub struct SheetFetch {
    pub spreadsheet_id: String,
    /// The range as it stands in the URL (already encoded).
    pub range: String,
    pub stage: FetchStage,
}

impl SheetFetch {
    /// Does the fetch, at its stage, expect this event?
    pub open spec fn expects(self, event: FetchEvent) -> bool {
        match event {
            FetchEvent::Begin => self.stage == FetchStage::Start,
            FetchEvent::SendFailed | FetchEvent::Responded { .. } => self.stage == FetchStage::AwaitingResponse,
            FetchEvent::BodyNotJson | FetchEvent::BodyParsed(_) => self.stage == FetchStage::AwaitingBody,
            FetchEvent::RowsRead | FetchEvent::RowsRejected => self.stage == FetchStage::AwaitingRows,
        }
    }

    /// Does the fetch, at its stage, expect this event?
    pub fn expects_event(&self, event: &FetchEvent) -> (b: bool)
        ensures
            b == self.expects(*event),
    {
        match event {
            FetchEvent::Begin => self.stage == FetchStage::Start,
            FetchEvent::SendFailed | FetchEvent::Responded { .. } => self.stage == FetchStage::AwaitingResponse,
            FetchEvent::BodyNotJson | FetchEvent::BodyParsed(_) => self.stage == FetchStage::AwaitingBody,
            FetchEvent::RowsRead | FetchEvent::RowsRejected => self.stage == FetchStage::AwaitingRows,
        }
    }

    /// The next stage and action of a fetch on an event that it expects. The
    /// request goes to the values URL of the spreadsheet and range with the
    /// client's token as a bearer token; a failed send, a status outside
    /// 200..=299, a body that is not JSON or has no `values` property ends the
    /// fetch with that error; otherwise the values are turned into records
    /// (an error there ends the fetch too), the records are handed out, and
    /// the fetch ends with whether they could be read as rows.
    pub open spec fn steps_to(
        self,
        client: GoogleSheetClient,
        event: FetchEvent,
        next: FetchStage,
        action: FetchAction,
    ) -> bool {
        match event {
            FetchEvent::Begin => next == FetchStage::AwaitingResponse && (action matches FetchAction::SendRequest {
                url,
                authorization,
                content_type,
            } && url@ == values_url(client.base_url@, self.spreadsheet_id@, self.range@)
                && authorization@ == "Bearer "@ + client.access_token@ && content_type@
                == "application/json"@),
            FetchEvent::SendFailed => next == FetchStage::Finished && action == FetchAction::Finish(
                Err(FetchError::SendFailed { spreadsheet_id: self.spreadsheet_id, range: self.range }),
            ),
            FetchEvent::Responded { status, status_text } => if 200 <= status <= 299 {
                next == FetchStage::AwaitingBody && action == FetchAction::ReadJsonBody
            } else {
                next == FetchStage::Finished && action == FetchAction::Finish(
                    Err(
                        FetchError::UnsuccessfulStatus {
                            status: status_text,
                            spreadsheet_id: self.spreadsheet_id,
                            range: self.range,
                        },
                    ),
                )
            },
            FetchEvent::BodyNotJson => next == FetchStage::Finished && action == FetchAction::Finish(
                Err(FetchError::InvalidJson { spreadsheet_id: self.spreadsheet_id, range: self.range }),
            ),
            FetchEvent::BodyParsed(json) => if !has_values_property(json) {
                next == FetchStage::Finished && action == FetchAction::Finish(
                    Err(FetchError::NoValuesProperty),
                )
            } else {
                exists|values: JsonValue, result: Result<SheetRecords, TransformError>|
                    #![trigger is_values_property(json, values), transforms_values(values, result)]
                    is_values_property(json, values) && transforms_values(values, result) && match result {
                        Ok(out) => next == FetchStage::AwaitingRows && action == FetchAction::ReadRows(out),
                        Err(e) => next == FetchStage::Finished && action == FetchAction::Finish(
                            Err(FetchError::Deserialize(e)),
                        ),
                    }
            },
            FetchEvent::RowsRead => next == FetchStage::Finished && action == FetchAction::Finish(Ok(())),
            FetchEvent::RowsRejected => next == FetchStage::Finished && action == FetchAction::Finish(
                Err(FetchError::Deserialize(TransformError::RecordsRejected)),
            ),
        }
    }

    /// Advances the fetch on an event that it expects (see `steps_to`).
    pub fn step(&mut self, client: &GoogleSheetClient, event: FetchEvent) -> (action: FetchAction)
        requires
            old(self).expects(event),
        ensures
            final(self).spreadsheet_id == old(self).spreadsheet_id,
            final(self).range == old(self).range,
            old(self).steps_to(*client, event, final(self).stage, action),
    {
        match event {
            FetchEvent::Begin => {
                self.stage = FetchStage::AwaitingResponse;
                let mut url = String::new();
                url.append(client.base_url.as_str());
                url.append("/v4/spreadsheets/");
                url.append(self.spreadsheet_id.as_str());
                url.append("/values/");
                url.append(self.range.as_str());
                let mut authorization = String::new();
                authorization.append("Bearer ");
                authorization.append(client.access_token.as_str());
                let content_type = "application/json".to_string();
                FetchAction::SendRequest { url, authorization, content_type }
            },
            FetchEvent::SendFailed => {
                self.stage = FetchStage::Finished;
                FetchAction::Finish(
                    Err(
                        FetchError::SendFailed {
                            spreadsheet_id: self.spreadsheet_id.clone(),
                            range: self.range.clone(),
                        },
                    ),
                )
            },
            FetchEvent::Responded { status, status_text } => {
                if 200 <= status && status <= 299 {
                    self.stage = FetchStage::AwaitingBody;
                    FetchAction::ReadJsonBody
                } else {
                    self.stage = FetchStage::Finished;
                    FetchAction::Finish(
                        Err(
                            FetchError::UnsuccessfulStatus {
                                status: status_text,
                                spreadsheet_id: self.spreadsheet_id.clone(),
                                range: self.range.clone(),
                            },
                        ),
                    )
                }
            },
            FetchEvent::BodyNotJson => {
                self.stage = FetchStage::Finished;
                FetchAction::Finish(
                    Err(
                        FetchError::InvalidJson {
                            spreadsheet_id: self.spreadsheet_id.clone(),
                            range: self.range.clone(),
                        },
                    ),
                )
            },
            FetchEvent::BodyParsed(json) => {
                let ghost json_in = json;
                match take_values(json) {
                    None => {
                        self.stage = FetchStage::Finished;
                        FetchAction::Finish(Err(FetchError::NoValuesProperty))
                    },
                    Some(values) => {
                        let ghost values_in = values;
                        let result = rows_to_records(values);
                        let ghost result_in = result;
                        let action = match result {
                            Ok(out) => {
                                self.stage = FetchStage::AwaitingRows;
                                FetchAction::ReadRows(out)
                            },
                            Err(e) => {
                                self.stage = FetchStage::Finished;
                                FetchAction::Finish(Err(FetchError::Deserialize(e)))
                            },
                        };
                        assert(is_values_property(json_in, values_in) && transforms_values(values_in, result_in));
                        action
                    },
                }
            },
            FetchEvent::RowsRead => {
                self.stage = FetchStage::Finished;
                FetchAction::Finish(Ok(()))
            },
            FetchEvent::RowsRejected => {
                self.stage = FetchStage::Finished;
                FetchAction::Finish(Err(FetchError::Deserialize(TransformError::RecordsRejected)))
            },
        }
    }
}

/// The position of a stage in the course of a fetch.
pub open spec fn stage_rank(stage: FetchStage) -> nat {
    match stage {
        FetchStage::Start => 0,
        FetchStage::AwaitingResponse => 1,
        FetchStage::AwaitingBody => 2,
        FetchStage::AwaitingRows => 3,
        FetchStage::Finished => 4,
    }
}

/// Every step of a fetch moves it to a later stage, so a fetch is over after
/// at most four events and a finished fetch expects none; a step finishes the
/// fetch exactly when it reports the fetch's outcome.
pub proof fn lemma_fetch_advances(
    fetch: SheetFetch,
    client: GoogleSheetClient,
    event: FetchEvent,
    next: FetchStage,
    action: FetchAction,
)
    requires
        fetch.expects(event),
        fetch.steps_to(client, event, next, action),
    ensures
        fetch.stage != FetchStage::Finished,
        stage_rank(next) > stage_rank(fetch.stage),
        next == FetchStage::Finished <==> action is Finish,
{
    if let FetchEvent::BodyParsed(json) = event {
        if has_values_property(json) {
            let (values, result) = choose|values: JsonValue, result: Result<SheetRecords, TransformError>|
                #![trigger is_values_property(json, values), transforms_values(values, result)]
                is_values_property(json, values) && transforms_values(values, result) && match result {
                    Ok(out) => next == FetchStage::AwaitingRows && action == FetchAction::ReadRows(out),
                    Err(e) => next == FetchStage::Finished && action == FetchAction::Finish(
                        Err(FetchError::Deserialize(e)),
                    ),
                };
        }
    }
}

/// Each step leaves the fetch expecting exactly the answers to what it asks
/// for: a new fetch expects `Begin`; after a request it expects a failed send
/// or an answer; after asking for the body, a body that is JSON or not; after
/// handing out records, that they were read or rejected; and after the
/// outcome, nothing more.
pub proof fn lemma_fetch_expects_the_answers(
    fetch: SheetFetch,
    client: GoogleSheetClient,
    event: FetchEvent,
    next: FetchStage,
    action: FetchAction,
)
    requires
        fetch.expects(event),
        fetch.steps_to(client, event, next, action),
    ensures
        (SheetFetch { spreadsheet_id: fetch.spreadsheet_id, range: fetch.range, stage: FetchStage::Start }).expects(
            FetchEvent::Begin,
        ),
        ({
            let after = SheetFetch { spreadsheet_id: fetch.spreadsheet_id, range: fetch.range, stage: next };
            &&& action is SendRequest ==> forall|e: FetchEvent|
                (e is SendFailed || e is Responded) ==> #[trigger] after.expects(e)
            &&& action is ReadJsonBody ==> forall|e: FetchEvent|
                (e is BodyNotJson || e is BodyParsed) ==> #[trigger] after.expects(e)
            &&& action is ReadRows ==> forall|e: FetchEvent|
                (e is RowsRead || e is RowsRejected) ==> #[trigger] after.expects(e)
            &&& action is Finish ==> forall|e: FetchEvent| !#[trigger] after.expects(e)
            &&& forall|e: FetchEvent|
                #[trigger] after.expects(e) ==> (e is SendFailed || e is Responded) && action is SendRequest
                    || (e is BodyNotJson || e is BodyParsed) && action is ReadJsonBody
                    || (e is RowsRead || e is RowsRejected) && action is ReadRows
        }),
{
    lemma_fetch_advances(fetch, client, event, next, action);
    if let FetchEvent::BodyParsed(json) = event {
        if has_values_property(json) {
            let (values, result) = choose|values: JsonValue, result: Result<SheetRecords, TransformError>|
                #![trigger is_values_property(json, values), transforms_values(values, result)]
                is_values_property(json, values) && transforms_values(values, result) && match result {
                    Ok(out) => next == FetchStage::AwaitingRows && action == FetchAction::ReadRows(out),
                    Err(e) => next == FetchStage::Finished && action == FetchAction::Finish(
                        Err(FetchError::Deserialize(e)),
                    ),
                };
        }
    }
}

/// Warnings never end a fetch: when the `values` of a JSON body (an object
/// with each key once) turn into records, the step on that body hands out
/// records, as many and with the same warnings, and waits for them to be read.
pub proof fn lemma_records_are_handed_out(
    fetch: SheetFetch,
    client: GoogleSheetClient,
    json: JsonValue,
    values: JsonValue,
    out: SheetRecords,
    next: FetchStage,
    action: FetchAction,
)
    requires
        fetch.stage == FetchStage::AwaitingBody,
        json matches JsonValue::Object(object) && object.wf(),
        is_values_property(json, values),
        transforms_values(values, Ok(out)),
        fetch.steps_to(client, FetchEvent::BodyParsed(json), next, action),
    ensures
        next == FetchStage::AwaitingRows,
        action matches FetchAction::ReadRows(handed) && handed.warnings@ == out.warnings@
            && handed.records@.len() == out.records@.len(),
{
    if let JsonValue::Object(object) = json {
        let i = choose|i: int|
            0 <= i < object.entries@.len() && (#[trigger] object.entries@[i]).0@ == "values"@
                && object.entries@[i].1 == values;
        assert(object.keys()[i] == "values"@);
        assert(has_values_property(json));
        let (v2, result) = choose|values: JsonValue, result: Result<SheetRecords, TransformError>|
            #![trigger is_values_property(json, values), transforms_values(values, result)]
            is_values_property(json, values) && transforms_values(values, result) && match result {
                Ok(o) => next == FetchStage::AwaitingRows && action == FetchAction::ReadRows(o),
                Err(e) => next == FetchStage::Finished && action == FetchAction::Finish(
                    Err(FetchError::Deserialize(e)),
                ),
            };
        let i2 = choose|i2: int|
            0 <= i2 < object.entries@.len() && (#[trigger] object.entries@[i2]).0@ == "values"@
                && object.entries@[i2].1 == v2;
        assert(object.keys()[i2] == "values"@);
        assert(i == i2);
        assert(v2 == values);
    }
}

impl GoogleSheetClient {
    /// Creates a client that presents `access_token`; the service is at
    /// `base_url`, or at "https://sheets.googleapis.com" when none is given.
    pub fn new(access_token: String, base_url: Option<&str>) -> (client: Self)
        ensures
            client.access_token == access_token,
            client.base_url@ == match base_url {
                Some(url) => url@,
                None => "https://sheets.googleapis.com"@,
            },
    {
        let base_url = match base_url {
            Some(url) => url.to_string(),
            None => "https://sheets.googleapis.com".to_string(),
        };
        GoogleSheetClient { access_token, base_url }
    }

    /// Starts a fetch of the rows of `range` in the spreadsheet
    /// `spreadsheet_id`; the range goes into the URL encoded.
    pub fn begin_fetch(&self, spreadsheet_id: &str, range: &ColumnRange) -> (fetch: SheetFetch)
        ensures
            fetch.spreadsheet_id@ == spreadsheet_id@,
            fetch.range@ == percent_encode(
                encode_utf8(range_text(range.sheet_name@, range.start_col@, range.end_col@)),
            ),
            fetch.stage == FetchStage::Start,
    {
        SheetFetch {
            spreadsheet_id: spreadsheet_id.to_string(),
            range: range.to_api_string(),
            stage: FetchStage::Start,
        }
    }
}

} // verus!
