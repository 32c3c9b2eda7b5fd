//! Events as CSV text: export of the calendar, and import of events into it.
use crate::calendar::CalendarState;
use crate::datetime::{
    datetime_text, field_base, format_datetime, parse_datetime, parsed_datetime, to_the_minute, DateTime,
};
use crate::events::{clock_id, Category, Event};
use crate::sorting::{insert_by_start, lemma_insert_position, lemma_sort_sorted, sort_by_start, sorted_by_start, StartOrdered};
use crate::text::{string_push_str, str_equal};
use vstd::prelude::*;

verus! {

/// Why an export or import failed.
#[derive(Clone, Debug, PartialEq, Eq)]
pub enum CsvError {
    /// The file could not be read or written.
    Io(String),
    /// The CSV text could not be read or written.
    Csv(String),
    /// A value in the CSV text is not what an event needs.
    Parse(String),
}

/// The sentence that describes an error.
pub open spec fn csv_error_text(e: CsvError) -> Seq<char> {
    match e {
        CsvError::Io(s) => "IO error: "@ + s@,
        CsvError::Csv(s) => "CSV error: "@ + s@,
        CsvError::Parse(s) => "Parse error: "@ + s@,
    }
}

impl CsvError {
    /// The error as a sentence, such as `Parse error: Invalid start time: 2024-13-01 10:00`.
    pub fn message(&self) -> (r: String)
        ensures
            r@ == csv_error_text(*self),
    {
        let (prefix, detail) = match self {
            CsvError::Io(s) => ("IO error: ", s),
            CsvError::Csv(s) => ("CSV error: ", s),
            CsvError::Parse(s) => ("Parse error: ", s),
        };
        let mut r = prefix.to_owned();
        string_push_str(&mut r, detail.as_str());
        r
    }
}

/// A csv crate writer into memory. Verus refuses to declare `csv::Writer`, whose parameter is
/// bounded by `std::io::Write`, so the writer is held here, out of Verus's sight.
#[verifier::external_body]
pub struct CsvWriter {
    inner: csv::Writer<Vec<u8>>,
}

/// The records that a CSV writer has written so far, each as its fields.
pub uninterp spec fn csv_rows_written(w: CsvWriter) -> Seq<Seq<Seq<char>>>;

/// A byte that makes the writer quote the field holding it: the delimiter `,`, the quote `"`, or
/// a line break `\r` or `\n`.
pub open spec fn is_special_byte(b: u8) -> bool {
    b == 44 || b == 34 || b == 13 || b == 10
}

/// `bytes` with each quote doubled.
pub open spec fn doubled_quotes(bytes: Seq<u8>) -> Seq<u8>
    decreases bytes.len(),
{
    if bytes.len() == 0 {
        Seq::empty()
    } else {
        (if bytes[0] == 34 { seq![34u8, 34u8] } else { seq![bytes[0]] }) + doubled_quotes(bytes.drop_first())
    }
}

/// A field as the writer writes it: its UTF-8 bytes, put in quotes with its quotes doubled when
/// one of them is special (the default quote style, `QuoteStyle::Necessary`).
pub open spec fn field_bytes(field: Seq<char>) -> Seq<u8> {
    let b = vstd::utf8::encode_utf8(field);
    if exists|i: int| 0 <= i < b.len() && is_special_byte(#[trigger] b[i]) {
        seq![34u8] + doubled_quotes(b) + seq![34u8]
    } else {
        b
    }
}

/// The fields of a record written one after the other, separated by `,`.
pub open spec fn joined_fields(row: Seq<Seq<char>>) -> Seq<u8>
    decreases row.len(),
{
    if row.len() == 0 {
        Seq::empty()
    } else if row.len() == 1 {
        field_bytes(row[0])
    } else {
        joined_fields(row.drop_last()) + seq![44u8] + field_bytes(row.last())
    }
}

/// A record as the writer writes it: its fields, then the terminator `\n`; a record that would
/// have no bytes before the terminator is written as an empty quoted field, `""`.
pub open spec fn record_bytes(row: Seq<Seq<char>>) -> Seq<u8> {
    let j = joined_fields(row);
    (if j.len() == 0 { seq![34u8, 34u8] } else { j }) + seq![10u8]
}

/// The bytes that the csv crate's writer, with its default settings, makes of `rows`: each record
/// as `record_bytes` writes it, in order.
pub open spec fn csv_text(rows: Seq<Seq<Seq<char>>>) -> Seq<u8>
    decreases rows.len(),
{
    if rows.len() == 0 {
        Seq::empty()
    } else {
        csv_text(rows.drop_last()) + record_bytes(rows.last())
    }
}

/// Calls `csv::WriterBuilder::new().has_headers(true).from_writer(Vec::new())`: a writer into
/// memory that has written nothing.
#[verifier::external_body]
fn csv_writer() -> (r: CsvWriter)
    ensures
        csv_rows_written(r) == Seq::<Seq<Seq<char>>>::empty(),
{
    CsvWriter { inner: csv::WriterBuilder::new().has_headers(true).from_writer(Vec::new()) }
}

/// Calls `Writer::write_record`. Writing into memory cannot fail; the one error left,
/// `UnequalLengths`, comes of a record whose number of fields differs from the first record's
/// (and would leave a partial record behind), which `requires` rules out. So the write succeeds,
/// and the writer has written exactly the records it had and this one: no write through this
/// item ever fails, so `csv_rows_written` never has a failed write to account for.
#[verifier::external_body]
fn csv_write_record(w: &mut CsvWriter, fields: &Vec<String>) -> (r: Result<(), String>)
    requires
        csv_rows_written(*old(w)).len() == 0 || csv_rows_written(*old(w))[0].len() == fields@.len(),
    ensures
        r is Ok,
        csv_rows_written(*final(w)) == csv_rows_written(*old(w)).push(fields.deep_view()),
{
    w.inner.write_record(fields).map_err(|e| e.to_string())
}

/// Records that read back as they were written: the header and any number of records, all with
/// as many fields, at least two, and no byte-order mark opening the first field (the reader skips
/// one at the start of the text).
pub open spec fn readable_rows(rows: Seq<Seq<Seq<char>>>) -> bool {
    &&& rows.len() >= 1
    &&& rows[0].len() >= 2
    &&& forall|i: int| 0 <= i < rows.len() ==> (#[trigger] rows[i]).len() == rows[0].len()
    &&& !(rows[0][0].len() > 0 && rows[0][0][0] == '\u{feff}')
}

/// What reading written records back gives: the first as the header, the others as records.
pub open spec fn read_back(rows: Seq<Seq<Seq<char>>>) -> (Result<Seq<Seq<char>>, Seq<char>>, Seq<Result<Seq<Seq<char>>, Seq<char>>>) {
    (Ok(rows[0]), rows.skip(1).map_values(|row: Seq<Seq<char>>| Ok::<Seq<Seq<char>>, Seq<char>>(row)))
}

/// Calls `Writer::into_inner`: flushes the writer into memory, which cannot fail, and hands back
/// the bytes of all the records written (through `csv_write_record`, where no write fails), as
/// `csv_text` states them. Those bytes read back (`csv_read`) as the records when
/// they are `readable_rows`: the writer quotes every field that holds a delimiter, a quote or a
/// line break, doubling its quotes, which the reader with its default settings reads as one field.
#[verifier::external_body]
fn csv_finish(w: CsvWriter) -> (r: Result<Vec<u8>, String>)
    ensures
        r is Ok,
        r.is_ok() ==> r.unwrap()@ == csv_text(csv_rows_written(w)),
        r.is_ok() && readable_rows(csv_rows_written(w)) ==> csv_read(r.unwrap()@) == read_back(csv_rows_written(w)),
{
    w.inner.into_inner().map_err(|e| e.to_string())
}

/// The header row of an export.
pub open spec fn csv_header() -> Seq<Seq<char>> {
    seq!["title"@, "start"@, "end"@, "description"@, "category"@]
}

/// The fields that an event is exported as: title, start, end, description and category name,
/// the last two empty when the event has none.
pub open spec fn csv_row(e: Event) -> Seq<Seq<char>> {
    seq![
        e.title@,
        datetime_text(e.start_time),
        datetime_text(e.end_time),
        match e.description {
            Some(d) => d@,
            None => Seq::empty(),
        },
        match e.category {
            Some(c) => c.name@,
            None => Seq::empty(),
        },
    ]
}

/// The records of an export: the header row, then one row per event, in order.
pub open spec fn csv_table_of(events: Seq<Event>) -> Seq<Seq<Seq<char>>> {
    seq![csv_header()] + events.map_values(|e: Event| csv_row(e))
}

/// Every event's start and end is a moment that exists.
pub open spec fn times_valid(events: Seq<Event>) -> bool {
    forall|i: int| 0 <= i < events.len() ==> (#[trigger] events[i]).start_time.is_valid() && events[i].end_time.is_valid()
}

/// Whether every event starts and ends at a moment that exists, as `export_to_csv` needs.
pub fn times_are_valid(events: &Vec<Event>) -> (r: bool)
    ensures
        r == times_valid(events@),
{
    let mut i: usize = 0;
    while i < events.len()
        invariant
            0 <= i <= events@.len(),
            forall|j: int| 0 <= j < i ==> (#[trigger] events@[j]).start_time.is_valid() && events@[j].end_time.is_valid(),
        decreases events.len() - i,
    {
        if !events[i].start_time.is_valid_moment() || !events[i].end_time.is_valid_moment() {
            return false;
        }
        i = i + 1;
    }
    true
}

fn header_fields() -> (r: Vec<String>)
    ensures
        r.deep_view() == csv_header(),
{
    let mut r: Vec<String> = Vec::new();
    r.push("title".to_owned());
    r.push("start".to_owned());
    r.push("end".to_owned());
    r.push("description".to_owned());
    r.push("category".to_owned());
    assert(r.deep_view() =~= csv_header());
    r
}

/// The moments of `e` read back, to the minute, from the text they are exported as.
pub open spec fn times_read_back(e: Event) -> bool {
    &&& parsed_datetime(datetime_text(e.start_time)) == Some(to_the_minute(e.start_time))
    &&& parsed_datetime(datetime_text(e.end_time)) == Some(to_the_minute(e.end_time))
}

/// `bytes` is what an export of `events` writes, and it reads back: as the export's records, and
/// each event's moments to the minute.
pub open spec fn exported(events: Seq<Event>, bytes: Seq<u8>) -> bool {
    &&& bytes == csv_text(csv_table_of(events))
    &&& csv_read(bytes) == read_back(csv_table_of(events))
    &&& forall|i: int| 0 <= i < events.len() ==> times_read_back(#[trigger] events[i])
}

fn event_fields(e: &Event) -> (r: Vec<String>)
    requires
        e.start_time.is_valid(),
        e.end_time.is_valid(),
    ensures
        r.deep_view() == csv_row(*e),
        times_read_back(*e),
{
    let mut r: Vec<String> = Vec::new();
    r.push(e.title.clone());
    r.push(format_datetime(e.start_time));
    r.push(format_datetime(e.end_time));
    r.push(match &e.description {
        Some(d) => d.clone(),
        None => String::new(),
    });
    r.push(match &e.category {
        Some(c) => c.name.clone(),
        None => String::new(),
    });
    assert(r.deep_view() =~= csv_row(*e));
    r
}

/// The calendar's events as CSV text: a header row, then one row per event.
pub fn export_to_csv(state: &CalendarState) -> (r: Result<Vec<u8>, CsvError>)
    requires
        times_valid(state.events@),
    ensures
        r matches Ok(b) && exported(state.events@, b@),
{
    let mut w = csv_writer();
    let header = header_fields();
    assert(header.deep_view().len() == header@.len());
    if let Err(e) = csv_write_record(&mut w, &header) {
        return Err(CsvError::Csv(e));
    }
    let mut i: usize = 0;
    while i < state.events.len()
        invariant
            0 <= i <= state.events@.len(),
            times_valid(state.events@),
            csv_rows_written(w) == csv_table_of(state.events@.take(i as int)),
            forall|j: int| 0 <= j < i ==> times_read_back(#[trigger] state.events@[j]),
        decreases state.events.len() - i,
    {
        let e = &state.events[i];
        let row = event_fields(e);
        assert(csv_rows_written(w)[0] == csv_header());
        assert(row.deep_view().len() == row@.len());
        if let Err(e) = csv_write_record(&mut w, &row) {
            return Err(CsvError::Csv(e));
        }
        assert(csv_table_of(state.events@.take(i + 1)) =~= csv_table_of(state.events@.take(i as int)).push(csv_row(state.events@[i as int])));
        i = i + 1;
    }
    assert(state.events@.take(i as int) =~= state.events@);
    proof {
        reveal_strlit("title");
        let table = csv_table_of(state.events@);
        assert(table[0] == csv_header());
        assert forall|k: int| 0 <= k < table.len() implies (#[trigger] table[k]).len() == table[0].len() by {
            if k > 0 {
                assert(table[k] == csv_row(state.events@[k - 1]));
            }
        }
        assert(readable_rows(table));
    }
    match csv_finish(w) {
        Ok(b) => Ok(b),
        Err(e) => Err(CsvError::Io(e)),
    }
}

/// What the csv crate reads from `bytes` with a header row: the header's fields or the error in
/// reading it, then, when the header was read, each following record's fields or the error in
/// reading it.
pub uninterp spec fn csv_read(bytes: Seq<u8>) -> (Result<Seq<Seq<char>>, Seq<char>>, Seq<Result<Seq<Seq<char>>, Seq<char>>>);

/// CSV text as read: the header row, then the records, each with the error in reading it in
/// place of its fields where it could not be read.
#[derive(Debug)]
pub struct CsvRead {
    pub headers: Result<Vec<String>, String>,
    pub records: Vec<Result<Vec<String>, String>>,
}

/// The fields of a row, or the error in reading it, as text.
pub open spec fn row_view(r: Result<Vec<String>, String>) -> Result<Seq<Seq<char>>, Seq<char>> {
    match r {
        Ok(v) => Ok(v.deep_view()),
        Err(e) => Err(e@),
    }
}

impl View for CsvRead {
    type V = (Result<Seq<Seq<char>>, Seq<char>>, Seq<Result<Seq<Seq<char>>, Seq<char>>>);

    open spec fn view(&self) -> Self::V {
        (row_view(self.headers), self.records@.map_values(|r: Result<Vec<String>, String>| row_view(r)))
    }
}

/// Reads `bytes` with `csv::ReaderBuilder::new().has_headers(true).from_reader`: the header row
/// through `Reader::headers`, then, when it could be read, every record through
/// `Reader::records`, each field as a string and each error as its message. What comes out is
/// named by `csv_read`.
#[verifier::external_body]
fn read_csv(bytes: &[u8]) -> (r: CsvRead)
    ensures
        r@ == csv_read(bytes@),
{
    let mut reader = csv::ReaderBuilder::new().has_headers(true).from_reader(bytes);
    let headers: Result<Vec<String>, String> = match reader.headers() {
        Ok(h) => Ok(h.iter().map(String::from).collect()),
        Err(e) => Err(e.to_string()),
    };
    let records = match headers {
        Ok(_) => reader.records().map(|r| r.map(|rec| rec.iter().map(String::from).collect()).map_err(|e| e.to_string())).collect(),
        Err(_) => Vec::new(),
    };
    CsvRead { headers, records }
}

/// `i` is the first position in `headers` that holds `name`.
pub open spec fn first_column(headers: Seq<Seq<char>>, name: Seq<char>, i: int) -> bool {
    &&& 0 <= i < headers.len()
    &&& headers[i] == name
    &&& forall|j: int| 0 <= j < i ==> headers[j] != name
}

/// The first position in `headers` that holds `name`, if any.
pub open spec fn column_of(headers: Seq<Seq<char>>, name: Seq<char>) -> Option<int> {
    if exists|i: int| 0 <= i < headers.len() && headers[i] == name {
        Some(choose|i: int| first_column(headers, name, i))
    } else {
        None
    }
}

proof fn lemma_first_column_unique(headers: Seq<Seq<char>>, name: Seq<char>, i: int, j: int)
    requires
        first_column(headers, name, i),
        first_column(headers, name, j),
    ensures
        i == j,
{
}

/// The columns that an import reads.
#[derive(Clone, Copy, Debug, PartialEq, Eq, Structural)]
pub struct CsvColumns {
    pub title: usize,
    pub start: usize,
    pub end: usize,
    pub description: Option<usize>,
    pub category: Option<usize>,
}

/// An optional column position as a `usize`.
pub open spec fn column_index(c: Option<int>) -> Option<usize> {
    match c {
        Some(i) => Some(i as usize),
        None => None,
    }
}

/// The columns of a header row: there are none unless it names `title`, `start` and `end`.
pub open spec fn columns_of(headers: Seq<Seq<char>>) -> Option<CsvColumns> {
    let title = column_of(headers, "title"@);
    let start = column_of(headers, "start"@);
    let end = column_of(headers, "end"@);
    if title is Some && start is Some && end is Some {
        Some(CsvColumns {
            title: title.unwrap() as usize,
            start: start.unwrap() as usize,
            end: end.unwrap() as usize,
            description: column_index(column_of(headers, "description"@)),
            category: column_index(column_of(headers, "category"@)),
        })
    } else {
        None
    }
}

/// The position of the first header equal to `name`.
fn find_column(headers: &Vec<String>, name: &str) -> (r: Option<usize>)
    ensures
        r == column_index(column_of(headers.deep_view(), name@)),
        r matches Some(i) ==> i < headers@.len(),
{
    let ghost hs = headers.deep_view();
    let mut i: usize = 0;
    while i < headers.len()
        invariant
            0 <= i <= headers@.len(),
            hs == headers.deep_view(),
            forall|j: int| 0 <= j < i ==> hs[j] != name@,
        decreases headers.len() - i,
    {
        if str_equal(headers[i].as_str(), name) {
            proof {
                assert(first_column(hs, name@, i as int));
                let c = choose|k: int| first_column(hs, name@, k);
                lemma_first_column_unique(hs, name@, c, i as int);
            }
            return Some(i);
        }
        i = i + 1;
    }
    None
}

/// The columns of a header row, if it names `title`, `start` and `end`.
fn find_columns(headers: &Vec<String>) -> (r: Option<CsvColumns>)
    ensures
        r == columns_of(headers.deep_view()),
{
    let title = find_column(headers, "title");
    let start = find_column(headers, "start");
    let end = find_column(headers, "end");
    match (title, start, end) {
        (Some(title), Some(start), Some(end)) => Some(CsvColumns {
            title,
            start,
            end,
            description: find_column(headers, "description"),
            category: find_column(headers, "category"),
        }),
        _ => None,
    }
}

/// The field of a record at position `i`, empty when the record is shorter.
pub open spec fn field_or_empty(rec: Seq<Seq<char>>, i: usize) -> Seq<char> {
    if i < rec.len() {
        rec[i as int]
    } else {
        Seq::empty()
    }
}

/// The field of a record at an optional position, when there is one and it is not empty.
pub open spec fn nonempty_field(rec: Seq<Seq<char>>, i: Option<usize>) -> Option<Seq<char>> {
    match i {
        Some(k) => if k < rec.len() && rec[k as int].len() > 0 {
            Some(rec[k as int])
        } else {
            None
        },
        None => None,
    }
}

/// Why a record with a title cannot be imported: its start, or else its end, is not a moment
/// written as `%Y-%m-%d %H:%M`.
pub open spec fn record_error(cols: CsvColumns, rec: Seq<Seq<char>>) -> Option<Seq<char>> {
    let start = field_or_empty(rec, cols.start);
    let end = field_or_empty(rec, cols.end);
    if parsed_datetime(start) is None {
        Some("Invalid start time: "@ + start)
    } else if parsed_datetime(end) is None {
        Some("Invalid end time: "@ + end)
    } else {
        None
    }
}

/// A record stops the import: it could not be read, or it has a title and a bad start or end.
pub open spec fn record_fails(cols: CsvColumns, r: Result<Seq<Seq<char>>, Seq<char>>) -> bool {
    match r {
        Ok(rec) => field_or_empty(rec, cols.title).len() > 0 && record_error(cols, rec) is Some,
        Err(_) => true,
    }
}

/// `k` is the first record that stops the import.
pub open spec fn first_failure(cols: CsvColumns, recs: Seq<Result<Seq<Seq<char>>, Seq<char>>>, k: int) -> bool {
    &&& 0 <= k < recs.len()
    &&& record_fails(cols, recs[k])
    &&& forall|j: int| 0 <= j < k ==> !record_fails(cols, #[trigger] recs[j])
}

proof fn lemma_first_failure_unique(cols: CsvColumns, recs: Seq<Result<Seq<Seq<char>>, Seq<char>>>, i: int, j: int)
    requires
        first_failure(cols, recs, i),
        first_failure(cols, recs, j),
    ensures
        i == j,
{
}

/// The records among `recs` that make events: those read, with a title.
pub open spec fn importable(cols: CsvColumns, recs: Seq<Result<Seq<Seq<char>>, Seq<char>>>) -> Seq<Seq<Seq<char>>>
    decreases recs.len(),
{
    if recs.len() == 0 {
        Seq::empty()
    } else {
        let before = importable(cols, recs.drop_last());
        match recs.last() {
            Ok(rec) => if field_or_empty(rec, cols.title).len() > 0 {
                before.push(rec)
            } else {
                before
            },
            Err(_) => before,
        }
    }
}

/// `e` is the event that record `rec` makes: its title, start and end, its description and
/// category when those fields are not empty, nothing else, and a fresh identifier.
pub open spec fn imports_as(cols: CsvColumns, rec: Seq<Seq<char>>, e: Event) -> bool {
    &&& e.title@ == field_or_empty(rec, cols.title)
    &&& parsed_datetime(field_or_empty(rec, cols.start)) == Some(e.start_time)
    &&& parsed_datetime(field_or_empty(rec, cols.end)) == Some(e.end_time)
    &&& match e.description {
        Some(d) => nonempty_field(rec, cols.description) == Some(d@),
        None => nonempty_field(rec, cols.description) is None,
    }
    &&& match e.category {
        Some(c) => nonempty_field(rec, cols.category) == Some(c.name@) && c.color is None,
        None => nonempty_field(rec, cols.category) is None,
    }
    &&& e.location is None
    &&& e.recurring_rules is None
    &&& e.reminders@.len() == 0
    &&& exists|reading: Option<u128>| e.id@ == clock_id(reading)
}

/// The events that `base` becomes when each of `es` is added in turn, each addition keeping the
/// events in stable order of start.
pub open spec fn added_in_order(base: Seq<Event>, es: Seq<Event>) -> Seq<Event>
    decreases es.len(),
{
    if es.len() == 0 {
        base
    } else {
        sort_by_start(added_in_order(base, es.drop_last()).push(es.last()))
    }
}

/// `after` is `base` with the events of the importable records among the first `upto` added in
/// turn.
pub open spec fn imported(base: Seq<Event>, cols: CsvColumns, recs: Seq<Result<Seq<Seq<char>>, Seq<char>>>, upto: int, after: Seq<Event>) -> bool {
    exists|es: Seq<Event>| {
        &&& es.len() == importable(cols, recs.take(upto)).len()
        &&& forall|i: int| 0 <= i < es.len() ==> imports_as(cols, importable(cols, recs.take(upto))[i], #[trigger] es[i])
        &&& after == added_in_order(base, es)
    }
}

proof fn lemma_imported_by(
    base: Seq<Event>,
    cols: CsvColumns,
    recs: Seq<Result<Seq<Seq<char>>, Seq<char>>>,
    upto: int,
    after: Seq<Event>,
    es: Seq<Event>,
)
    requires
        es.len() == importable(cols, recs.take(upto)).len(),
        forall|i: int| 0 <= i < es.len() ==> imports_as(cols, importable(cols, recs.take(upto))[i], #[trigger] es[i]),
        after == added_in_order(base, es),
    ensures
        imported(base, cols, recs, upto, after),
{
}

/// Where the record at `k` is the first that stops the import, the events added for the records
/// before it are what the import leaves, and `k` is the record that the outcome names.
proof fn lemma_stops_at(
    base: Seq<Event>,
    cols: CsvColumns,
    recs: Seq<Result<Seq<Seq<char>>, Seq<char>>>,
    k: int,
    after: Seq<Event>,
    es: Seq<Event>,
)
    requires
        first_failure(cols, recs, k),
        es.len() == importable(cols, recs.take(k)).len(),
        forall|i: int| 0 <= i < es.len() ==> imports_as(cols, importable(cols, recs.take(k))[i], #[trigger] es[i]),
        after == added_in_order(base, es),
    ensures
        exists|c: int| first_failure(cols, recs, c),
        (choose|c: int| first_failure(cols, recs, c)) == k,
        imported(base, cols, recs, k, after),
{
    let c = choose|c: int| first_failure(cols, recs, c);
    lemma_first_failure_unique(cols, recs, c, k);
    lemma_imported_by(base, cols, recs, k, after, es);
}

/// What an import of CSV text read as `read` does to the calendar `before`, and what it returns.
/// An unreadable header, or one without `title`, `start` and `end`, fails and changes nothing.
/// Otherwise the events are first removed when `replace` is set, and the records are taken in
/// order: a record without title is passed over, and the first record that cannot be read or has
/// a bad start or end stops the import with its error, the events of the records before it kept.
/// Without such a record, the import returns how many events it added.
pub open spec fn import_outcome(
    before: CalendarState,
    read: (Result<Seq<Seq<char>>, Seq<char>>, Seq<Result<Seq<Seq<char>>, Seq<char>>>),
    replace: bool,
    after: CalendarState,
    r: Result<usize, CsvError>,
) -> bool {
    &&& after.current_date == before.current_date
    &&& after.view_mode == before.view_mode
    &&& after.selected_event_index == before.selected_event_index
    &&& match read.0 {
        Err(m) => r matches Err(CsvError::Csv(s)) && s@ == m && after.events@ == before.events@,
        Ok(headers) => match columns_of(headers) {
            None => {
                &&& r matches Err(CsvError::Parse(s)) && s@ == "CSV must have headers: title, start, end"@
                &&& after.events@ == before.events@
            },
            Some(cols) => {
                let base = if replace { Seq::empty() } else { before.events@ };
                let recs = read.1;
                if exists|k: int| first_failure(cols, recs, k) {
                    let k = choose|k: int| first_failure(cols, recs, k);
                    &&& imported(base, cols, recs, k, after.events@)
                    &&& match recs[k] {
                        Err(m) => r matches Err(CsvError::Csv(s)) && s@ == m,
                        Ok(rec) => r matches Err(CsvError::Parse(s)) && record_error(cols, rec) == Some(s@),
                    }
                } else {
                    &&& imported(base, cols, recs, recs.len() as int, after.events@)
                    &&& r matches Ok(n) && n == importable(cols, recs).len()
                }
            },
        },
    }
}

/// The field of a record at position `i`, empty when the record is shorter.
fn field_text(rec: &Vec<String>, i: usize) -> (r: String)
    ensures
        r@ == field_or_empty(rec.deep_view(), i),
{
    if i < rec.len() {
        rec[i].clone()
    } else {
        String::new()
    }
}

/// The field of a record at an optional position, when there is one and it is not empty.
fn nonempty_field_text(rec: &Vec<String>, i: Option<usize>) -> (r: Option<String>)
    ensures
        match r {
            Some(s) => nonempty_field(rec.deep_view(), i) == Some(s@),
            None => nonempty_field(rec.deep_view(), i) is None,
        },
{
    match i {
        Some(k) => {
            if k < rec.len() && !rec[k].as_str().is_empty() {
                Some(rec[k].clone())
            } else {
                None
            }
        },
        None => None,
    }
}

/// The text `prefix` followed by `s`.
fn joined(prefix: &str, s: &str) -> (r: String)
    ensures
        r@ == prefix@ + s@,
{
    let mut r = prefix.to_owned();
    string_push_str(&mut r, s);
    r
}

/// Adds to the calendar the events of CSV text already read; see `import_outcome`.
pub fn import_records(state: &mut CalendarState, read: &CsvRead, replace: bool) -> (r: Result<usize, CsvError>)
    ensures
        import_outcome(*old(state), read@, replace, *final(state), r),
{
    let headers = match &read.headers {
        Ok(h) => h,
        Err(m) => {
            return Err(CsvError::Csv(m.clone()));
        },
    };
    let cols = match find_columns(headers) {
        Some(c) => c,
        None => {
            return Err(CsvError::Parse("CSV must have headers: title, start, end".to_owned()));
        },
    };
    let ghost recs = read@.1;
    if replace {
        state.events.clear();
    }
    let ghost base = state.events@;
    assert(base == if replace { Seq::<Event>::empty() } else { old(state).events@ });
    let ghost mut es: Seq<Event> = Seq::empty();
    let mut count: usize = 0;
    let mut k: usize = 0;
    while k < read.records.len()
        invariant
            0 <= k <= read.records@.len(),
            recs == read@.1,
            recs.len() == read.records@.len(),
            read@.0 matches Ok(h) && columns_of(h) == Some(cols),
            base == (if replace { Seq::<Event>::empty() } else { old(state).events@ }),
            count <= k,
            count == es.len(),
            es.len() == importable(cols, recs.take(k as int)).len(),
            forall|i: int| 0 <= i < es.len() ==> imports_as(cols, importable(cols, recs.take(k as int))[i], #[trigger] es[i]),
            state.events@ == added_in_order(base, es),
            forall|j: int| 0 <= j < k ==> !record_fails(cols, #[trigger] recs[j]),
            state.current_date == old(state).current_date,
            state.view_mode == old(state).view_mode,
            state.selected_event_index == old(state).selected_event_index,
        decreases read.records.len() - k,
    {
        let ghost before_es = es;
        assert(recs.take(k + 1).drop_last() =~= recs.take(k as int));
        assert(recs.take(k + 1).last() == recs[k as int]);
        assert(recs[k as int] == row_view(read.records@[k as int]));
        match &read.records[k] {
            Err(m) => {
                proof {
                    lemma_stops_at(base, cols, recs, k as int, state.events@, es);
                }
                return Err(CsvError::Csv(m.clone()));
            },
            Ok(rec) => {
                let title = field_text(rec, cols.title);
                if !title.as_str().is_empty() {
                    let start_text = field_text(rec, cols.start);
                    let end_text = field_text(rec, cols.end);
                    let start = match parse_datetime(start_text.as_str()) {
                        Some(t) => t,
                        None => {
                            proof {
                                lemma_stops_at(base, cols, recs, k as int, state.events@, es);
                            }
                            return Err(CsvError::Parse(joined("Invalid start time: ", start_text.as_str())));
                        },
                    };
                    let end = match parse_datetime(end_text.as_str()) {
                        Some(t) => t,
                        None => {
                            proof {
                                lemma_stops_at(base, cols, recs, k as int, state.events@, es);
                            }
                            return Err(CsvError::Parse(joined("Invalid end time: ", end_text.as_str())));
                        },
                    };
                    let description = nonempty_field_text(rec, cols.description);
                    let category = nonempty_field_text(rec, cols.category);
                    let mut event = Event::new(title, start, end);
                    if let Some(d) = description {
                        event = event.with_description(d);
                    }
                    if let Some(c) = category {
                        event = event.with_category(Category::new(c));
                    }
                    state.add_event(event);
                    proof {
                        es = es.push(event);
                        assert(es.drop_last() =~= before_es);
                    }
                    count = count + 1;
                }
            },
        }
        k = k + 1;
    }
    proof {
        assert(recs.take(k as int) =~= recs);
        if exists|c: int| first_failure(cols, recs, c) {
            let c = choose|c: int| first_failure(cols, recs, c);
            assert(!record_fails(cols, recs[c]));
        }
        lemma_imported_by(base, cols, recs, recs.len() as int, state.events@, es);
    }
    Ok(count)
}

/// Adds to the calendar the events of the CSV text `bytes`, after removing the events it had
/// when `replace` is set; see `import_outcome` for what it does with what the csv crate reads.
pub fn import_from_csv(state: &mut CalendarState, bytes: &[u8], replace: bool) -> (r: Result<usize, CsvError>)
    ensures
        import_outcome(*old(state), csv_read(bytes@), replace, *final(state), r),
{
    let read = read_csv(bytes);
    import_records(state, &read, replace)
}

/// The text of an optional field, when it is not empty.
pub open spec fn nonempty_text(s: Option<String>) -> Option<Seq<char>> {
    match s {
        Some(t) => if t@.len() > 0 {
            Some(t@)
        } else {
            None
        },
        None => None,
    }
}

/// The name of an event's category, when it has one with a name that is not empty.
pub open spec fn category_text(e: Event) -> Option<Seq<char>> {
    match e.category {
        Some(c) => nonempty_text(Some(c.name)),
        None => None,
    }
}

/// `f` is what importing the export of `e` makes of it: the same title, the start and end to the
/// minute, the description and the category (by name, without colour) when they are not empty,
/// and nothing else.
pub open spec fn reads_back_as(e: Event, f: Event) -> bool {
    &&& f.title@ == e.title@
    &&& f.start_time == to_the_minute(e.start_time)
    &&& f.end_time == to_the_minute(e.end_time)
    &&& match f.description {
        Some(d) => nonempty_text(e.description) == Some(d@),
        None => nonempty_text(e.description) is None,
    }
    &&& match f.category {
        Some(c) => category_text(e) == Some(c.name@) && c.color is None,
        None => category_text(e) is None,
    }
    &&& f.location is None
    &&& f.recurring_rules is None
    &&& f.reminders@.len() == 0
}

/// The columns of an export's header row.
pub open spec fn export_columns() -> CsvColumns {
    CsvColumns { title: 0, start: 1, end: 2, description: Some(3), category: Some(4) }
}

/// The records of an export, as read back.
pub open spec fn exported_records(events: Seq<Event>) -> Seq<Result<Seq<Seq<char>>, Seq<char>>> {
    events.map_values(|e: Event| Ok::<Seq<Seq<char>>, Seq<char>>(csv_row(e)))
}

proof fn lemma_export_columns()
    ensures
        columns_of(csv_header()) == Some(export_columns()),
{
    reveal_strlit("title");
    reveal_strlit("start");
    reveal_strlit("end");
    reveal_strlit("description");
    reveal_strlit("category");
    let h = csv_header();
    assert(h[0][0] == 't' && h[1][0] == 's' && h[2][0] == 'e' && h[3][0] == 'd' && h[4][0] == 'c');
    assert(first_column(h, "title"@, 0));
    assert(first_column(h, "start"@, 1));
    assert(first_column(h, "end"@, 2));
    assert(first_column(h, "description"@, 3));
    assert(first_column(h, "category"@, 4));
    let c0 = choose|i: int| first_column(h, "title"@, i);
    lemma_first_column_unique(h, "title"@, c0, 0);
    let c1 = choose|i: int| first_column(h, "start"@, i);
    lemma_first_column_unique(h, "start"@, c1, 1);
    let c2 = choose|i: int| first_column(h, "end"@, i);
    lemma_first_column_unique(h, "end"@, c2, 2);
    let c3 = choose|i: int| first_column(h, "description"@, i);
    lemma_first_column_unique(h, "description"@, c3, 3);
    let c4 = choose|i: int| first_column(h, "category"@, i);
    lemma_first_column_unique(h, "category"@, c4, 4);
}

proof fn lemma_importable_exported(events: Seq<Event>)
    requires
        forall|i: int| 0 <= i < events.len() ==> (#[trigger] events[i]).title@.len() > 0,
    ensures
        importable(export_columns(), exported_records(events)) == events.map_values(|e: Event| csv_row(e)),
    decreases events.len(),
{
    if events.len() > 0 {
        let init = events.drop_last();
        assert forall|i: int| 0 <= i < init.len() implies (#[trigger] init[i]).title@.len() > 0 by {
            assert(init[i] == events[i]);
        }
        lemma_importable_exported(init);
        assert(exported_records(events).drop_last() =~= exported_records(init));
        assert(events.map_values(|e: Event| csv_row(e)) =~= init.map_values(|e: Event| csv_row(e)).push(
            csv_row(events.last()),
        ));
        assert(events.last() == events[events.len() - 1]);
    } else {
        assert(events.map_values(|e: Event| csv_row(e)) =~= Seq::<Seq<Seq<char>>>::empty());
    }
}

/// Dropping the seconds keeps moments in order.
proof fn lemma_to_the_minute_ordered(a: DateTime, b: DateTime)
    requires
        a.sort_key() <= b.sort_key(),
    ensures
        to_the_minute(a).sort_key() <= to_the_minute(b).sort_key(),
{
    let base = field_base();
    let ka = (a.date.sort_key() * base + a.hour as int) * base + a.minute as int;
    let kb = (b.date.sort_key() * base + b.hour as int) * base + b.minute as int;
    assert(ka * base <= kb * base) by (nonlinear_arith)
        requires
            ka * base + a.second <= kb * base + b.second,
            0 <= a.second < base,
            0 <= b.second < base,
            base > 0,
    {
        if ka > kb {
            assert(ka * base >= (kb + 1) * base);
        }
    }
}

proof fn lemma_added_in_order_sorted(es: Seq<Event>)
    requires
        sorted_by_start(es),
    ensures
        added_in_order(Seq::empty(), es) == es,
    decreases es.len(),
{
    if es.len() > 0 {
        let init = es.drop_last();
        assert(sorted_by_start(init));
        lemma_added_in_order_sorted(init);
        assert(init.push(es.last()) =~= es);
        lemma_sort_sorted(es);
    }
}

proof fn lemma_exported_records_import(events: Seq<Event>)
    requires
        forall|i: int| 0 <= i < events.len() ==> times_read_back(#[trigger] events[i]),
        forall|i: int| 0 <= i < events.len() ==> (#[trigger] events[i]).title@.len() > 0,
    ensures
        forall|k: int| 0 <= k < events.len() ==> !record_fails(export_columns(), #[trigger] exported_records(events)[k]),
        !exists|k: int| first_failure(export_columns(), exported_records(events), k),
{
    let cols = export_columns();
    let recs = exported_records(events);
    assert forall|k: int| 0 <= k < events.len() implies !record_fails(cols, #[trigger] recs[k]) by {
        let e = events[k];
        assert(times_read_back(e));
        assert(e.title@.len() > 0);
        assert(recs[k] == Ok::<Seq<Seq<char>>, Seq<char>>(csv_row(e)));
    }
}

proof fn lemma_record_reads_back(e: Event, f: Event)
    requires
        times_read_back(e),
        imports_as(export_columns(), csv_row(e), f),
    ensures
        reads_back_as(e, f),
{
}

proof fn lemma_read_back_of_export(events: Seq<Event>, bytes: Seq<u8>)
    requires
        exported(events, bytes),
    ensures
        csv_read(bytes) == (Ok::<Seq<Seq<char>>, Seq<char>>(csv_header()), exported_records(events)),
{
    let table = csv_table_of(events);
    assert(table[0] == csv_header());
    assert(table.skip(1).map_values(|row: Seq<Seq<char>>| Ok::<Seq<Seq<char>>, Seq<char>>(row))
        =~= exported_records(events));
}

/// The events that an import of an export's records made, one for each record, in order.
proof fn lemma_imported_events(events: Seq<Event>, after: Seq<Event>) -> (es: Seq<Event>)
    requires
        forall|i: int| 0 <= i < events.len() ==> (#[trigger] events[i]).title@.len() > 0,
        imported(
            Seq::empty(),
            export_columns(),
            exported_records(events),
            exported_records(events).len() as int,
            after,
        ),
    ensures
        es.len() == events.len(),
        forall|i: int| 0 <= i < events.len() ==> imports_as(export_columns(), csv_row(events[i]), #[trigger] es[i]),
        after == added_in_order(Seq::empty(), es),
{
    let cols = export_columns();
    let recs = exported_records(events);
    lemma_importable_exported(events);
    assert(recs.take(recs.len() as int) =~= recs);
    let rows = events.map_values(|e: Event| csv_row(e));
    let es = choose|es: Seq<Event>| {
        &&& es.len() == importable(cols, recs.take(recs.len() as int)).len()
        &&& forall|i: int| 0 <= i < es.len() ==> imports_as(cols, importable(cols, recs.take(recs.len() as int))[i], #[trigger] es[i])
        &&& after == added_in_order(Seq::empty(), es)
    };
    assert forall|i: int| 0 <= i < events.len() implies imports_as(cols, csv_row(events[i]), #[trigger] es[i]) by {
        assert(rows[i] == csv_row(events[i]));
    }
    es
}

/// Importing, in place of all events, what an export of events kept in order of start wrote
/// gives them back in the same order, one imported event for each exported one (when each has a
/// title), as `reads_back_as` says, and returns how many there are.
pub proof fn law_import_reads_back_export(
    events: Seq<Event>,
    bytes: Seq<u8>,
    before: CalendarState,
    after: CalendarState,
    r: Result<usize, CsvError>,
)
    requires
        exported(events, bytes),
        sorted_by_start(events),
        forall|i: int| 0 <= i < events.len() ==> (#[trigger] events[i]).title@.len() > 0,
        import_outcome(before, csv_read(bytes), true, after, r),
    ensures
        r matches Ok(n) && n == events.len(),
        after.events@.len() == events.len(),
        forall|i: int| 0 <= i < events.len() ==> reads_back_as(events[i], #[trigger] after.events@[i]),
{
    lemma_read_back_of_export(events, bytes);
    lemma_export_columns();
    lemma_exported_records_import(events);
    lemma_importable_exported(events);
    let es = lemma_imported_events(events, after.events@);
    assert forall|i: int| 0 <= i < events.len() implies reads_back_as(events[i], #[trigger] es[i]) by {
        lemma_record_reads_back(events[i], es[i]);
    }
    assert(sorted_by_start(es)) by {
        assert forall|i: int, j: int| 0 <= i <= j < es.len() implies es[i].start_key() <= es[j].start_key() by {
            assert(reads_back_as(events[i], es[i]));
            assert(reads_back_as(events[j], es[j]));
            lemma_to_the_minute_ordered(events[i].start_time, events[j].start_time);
        }
    }
    lemma_added_in_order_sorted(es);
}


/// The text of an optional string.
pub open spec fn opt_text(o: Option<String>) -> Option<Seq<char>> {
    match o {
        Some(s) => Some(s@),
        None => None,
    }
}

/// What an import puts into an event, apart from its fresh identifier: title, start, end,
/// description and category name.
pub open spec fn event_content(e: Event) -> (Seq<char>, DateTime, DateTime, Option<Seq<char>>, Option<Seq<char>>) {
    (
        e.title@,
        e.start_time,
        e.end_time,
        opt_text(e.description),
        match e.category {
            Some(c) => Some(c.name@),
            None => None,
        },
    )
}

/// The contents of a sequence of events, in order.
pub open spec fn contents(s: Seq<Event>) -> Seq<(Seq<char>, DateTime, DateTime, Option<Seq<char>>, Option<Seq<char>>)> {
    s.map_values(|e: Event| event_content(e))
}

proof fn lemma_contents_concat(a: Seq<Event>, b: Seq<Event>)
    ensures
        contents(a + b).to_multiset() =~= contents(a).to_multiset().add(contents(b).to_multiset()),
{
    assert(contents(a + b) =~= contents(a) + contents(b));
    vstd::seq_lib::lemma_multiset_commutative(contents(a), contents(b));
}

proof fn lemma_insert_contents(t: Seq<Event>, x: Event)
    ensures
        contents(insert_by_start(t, x)).to_multiset() =~= contents(t).to_multiset().insert(event_content(x)),
{
    broadcast use vstd::seq_lib::group_to_multiset_ensures;

    let j = lemma_insert_position(t, x);
    assert(t =~= t.take(j) + t.skip(j));
    lemma_contents_concat(t.take(j), t.skip(j));
    lemma_contents_concat(t.take(j) + seq![x], t.skip(j));
    lemma_contents_concat(t.take(j), seq![x]);
    assert(contents(seq![x]) =~= Seq::empty().push(event_content(x)));
    assert(contents(seq![x]).to_multiset() =~= vstd::multiset::Multiset::empty().insert(event_content(x)));
}

proof fn lemma_sort_contents(s: Seq<Event>)
    ensures
        contents(sort_by_start(s)).to_multiset() =~= contents(s).to_multiset(),
    decreases s.len(),
{
    broadcast use vstd::seq_lib::group_to_multiset_ensures;

    if s.len() > 0 {
        lemma_sort_contents(s.drop_last());
        lemma_insert_contents(sort_by_start(s.drop_last()), s.last());
        assert(contents(s) =~= contents(s.drop_last()).push(event_content(s.last())));
    }
}

proof fn lemma_added_contents(base: Seq<Event>, es: Seq<Event>)
    ensures
        contents(added_in_order(base, es)).to_multiset() =~= contents(base).to_multiset().add(contents(es).to_multiset()),
    decreases es.len(),
{
    broadcast use vstd::seq_lib::group_to_multiset_ensures;

    if es.len() > 0 {
        let prev = added_in_order(base, es.drop_last());
        lemma_added_contents(base, es.drop_last());
        lemma_sort_contents(prev.push(es.last()));
        assert(contents(prev.push(es.last())) =~= contents(prev).push(event_content(es.last())));
        assert(contents(es) =~= contents(es.drop_last()).push(event_content(es.last())));
    }
}

/// Two events imported from the same record hold the same content.
proof fn lemma_imports_same_content(cols: CsvColumns, rec: Seq<Seq<char>>, a: Event, b: Event)
    requires
        imports_as(cols, rec, a),
        imports_as(cols, rec, b),
    ensures
        event_content(a) == event_content(b),
{
}

/// The events that an outcome imported, when the records' columns are `cols`: those added
/// to `base` for the records up to the first that stops the import, or all of them.
proof fn lemma_outcome_imported(
    before: CalendarState,
    read: (Result<Seq<Seq<char>>, Seq<char>>, Seq<Result<Seq<Seq<char>>, Seq<char>>>),
    replace: bool,
    after: CalendarState,
    r: Result<usize, CsvError>,
    cols: CsvColumns,
) -> (es: Seq<Event>)
    requires
        read.0 matches Ok(h) && columns_of(h) == Some(cols),
        import_outcome(before, read, replace, after, r),
    ensures
        ({
            let upto = if exists|k: int| first_failure(cols, read.1, k) {
                choose|k: int| first_failure(cols, read.1, k)
            } else {
                read.1.len() as int
            };
            &&& 0 <= upto <= read.1.len()
            &&& es.len() == importable(cols, read.1.take(upto)).len()
            &&& forall|i: int| 0 <= i < es.len() ==> imports_as(cols, importable(cols, read.1.take(upto))[i], #[trigger] es[i])
            &&& after.events@ == added_in_order(if replace { Seq::empty() } else { before.events@ }, es)
        }),
{
    let recs = read.1;
    let base = if replace { Seq::<Event>::empty() } else { before.events@ };
    let upto = if exists|k: int| first_failure(cols, recs, k) {
        choose|k: int| first_failure(cols, recs, k)
    } else {
        recs.len() as int
    };
    assert(imported(base, cols, recs, upto, after.events@));
    choose|es: Seq<Event>| {
        &&& es.len() == importable(cols, recs.take(upto)).len()
        &&& forall|i: int| 0 <= i < es.len() ==> imports_as(cols, importable(cols, recs.take(upto))[i], #[trigger] es[i])
        &&& after.events@ == added_in_order(base, es)
    }
}

/// Importing without `replace` keeps the calendar's events and adds exactly what importing with
/// `replace` leaves: the same events (identifiers aside) with the same titles, times,
/// descriptions and categories, and the same result.
pub proof fn law_merge_adds_what_replace_leaves(
    before: CalendarState,
    read: (Result<Seq<Seq<char>>, Seq<char>>, Seq<Result<Seq<Seq<char>>, Seq<char>>>),
    merged: CalendarState,
    r_merged: Result<usize, CsvError>,
    replaced: CalendarState,
    r_replaced: Result<usize, CsvError>,
)
    requires
        read.0 matches Ok(h) && columns_of(h) is Some,
        import_outcome(before, read, false, merged, r_merged),
        import_outcome(before, read, true, replaced, r_replaced),
    ensures
        contents(merged.events@).to_multiset() == contents(before.events@).to_multiset().add(contents(replaced.events@).to_multiset()),
        r_merged is Ok <==> r_replaced is Ok,
        r_merged matches Ok(n) ==> (r_replaced matches Ok(m) && m == n),
        r_merged matches Err(e1) ==> (r_replaced matches Err(e2) && csv_error_text(e1) == csv_error_text(e2)),
{
    let cols = match read.0 {
        Ok(h) => columns_of(h).unwrap(),
        Err(_) => arbitrary(),
    };
    let es_m = lemma_outcome_imported(before, read, false, merged, r_merged, cols);
    let es_r = lemma_outcome_imported(before, read, true, replaced, r_replaced, cols);
    assert forall|i: int| 0 <= i < es_m.len() implies contents(es_m)[i] == contents(es_r)[i] by {
        let recs = read.1;
        let upto = if exists|k: int| first_failure(cols, recs, k) {
            choose|k: int| first_failure(cols, recs, k)
        } else {
            recs.len() as int
        };
        lemma_imports_same_content(cols, importable(cols, recs.take(upto))[i], es_m[i], es_r[i]);
    }
    assert(contents(es_m) =~= contents(es_r));
    lemma_added_contents(before.events@, es_m);
    lemma_added_contents(Seq::empty(), es_r);
    assert(contents(Seq::<Event>::empty()) =~= Seq::empty());
    assert(contents(Seq::<Event>::empty()).to_multiset() =~= vstd::multiset::Multiset::empty()) by {
        broadcast use vstd::seq_lib::group_to_multiset_ensures;
        vstd::multiset::lemma_multiset_empty_len(contents(Seq::<Event>::empty()).to_multiset());
    }
}

/// After an import that succeeds, the calendar holds, for each record that makes an event, an
/// event with that record's title, start, end, and non-empty description and category (none
/// where the record leaves them empty or has no such column), whether or not it replaced the
/// events it had.
pub proof fn law_import_carries_record_fields(
    before: CalendarState,
    read: (Result<Seq<Seq<char>>, Seq<char>>, Seq<Result<Seq<Seq<char>>, Seq<char>>>),
    replace: bool,
    after: CalendarState,
    r: Result<usize, CsvError>,
    cols: CsvColumns,
    i: int,
)
    requires
        read.0 matches Ok(h) && columns_of(h) == Some(cols),
        import_outcome(before, read, replace, after, r),
        r is Ok,
        0 <= i < importable(cols, read.1).len(),
    ensures
        ({
            let rec = importable(cols, read.1)[i];
            exists|j: int| 0 <= j < after.events@.len() && {
                let e = #[trigger] after.events@[j];
                &&& e.title@ == field_or_empty(rec, cols.title)
                &&& Some(e.start_time) == parsed_datetime(field_or_empty(rec, cols.start))
                &&& Some(e.end_time) == parsed_datetime(field_or_empty(rec, cols.end))
                &&& opt_text(e.description) == nonempty_field(rec, cols.description)
                &&& e.category matches Some(c) ==> nonempty_field(rec, cols.category) == Some(c.name@)
                &&& e.category is None ==> nonempty_field(rec, cols.category) is None
            }
        }),
{
    broadcast use vstd::seq_lib::group_to_multiset_ensures;

    let recs = read.1;
    let es = lemma_outcome_imported(before, read, replace, after, r, cols);
    if exists|k: int| first_failure(cols, recs, k) {
        let k = choose|k: int| first_failure(cols, recs, k);
        assert(r is Err);
    }
    assert(recs.take(recs.len() as int) =~= recs);
    let rec = importable(cols, recs)[i];
    let base = if replace { Seq::<Event>::empty() } else { before.events@ };
    lemma_added_contents(base, es);
    let c = event_content(es[i]);
    assert(contents(es)[i] == c);
    assert(contents(es).to_multiset().count(c) > 0);
    assert(contents(after.events@).to_multiset().count(c) > 0);
    assert(contents(after.events@).contains(c));
    let j = choose|j: int| 0 <= j < contents(after.events@).len() && contents(after.events@)[j] == c;
    let e = after.events@[j];
    assert(event_content(e) == c);
}

} // verus!
