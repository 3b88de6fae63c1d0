//! Output rendering: the reconstructed sequence as a CSV document.
//!
//! The rows are made here, field by field; how a row becomes bytes
//! (separators, quoting, line ends) is left to the `csv` crate.

use crate::reconstruct::{action_label, records, EventRecord, ReconstructedEvent};
use crate::text::{decimal, decimal_string, texts};
use vstd::prelude::*;
use vstd::string::*;

verus! {

/// The bytes of one CSV record with these fields, as a `csv` writer with
/// default settings writes it first into an empty output.
pub uninterp spec fn csv_record_bytes(fields: Seq<Seq<char>>) -> Seq<u8>;

/// The column titles.
pub open spec fn title_row() -> Seq<Seq<char>> {
    seq!["EventID"@, "Timestamp(us)"@, "KeyCode"@, "KeyName"@, "Action"@, "Interval(us)"@]
}

/// The names of the fields, which follow the titles wherever there is an event.
pub open spec fn field_name_row() -> Seq<Seq<char>> {
    seq!["event_id"@, "timestamp_us"@, "key_code"@, "key_name"@, "action"@, "interval_us"@]
}

/// The fields of one event, in their fixed order: position, timestamp, key
/// code, key name, direction, interval. Numbers are written in decimal.
pub open spec fn event_row(event: EventRecord) -> Seq<Seq<char>> {
    seq![
        decimal(event.sequence_id as nat),
        decimal(event.timestamp_us as nat),
        decimal(event.key_id as nat),
        event.key_name,
        action_label(event.action),
        decimal(event.interval_us as nat),
    ]
}

/// The rows of the document: the titles, then, where there is an event, the
/// field names and one row for each event.
pub open spec fn document_rows(events: Seq<EventRecord>) -> Seq<Seq<Seq<char>>> {
    if events.len() == 0 {
        seq![title_row()]
    } else {
        seq![title_row(), field_name_row()].add(events.map_values(|event: EventRecord| event_row(event)))
    }
}

/// The lines one after the other.
pub open spec fn concatenation(lines: Seq<Seq<u8>>) -> Seq<u8>
    decreases lines.len(),
{
    if lines.len() == 0 {
        Seq::empty()
    } else {
        concatenation(lines.drop_last()).add(lines.last())
    }
}

/// The document: every row as a CSV record, one after the other.
pub open spec fn csv_document(events: Seq<EventRecord>) -> Seq<u8> {
    concatenation(document_rows(events).map_values(|row: Seq<Seq<char>>| csv_record_bytes(row)))
}

/// The rows of strings as rows of texts.
pub open spec fn row_texts(rows: Seq<Vec<String>>) -> Seq<Seq<Seq<char>>> {
    rows.map_values(|row: Vec<String>| texts(row@))
}

/// The vectors of bytes as sequences.
pub open spec fn line_views(lines: Seq<Vec<u8>>) -> Seq<Seq<u8>> {
    lines.map_values(|line: Vec<u8>| line@)
}

/// `csv::Writer::write_record`, on a new writer with default settings whose
/// output is an empty vector: the bytes that the writer puts out for one
/// record with the given fields. They depend on the fields alone.
#[verifier::external_body]
fn encode_record(fields: &Vec<String>) -> (bytes: Vec<u8>)
    ensures
        bytes@ == csv_record_bytes(texts(fields@)),
{
    let mut writer = csv::Writer::from_writer(Vec::new());
    let _ = writer.write_record(fields);
    writer.into_inner().unwrap_or_default()
}

fn row_of_literals(
    first: &str,
    second: &str,
    third: &str,
    fourth: &str,
    fifth: &str,
    sixth: &str,
) -> (row: Vec<String>)
    ensures
        texts(row@) == seq![first@, second@, third@, fourth@, fifth@, sixth@],
{
    let mut row: Vec<String> = Vec::new();
    row.push(String::from_str(first));
    row.push(String::from_str(second));
    row.push(String::from_str(third));
    row.push(String::from_str(fourth));
    row.push(String::from_str(fifth));
    row.push(String::from_str(sixth));
    assert(texts(row@) =~= seq![first@, second@, third@, fourth@, fifth@, sixth@]);
    row
}

/// The fields of one event, in their fixed order.
pub fn event_fields(event: &ReconstructedEvent) -> (fields: Vec<String>)
    ensures
        texts(fields@) == event_row(event@),
{
    let mut fields: Vec<String> = Vec::new();
    fields.push(decimal_string(event.sequence_id));
    fields.push(decimal_string(event.timestamp_us));
    fields.push(decimal_string(event.key_id as u64));
    fields.push(event.key_name.clone());
    fields.push(String::from_str(event.action.label()));
    fields.push(decimal_string(event.interval_us));
    assert(texts(fields@) =~= event_row(event@));
    fields
}

/// The rows of the document for these events.
pub fn rows_of(events: &Vec<ReconstructedEvent>) -> (rows: Vec<Vec<String>>)
    ensures
        row_texts(rows@) == document_rows(records(events@)),
{
    let ghost all = records(events@);
    let mut rows: Vec<Vec<String>> = Vec::new();
    rows.push(
        row_of_literals(
            "EventID",
            "Timestamp(us)",
            "KeyCode",
            "KeyName",
            "Action",
            "Interval(us)",
        ),
    );
    if events.len() == 0 {
        assert(row_texts(rows@) =~= document_rows(all));
        return rows;
    }
    rows.push(
        row_of_literals("event_id", "timestamp_us", "key_code", "key_name", "action", "interval_us"),
    );
    let mut index: usize = 0;
    while index < events.len()
        invariant
            all == records(events@),
            index <= events.len(),
            rows@.len() == index + 2,
            row_texts(rows@) == seq![title_row(), field_name_row()].add(
                all.take(index as int).map_values(|event: EventRecord| event_row(event)),
            ),
        decreases events.len() - index,
    {
        let ghost before = row_texts(rows@);
        let fields = event_fields(&events[index]);
        rows.push(fields);
        assert(row_texts(rows@) =~= seq![title_row(), field_name_row()].add(
            all.take(index + 1).map_values(|event: EventRecord| event_row(event)),
        )) by {
            assert(all[index as int] == events@[index as int]@);
            assert(row_texts(rows@) =~= before.push(event_row(all[index as int])));
        }
        index = index + 1;
    }
    assert(all.take(index as int) =~= all);
    rows
}

/// Joins the lines into one vector of bytes.
pub fn concat_lines(lines: &Vec<Vec<u8>>) -> (bytes: Vec<u8>)
    ensures
        bytes@ == concatenation(line_views(lines@)),
{
    let ghost all = line_views(lines@);
    let mut bytes: Vec<u8> = Vec::new();
    let mut index: usize = 0;
    assert(all.take(0) =~= Seq::<Seq<u8>>::empty());
    while index < lines.len()
        invariant
            all == line_views(lines@),
            index <= lines.len(),
            bytes@ == concatenation(all.take(index as int)),
        decreases lines.len() - index,
    {
        proof {
            assert(all.take(index + 1).drop_last() =~= all.take(index as int));
            assert(all.take(index + 1).last() == lines@[index as int]@);
        }
        let line = &lines[index];
        let mut at: usize = 0;
        let ghost start = bytes@;
        while at < line.len()
            invariant
                at <= line.len(),
                bytes@ == start.add(line@.take(at as int)),
            decreases line.len() - at,
        {
            bytes.push(line[at]);
            assert(bytes@ =~= start.add(line@.take(at + 1)));
            at = at + 1;
        }
        assert(line@.take(at as int) =~= line@);
        index = index + 1;
    }
    assert(all.take(index as int) =~= all);
    bytes
}

/// Renders the events as a CSV document.
pub fn render_csv(events: &Vec<ReconstructedEvent>) -> (bytes: Vec<u8>)
    ensures
        bytes@ == csv_document(records(events@)),
{
    let rows = rows_of(events);
    let ghost wanted = row_texts(rows@).map_values(|row: Seq<Seq<char>>| csv_record_bytes(row));
    let mut lines: Vec<Vec<u8>> = Vec::new();
    let mut index: usize = 0;
    while index < rows.len()
        invariant
            index <= rows.len(),
            wanted == row_texts(rows@).map_values(|row: Seq<Seq<char>>| csv_record_bytes(row)),
            line_views(lines@) == wanted.take(index as int),
        decreases rows.len() - index,
    {
        let ghost before = line_views(lines@);
        let line = encode_record(&rows[index]);
        lines.push(line);
        assert(line_views(lines@) =~= before.push(wanted[index as int]));
        assert(line_views(lines@) =~= wanted.take(index + 1));
        index = index + 1;
    }
    assert(wanted.take(index as int) =~= wanted);
    concat_lines(&lines)
}

} // verus!
