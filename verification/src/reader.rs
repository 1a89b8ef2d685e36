//! Reading the header and a bounded number of rows from CSV bytes.
//!
//! The bytes are tokenized by the `csv` crate. What it finds in them is named
//! here and not described: the contracts of this module say which of its
//! findings end up in the sample, and which of them make the reading fail.
//! An input without a header row is one of those: the reader has a header
//! without fields for it, and the reading fails on the header.

use vstd::prelude::*;
use vstd::string::*;
use crate::text::{decimal_string, decimal_text};

verus! {

/// The most rows that are read from an input.
pub const MAX_ROWS: usize = 1000;

/// A record as mathematical values: its fields in order.
pub type Fields = Seq<Seq<char>>;

/// What a CSV reader finds in its input: the header record, and every record
/// after it up to the end of the input. Where the reader fails on a record,
/// its description of the failure stands in the record's place.
pub struct CsvContent {
    pub header: Result<Fields, Seq<char>>,
    pub records: Seq<Result<Fields, Seq<char>>>,
}

/// `csv::Reader`, taken as it is: nothing inside it is looked at.
#[verifier::external_type_specification]
#[verifier::external_body]
#[verifier::reject_recursive_types(R)]
pub struct ExReader<R>(csv::Reader<R>);

/// `csv::Error`, taken as it is: nothing inside it is looked at.
#[verifier::external_type_specification]
#[verifier::external_body]
pub struct ExError(csv::Error);

/// What a reader with the default settings finds in `data`.
pub uninterp spec fn csv_content(data: Seq<u8>) -> CsvContent;

/// The header of the reader's input, and the records that it has not handed
/// out yet.
pub uninterp spec fn unread(reader: csv::Reader<&[u8]>) -> CsvContent;

/// The text that an error of the reader displays.
pub uninterp spec fn error_description(error: csv::Error) -> Seq<char>;

/// `csv::ReaderBuilder::from_reader`, on a builder that expects a header.
/// Trusted: nothing of the input has been handed out yet.
#[verifier::external_body]
fn open_reader(data: &[u8]) -> (reader: csv::Reader<&[u8]>)
    ensures
        unread(reader) == csv_content(data@),
{
    csv::ReaderBuilder::new().has_headers(true).from_reader(data)
}

/// `csv::Reader::headers`, its fields copied into strings. Trusted: the call
/// yields the header of the input, or the error that reading it gave, and
/// leaves the records that are still to come as they were.
#[verifier::external_body]
fn read_headers(reader: &mut csv::Reader<&[u8]>) -> (outcome: Result<Vec<String>, csv::Error>)
    ensures
        unread(*final(reader)) == unread(*old(reader)),
        match outcome {
            Ok(names) => unread(*old(reader)).header == Ok::<Fields, Seq<char>>(names.deep_view()),
            Err(error) => unread(*old(reader)).header == Err::<Fields, Seq<char>>(
                error_description(error),
            ),
        },
{
    reader.headers().map(|record| record.iter().map(String::from).collect())
}

/// `csv::Reader::read_record`, into a fresh record whose fields are copied
/// into strings. Trusted: at the end of the input the call answers `false`;
/// before it, the call takes the next record off the input and answers `true`
/// with the record's fields, or fails with the error that reading the record
/// gave (it is no valid UTF-8, or has another number of fields than the
/// header).
#[verifier::external_body]
fn read_record(reader: &mut csv::Reader<&[u8]>) -> (outcome: (Result<bool, csv::Error>, Vec<String>))
    ensures
        unread(*final(reader)).header == unread(*old(reader)).header,
        unread(*old(reader)).records.len() == 0 ==> {
            &&& outcome.0 matches Ok(more)
            &&& !more
            &&& unread(*final(reader)).records.len() == 0
        },
        unread(*old(reader)).records.len() > 0 ==> {
            &&& unread(*final(reader)).records == unread(*old(reader)).records.drop_first()
            &&& match unread(*old(reader)).records.first() {
                Ok(fields) => {
                    &&& outcome.0 matches Ok(more)
                    &&& more
                    &&& outcome.1.deep_view() == fields
                },
                Err(description) => {
                    &&& outcome.0 matches Err(error)
                    &&& error_description(error) == description
                },
            }
        },
{
    let mut record = csv::StringRecord::new();
    let more = reader.read_record(&mut record);
    (more, record.iter().map(String::from).collect())
}

/// `ToString::to_string` on a `csv::Error`. Trusted: the string is the text
/// that the error displays.
#[verifier::external_body]
fn error_text(error: &csv::Error) -> (text: String)
    ensures
        text@ == error_description(*error),
{
    error.to_string()
}

/// What stands in a header failure where the input has no header row.
pub const NO_HEADER_ROW: &'static str = "the input has no header row";

/// Why an analysis failed.
#[derive(Clone, Debug)]
pub enum AnalysisError {
    /// The header could not be read, or the input has none. Holds the
    /// reader's description of the failure, or `NO_HEADER_ROW`.
    HeaderRead(String),
    /// A row could not be read. Holds the reader's description.
    RowRead(String),
    /// A row has a field where the header has none. Holds the index of the
    /// row among the data rows, from zero.
    ColumnLookup(usize),
}

/// A failure as mathematical values.
pub enum Failure {
    HeaderRead(Seq<char>),
    RowRead(Seq<char>),
    ColumnLookup(nat),
}

impl View for AnalysisError {
    type V = Failure;

    open spec fn view(&self) -> Failure {
        match self {
            AnalysisError::HeaderRead(description) => Failure::HeaderRead(description@),
            AnalysisError::RowRead(description) => Failure::RowRead(description@),
            AnalysisError::ColumnLookup(row) => Failure::ColumnLookup(*row as nat),
        }
    }
}

impl AnalysisError {
    /// The text of `message`.
    pub open spec fn message_text(self) -> Seq<char> {
        match self {
            AnalysisError::HeaderRead(description) => "Failed to read headers: "@ + description@,
            AnalysisError::RowRead(description) => description@,
            AnalysisError::ColumnLookup(row) => "No header for a field of data row "@
                + decimal_text(row as nat),
        }
    }

    /// The failure in words.
    pub fn message(&self) -> (message: String)
        ensures
            message@ == self.message_text(),
    {
        match self {
            AnalysisError::HeaderRead(description) => {
                let mut message = "Failed to read headers: ".to_string();
                message.append(description.as_str());
                message
            },
            AnalysisError::RowRead(description) => description.clone(),
            AnalysisError::ColumnLookup(row) => {
                let mut message = "No header for a field of data row ".to_string();
                let number = decimal_string(*row);
                message.append(number.as_str());
                message
            },
        }
    }
}

/// The rows of `outcomes`, where every one of them was read and none is wider
/// than `width`; else the failure at the first row that was not read or is
/// too wide.
pub open spec fn rows_of(outcomes: Seq<Result<Fields, Seq<char>>>, width: nat) -> Result<
    Seq<Fields>,
    Failure,
>
    decreases outcomes.len(),
{
    if outcomes.len() == 0 {
        Ok(Seq::empty())
    } else {
        match rows_of(outcomes.drop_last(), width) {
            Err(failure) => Err(failure),
            Ok(rows) => match outcomes.last() {
                Err(description) => Err(Failure::RowRead(description)),
                Ok(fields) => if fields.len() > width {
                    Err(Failure::ColumnLookup(rows.len()))
                } else {
                    Ok(rows.push(fields))
                },
            },
        }
    }
}

/// The records that are looked at: the first thousand, or all where they are
/// fewer.
pub open spec fn sampled_outcomes(content: CsvContent) -> Seq<Result<Fields, Seq<char>>> {
    if content.records.len() <= MAX_ROWS {
        content.records
    } else {
        content.records.take(MAX_ROWS as int)
    }
}

/// What reading gives: the header and the sampled rows, or the failure. An
/// input without a header row, for which the reader has a header without
/// fields, fails as one whose header cannot be read.
pub open spec fn sample_of_content(content: CsvContent) -> Result<(Fields, Seq<Fields>), Failure> {
    match content.header {
        Err(description) => Err(Failure::HeaderRead(description)),
        Ok(header) => if header.len() == 0 {
            Err(Failure::HeaderRead(NO_HEADER_ROW@))
        } else {
            match rows_of(sampled_outcomes(content), header.len()) {
                Ok(rows) => Ok((header, rows)),
                Err(failure) => Err(failure),
            }
        },
    }
}

/// A header and the rows read after it.
#[derive(Clone, Debug)]
pub struct Sample {
    pub headers: Vec<String>,
    pub rows: Vec<Vec<String>>,
}

impl Sample {
    /// No row is wider than the header, and the rows are a thousand at most.
    pub open spec fn wf(&self) -> bool {
        &&& self.rows.len() <= MAX_ROWS
        &&& forall|i: int|
            0 <= i < self.rows.len() ==> (#[trigger] self.rows.deep_view()[i]).len()
                <= self.headers.len()
    }

    /// Whether no row is wider than the header, and the rows are a thousand
    /// at most.
    pub fn is_well_formed(&self) -> (well_formed: bool)
        ensures
            well_formed == self.wf(),
    {
        if self.rows.len() > MAX_ROWS {
            return false;
        }
        let mut i: usize = 0;
        while i < self.rows.len()
            invariant
                i <= self.rows.len(),
                self.rows.len() <= MAX_ROWS,
                forall|k: int|
                    0 <= k < i ==> (#[trigger] self.rows.deep_view()[k]).len()
                        <= self.headers.len(),
            decreases self.rows.len() - i,
        {
            assert(self.rows.deep_view()[i as int].len() == self.rows[i as int].len());
            if self.rows[i].len() > self.headers.len() {
                return false;
            }
            i += 1;
        }
        true
    }
}

/// Rows that were read are the outcomes, one for one, and none of them is
/// wider than the header.
pub proof fn lemma_rows_are_the_outcomes(outcomes: Seq<Result<Fields, Seq<char>>>, width: nat)
    requires
        rows_of(outcomes, width) is Ok,
    ensures
        rows_of(outcomes, width)->Ok_0.len() == outcomes.len(),
        forall|i: int|
            0 <= i < outcomes.len() ==> #[trigger] outcomes[i] == Ok::<Fields, Seq<char>>(
                rows_of(outcomes, width)->Ok_0[i],
            ) && rows_of(outcomes, width)->Ok_0[i].len() <= width,
    decreases outcomes.len(),
{
    if outcomes.len() > 0 {
        lemma_rows_are_the_outcomes(outcomes.drop_last(), width);
        let rows = rows_of(outcomes, width)->Ok_0;
        let before = rows_of(outcomes.drop_last(), width)->Ok_0;
        assert forall|i: int| 0 <= i < outcomes.len() implies #[trigger] outcomes[i] == Ok::<
            Fields,
            Seq<char>,
        >(rows[i]) && rows[i].len() <= width by {
            if i < outcomes.len() - 1 {
                assert(outcomes.drop_last()[i] == outcomes[i]);
                assert(rows[i] == before[i]);
            }
        }
    }
}

/// A sample holds the header, which has a field, and of the records after it
/// the first thousand as they were read, or all of them where they are fewer.
pub proof fn law_sampling_is_bounded(content: CsvContent)
    requires
        sample_of_content(content) is Ok,
    ensures
        content.header == Ok::<Fields, Seq<char>>(sample_of_content(content)->Ok_0.0),
        sample_of_content(content)->Ok_0.0.len() > 0,
        sample_of_content(content)->Ok_0.1.len() <= MAX_ROWS,
        sample_of_content(content)->Ok_0.1.len() == if content.records.len() <= MAX_ROWS {
            content.records.len()
        } else {
            MAX_ROWS as nat
        },
        forall|i: int|
            0 <= i < sample_of_content(content)->Ok_0.1.len() ==> #[trigger] content.records[i]
                == Ok::<Fields, Seq<char>>(sample_of_content(content)->Ok_0.1[i]),
{
    let header = content.header->Ok_0;
    lemma_rows_are_the_outcomes(sampled_outcomes(content), header.len());
    let rows = sample_of_content(content)->Ok_0.1;
    assert forall|i: int| 0 <= i < rows.len() implies #[trigger] content.records[i] == Ok::<
        Fields,
        Seq<char>,
    >(rows[i]) by {
        assert(sampled_outcomes(content)[i] == content.records[i]);
    }
}

/// Reading fails on the header exactly where the reader fails on it or finds
/// no field in it: an input without a header row is never analysed.
pub proof fn law_no_header_no_analysis(content: CsvContent)
    ensures
        sample_of_content(content) matches Err(Failure::HeaderRead(_)) <==> (content.header is Err
            || content.header == Ok::<Fields, Seq<char>>(Seq::empty())),
{
    match content.header {
        Ok(header) => {
            if header.len() == 0 {
                assert(header =~= Seq::empty());
            } else {
                lemma_rows_never_fail_on_the_header(sampled_outcomes(content), header.len());
            }
        },
        Err(_) => {},
    }
}

/// The failure of a row is none of the header.
proof fn lemma_rows_never_fail_on_the_header(outcomes: Seq<Result<Fields, Seq<char>>>, width: nat)
    ensures
        !(rows_of(outcomes, width) matches Err(Failure::HeaderRead(_))),
    decreases outcomes.len(),
{
    if outcomes.len() > 0 {
        lemma_rows_never_fail_on_the_header(outcomes.drop_last(), width);
    }
}

/// About a prefix of the outcomes: how it grows by one, and that the rows
/// read from it are as many as it is long.
proof fn lemma_rows_of_step(outcomes: Seq<Result<Fields, Seq<char>>>, width: nat, upto: int)
    requires
        0 <= upto < outcomes.len(),
    ensures
        outcomes.take(upto + 1).drop_last() == outcomes.take(upto),
        outcomes.take(upto + 1).last() == outcomes[upto],
        rows_of(outcomes.take(upto), width) matches Ok(rows) ==> rows.len() == upto,
    decreases upto,
{
    assert(outcomes.take(upto + 1).drop_last() =~= outcomes.take(upto));
    if upto > 0 {
        lemma_rows_of_step(outcomes, width, upto - 1);
    }
}

/// A failure among the first outcomes is the failure of all of them.
proof fn lemma_rows_of_fault(outcomes: Seq<Result<Fields, Seq<char>>>, width: nat, upto: int)
    requires
        0 <= upto <= outcomes.len(),
        rows_of(outcomes.take(upto), width) is Err,
    ensures
        rows_of(outcomes, width) == rows_of(outcomes.take(upto), width),
    decreases outcomes.len() - upto,
{
    if upto == outcomes.len() {
        assert(outcomes.take(upto) =~= outcomes);
    } else {
        assert(outcomes.drop_last().take(upto) =~= outcomes.take(upto));
        lemma_rows_of_fault(outcomes.drop_last(), width, upto);
    }
}

/// Reads the header of `csv_data` and the rows after it, a thousand at most.
///
/// The reading fails where the header cannot be read or has no field, as it
/// has none where the input has no header row; and at the first row among
/// those that cannot be read or is wider than the header. A row after the
/// thousandth is not looked at. A failure holds the reader's description of
/// it.
pub fn read_sample(csv_data: &[u8]) -> (outcome: Result<Sample, AnalysisError>)
    ensures
        match outcome {
            Ok(sample) => {
                &&& sample_of_content(csv_content(csv_data@)) == Ok::<_, Failure>(
                    (sample.headers.deep_view(), sample.rows.deep_view()),
                )
                &&& sample.headers.len() > 0
                &&& sample.wf()
            },
            Err(error) => sample_of_content(csv_content(csv_data@)) == Err::<
                (Fields, Seq<Fields>),
                _,
            >(error@),
        },
        outcome matches Err(AnalysisError::HeaderRead(_)) <==> (csv_content(csv_data@).header is Err
            || csv_content(csv_data@).header == Ok::<Fields, Seq<char>>(Seq::empty())),
{
    let ghost content = csv_content(csv_data@);
    let ghost outcomes = sampled_outcomes(content);
    proof {
        law_no_header_no_analysis(content);
    }
    let mut reader = open_reader(csv_data);
    let headers = match read_headers(&mut reader) {
        Ok(headers) => headers,
        Err(error) => {
            return Err(AnalysisError::HeaderRead(error_text(&error)));
        },
    };
    let ghost width = headers.deep_view().len();
    assert(width == headers.len());
    if headers.len() == 0 {
        return Err(AnalysisError::HeaderRead(NO_HEADER_ROW.to_string()));
    }
    let mut rows: Vec<Vec<String>> = Vec::new();
    assert(outcomes.take(0) =~= Seq::empty());
    assert(rows.deep_view() =~= Seq::empty());
    assert(content.records.skip(0) =~= content.records);
    let mut at_end = false;
    while !at_end && rows.len() < MAX_ROWS
        invariant
            rows.len() <= MAX_ROWS,
            at_end ==> content.records.len() == rows.len(),
            rows.len() <= content.records.len(),
            content == csv_content(csv_data@),
            outcomes == sampled_outcomes(content),
            content.header == Ok::<Fields, Seq<char>>(headers.deep_view()),
            width == headers.len(),
            width > 0,
            unread(reader).records == content.records.skip(rows.len() as int),
            rows_of(outcomes.take(rows.len() as int), width) == Ok::<_, Failure>(
                rows.deep_view(),
            ),
            forall|i: int|
                0 <= i < rows.len() ==> (#[trigger] rows.deep_view()[i]).len() <= headers.len(),
        decreases
                MAX_ROWS - rows.len(),
                if at_end {
                    0int
                } else {
                    1int
                },
    {
        let ghost read = rows.len() as int;
        let ghost pending = unread(reader).records;
        let (more, fields) = read_record(&mut reader);
        proof {
            if pending.len() == 0 {
                assert(content.records.len() == read);
                assert(outcomes.take(read) =~= outcomes);
                assert(more matches Ok(m) && !m);
            } else {
                assert(pending.first() == content.records[read]);
                assert(pending.drop_first() =~= content.records.skip(read + 1));
                assert(outcomes[read] == content.records[read]);
                lemma_rows_of_step(outcomes, width, read);
            }
        }
        match more {
            Err(error) => {
                proof {
                    lemma_rows_of_fault(outcomes, width, read + 1);
                }
                return Err(AnalysisError::RowRead(error_text(&error)));
            },
            Ok(false) => {
                at_end = true;
            },
            Ok(true) => {
                if fields.len() > headers.len() {
                    proof {
                        lemma_rows_of_fault(outcomes, width, read + 1);
                    }
                    return Err(AnalysisError::ColumnLookup(rows.len()));
                }
                let ghost before = rows.deep_view();
                rows.push(fields);
                assert(rows.deep_view() =~= before.push(fields.deep_view()));
            },
        }
    }
    assert(outcomes.take(rows.len() as int) =~= outcomes);
    Ok(Sample { headers, rows })
}

} // verus!
