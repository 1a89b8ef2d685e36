//! The analysis of a table: its columns in header order, each with the type
//! it resolves to, and the SQL for them.
//!
//! The analysis runs in steps. A column whose screening is undecided needs a
//! confidence score, which this crate does not compute: the analysis stops
//! there and shows the frequencies to be scored, and goes on when handed the
//! score. A table without such a column is analysed in one step.

use vstd::prelude::*;
use crate::column::{
    accumulate, column_metadata, column_record, non_blank, non_blank_values, ColumnAnalysis,
    ColumnFold,
};
use crate::frequency::{distinct, lemma_distinct_is_duplicate_free, tally, FrequencyTable};
use crate::reader::{
    csv_content, read_sample, sample_of_content, AnalysisError, Fields, Sample,
};
use crate::sql_conversion::{create_table_text, generate_sql_statements, insert_template_text};
use crate::statistical_methods::{
    checked_frequencies, quick_frequency_check, screening_of, QuickCheck, Screening, Thresholds,
};
use crate::text::push_string;
use crate::types::{column_records, ColumnMetadata, ColumnRecord, SqlStatements, SqlText};

verus! {

/// The name of the table in the SQL of an analysis.
pub const TABLE_NAME: &'static str = "my_table";

/// The most rows that an analysis keeps as samples.
pub const MAX_SAMPLE_ROWS: usize = 5;

/// The fields of `row` that stand under a header field equal to `name`.
pub open spec fn row_cells(header: Fields, row: Fields, name: Seq<char>) -> Seq<Seq<char>>
    decreases row.len(),
{
    if row.len() == 0 {
        Seq::empty()
    } else if row.len() <= header.len() && header[row.len() - 1] == name {
        row_cells(header, row.drop_last(), name).push(row.last())
    } else {
        row_cells(header, row.drop_last(), name)
    }
}

/// The cells of the column `name`: row after row, the fields under a header
/// field equal to `name`. Header fields that are equal share one column.
pub open spec fn column_cells(header: Fields, rows: Seq<Fields>, name: Seq<char>) -> Seq<Seq<char>>
    decreases rows.len(),
{
    if rows.len() == 0 {
        Seq::empty()
    } else {
        column_cells(header, rows.drop_last(), name) + row_cells(header, rows.last(), name)
    }
}

/// The first rows of `rows`, five at most.
pub open spec fn sample_rows_of(rows: Seq<Fields>) -> Seq<Fields> {
    if rows.len() <= MAX_SAMPLE_ROWS {
        rows
    } else {
        rows.take(MAX_SAMPLE_ROWS as int)
    }
}

/// A sampled table, column by column.
pub struct Table {
    /// The distinct header fields, in the order of first appearance.
    pub names: Seq<Seq<char>>,
    /// For each name, the cells of its column.
    pub cells: Seq<Seq<Seq<char>>>,
    pub row_count: nat,
    pub column_count: nat,
    pub sample_rows: Seq<Fields>,
}

/// The table of a header and the rows sampled after it.
pub open spec fn table_of(header: Fields, rows: Seq<Fields>) -> Table {
    Table {
        names: distinct(header),
        cells: Seq::new(
            distinct(header).len(),
            |j: int| column_cells(header, rows, distinct(header)[j]),
        ),
        row_count: rows.len(),
        column_count: header.len(),
        sample_rows: sample_rows_of(rows),
    }
}

/// Whether the column at `index` waits for a score.
pub open spec fn needs_score(table: Table, config: Thresholds, index: int) -> bool {
    screening_of(non_blank(table.cells[index]), config) == Screening::Undecided
}

/// The metadata of the first columns of `table`, as many as there are
/// `scores`. The score of a column that needs none is not read.
pub open spec fn records_of(table: Table, config: Thresholds, scores: Seq<nat>) -> Seq<
    ColumnRecord,
> {
    Seq::new(
        scores.len(),
        |j: int| column_record(table.names[j], table.cells[j], config, scores[j]),
    )
}

/// An analysis as mathematical values.
pub struct Metadata {
    pub row_count: nat,
    pub column_count: nat,
    pub columns: Seq<ColumnRecord>,
    pub sample_rows: Seq<Fields>,
    pub sql_statements: Option<SqlText>,
}

/// The analysis of `table`, given a score for each of its columns.
pub open spec fn metadata_of(table: Table, config: Thresholds, scores: Seq<nat>) -> Metadata {
    let columns = records_of(table, config, scores);
    Metadata {
        row_count: table.row_count,
        column_count: table.column_count,
        columns,
        sample_rows: table.sample_rows,
        sql_statements: Some(
            SqlText {
                create_table: create_table_text(TABLE_NAME@, columns),
                insert_template: insert_template_text(TABLE_NAME@, columns),
            },
        ),
    }
}

/// How far an analysis gets on its own.
pub enum Progress {
    /// The column after those with the given scores waits for its score.
    NeedsScore(Seq<nat>),
    /// Every column is settled, with the given scores.
    Done(Seq<nat>),
}

/// How far the analysis of `table` gets once the first columns have the
/// scores `scores`: to the next column that needs a score, or to the end.
/// Columns that need no score are passed with the score zero.
pub open spec fn progress(table: Table, config: Thresholds, scores: Seq<nat>) -> Progress
    decreases table.names.len() - scores.len(),
{
    if scores.len() >= table.names.len() {
        Progress::Done(scores)
    } else if needs_score(table, config, scores.len() as int) {
        Progress::NeedsScore(scores)
    } else {
        progress(table, config, scores.push(0))
    }
}

/// The result of an analysis.
#[derive(Clone, Debug)]
pub struct CSVMetadata {
    /// The number of rows that were read, a thousand at most.
    pub row_count: usize,
    /// The number of fields in the header.
    pub column_count: usize,
    /// The columns, in the order in which their names first appear in the
    /// header. Header fields with the same name make one column.
    pub columns: Vec<ColumnMetadata>,
    /// The first rows as they were read, five at most.
    pub sample_rows: Vec<Vec<String>>,
    pub sql_statements: Option<SqlStatements>,
}

impl View for CSVMetadata {
    type V = Metadata;

    open spec fn view(&self) -> Metadata {
        Metadata {
            row_count: self.row_count as nat,
            column_count: self.column_count as nat,
            columns: column_records(self.columns@),
            sample_rows: self.sample_rows.deep_view(),
            sql_statements: match self.sql_statements {
                Some(sql) => Some(sql@),
                None => None,
            },
        }
    }
}

/// An analysis that waits for the score of one of its columns.
#[derive(Debug)]
pub struct PendingAnalysis {
    config: Thresholds,
    names: Vec<String>,
    cells: Vec<Vec<String>>,
    row_count: usize,
    column_count: usize,
    sample_rows: Vec<Vec<String>>,
    settled: Vec<ColumnMetadata>,
    scores: Vec<u64>,
    analysis: ColumnAnalysis,
    check: QuickCheck,
}

/// One step of an analysis: its result, or what it waits for.
#[derive(Debug)]
pub enum AnalysisStep {
    NeedsScore(PendingAnalysis),
    Done(CSVMetadata),
}

/// The scores of `scores` as natural numbers.
pub open spec fn score_values(scores: Seq<u64>) -> Seq<nat> {
    scores.map_values(|score: u64| score as nat)
}

impl PendingAnalysis {
    /// The table under analysis.
    pub closed spec fn table(&self) -> Table {
        table_in(self.names, self.cells, self.row_count, self.column_count, self.sample_rows)
    }

    /// The thresholds of the analysis.
    pub closed spec fn config(&self) -> Thresholds {
        self.config
    }

    /// The scores of the columns before the one that waits.
    pub closed spec fn scores(&self) -> Seq<nat> {
        score_values(self.scores@)
    }

    /// The index of the column that waits.
    pub open spec fn waiting(&self) -> int {
        self.scores().len() as int
    }

    /// The analysis holds what it has found so far, and the column it waits
    /// on does need a score.
    #[verifier::type_invariant]
    pub closed spec fn wf(&self) -> bool {
        let at = self.scores@.len() as int;
        &&& self.cells.len() == self.names.len()
        &&& at < self.names.len()
        &&& column_records(self.settled@) == records_of(self.table(), self.config, self.scores())
        &&& self.analysis@ == ColumnFold::of(self.cells.deep_view()[at])
        &&& self.check.frequencies@ == checked_frequencies(
            non_blank(self.cells.deep_view()[at]),
            self.config,
        )
        &&& self.check.total_count == non_blank(self.cells.deep_view()[at]).len()
        &&& needs_score(self.table(), self.config, at)
    }

    /// The frequencies to be scored: the tally of the cells of the waiting
    /// column that are not blank.
    pub fn frequencies(&self) -> (table: &FrequencyTable)
        ensures
            self.waiting() < self.table().cells.len(),
            table@ == tally(non_blank(self.table().cells[self.waiting()])),
    {
        proof {
            use_type_invariant(self);
        }
        &self.check.frequencies
    }

    /// The number of values that the frequencies count.
    pub fn total_count(&self) -> (total: usize)
        ensures
            self.waiting() < self.table().cells.len(),
            total == non_blank(self.table().cells[self.waiting()]).len(),
    {
        proof {
            use_type_invariant(self);
        }
        self.check.total_count
    }

    /// Goes on with `scored_confidence` as the score of the waiting column,
    /// in millionths: to the next column that needs a score, or to the end.
    pub fn resume(self, scored_confidence: u64) -> (step: AnalysisStep)
        ensures
            step.follows(
                self.table(),
                self.config(),
                progress(self.table(), self.config(), self.scores().push(scored_confidence as nat)),
            ),
    {
        proof {
            use_type_invariant(&self);
        }
        let ghost table = self.table();
        let ghost before = self.scores();
        let ghost at = self.scores@.len() as int;
        let PendingAnalysis {
            config,
            names,
            cells,
            row_count,
            column_count,
            sample_rows,
            mut settled,
            mut scores,
            mut analysis,
            check,
        } = self;
        analysis.could_be_enum = Screening::Undecided.verdict(&config, scored_confidence);
        let metadata = column_metadata(names[scores.len()].as_str(), &analysis);
        let ghost old_settled = column_records(settled@);
        settled.push(metadata);
        scores.push(scored_confidence);
        proof {
            let after = before.push(scored_confidence as nat);
            assert(score_values(scores@) =~= after);
            assert(names.deep_view()[at] == names[at]@);
            assert(column_records(settled@) =~= old_settled.push(metadata@));
            assert(column_records(settled@) =~= records_of(table, config, after));
        }
        advance(config, names, cells, row_count, column_count, sample_rows, settled, scores)
    }
}

impl AnalysisStep {
    /// Whether the step is where `progress` says the analysis of `table` gets.
    pub open spec fn follows(&self, table: Table, config: Thresholds, progress: Progress) -> bool {
        match (*self, progress) {
            (AnalysisStep::NeedsScore(pending), Progress::NeedsScore(scores)) => {
                &&& pending.wf()
                &&& pending.table() == table
                &&& pending.config() == config
                &&& pending.scores() == scores
            },
            (AnalysisStep::Done(metadata), Progress::Done(scores)) => metadata@ == metadata_of(
                table,
                config,
                scores,
            ),
            _ => false,
        }
    }
}

/// The table that the parts of an analysis make up.
pub open spec fn table_in(
    names: Vec<String>,
    cells: Vec<Vec<String>>,
    row_count: usize,
    column_count: usize,
    sample_rows: Vec<Vec<String>>,
) -> Table {
    Table {
        names: names.deep_view(),
        cells: cells.deep_view(),
        row_count: row_count as nat,
        column_count: column_count as nat,
        sample_rows: sample_rows.deep_view(),
    }
}

/// Settles the columns from the first unsettled one on, until one needs a
/// score or none is left.
fn advance(
    config: Thresholds,
    names: Vec<String>,
    cells: Vec<Vec<String>>,
    row_count: usize,
    column_count: usize,
    sample_rows: Vec<Vec<String>>,
    settled: Vec<ColumnMetadata>,
    scores: Vec<u64>,
) -> (step: AnalysisStep)
    requires
        cells.len() == names.len(),
        scores.len() <= names.len(),
        column_records(settled@) == records_of(
            table_in(names, cells, row_count, column_count, sample_rows),
            config,
            score_values(scores@),
        ),
    ensures
        step.follows(
            table_in(names, cells, row_count, column_count, sample_rows),
            config,
            progress(
                table_in(names, cells, row_count, column_count, sample_rows),
                config,
                score_values(scores@),
            ),
        ),
{
    let ghost table = table_in(names, cells, row_count, column_count, sample_rows);
    let ghost goal = progress(table, config, score_values(scores@));
    let mut columns = settled;
    let mut given = scores;
    while given.len() < names.len()
        invariant
            cells.len() == names.len(),
            given.len() <= names.len(),
            table == table_in(names, cells, row_count, column_count, sample_rows),
            column_records(columns@) == records_of(table, config, score_values(given@)),
            goal == progress(table, config, score_values(scores@)),
            goal == progress(table, config, score_values(given@)),
        decreases names.len() - given.len(),
    {
        let at = given.len();
        let ghost before = score_values(given@);
        let column = cells[at].as_slice();
        assert(column.deep_view() =~= cells.deep_view()[at as int]);
        let mut analysis = accumulate(column);
        let kept = non_blank_values(column);
        let kept_cells = kept.as_slice();
        assert(kept_cells.deep_view() =~= kept.deep_view());
        let check = quick_frequency_check(kept_cells, &config);
        let screening = check.screen(&config);
        assert(screening == screening_of(non_blank(table.cells[at as int]), config));
        match screening {
            Screening::Undecided => {
                let pending = PendingAnalysis {
                    config,
                    names,
                    cells,
                    row_count,
                    column_count,
                    sample_rows,
                    settled: columns,
                    scores: given,
                    analysis,
                    check,
                };
                proof {
                    assert(pending.table() == table);
                    assert(pending.scores() == before);
                    assert(table.names.len() == names.len());
                    assert(needs_score(table, config, at as int));
                    assert(progress(table, config, before) == Progress::NeedsScore(before));
                    assert(pending.wf());
                }
                return AnalysisStep::NeedsScore(pending);
            },
            _ => {},
        }
        analysis.could_be_enum = screening.verdict(&config, 0);
        let metadata = column_metadata(names[at].as_str(), &analysis);
        let ghost old_columns = column_records(columns@);
        columns.push(metadata);
        given.push(0);
        proof {
            let after = before.push(0nat);
            assert(score_values(given@) =~= after);
            assert(names.deep_view()[at as int] == names[at as int]@);
            assert(column_records(columns@) =~= old_columns.push(metadata@));
            assert(column_records(columns@) =~= records_of(table, config, after));
            assert(table.names.len() == names.len());
            assert(!needs_score(table, config, at as int));
            assert(progress(table, config, before) == progress(table, config, after));
        }
    }
    proof {
        assert(table.names.len() == names.len());
        assert(progress(table, config, score_values(given@)) == Progress::Done(
            score_values(given@),
        ));
    }
    let sql_statements = generate_sql_statements(TABLE_NAME, &columns);
    let metadata = CSVMetadata {
        row_count,
        column_count,
        columns,
        sample_rows,
        sql_statements: Some(sql_statements),
    };
    AnalysisStep::Done(metadata)
}

/// An analysis counts the rows that were sampled and the fields of the
/// header, and keeps the first five rows as they were read.
pub proof fn law_samples_are_the_first_rows(
    header: Fields,
    rows: Seq<Fields>,
    config: Thresholds,
    scores: Seq<nat>,
)
    ensures
        metadata_of(table_of(header, rows), config, scores).row_count == rows.len(),
        metadata_of(table_of(header, rows), config, scores).column_count == header.len(),
        metadata_of(table_of(header, rows), config, scores).sample_rows.len() == if rows.len()
            <= MAX_SAMPLE_ROWS {
            rows.len()
        } else {
            MAX_SAMPLE_ROWS as nat
        },
        forall|i: int|
            0 <= i < metadata_of(table_of(header, rows), config, scores).sample_rows.len()
                ==> #[trigger] metadata_of(table_of(header, rows), config, scores).sample_rows[i]
                == rows[i],
{
}

/// An analysis stops at a column that needs a score, or ends with a score
/// for every column; the scores that it had are the first of those it ends
/// up with.
pub proof fn law_progress_keeps_the_scores(table: Table, config: Thresholds, scores: Seq<nat>)
    requires
        scores.len() <= table.names.len(),
    ensures
        match progress(table, config, scores) {
            Progress::NeedsScore(reached) => {
                &&& scores.len() <= reached.len() < table.names.len()
                &&& needs_score(table, config, reached.len() as int)
                &&& reached.take(scores.len() as int) == scores
            },
            Progress::Done(reached) => {
                &&& reached.len() == table.names.len()
                &&& reached.take(scores.len() as int) == scores
            },
        },
    decreases table.names.len() - scores.len(),
{
    if scores.len() >= table.names.len() {
        assert(scores.take(scores.len() as int) =~= scores);
    } else if needs_score(table, config, scores.len() as int) {
        assert(scores.take(scores.len() as int) =~= scores);
    } else {
        let longer = scores.push(0);
        law_progress_keeps_the_scores(table, config, longer);
        match progress(table, config, longer) {
            Progress::NeedsScore(reached) => {
                assert(reached.take(scores.len() as int) =~= reached.take(
                    longer.len() as int,
                ).take(scores.len() as int));
                assert(longer.take(scores.len() as int) =~= scores);
            },
            Progress::Done(reached) => {
                assert(reached.take(scores.len() as int) =~= reached.take(
                    longer.len() as int,
                ).take(scores.len() as int));
                assert(longer.take(scores.len() as int) =~= scores);
            },
        }
    }
}

/// The columns of a finished analysis are named by the distinct fields of
/// the header, in the order of their first appearance, no name twice.
pub proof fn law_columns_follow_the_header(
    header: Fields,
    rows: Seq<Fields>,
    config: Thresholds,
    scores: Seq<nat>,
)
    requires
        scores.len() == distinct(header).len(),
    ensures
        metadata_of(table_of(header, rows), config, scores).columns.len() == distinct(
            header,
        ).len(),
        forall|j: int|
            0 <= j < distinct(header).len() ==> (#[trigger] metadata_of(
                table_of(header, rows),
                config,
                scores,
            ).columns[j]).name == distinct(header)[j],
        distinct(header).no_duplicates(),
        forall|name: Seq<char>| #[trigger] distinct(header).contains(name) <==> header.contains(name),
{
    lemma_distinct_is_duplicate_free(header);
}

/// The score of a column that needs none is not read: the column's metadata
/// is the same whatever stands in its place.
pub proof fn law_unneeded_scores_are_not_read(
    table: Table,
    config: Thresholds,
    scores: Seq<nat>,
    index: int,
    other: nat,
)
    requires
        0 <= index < scores.len(),
        !needs_score(table, config, index),
    ensures
        records_of(table, config, scores.update(index, other)) == records_of(
            table,
            config,
            scores,
        ),
{
    assert(records_of(table, config, scores.update(index, other)) =~= records_of(
        table,
        config,
        scores,
    ));
}

/// The index of the first string of `list` that equals `value`.
fn position_of(list: &Vec<String>, value: &String) -> (position: Option<usize>)
    ensures
        match position {
            Some(index) => index < list.len() && list.deep_view()[index as int] == value@,
            None => !list.deep_view().contains(value@),
        },
{
    let mut i: usize = 0;
    while i < list.len()
        invariant
            i <= list.len(),
            forall|k: int| 0 <= k < i ==> list.deep_view()[k] != value@,
        decreases list.len() - i,
    {
        if list[i] == *value {
            return Some(i);
        }
        i += 1;
    }
    None
}

/// The distinct header fields, and for every header field the index of its
/// name among them.
fn name_columns(headers: &Vec<String>) -> (named: (Vec<String>, Vec<usize>))
    ensures
        named.0.deep_view() == distinct(headers.deep_view()),
        named.1.len() == headers.len(),
        forall|i: int|
            0 <= i < headers.len() ==> (#[trigger] named.1[i]) < named.0.len()
                && named.0.deep_view()[named.1[i] as int] == headers.deep_view()[i],
{
    let mut names: Vec<String> = Vec::new();
    let mut slots: Vec<usize> = Vec::new();
    let ghost header = headers.deep_view();
    let mut i: usize = 0;
    assert(names.deep_view() =~= Seq::empty());
    assert(header.take(0) =~= Seq::empty());
    while i < headers.len()
        invariant
            i <= headers.len(),
            header == headers.deep_view(),
            names.deep_view() == distinct(header.take(i as int)),
            slots.len() == i,
            forall|k: int|
                0 <= k < i ==> (#[trigger] slots[k]) < names.len()
                    && names.deep_view()[slots[k] as int] == header[k],
        decreases headers.len() - i,
    {
        let ghost next = header.take(i + 1);
        assert(next.drop_last() =~= header.take(i as int));
        assert(next.last() == headers[i as int]@);
        let ghost known = names.deep_view();
        let slot = match position_of(&names, &headers[i]) {
            Some(slot) => slot,
            None => {
                push_string(&mut names, headers[i].clone());
                assert(names.deep_view().len() == names.len());
                names.len() - 1
            },
        };
        slots.push(slot);
        assert forall|k: int| 0 <= k < i + 1 implies (#[trigger] slots[k]) < names.len()
            && names.deep_view()[slots[k] as int] == header[k] by {
            assert(names.deep_view().len() == names.len());
            if k < i {
                assert(known[slots[k] as int] == header[k]);
            }
        }
        i += 1;
    }
    assert(header.take(i as int) =~= header);
    (names, slots)
}

fn push_cell(cells: &mut Vec<Vec<String>>, slot: usize, value: String)
    requires
        slot < old(cells).len(),
    ensures
        final(cells).len() == old(cells).len(),
        final(cells).deep_view() == old(cells).deep_view().update(
            slot as int,
            old(cells).deep_view()[slot as int].push(value@),
        ),
{
    cells[slot].push(value);
    assert(cells@[slot as int]@ == old(cells)@[slot as int]@.push(value));
    assert(forall|k: int| 0 <= k < cells.len() && k != slot ==> cells@[k] == old(cells)@[k]);
    assert(cells@[slot as int].deep_view() =~= old(cells)@[slot as int].deep_view().push(value@));
    assert(cells.deep_view() =~= old(cells).deep_view().update(
        slot as int,
        old(cells).deep_view()[slot as int].push(value@),
    ));
}

/// The columns of a sample: the distinct header fields, and the cells of each.
fn split_columns(sample: &Sample) -> (columns: (Vec<String>, Vec<Vec<String>>))
    requires
        sample.wf(),
    ensures
        columns.1.len() == columns.0.len(),
        columns.0.deep_view() == table_of(sample.headers.deep_view(), sample.rows.deep_view()).names,
        columns.1.deep_view() == table_of(sample.headers.deep_view(), sample.rows.deep_view()).cells,
{
    let ghost header = sample.headers.deep_view();
    let ghost rows = sample.rows.deep_view();
    let (names, slots) = name_columns(&sample.headers);
    proof {
        lemma_distinct_is_duplicate_free(header);
    }
    let mut cells: Vec<Vec<String>> = Vec::new();
    let mut j: usize = 0;
    while j < names.len()
        invariant
            j <= names.len(),
            cells.len() == j,
            forall|k: int| 0 <= k < j ==> (#[trigger] cells.deep_view()[k]) == Seq::<
                Seq<char>,
            >::empty(),
        decreases names.len() - j,
    {
        let column: Vec<String> = Vec::new();
        assert(column.deep_view() =~= Seq::empty());
        let ghost before = cells.deep_view();
        cells.push(column);
        assert(cells.deep_view() =~= before.push(column.deep_view()));
        j += 1;
    }
    let mut r: usize = 0;
    assert(rows.take(0) =~= Seq::empty());
    while r < sample.rows.len()
        invariant
            r <= sample.rows.len(),
            sample.wf(),
            header == sample.headers.deep_view(),
            rows == sample.rows.deep_view(),
            names.deep_view() == distinct(header),
            distinct(header).no_duplicates(),
            slots.len() == header.len(),
            forall|i: int|
                0 <= i < header.len() ==> (#[trigger] slots[i]) < names.len()
                    && names.deep_view()[slots[i] as int] == header[i],
            cells.len() == names.len(),
            forall|k: int|
                0 <= k < names.len() ==> (#[trigger] cells.deep_view()[k]) == column_cells(
                    header,
                    rows.take(r as int),
                    names.deep_view()[k],
                ),
        decreases sample.rows.len() - r,
    {
        let row = &sample.rows[r];
        let ghost fields = row.deep_view();
        let ghost base = cells.deep_view();
        assert(rows[r as int] == fields);
        assert(fields.len() <= header.len());
        assert(rows.take(r + 1).drop_last() =~= rows.take(r as int));
        assert(rows.take(r + 1).last() == fields);
        let mut i: usize = 0;
        assert(fields.take(0) =~= Seq::empty());
        assert forall|k: int| 0 <= k < names.len() implies (#[trigger] cells.deep_view()[k])
            == base[k] + row_cells(header, fields.take(0), names.deep_view()[k]) by {
            assert(base[k] + Seq::<Seq<char>>::empty() =~= base[k]);
        }
        while i < row.len()
            invariant
                i <= row.len(),
                fields == row.deep_view(),
                fields.len() <= header.len(),
                names.deep_view() == distinct(header),
                distinct(header).no_duplicates(),
                slots.len() == header.len(),
                forall|i: int|
                    0 <= i < header.len() ==> (#[trigger] slots[i]) < names.len()
                        && names.deep_view()[slots[i] as int] == header[i],
                cells.len() == names.len(),
                base.len() == names.len(),
                forall|k: int|
                    0 <= k < names.len() ==> (#[trigger] cells.deep_view()[k]) == base[k]
                        + row_cells(header, fields.take(i as int), names.deep_view()[k]),
            decreases row.len() - i,
        {
            let slot = slots[i];
            let ghost so_far = cells.deep_view();
            let ghost shorter = fields.take(i as int);
            let ghost longer = fields.take(i + 1);
            assert(longer.drop_last() =~= shorter);
            assert(longer.last() == row[i as int]@);
            push_cell(&mut cells, slot, row[i].clone());
            assert forall|k: int| 0 <= k < names.len() implies (#[trigger] cells.deep_view()[k])
                == base[k] + row_cells(header, longer, names.deep_view()[k]) by {
                assert(so_far[k] == base[k] + row_cells(header, shorter, names.deep_view()[k]));
                if k == slot {
                    assert(cells.deep_view()[k] =~= base[k] + row_cells(
                        header,
                        longer,
                        names.deep_view()[k],
                    ));
                } else {
                    assert(names.deep_view()[k] != names.deep_view()[slot as int]);
                }
            }
            i += 1;
        }
        assert(fields.take(i as int) =~= fields);
        r += 1;
    }
    assert(rows.take(r as int) =~= rows);
    assert(cells.deep_view() =~= table_of(header, rows).cells);
    (names, cells)
}

/// The first rows of `rows`, five at most.
fn first_rows(rows: &Vec<Vec<String>>) -> (sample_rows: Vec<Vec<String>>)
    ensures
        sample_rows.deep_view() == sample_rows_of(rows.deep_view()),
{
    let mut sample_rows: Vec<Vec<String>> = Vec::new();
    let mut r: usize = 0;
    assert(sample_rows.deep_view() =~= rows.deep_view().take(0));
    while r < rows.len() && r < MAX_SAMPLE_ROWS
        invariant
            r <= rows.len(),
            r <= MAX_SAMPLE_ROWS,
            sample_rows.deep_view() == rows.deep_view().take(r as int),
        decreases rows.len() - r,
    {
        let row = rows[r].clone();
        assert(row.deep_view() == rows[r as int].deep_view());
        let ghost before = sample_rows.deep_view();
        sample_rows.push(row);
        assert(sample_rows.deep_view() =~= before.push(row.deep_view()));
        assert(sample_rows.deep_view() =~= rows.deep_view().take(r + 1));
        r += 1;
    }
    assert(rows.deep_view().take(rows.len() as int) =~= rows.deep_view());
    sample_rows
}

/// The analysis of a sample: settles the columns up to the first that needs a
/// score, or all of them.
pub fn analyze_sample(sample: Sample, config: &Thresholds) -> (step: AnalysisStep)
    requires
        sample.wf(),
    ensures
        step.follows(
            table_of(sample.headers.deep_view(), sample.rows.deep_view()),
            *config,
            progress(
                table_of(sample.headers.deep_view(), sample.rows.deep_view()),
                *config,
                Seq::empty(),
            ),
        ),
{
    let ghost table = table_of(sample.headers.deep_view(), sample.rows.deep_view());
    let (names, cells) = split_columns(&sample);
    let sample_rows = first_rows(&sample.rows);
    let settled: Vec<ColumnMetadata> = Vec::new();
    let scores: Vec<u64> = Vec::new();
    proof {
        assert(score_values(scores@) =~= Seq::empty());
        assert(column_records(settled@) =~= records_of(table, *config, Seq::empty()));
        lemma_distinct_is_duplicate_free(sample.headers.deep_view());
    }
    advance(
        *config,
        names,
        cells,
        sample.rows.len(),
        sample.headers.len(),
        sample_rows,
        settled,
        scores,
    )
}

impl CSVMetadata {
    /// Starts the analysis of `csv_data`: reads the header and up to a
    /// thousand rows, and settles the columns up to the first that needs a
    /// score, or all of them.
    ///
    /// The analysis fails where the reading does: on a header that cannot be
    /// read or has no field, as for an input without a header row, and at the
    /// first of the sampled rows that cannot be read or has more fields than
    /// the header.
    pub fn analyze(csv_data: &[u8], config: &Thresholds) -> (outcome: Result<
        AnalysisStep,
        AnalysisError,
    >)
        ensures
            match outcome {
                Ok(step) => {
                    &&& sample_of_content(csv_content(csv_data@)) matches Ok((header, rows))
                    &&& header.len() > 0
                    &&& step.follows(
                        table_of(header, rows),
                        *config,
                        progress(table_of(header, rows), *config, Seq::empty()),
                    )
                },
                Err(error) => sample_of_content(csv_content(csv_data@)) == Err::<
                    (Fields, Seq<Fields>),
                    _,
                >(error@),
            },
            outcome matches Err(AnalysisError::HeaderRead(_)) <==> (csv_content(
                csv_data@,
            ).header is Err || csv_content(csv_data@).header == Ok::<Fields, Seq<char>>(
                Seq::empty(),
            )),
    {
        match read_sample(csv_data) {
            Ok(sample) => Ok(analyze_sample(sample, config)),
            Err(error) => Err(error),
        }
    }

    /// The metadata of the column named `name`.
    pub fn column(&self, name: &str) -> (found: Option<&ColumnMetadata>)
        ensures
            match found {
                Some(column) => exists|i: int|
                    0 <= i < self.columns.len() && #[trigger] self.columns[i] == *column
                        && column.name@ == name@ && forall|k: int|
                        0 <= k < i ==> (#[trigger] self.columns[k]).name@ != name@,
                None => forall|i: int|
                    0 <= i < self.columns.len() ==> (#[trigger] self.columns[i]).name@ != name@,
            },
    {
        let sought = name.to_owned();
        let mut i: usize = 0;
        while i < self.columns.len()
            invariant
                i <= self.columns.len(),
                sought@ == name@,
                forall|k: int| 0 <= k < i ==> (#[trigger] self.columns[k]).name@ != name@,
            decreases self.columns.len() - i,
        {
            if self.columns[i].name == sought {
                return Some(&self.columns[i]);
            }
            i += 1;
        }
        None
    }
}

} // verus!
