//! The accumulator of one column, and the type that a column resolves to.
//!
//! Every cell of a column is folded into four facts: whether all cells that
//! are not blank read as integers, as floats, as booleans; which distinct
//! values were seen; and how many cells there were, blank or not. A flag that
//! a cell has turned off stays off.

use vstd::prelude::*;
use vstd::string::*;
use crate::candidates::{
    boolean_candidate, could_be_boolean, could_be_float, could_be_integer, float_candidate,
    integer_candidate,
};
use crate::frequency::distinct;
use crate::statistical_methods::{analyze_distribution, is_categorical, Thresholds};
use crate::text::{is_blank, is_blank_text, push_string};
use crate::types::{ColumnMetadata, ColumnRecord, DataType};

verus! {

/// The most sample values that a column's metadata holds.
pub const MAX_SAMPLE_VALUES: usize = 5;

/// What the cells of a column add up to, as mathematical values.
pub struct ColumnFold {
    pub could_be_integer: bool,
    pub could_be_float: bool,
    pub could_be_boolean: bool,
    pub unique_values: Seq<Seq<char>>,
    pub total_values: nat,
    pub non_empty_values: nat,
}

impl ColumnFold {
    /// The fold of no cells: every flag on, nothing seen.
    pub open spec fn start() -> ColumnFold {
        ColumnFold {
            could_be_integer: true,
            could_be_float: true,
            could_be_boolean: true,
            unique_values: Seq::empty(),
            total_values: 0,
            non_empty_values: 0,
        }
    }

    /// The fold after one more cell. A blank cell is counted and nothing
    /// else; any other cell narrows the flags and joins the distinct values.
    pub open spec fn observe(self, value: Seq<char>) -> ColumnFold {
        if is_blank(value) {
            ColumnFold { total_values: self.total_values + 1, ..self }
        } else {
            ColumnFold {
                could_be_integer: self.could_be_integer && integer_candidate(value),
                could_be_float: self.could_be_float && float_candidate(value),
                could_be_boolean: self.could_be_boolean && boolean_candidate(value),
                unique_values: if self.unique_values.contains(value) {
                    self.unique_values
                } else {
                    self.unique_values.push(value)
                },
                total_values: self.total_values + 1,
                non_empty_values: self.non_empty_values + 1,
            }
        }
    }

    /// The fold of `values`, cell by cell from the first.
    pub open spec fn of(values: Seq<Seq<char>>) -> ColumnFold
        decreases values.len(),
    {
        if values.len() == 0 {
            ColumnFold::start()
        } else {
            ColumnFold::of(values.drop_last()).observe(values.last())
        }
    }
}

/// The cells of `values` that are not blank, in order.
pub open spec fn non_blank(values: Seq<Seq<char>>) -> Seq<Seq<char>>
    decreases values.len(),
{
    if values.len() == 0 {
        Seq::empty()
    } else if is_blank(values.last()) {
        non_blank(values.drop_last())
    } else {
        non_blank(values.drop_last()).push(values.last())
    }
}

/// The type that a column resolves to. Boolean comes first, for a column of
/// at most two distinct values; then the numeric types; the categorical
/// verdict is asked only where none of them fits.
pub open spec fn best_type(fold: ColumnFold, could_be_enum: bool) -> DataType {
    if fold.unique_values.len() == 0 {
        DataType::Text
    } else if fold.could_be_boolean && fold.unique_values.len() <= 2 {
        DataType::Boolean
    } else if fold.could_be_integer {
        DataType::Integer
    } else if fold.could_be_float {
        DataType::Float
    } else if could_be_enum {
        DataType::Enum
    } else {
        DataType::Text
    }
}

/// Whether the cells of a column are categorical: the verdict on those that
/// are not blank.
pub open spec fn enum_candidate(values: Seq<Seq<char>>, config: Thresholds, scored: nat) -> bool {
    is_categorical(non_blank(values), config, scored)
}

/// The first values of `values`, five at most.
pub open spec fn sample_of(values: Seq<Seq<char>>) -> Seq<Seq<char>> {
    if values.len() <= MAX_SAMPLE_VALUES {
        values
    } else {
        values.take(MAX_SAMPLE_VALUES as int)
    }
}

/// The metadata of a column named `name` whose fold is `fold`.
pub open spec fn record_of(name: Seq<char>, fold: ColumnFold, could_be_enum: bool) -> ColumnRecord {
    ColumnRecord {
        name,
        data_type: best_type(fold, could_be_enum),
        sample_values: sample_of(fold.unique_values),
        nullable: fold.non_empty_values < fold.total_values,
        unique_count: fold.unique_values.len(),
        numeric_stats: None,
        string_stats: None,
    }
}

/// The metadata of a column named `name` with the cells `values`.
pub open spec fn column_record(
    name: Seq<char>,
    values: Seq<Seq<char>>,
    config: Thresholds,
    scored: nat,
) -> ColumnRecord {
    record_of(name, ColumnFold::of(values), enum_candidate(values, config, scored))
}

/// The accumulator of one column.
#[derive(Clone, Debug)]
pub struct ColumnAnalysis {
    pub could_be_integer: bool,
    pub could_be_float: bool,
    pub could_be_boolean: bool,
    pub could_be_enum: bool,
    /// The distinct values that are not blank, in the order of first
    /// appearance.
    pub unique_values: Vec<String>,
    pub total_values: usize,
    pub non_empty_values: usize,
}

impl View for ColumnAnalysis {
    type V = ColumnFold;

    open spec fn view(&self) -> ColumnFold {
        ColumnFold {
            could_be_integer: self.could_be_integer,
            could_be_float: self.could_be_float,
            could_be_boolean: self.could_be_boolean,
            unique_values: self.unique_values.deep_view(),
            total_values: self.total_values as nat,
            non_empty_values: self.non_empty_values as nat,
        }
    }
}

/// Whether `list` holds a string equal to `value`.
pub fn contains_string(list: &Vec<String>, value: &str) -> (found: bool)
    ensures
        found == list.deep_view().contains(value@),
{
    let sought = value.to_owned();
    let mut i: usize = 0;
    while i < list.len()
        invariant
            i <= list.len(),
            sought@ == value@,
            forall|k: int| 0 <= k < i ==> list.deep_view()[k] != value@,
        decreases list.len() - i,
    {
        if list[i] == sought {
            assert(list.deep_view()[i as int] == value@);
            return true;
        }
        i += 1;
    }
    false
}

impl ColumnAnalysis {
    /// An accumulator that has seen nothing.
    pub fn new() -> (analysis: ColumnAnalysis)
        ensures
            analysis@ == ColumnFold::start(),
            analysis.could_be_enum,
    {
        let analysis = ColumnAnalysis {
            could_be_integer: true,
            could_be_float: true,
            could_be_boolean: true,
            could_be_enum: true,
            unique_values: Vec::new(),
            total_values: 0,
            non_empty_values: 0,
        };
        assert(analysis.unique_values.deep_view() =~= Seq::empty());
        analysis
    }

    /// Folds one cell into the accumulator. No flag that is off comes back on.
    pub fn observe(&mut self, value: &str)
        requires
            old(self).total_values < usize::MAX,
            old(self).non_empty_values < usize::MAX,
        ensures
            final(self)@ == old(self)@.observe(value@),
            final(self).could_be_enum == old(self).could_be_enum,
            !old(self).could_be_integer ==> !final(self).could_be_integer,
            !old(self).could_be_float ==> !final(self).could_be_float,
            !old(self).could_be_boolean ==> !final(self).could_be_boolean,
    {
        self.total_values = self.total_values + 1;
        if !is_blank_text(value) {
            self.non_empty_values = self.non_empty_values + 1;
            if !contains_string(&self.unique_values, value) {
                push_string(&mut self.unique_values, value.to_string());
            }
            self.could_be_integer = self.could_be_integer && could_be_integer(value);
            self.could_be_float = self.could_be_float && could_be_float(value);
            self.could_be_boolean = self.could_be_boolean && could_be_boolean(value);
        }
    }
}

/// The fold of a column counts its cells, holds the distinct ones among those
/// that are not blank, and keeps a flag exactly when every cell that is not
/// blank has the property.
pub proof fn lemma_fold_counts(values: Seq<Seq<char>>)
    ensures
        ColumnFold::of(values).total_values == values.len(),
        ColumnFold::of(values).non_empty_values == non_blank(values).len(),
        ColumnFold::of(values).non_empty_values <= values.len(),
        ColumnFold::of(values).unique_values == distinct(non_blank(values)),
        ColumnFold::of(values).could_be_integer <==> forall|i: int|
            0 <= i < values.len() ==> is_blank(#[trigger] values[i]) || integer_candidate(
                values[i],
            ),
        ColumnFold::of(values).could_be_float <==> forall|i: int|
            0 <= i < values.len() ==> is_blank(#[trigger] values[i]) || float_candidate(values[i]),
        ColumnFold::of(values).could_be_boolean <==> forall|i: int|
            0 <= i < values.len() ==> is_blank(#[trigger] values[i]) || boolean_candidate(
                values[i],
            ),
    decreases values.len(),
{
    if values.len() > 0 {
        let before = values.drop_last();
        let last = values.last();
        lemma_fold_counts(before);
        assert forall|i: int| 0 <= i < before.len() implies before[i] == values[i] by {}
        let fold = ColumnFold::of(values);
        if fold.could_be_integer {
            assert forall|i: int| 0 <= i < values.len() implies is_blank(#[trigger] values[i])
                || integer_candidate(values[i]) by {
                if i < before.len() {
                    assert(before[i] == values[i]);
                }
            }
        } else if ColumnFold::of(before).could_be_integer {
            assert(!(is_blank(values[values.len() - 1]) || integer_candidate(
                values[values.len() - 1],
            )));
        } else {
            let i = choose|i: int|
                0 <= i < before.len() && !(is_blank(#[trigger] before[i]) || integer_candidate(
                    before[i],
                ));
            assert(before[i] == values[i]);
        }
        if fold.could_be_float {
            assert forall|i: int| 0 <= i < values.len() implies is_blank(#[trigger] values[i])
                || float_candidate(values[i]) by {
                if i < before.len() {
                    assert(before[i] == values[i]);
                }
            }
        } else if ColumnFold::of(before).could_be_float {
            assert(!(is_blank(values[values.len() - 1]) || float_candidate(
                values[values.len() - 1],
            )));
        } else {
            let i = choose|i: int|
                0 <= i < before.len() && !(is_blank(#[trigger] before[i]) || float_candidate(
                    before[i],
                ));
            assert(before[i] == values[i]);
        }
        if fold.could_be_boolean {
            assert forall|i: int| 0 <= i < values.len() implies is_blank(#[trigger] values[i])
                || boolean_candidate(values[i]) by {
                if i < before.len() {
                    assert(before[i] == values[i]);
                }
            }
        } else if ColumnFold::of(before).could_be_boolean {
            assert(!(is_blank(values[values.len() - 1]) || boolean_candidate(
                values[values.len() - 1],
            )));
        } else {
            let i = choose|i: int|
                0 <= i < before.len() && !(is_blank(#[trigger] before[i]) || boolean_candidate(
                    before[i],
                ));
            assert(before[i] == values[i]);
        }
        if !is_blank(last) {
            assert(non_blank(values).drop_last() =~= non_blank(before));
        }
    }
}

/// Once a flag is off after some cells of a column, it is off after all of
/// them, whatever the later cells hold.
pub proof fn law_flags_never_recover(values: Seq<Seq<char>>, seen: int)
    requires
        0 <= seen <= values.len(),
    ensures
        !ColumnFold::of(values.take(seen)).could_be_integer ==> !ColumnFold::of(
            values,
        ).could_be_integer,
        !ColumnFold::of(values.take(seen)).could_be_float ==> !ColumnFold::of(
            values,
        ).could_be_float,
        !ColumnFold::of(values.take(seen)).could_be_boolean ==> !ColumnFold::of(
            values,
        ).could_be_boolean,
    decreases values.len() - seen,
{
    if seen == values.len() {
        assert(values.take(seen) =~= values);
    } else {
        assert(values.drop_last().take(seen) =~= values.take(seen));
        law_flags_never_recover(values.drop_last(), seen);
    }
}

/// A column with fewer cells than are judged at all is never an enum,
/// however its cells repeat and whatever score is offered.
pub proof fn law_short_columns_are_never_enums(
    values: Seq<Seq<char>>,
    config: Thresholds,
    scored: nat,
)
    requires
        values.len() < config.min_total_values,
    ensures
        !enum_candidate(values, config, scored),
        column_record(Seq::empty(), values, config, scored).data_type != DataType::Enum,
{
    lemma_fold_counts(values);
}

/// The cells of `values` that are not blank, in order.
pub fn non_blank_values(values: &[String]) -> (kept: Vec<String>)
    ensures
        kept.deep_view() == non_blank(values.deep_view()),
{
    let mut kept: Vec<String> = Vec::new();
    let ghost all = values.deep_view();
    let mut i: usize = 0;
    assert(kept.deep_view() =~= Seq::empty());
    assert(all.take(0) =~= Seq::empty());
    while i < values.len()
        invariant
            i <= values.len(),
            all == values.deep_view(),
            kept.deep_view() == non_blank(all.take(i as int)),
        decreases values.len() - i,
    {
        let ghost next = all.take(i + 1);
        assert(next.drop_last() =~= all.take(i as int));
        assert(next.last() == values[i as int]@);
        if !is_blank_text(values[i].as_str()) {
            push_string(&mut kept, values[i].clone());
        }
        i += 1;
    }
    assert(all.take(i as int) =~= all);
    kept
}

/// Folds the cells of a column, with every flag but the categorical one
/// settled. That one is left on.
pub fn accumulate(values: &[String]) -> (analysis: ColumnAnalysis)
    ensures
        analysis@ == ColumnFold::of(values.deep_view()),
        analysis.could_be_enum,
{
    let mut analysis = ColumnAnalysis::new();
    let ghost all = values.deep_view();
    let mut i: usize = 0;
    assert(all.take(0) =~= Seq::empty());
    while i < values.len()
        invariant
            i <= values.len(),
            all == values.deep_view(),
            analysis@ == ColumnFold::of(all.take(i as int)),
            analysis.could_be_enum,
        decreases values.len() - i,
    {
        let ghost next = all.take(i + 1);
        proof {
            assert(next.drop_last() =~= all.take(i as int));
            assert(next.last() == values[i as int]@);
            lemma_fold_counts(all.take(i as int));
        }
        analysis.observe(values[i].as_str());
        i += 1;
    }
    assert(all.take(i as int) =~= all);
    analysis
}

/// Whether the cells of a column are categorical. `scored_confidence` is the
/// score of the frequencies of the cells that are not blank, in millionths;
/// it is read only where the screening of those cells is undecided.
pub fn could_be_enum(values: &[String], config: &Thresholds, scored_confidence: u64) -> (candidate:
    bool)
    ensures
        candidate == enum_candidate(values.deep_view(), *config, scored_confidence as nat),
{
    let kept = non_blank_values(values);
    let cells = kept.as_slice();
    assert(cells.deep_view() =~= kept.deep_view());
    let analysis = analyze_distribution(cells, config, scored_confidence);
    analysis.is_categorical
}

/// The accumulator of a column after all its cells, the categorical flag
/// included. `scored_confidence` is as in `could_be_enum`.
pub fn analyze_column(values: &[String], config: &Thresholds, scored_confidence: u64) -> (analysis:
    ColumnAnalysis)
    ensures
        analysis@ == ColumnFold::of(values.deep_view()),
        analysis.could_be_enum == enum_candidate(
            values.deep_view(),
            *config,
            scored_confidence as nat,
        ),
{
    let mut analysis = accumulate(values);
    analysis.could_be_enum = could_be_enum(values, config, scored_confidence);
    analysis
}

/// The type that the column resolves to.
pub fn determine_best_type(analysis: &ColumnAnalysis) -> (data_type: DataType)
    ensures
        data_type == best_type(analysis@, analysis.could_be_enum),
{
    if analysis.unique_values.len() == 0 {
        return DataType::Text;
    }
    if analysis.could_be_boolean && analysis.unique_values.len() <= 2 {
        DataType::Boolean
    } else if analysis.could_be_integer {
        DataType::Integer
    } else if analysis.could_be_float {
        DataType::Float
    } else if analysis.could_be_enum {
        DataType::Enum
    } else {
        DataType::Text
    }
}

/// The metadata of the column `name` whose cells added up to `analysis`.
pub fn column_metadata(name: &str, analysis: &ColumnAnalysis) -> (metadata: ColumnMetadata)
    ensures
        metadata@ == record_of(name@, analysis@, analysis.could_be_enum),
{
    let data_type = determine_best_type(analysis);
    let mut sample_values: Vec<String> = Vec::new();
    let mut i: usize = 0;
    assert(sample_values.deep_view() =~= Seq::empty());
    assert(analysis.unique_values.deep_view().take(0) =~= Seq::empty());
    while i < analysis.unique_values.len() && i < MAX_SAMPLE_VALUES
        invariant
            i <= analysis.unique_values.len(),
            i <= MAX_SAMPLE_VALUES,
            sample_values.deep_view() == analysis.unique_values.deep_view().take(i as int),
        decreases analysis.unique_values.len() - i,
    {
        push_string(&mut sample_values, analysis.unique_values[i].clone());
        assert(sample_values.deep_view() =~= analysis.unique_values.deep_view().take(i + 1));
        i += 1;
    }
    assert(sample_values.deep_view() =~= sample_of(analysis.unique_values.deep_view()));
    ColumnMetadata {
        name: name.to_string(),
        data_type,
        sample_values,
        nullable: analysis.non_empty_values < analysis.total_values,
        unique_count: analysis.unique_values.len(),
        numeric_stats: None,
        string_stats: None,
    }
}

/// A column of truth values is Boolean and a column of integers is Integer,
/// whatever the categorical verdict on it.
pub proof fn law_structure_beats_statistics(fold: ColumnFold)
    ensures
        best_type(fold, true) != best_type(fold, false) ==> !fold.could_be_integer
            && !fold.could_be_float && !(fold.could_be_boolean && fold.unique_values.len() <= 2),
        fold.unique_values.len() > 0 && fold.could_be_boolean && fold.unique_values.len() <= 2
            ==> best_type(fold, true) == DataType::Boolean,
        fold.unique_values.len() > 2 && fold.could_be_integer ==> best_type(fold, true)
            == DataType::Integer,
        fold.unique_values.len() > 0 && !fold.could_be_boolean && fold.could_be_integer
            ==> best_type(fold, true) == DataType::Integer,
{
}

} // verus!
