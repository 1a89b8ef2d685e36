//! Whether the values of a column are drawn from a small set of categories.
//!
//! The decision has two stages. The quick check rejects a column on counts
//! alone. What it lets through is either accepted at once, as a small set
//! whose every category is well represented, or left undecided: an undecided
//! column needs a confidence score, which is computed elsewhere from the
//! frequencies and handed in as a number of millionths.

use vstd::prelude::*;
use crate::frequency::{
    counted_total, distinct, lemma_distinct_is_duplicate_free, lemma_distinct_len,
    lemma_tally_totals, repeated_total, tally, FrequencyTable,
};

verus! {

/// The number of millionths in one.
pub const MILLION: u32 = 1_000_000;

/// The largest number of categories that is accepted without a score.
pub const SMALL_SET_CATEGORIES: usize = 8;

/// The thresholds of the decision. Shares and confidences are in millionths.
#[derive(Clone, Copy, Debug, PartialEq, Eq, Structural)]
pub struct Thresholds {
    /// The fewest values that are judged at all.
    pub min_total_values: usize,
    /// The most categories that a categorical column may have.
    pub max_categories: usize,
    /// The share of all values that makes a category significant.
    pub min_category_size_ratio: u32,
    /// The confidence that a scored column has to exceed.
    pub confidence_threshold: u32,
}

/// The thresholds in use where none are given: ten values, twenty categories,
/// a share of two hundredths and a confidence of seven tenths.
pub open spec fn standard_thresholds() -> Thresholds {
    Thresholds {
        min_total_values: 10,
        max_categories: 20,
        min_category_size_ratio: 20_000,
        confidence_threshold: 700_000,
    }
}

impl Default for Thresholds {
    fn default() -> (thresholds: Thresholds)
        ensures
            thresholds == standard_thresholds(),
    {
        Thresholds {
            min_total_values: 10,
            max_categories: 20,
            min_category_size_ratio: 20_000,
            confidence_threshold: 700_000,
        }
    }
}

/// What the first stage and the shortcut make of a column.
#[derive(Clone, Copy, Debug, PartialEq, Eq, Structural)]
pub enum Screening {
    /// Not categorical, whatever a score would say.
    Rejected,
    /// Categorical without a score: few categories, each of them significant.
    Categorical,
    /// The confidence score decides.
    Undecided,
}

/// The size that a category must reach to be significant among `total`
/// values: the configured share of them, rounded down.
pub open spec fn min_category_size(total: nat, config: Thresholds) -> nat {
    total * config.min_category_size_ratio as nat / 1_000_000
}

/// Whether some count of `table` is `size` or more.
pub open spec fn some_count_reaches(table: Seq<(Seq<char>, nat)>, size: nat) -> bool {
    exists|i: int| 0 <= i < table.len() && (#[trigger] table[i]).1 >= size
}

/// Whether every count of `table` is `size` or more.
pub open spec fn every_count_reaches(table: Seq<(Seq<char>, nat)>, size: nat) -> bool {
    forall|i: int| 0 <= i < table.len() ==> (#[trigger] table[i]).1 >= size
}

/// The frequencies that the quick check reports: none where the values are
/// too few to be judged, else their tally.
pub open spec fn checked_frequencies(values: Seq<Seq<char>>, config: Thresholds) -> Seq<
    (Seq<char>, nat),
> {
    if values.len() < config.min_total_values {
        Seq::empty()
    } else {
        tally(values)
    }
}

/// Whether the quick check lets `values` through: they are enough, some value
/// repeats, the categories are not too many, and one of them is significant.
pub open spec fn should_analyze(values: Seq<Seq<char>>, config: Thresholds) -> bool {
    &&& values.len() >= config.min_total_values
    &&& tally(values).len() != values.len()
    &&& tally(values).len() <= config.max_categories
    &&& some_count_reaches(tally(values), min_category_size(values.len(), config))
}

/// The screening of a quick check's result.
pub open spec fn screening_of_check(
    should_analyze: bool,
    table: Seq<(Seq<char>, nat)>,
    total: nat,
    config: Thresholds,
) -> Screening {
    if !should_analyze {
        Screening::Rejected
    } else if table.len() <= SMALL_SET_CATEGORIES && total >= config.min_total_values
        && every_count_reaches(table, min_category_size(total, config)) {
        Screening::Categorical
    } else {
        Screening::Undecided
    }
}

/// The screening of the values of a column.
pub open spec fn screening_of(values: Seq<Seq<char>>, config: Thresholds) -> Screening {
    screening_of_check(
        should_analyze(values, config),
        checked_frequencies(values, config),
        values.len(),
        config,
    )
}

/// The confidence of a decision: none for a rejected column, full for one
/// accepted without a score, else the score, capped at one.
pub open spec fn confidence_of(screening: Screening, scored: nat) -> nat {
    match screening {
        Screening::Rejected => 0,
        Screening::Categorical => MILLION as nat,
        Screening::Undecided => if scored > MILLION {
            MILLION as nat
        } else {
            scored
        },
    }
}

/// The decision: an undecided column is categorical exactly when its
/// confidence exceeds the threshold.
pub open spec fn verdict_of(screening: Screening, scored: nat, config: Thresholds) -> bool {
    match screening {
        Screening::Rejected => false,
        Screening::Categorical => true,
        Screening::Undecided => confidence_of(screening, scored) > config.confidence_threshold,
    }
}

/// Whether `values` are categorical, given the score that an undecided
/// screening would need.
pub open spec fn is_categorical(values: Seq<Seq<char>>, config: Thresholds, scored: nat) -> bool {
    verdict_of(screening_of(values, config), scored, config)
}

/// The result of the quick check.
#[derive(Clone, Debug)]
pub struct QuickCheck {
    pub should_analyze: bool,
    pub frequencies: FrequencyTable,
    pub total_count: usize,
}

/// What the scoring stage reads and what a reader may want to see of a
/// decision. The ratios follow from the counts: the unique ratio is the number
/// of categories over `total_count`, the repeat ratio `repeated_count` over it.
#[derive(Clone, Debug)]
pub struct DebugInfo {
    pub total_count: usize,
    pub repeated_count: usize,
    pub value_frequencies: FrequencyTable,
}

/// The decision on one column. `confidence_score` is in millionths.
#[derive(Clone, Debug)]
pub struct DistributionAnalysis {
    pub is_categorical: bool,
    pub category_count: usize,
    pub confidence_score: u32,
    pub debug_info: DebugInfo,
}

fn category_size(total: usize, config: &Thresholds) -> (size: u128)
    ensures
        size == min_category_size(total as nat, *config),
{
    assert(total as nat * config.min_category_size_ratio as nat <= usize::MAX * u32::MAX)
        by (nonlinear_arith)
        requires
            total <= usize::MAX,
            config.min_category_size_ratio <= u32::MAX,
    ;
    (total as u128) * (config.min_category_size_ratio as u128) / 1_000_000
}

fn any_count_reaches(table: &FrequencyTable, size: u128) -> (reached: bool)
    ensures
        reached == some_count_reaches(table@, size as nat),
{
    let mut i: usize = 0;
    while i < table.len()
        invariant
            i <= table@.len(),
            forall|k: int| 0 <= k < i ==> (#[trigger] table@[k]).1 < size,
        decreases table@.len() - i,
    {
        if table.count(i) as u128 >= size {
            return true;
        }
        i += 1;
    }
    false
}

fn all_counts_reach(table: &FrequencyTable, size: u128) -> (reached: bool)
    ensures
        reached == every_count_reaches(table@, size as nat),
{
    let mut i: usize = 0;
    while i < table.len()
        invariant
            i <= table@.len(),
            forall|k: int| 0 <= k < i ==> (#[trigger] table@[k]).1 >= size,
        decreases table@.len() - i,
    {
        if (table.count(i) as u128) < size {
            return false;
        }
        i += 1;
    }
    true
}

/// The first stage: counts the values and decides whether they deserve the
/// second.
pub fn quick_frequency_check(values: &[String], config: &Thresholds) -> (check: QuickCheck)
    ensures
        check.total_count == values.len(),
        check.frequencies@ == checked_frequencies(values.deep_view(), *config),
        check.should_analyze == should_analyze(values.deep_view(), *config),
{
    let total_count = values.len();
    assert(values.deep_view().len() == values.len());
    if total_count < config.min_total_values {
        return QuickCheck { should_analyze: false, frequencies: FrequencyTable::new(), total_count };
    }
    let frequencies = FrequencyTable::of(values);
    let unique_count = frequencies.len();
    if unique_count == total_count || unique_count > config.max_categories {
        return QuickCheck { should_analyze: false, frequencies, total_count };
    }
    let size = category_size(total_count, config);
    let has_significant_categories = any_count_reaches(&frequencies, size);
    QuickCheck { should_analyze: has_significant_categories, frequencies, total_count }
}

impl QuickCheck {
    /// What the check and the shortcut make of the column.
    pub open spec fn screening(&self, config: Thresholds) -> Screening {
        screening_of_check(
            self.should_analyze,
            self.frequencies@,
            self.total_count as nat,
            config,
        )
    }

    /// Whether the column is rejected, accepted at once, or needs a score.
    pub fn screen(&self, config: &Thresholds) -> (screening: Screening)
        ensures
            screening == self.screening(*config),
    {
        if !self.should_analyze {
            Screening::Rejected
        } else if self.frequencies.len() <= SMALL_SET_CATEGORIES && self.total_count
            >= config.min_total_values && all_counts_reach(
            &self.frequencies,
            category_size(self.total_count, config),
        ) {
            Screening::Categorical
        } else {
            Screening::Undecided
        }
    }
}

/// The counts of a prefix of a table add up to no more than those of the
/// whole.
proof fn lemma_counted_total_prefix(table: Seq<(Seq<char>, nat)>, upto: int)
    requires
        0 <= upto <= table.len(),
    ensures
        counted_total(table.take(upto)) <= counted_total(table),
    decreases table.len() - upto,
{
    if upto == table.len() {
        assert(table.take(upto) =~= table);
    } else {
        assert(table.drop_last().take(upto) =~= table.take(upto));
        lemma_counted_total_prefix(table.drop_last(), upto);
    }
}

/// The number of occurrences that belong to a repeated value.
fn repeating_values(table: &FrequencyTable) -> (repeated: usize)
    requires
        counted_total(table@) <= usize::MAX,
    ensures
        repeated == repeated_total(table@),
{
    let mut repeated: usize = 0;
    let mut i: usize = 0;
    assert(table@.take(0) =~= Seq::empty());
    while i < table.len()
        invariant
            i <= table@.len(),
            repeated == repeated_total(table@.take(i as int)),
            repeated <= counted_total(table@.take(i as int)),
            counted_total(table@) <= usize::MAX,
        decreases table@.len() - i,
    {
        let ghost next = table@.take(i + 1);
        proof {
            assert(next.drop_last() =~= table@.take(i as int));
            assert(next.last() == table@[i as int]);
            lemma_counted_total_prefix(table@, i + 1);
        }
        let count = table.count(i);
        if count > 1 {
            repeated = repeated + count;
        }
        i += 1;
    }
    assert(table@.take(i as int) =~= table@);
    repeated
}

impl Screening {
    /// The confidence of the decision, in millionths. `scored_confidence` is
    /// read only where the screening is undecided.
    pub fn confidence(self, scored_confidence: u64) -> (confidence: u32)
        ensures
            confidence == confidence_of(self, scored_confidence as nat),
            confidence <= MILLION,
    {
        match self {
            Screening::Rejected => 0,
            Screening::Categorical => MILLION,
            Screening::Undecided => if scored_confidence > MILLION as u64 {
                MILLION
            } else {
                scored_confidence as u32
            },
        }
    }

    /// The decision. `scored_confidence` is read only where the screening is
    /// undecided.
    pub fn verdict(self, config: &Thresholds, scored_confidence: u64) -> (categorical: bool)
        ensures
            categorical == verdict_of(self, scored_confidence as nat, *config),
    {
        match self {
            Screening::Rejected => false,
            Screening::Categorical => true,
            Screening::Undecided => self.confidence(scored_confidence)
                > config.confidence_threshold,
        }
    }
}

/// Both stages. `scored_confidence` is the score of the frequencies of
/// `values` in millionths; it is read only where the screening is undecided.
pub fn analyze_distribution(
    values: &[String],
    config: &Thresholds,
    scored_confidence: u64,
) -> (analysis: DistributionAnalysis)
    ensures
        analysis.is_categorical == is_categorical(
            values.deep_view(),
            *config,
            scored_confidence as nat,
        ),
        analysis.category_count == checked_frequencies(values.deep_view(), *config).len(),
        analysis.confidence_score == confidence_of(
            screening_of(values.deep_view(), *config),
            scored_confidence as nat,
        ),
        analysis.confidence_score <= MILLION,
        analysis.debug_info.total_count == values.len(),
        analysis.debug_info.repeated_count == repeated_total(
            checked_frequencies(values.deep_view(), *config),
        ),
        analysis.debug_info.value_frequencies@ == checked_frequencies(values.deep_view(), *config),
{
    let quick_check = quick_frequency_check(values, config);
    let screening = quick_check.screen(config);
    assert(values.deep_view().len() == values.len());
    let is_categorical = screening.verdict(config, scored_confidence);
    let confidence_score = screening.confidence(scored_confidence);
    proof {
        lemma_tally_totals(values.deep_view());
    }
    create_analysis(
        is_categorical,
        confidence_score,
        quick_check.frequencies.len(),
        quick_check.frequencies,
        quick_check.total_count,
    )
}

fn create_analysis(
    is_categorical: bool,
    confidence_score: u32,
    category_count: usize,
    frequencies: FrequencyTable,
    total_count: usize,
) -> (analysis: DistributionAnalysis)
    requires
        counted_total(frequencies@) <= usize::MAX,
    ensures
        analysis.is_categorical == is_categorical,
        analysis.confidence_score == confidence_score,
        analysis.category_count == category_count,
        analysis.debug_info.total_count == total_count,
        analysis.debug_info.repeated_count == repeated_total(frequencies@),
        analysis.debug_info.value_frequencies@ == frequencies@,
{
    let repeated_count = repeating_values(&frequencies);
    DistributionAnalysis {
        is_categorical,
        category_count,
        confidence_score,
        debug_info: DebugInfo { total_count, repeated_count, value_frequencies: frequencies },
    }
}

/// Too few values are never categorical, however they repeat and whatever
/// score is offered.
pub proof fn law_few_values_are_never_categorical(
    values: Seq<Seq<char>>,
    config: Thresholds,
    scored: nat,
)
    requires
        values.len() < config.min_total_values,
    ensures
        !should_analyze(values, config),
        screening_of(values, config) == Screening::Rejected,
        !is_categorical(values, config, scored),
{
}

/// Values that are all different are never categorical, however many they are
/// and whatever score is offered.
pub proof fn law_distinct_values_are_never_categorical(
    values: Seq<Seq<char>>,
    config: Thresholds,
    scored: nat,
)
    requires
        values.no_duplicates(),
    ensures
        !should_analyze(values, config),
        screening_of(values, config) == Screening::Rejected,
        !is_categorical(values, config, scored),
{
    lemma_distinct_len(values);
}

/// Categorical values are enough to be judged, some of them repeat, and
/// their categories are no more than the thresholds allow.
pub proof fn law_categorical_columns_repeat(values: Seq<Seq<char>>, config: Thresholds, scored: nat)
    requires
        is_categorical(values, config, scored),
    ensures
        values.len() >= config.min_total_values,
        distinct(values).len() < values.len(),
        distinct(values).len() <= config.max_categories,
{
    lemma_distinct_is_duplicate_free(values);
}

} // verus!
