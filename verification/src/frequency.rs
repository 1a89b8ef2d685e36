//! Distinct values and how often each occurs: the mathematical functions, and
//! a table that holds them in the order in which the values first appeared.

use vstd::prelude::*;

verus! {

/// How often `value` occurs in `values`.
pub open spec fn occurrences(values: Seq<Seq<char>>, value: Seq<char>) -> nat
    decreases values.len(),
{
    if values.len() == 0 {
        0
    } else {
        occurrences(values.drop_last(), value) + if values.last() == value {
            1nat
        } else {
            0nat
        }
    }
}

/// The values of `values` without repeats, each where it first appeared.
pub open spec fn distinct(values: Seq<Seq<char>>) -> Seq<Seq<char>>
    decreases values.len(),
{
    if values.len() == 0 {
        Seq::empty()
    } else {
        let before = distinct(values.drop_last());
        if before.contains(values.last()) {
            before
        } else {
            before.push(values.last())
        }
    }
}

/// Each distinct value of `values` with the number of its occurrences, in the
/// order of first appearance.
pub open spec fn tally(values: Seq<Seq<char>>) -> Seq<(Seq<char>, nat)> {
    distinct(values).map_values(|value: Seq<char>| (value, occurrences(values, value)))
}

/// The sum of the counts of `table` that are above one: the number of
/// occurrences that belong to a repeated value.
pub open spec fn repeated_total(table: Seq<(Seq<char>, nat)>) -> nat
    decreases table.len(),
{
    if table.len() == 0 {
        0
    } else {
        repeated_total(table.drop_last()) + if table.last().1 > 1 {
            table.last().1
        } else {
            0nat
        }
    }
}

/// The sum of all counts of `table`.
pub open spec fn counted_total(table: Seq<(Seq<char>, nat)>) -> nat
    decreases table.len(),
{
    if table.len() == 0 {
        0
    } else {
        counted_total(table.drop_last()) + table.last().1
    }
}

/// A value occurs in a sequence no more often than the sequence is long, and
/// at least once exactly when the sequence contains it.
pub proof fn lemma_occurrences_bounds(values: Seq<Seq<char>>, value: Seq<char>)
    ensures
        occurrences(values, value) <= values.len(),
        occurrences(values, value) > 0 <==> values.contains(value),
    decreases values.len(),
{
    if values.len() > 0 {
        let before = values.drop_last();
        lemma_occurrences_bounds(before, value);
        if before.contains(value) {
            let i = choose|i: int| 0 <= i < before.len() && before[i] == value;
            assert(values[i] == value);
        }
        if values.contains(value) && values.last() != value {
            let i = choose|i: int| 0 <= i < values.len() && values[i] == value;
            assert(before[i] == value);
        }
        if values.last() == value {
            assert(values[values.len() - 1] == value);
        }
    }
}

/// The distinct values of a sequence are its values, none of them twice, and
/// no more than the sequence is long.
pub proof fn lemma_distinct_is_duplicate_free(values: Seq<Seq<char>>)
    ensures
        distinct(values).no_duplicates(),
        distinct(values).len() <= values.len(),
        forall|value: Seq<char>| #[trigger]
            distinct(values).contains(value) <==> values.contains(value),
    decreases values.len(),
{
    if values.len() > 0 {
        let before = values.drop_last();
        let last = values.last();
        lemma_distinct_is_duplicate_free(before);
        let d = distinct(before);
        assert forall|value: Seq<char>| #[trigger]
            distinct(values).contains(value) <==> values.contains(value) by {
            if values.contains(value) {
                let i = choose|i: int| 0 <= i < values.len() && values[i] == value;
                if i < before.len() {
                    assert(before[i] == value);
                    assert(d.contains(value));
                    let j = choose|j: int| 0 <= j < d.len() && d[j] == value;
                    assert(distinct(values)[j] == value);
                } else {
                    if !d.contains(last) {
                        assert(distinct(values)[d.len() as int] == value);
                    }
                }
            }
            if distinct(values).contains(value) {
                let j = choose|j: int| 0 <= j < distinct(values).len() && distinct(values)[j]
                    == value;
                if j < d.len() {
                    assert(d[j] == value);
                    assert(d.contains(value));
                    let i = choose|i: int| 0 <= i < before.len() && before[i] == value;
                    assert(values[i] == value);
                } else {
                    assert(values[values.len() - 1] == value);
                }
            }
        }
    }
}

/// Where no value repeats, the distinct values are all the values; where one
/// does, they are fewer.
pub proof fn lemma_distinct_len(values: Seq<Seq<char>>)
    ensures
        (distinct(values).len() == values.len()) == values.no_duplicates(),
        values.no_duplicates() ==> distinct(values) == values,
    decreases values.len(),
{
    lemma_distinct_is_duplicate_free(values);
    if values.len() > 0 {
        let before = values.drop_last();
        let last = values.last();
        lemma_distinct_len(before);
        lemma_distinct_is_duplicate_free(before);
        if values.no_duplicates() {
            assert(before.no_duplicates());
            if before.contains(last) {
                let i = choose|i: int| 0 <= i < before.len() && before[i] == last;
                assert(values[i] == values[values.len() - 1]);
            }
            assert(distinct(values) =~= values);
        } else {
            let (i, j) = choose|i: int, j: int|
                0 <= i < values.len() && 0 <= j < values.len() && i != j && values[i] == values[j];
            if i < before.len() && j < before.len() {
                assert(before[i] == before[j]);
                assert(!before.no_duplicates());
            } else {
                let k = if i < before.len() {
                    i
                } else {
                    j
                };
                assert(before[k] == last);
                assert(before.contains(last));
            }
        }
    }
}

/// What one more value does to a tally: where the value is known, its count
/// goes up by one; where it is new, it is appended with the count one.
pub proof fn lemma_tally_push(values: Seq<Seq<char>>, value: Seq<char>)
    ensures
        distinct(values).contains(value) ==> tally(values.push(value)) == tally(values).update(
            distinct(values).index_of(value),
            (value, occurrences(values, value) + 1),
        ),
        !distinct(values).contains(value) ==> tally(values.push(value)) == tally(values).push(
            (value, 1nat),
        ),
{
    let longer = values.push(value);
    let d = distinct(values);
    assert(longer.drop_last() =~= values);
    assert(longer.last() == value);
    lemma_distinct_is_duplicate_free(values);
    assert forall|other: Seq<char>|
        occurrences(longer, other) == occurrences(values, other) + if other == value {
            1nat
        } else {
            0nat
        } by {}
    if d.contains(value) {
        let at = d.index_of(value);
        assert(distinct(longer) == d);
        assert forall|k: int| 0 <= k < d.len() implies #[trigger] tally(longer)[k] == tally(
            values,
        ).update(at, (value, occurrences(values, value) + 1))[k] by {
            if k != at {
                assert(d[k] != d[at]);
            }
        }
        assert(tally(longer) =~= tally(values).update(
            at,
            (value, occurrences(values, value) + 1),
        ));
    } else {
        assert(distinct(longer) == d.push(value));
        lemma_occurrences_bounds(values, value);
        assert(!values.contains(value));
        assert forall|k: int| 0 <= k < d.len() + 1 implies #[trigger] tally(longer)[k] == tally(
            values,
        ).push((value, 1nat))[k] by {
            if k < d.len() {
                assert(d.contains(d[k]));
            }
        }
        assert(tally(longer) =~= tally(values).push((value, 1nat)));
    }
}

/// The counts of a table taken together, after one entry changed.
proof fn lemma_counted_total_update(table: Seq<(Seq<char>, nat)>, at: int, entry: (Seq<char>, nat))
    requires
        0 <= at < table.len(),
    ensures
        counted_total(table.update(at, entry)) == counted_total(table) - table[at].1 + entry.1,
    decreases table.len(),
{
    let updated = table.update(at, entry);
    if at == table.len() - 1 {
        assert(updated.drop_last() =~= table.drop_last());
    } else {
        assert(updated.drop_last() =~= table.drop_last().update(at, entry));
        lemma_counted_total_update(table.drop_last(), at, entry);
    }
}

/// The counts of a tally add up to the number of values, and those above one
/// to no more.
pub proof fn lemma_tally_totals(values: Seq<Seq<char>>)
    ensures
        counted_total(tally(values)) == values.len(),
        repeated_total(tally(values)) <= values.len(),
    decreases values.len(),
{
    if values.len() == 0 {
        assert(tally(values) =~= Seq::empty());
    } else {
        let before = values.drop_last();
        let last = values.last();
        lemma_tally_totals(before);
        lemma_tally_push(before, last);
        assert(before.push(last) =~= values);
        let d = distinct(before);
        if d.contains(last) {
            let at = d.index_of(last);
            assert(tally(before)[at].1 == occurrences(before, last));
            lemma_counted_total_update(tally(before), at, (last, occurrences(before, last) + 1));
        } else {
            assert(tally(values).drop_last() =~= tally(before));
        }
    }
    lemma_repeated_within_counted(tally(values));
}

/// The counts above one add up to no more than all counts do.
pub proof fn lemma_repeated_within_counted(table: Seq<(Seq<char>, nat)>)
    ensures
        repeated_total(table) <= counted_total(table),
    decreases table.len(),
{
    if table.len() > 0 {
        lemma_repeated_within_counted(table.drop_last());
    }
}

/// One distinct value with the number of its occurrences.
#[derive(Clone, Debug)]
struct Entry {
    value: String,
    count: usize,
}

/// Distinct values and their counts, in the order of first appearance.
#[derive(Clone, Debug)]
pub struct FrequencyTable {
    entries: Vec<Entry>,
}

impl View for FrequencyTable {
    type V = Seq<(Seq<char>, nat)>;

    closed spec fn view(&self) -> Seq<(Seq<char>, nat)> {
        self.entries@.map_values(|entry: Entry| (entry.value@, entry.count as nat))
    }
}

impl FrequencyTable {
    /// A table without entries.
    pub fn new() -> (table: FrequencyTable)
        ensures
            table@ == Seq::<(Seq<char>, nat)>::empty(),
    {
        let table = FrequencyTable { entries: Vec::new() };
        assert(table@ =~= Seq::empty());
        table
    }

    /// The tally of `values`.
    pub fn of(values: &[String]) -> (table: FrequencyTable)
        ensures
            table@ == tally(values.deep_view()),
    {
        let mut entries: Vec<Entry> = Vec::new();
        let ghost all = values.deep_view();
        let mut i: usize = 0;
        assert(all.take(0) =~= Seq::empty());
        while i < values.len()
            invariant
                i <= values.len(),
                all == values.deep_view(),
                entries@.map_values(|entry: Entry| (entry.value@, entry.count as nat)) == tally(
                    all.take(i as int),
                ),
            decreases values.len() - i,
        {
            let ghost seen = all.take(i as int);
            let ghost value = values[i as int]@;
            let ghost table = entries@.map_values(
                |entry: Entry| (entry.value@, entry.count as nat),
            );
            proof {
                assert(all[i as int] == value);
                assert(all.take(i + 1) =~= seen.push(value));
                lemma_tally_push(seen, value);
                lemma_distinct_is_duplicate_free(seen);
                lemma_occurrences_bounds(seen, value);
            }
            assert(table.len() == distinct(seen).len());
            let mut j: usize = 0;
            while j < entries.len() && !(entries[j].value == values[i])
                invariant
                    j <= entries.len(),
                    entries.len() == distinct(seen).len(),
                    i < values.len(),
                    value == values[i as int]@,
                    table == entries@.map_values(
                        |entry: Entry| (entry.value@, entry.count as nat),
                    ),
                    table == tally(seen),
                    forall|k: int| 0 <= k < j ==> distinct(seen)[k] != value,
                decreases entries.len() - j,
            {
                assert(table[j as int].0 == distinct(seen)[j as int]);
                j += 1;
            }
            if j < entries.len() {
                proof {
                    assert(table[j as int].0 == distinct(seen)[j as int]);
                    assert(distinct(seen)[j as int] == value);
                    assert(distinct(seen).contains(value));
                    assert(distinct(seen).index_of(value) == j);
                    assert(table[j as int].1 == occurrences(seen, value));
                }
                let bumped = Entry { value: entries[j].value.clone(), count: entries[j].count + 1 };
                entries.set(j, bumped);
                assert(entries@.map_values(|entry: Entry| (entry.value@, entry.count as nat))
                    =~= table.update(j as int, (value, occurrences(seen, value) + 1)));
            } else {
                proof {
                    if distinct(seen).contains(value) {
                        let k = choose|k: int| 0 <= k < distinct(seen).len() && distinct(seen)[k]
                            == value;
                        assert(false);
                    }
                }
                entries.push(Entry { value: values[i].clone(), count: 1 });
                assert(entries@.map_values(|entry: Entry| (entry.value@, entry.count as nat))
                    =~= table.push((value, 1nat)));
            }
            i += 1;
        }
        assert(all.take(i as int) =~= all);
        FrequencyTable { entries }
    }

    /// The number of distinct values.
    pub fn len(&self) -> (n: usize)
        ensures
            n == self@.len(),
    {
        self.entries.len()
    }

    /// The value of the entry at `index`.
    pub fn value(&self, index: usize) -> (value: &String)
        requires
            index < self@.len(),
        ensures
            value@ == self@[index as int].0,
    {
        &self.entries[index].value
    }

    /// The count of the entry at `index`.
    pub fn count(&self, index: usize) -> (count: usize)
        requires
            index < self@.len(),
        ensures
            count == self@[index as int].1,
    {
        self.entries[index].count
    }

    /// The counts of all entries, in the table's order.
    pub fn counts(&self) -> (counts: Vec<usize>)
        ensures
            counts@.len() == self@.len(),
            forall|i: int| 0 <= i < counts@.len() ==> counts@[i] == (#[trigger] self@[i]).1,
    {
        let mut counts: Vec<usize> = Vec::new();
        let mut i: usize = 0;
        while i < self.entries.len()
            invariant
                i <= self.entries.len(),
                counts@.len() == i,
                forall|k: int| 0 <= k < i ==> counts@[k] == (#[trigger] self@[k]).1,
            decreases self.entries.len() - i,
        {
            counts.push(self.entries[i].count);
            i += 1;
        }
        counts
    }

    /// The count of `value`, zero where the table does not hold it.
    pub fn get(&self, value: &str) -> (count: usize)
        ensures
            count == count_in(self@, value@),
    {
        let sought = value.to_owned();
        let mut i: usize = 0;
        assert(self@.skip(0) =~= self@);
        while i < self.entries.len()
            invariant
                i <= self.entries.len(),
                sought@ == value@,
                count_in(self@, value@) == count_in(self@.skip(i as int), value@),
            decreases self.entries.len() - i,
        {
            let ghost rest = self@.skip(i as int);
            assert(rest.first() == self@[i as int]);
            assert(rest.drop_first() =~= self@.skip(i + 1));
            if self.entries[i].value == sought {
                return self.entries[i].count;
            }
            i += 1;
        }
        0
    }
}

/// The count that `table` holds for `value`: that of the first entry with the
/// value, zero where there is none.
pub open spec fn count_in(table: Seq<(Seq<char>, nat)>, value: Seq<char>) -> nat
    decreases table.len(),
{
    if table.len() == 0 {
        0
    } else if table.first().0 == value {
        table.first().1
    } else {
        count_in(table.drop_first(), value)
    }
}

} // verus!
