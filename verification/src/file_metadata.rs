//! A first look at comma-separated text, line by line: how many rows and
//! columns it has, how many of its fields are missing or zero, and what the
//! first row suggests for the type of each column. Fields are split at every
//! comma; quotes mean nothing here.

use vstd::prelude::*;
use vstd::string::*;
use crate::candidates::{
    is_float_chars, is_float_text, is_signed_integer_chars, is_signed_integer_text,
};
use crate::entries::{set_entry, with_entry};
use crate::text::{
    chars_of, is_blank, join, joined, lines, lines_of, push_string, split, split_on, trim, trimmed,
    without_carriage_return,
};

verus! {

/// What a first look finds.
#[derive(Clone, Debug)]
pub struct FileMetadata {
    /// The number of lines after the header.
    pub row_count: usize,
    /// The number of fields in the header.
    pub column_count: usize,
    /// The number of blank fields after the header.
    pub missing_values: usize,
    /// The number of fields after the header that are `0` once trimmed.
    pub zero_values: usize,
    /// For each column that the first row has a field for, the name of the
    /// type that the field suggests, in the order of the columns.
    pub column_types: Vec<(String, String)>,
}

/// Whether a field is `0` once trimmed.
pub open spec fn is_zero(field: Seq<char>) -> bool {
    trimmed(field) == seq!['0']
}

/// The number of blank fields among `fields`.
pub open spec fn missing_among(fields: Seq<Seq<char>>) -> nat
    decreases fields.len(),
{
    if fields.len() == 0 {
        0
    } else {
        missing_among(fields.drop_last()) + if is_blank(fields.last()) {
            1nat
        } else {
            0nat
        }
    }
}

/// The number of zero fields among `fields`.
pub open spec fn zeros_among(fields: Seq<Seq<char>>) -> nat
    decreases fields.len(),
{
    if fields.len() == 0 {
        0
    } else {
        zeros_among(fields.drop_last()) + if is_zero(fields.last()) {
            1nat
        } else {
            0nat
        }
    }
}

/// The number of fields in all of `rows`.
pub open spec fn field_total(rows: Seq<Seq<char>>) -> nat
    decreases rows.len(),
{
    if rows.len() == 0 {
        0
    } else {
        field_total(rows.drop_last()) + split_on(rows.last(), ',').len()
    }
}

/// The number of blank fields in all of `rows`.
pub open spec fn missing_total(rows: Seq<Seq<char>>) -> nat
    decreases rows.len(),
{
    if rows.len() == 0 {
        0
    } else {
        missing_total(rows.drop_last()) + missing_among(split_on(rows.last(), ','))
    }
}

/// The number of zero fields in all of `rows`.
pub open spec fn zero_total(rows: Seq<Seq<char>>) -> nat
    decreases rows.len(),
{
    if rows.len() == 0 {
        0
    } else {
        zero_total(rows.drop_last()) + zeros_among(split_on(rows.last(), ','))
    }
}

/// The name of the type that a field suggests. The field is taken as it
/// stands: white space around a number makes it text.
pub open spec fn suggested_type(field: Seq<char>) -> Seq<char> {
    if is_signed_integer_text(field) {
        "Integer"@
    } else if is_float_text(field) {
        "Float"@
    } else {
        "Text"@
    }
}

/// The types that the fields `values` suggest for the columns `columns`. A
/// column name that occurs twice keeps the type of its last field.
pub open spec fn suggested_types(columns: Seq<Seq<char>>, values: Seq<Seq<char>>) -> Seq<
    (Seq<char>, Seq<char>),
>
    decreases values.len(),
{
    if values.len() == 0 {
        Seq::empty()
    } else {
        with_entry(
            suggested_types(columns, values.drop_last()),
            columns[values.len() - 1],
            suggested_type(values.last()),
        )
    }
}

/// The types that the first row of `lines` suggests, if there is one.
pub open spec fn first_row_types(lines: Seq<Seq<char>>) -> Seq<(Seq<char>, Seq<char>)> {
    if lines.len() < 2 {
        Seq::empty()
    } else {
        suggested_types(split_on(lines[0], ','), split_on(lines[1], ','))
    }
}

/// Whether the first row of `content` has no more fields than the header.
pub open spec fn first_row_fits(content: Seq<char>) -> bool {
    lines_of(content).len() >= 2 ==> split_on(lines_of(content)[1], ',').len() <= split_on(
        lines_of(content)[0],
        ',',
    ).len()
}

/// A text splits into at least one piece, and into no more pieces than it
/// has characters and one.
pub proof fn lemma_split_len(s: Seq<char>, separator: char)
    ensures
        1 <= split_on(s, separator).len() <= s.len() + 1,
    decreases s.len(),
{
    if s.len() > 0 {
        lemma_split_len(s.drop_last(), separator);
    }
}

/// The lengths of `pieces` and one for each of them.
pub open spec fn spanned(pieces: Seq<Seq<char>>) -> nat
    decreases pieces.len(),
{
    if pieces.len() == 0 {
        0
    } else {
        spanned(pieces.drop_last()) + pieces.last().len() + 1
    }
}

/// The pieces of a text span it, and one character more.
proof fn lemma_split_spans(s: Seq<char>, separator: char)
    ensures
        spanned(split_on(s, separator)) == s.len() + 1,
    decreases s.len(),
{
    if s.len() == 0 {
        let pieces = split_on(s, separator);
        assert(pieces.drop_last() =~= Seq::empty());
        assert(spanned(pieces.drop_last()) == 0);
        assert(pieces.last().len() == 0);
    } else {
        lemma_split_spans(s.drop_last(), separator);
        lemma_split_len(s.drop_last(), separator);
        let before = split_on(s.drop_last(), separator);
        let pieces = split_on(s, separator);
        if s.last() == separator {
            assert(pieces.drop_last() =~= before);
            assert(pieces.last().len() == 0);
        } else {
            assert(pieces.drop_last() =~= before.drop_last());
            assert(pieces.last().len() == before.last().len() + 1);
            assert(spanned(before) == spanned(before.drop_last()) + before.last().len() + 1);
        }
        assert(spanned(pieces) == spanned(pieces.drop_last()) + pieces.last().len() + 1);
    }
}

/// The fields of rows are no more than the rows span.
proof fn lemma_fields_within_span(rows: Seq<Seq<char>>)
    ensures
        field_total(rows) <= spanned(rows),
    decreases rows.len(),
{
    if rows.len() > 0 {
        lemma_fields_within_span(rows.drop_last());
        lemma_split_len(rows.last(), ',');
    }
}

/// Rows that are no longer than others, one for one, span no more.
proof fn lemma_span_of_shorter(shorter: Seq<Seq<char>>, longer: Seq<Seq<char>>)
    requires
        shorter.len() == longer.len(),
        forall|i: int| 0 <= i < shorter.len() ==> shorter[i].len() <= longer[i].len(),
    ensures
        spanned(shorter) <= spanned(longer),
    decreases shorter.len(),
{
    if shorter.len() > 0 {
        lemma_span_of_shorter(shorter.drop_last(), longer.drop_last());
    }
}

/// The lines of a text span no more than the text and one character.
proof fn lemma_lines_span(s: Seq<char>)
    ensures
        spanned(lines_of(s)) <= s.len() + 1,
{
    let pieces = split_on(s, '\n');
    lemma_split_spans(s, '\n');
    lemma_split_len(s, '\n');
    let ended = pieces.drop_last().map_values(|piece: Seq<char>| without_carriage_return(piece));
    lemma_span_of_shorter(ended, pieces.drop_last());
    if pieces.last().len() > 0 {
        assert(lines_of(s).drop_last() =~= ended);
    }
}

/// The fields of the rows after the first, counted from the first row's.
proof fn lemma_field_total_split(rows: Seq<Seq<char>>)
    requires
        rows.len() > 0,
    ensures
        field_total(rows) == split_on(rows[0], ',').len() + field_total(rows.skip(1)),
    decreases rows.len(),
{
    if rows.len() == 1 {
        assert(rows.drop_last() =~= Seq::empty());
        assert(rows.skip(1) =~= Seq::empty());
    } else {
        lemma_field_total_split(rows.drop_last());
        assert(rows.drop_last().skip(1) =~= rows.skip(1).drop_last());
        assert(rows.skip(1).last() == rows.last());
    }
}

/// The fields of some of the first rows are no more than those of all.
proof fn lemma_field_total_prefix(rows: Seq<Seq<char>>, upto: int)
    requires
        0 <= upto <= rows.len(),
    ensures
        field_total(rows.take(upto)) <= field_total(rows),
    decreases rows.len() - upto,
{
    if upto == rows.len() {
        assert(rows.take(upto) =~= rows);
    } else {
        assert(rows.drop_last().take(upto) =~= rows.take(upto));
        lemma_field_total_prefix(rows.drop_last(), upto);
    }
}

/// The fields after the header of a text are fewer than its characters and
/// one.
pub proof fn lemma_data_fields_fit(content: Seq<char>)
    requires
        lines_of(content).len() > 0,
    ensures
        field_total(lines_of(content).skip(1)) <= content.len(),
{
    let all = lines_of(content);
    lemma_lines_span(content);
    lemma_fields_within_span(all);
    lemma_field_total_split(all);
    lemma_split_len(all[0], ',');
}

/// The missing and the zero fields of rows are no more than their fields.
proof fn lemma_counts_within_fields(fields: Seq<Seq<char>>)
    ensures
        missing_among(fields) + zeros_among(fields) <= fields.len(),
    decreases fields.len(),
{
    if fields.len() > 0 {
        lemma_counts_within_fields(fields.drop_last());
        if is_blank(fields.last()) {
            assert(trimmed(fields.last()).len() == 0);
            assert(seq!['0'].len() == 1);
        }
    }
}

/// The missing and the zero fields of rows are no more than their fields.
proof fn lemma_totals_within_fields(rows: Seq<Seq<char>>)
    ensures
        missing_total(rows) + zero_total(rows) <= field_total(rows),
    decreases rows.len(),
{
    if rows.len() > 0 {
        lemma_totals_within_fields(rows.drop_last());
        lemma_counts_within_fields(split_on(rows.last(), ','));
    }
}

/// The type that a field suggests: `integer`, `float` or `text`, whichever
/// fits first.
fn suggest<'a>(field: &str, integer: &'a str, float: &'a str, text: &'a str) -> (name: &'a str)
    ensures
        name@ == if is_signed_integer_text(field@) {
            integer@
        } else if is_float_text(field@) {
            float@
        } else {
            text@
        },
{
    let chars = chars_of(field);
    if is_signed_integer_chars(&chars) {
        integer
    } else if is_float_chars(&chars) {
        float
    } else {
        text
    }
}

/// Whether a field is `0` once trimmed.
fn is_zero_field(field: &str) -> (zero: bool)
    ensures
        zero == is_zero(field@),
{
    let chars = chars_of(trim(field));
    let zero = chars.len() == 1 && chars[0] == '0';
    assert(zero ==> chars@ =~= seq!['0']);
    zero
}

impl FileMetadata {
    /// Looks at `content`, whose first line is the header.
    ///
    /// There is nothing to look at in a text without lines. The first row
    /// must have a column for each of its fields.
    pub fn analyze_csv(content: &str) -> (outcome: Result<FileMetadata, String>)
        requires
            content@.len() <= usize::MAX,
            first_row_fits(content@),
        ensures
            match outcome {
                Ok(metadata) => {
                    &&& lines_of(content@).len() > 0
                    &&& metadata.row_count == lines_of(content@).len() - 1
                    &&& metadata.column_count == split_on(lines_of(content@)[0], ',').len()
                    &&& metadata.missing_values == missing_total(lines_of(content@).skip(1))
                    &&& metadata.zero_values == zero_total(lines_of(content@).skip(1))
                    &&& metadata.column_types.deep_view() == first_row_types(lines_of(content@))
                },
                Err(message) => lines_of(content@).len() == 0 && message@ == "Empty CSV"@,
            },
    {
        let all = lines(content);
        if all.len() == 0 {
            return Err("Empty CSV".to_string());
        }
        let ghost text = lines_of(content@);
        let ghost rows = text.skip(1);
        let columns = split(all[0], ',');
        assert(columns.deep_view() == split_on(text[0], ','));
        let column_count = columns.len();
        let mut missing_values: usize = 0;
        let mut zero_values: usize = 0;
        let mut column_types: Vec<(String, String)> = Vec::new();
        let mut r: usize = 1;
        proof {
            lemma_data_fields_fit(content@);
            assert(rows.take(0) =~= Seq::empty());
            assert(column_types.deep_view() =~= Seq::empty());
        }
        while r < all.len()
            invariant
                1 <= r <= all.len(),
                text == all.deep_view(),
                rows == text.skip(1),
                columns.deep_view() == split_on(text[0], ','),
                text.len() >= 2 ==> split_on(text[1], ',').len() <= columns.len(),
                field_total(rows) <= usize::MAX,
                missing_values == missing_total(rows.take(r - 1)),
                zero_values == zero_total(rows.take(r - 1)),
                column_types.deep_view() == if r == 1 {
                    Seq::empty()
                } else {
                    first_row_types(text)
                },
            decreases all.len() - r,
        {
            let values = split(all[r], ',');
            let ghost fields = split_on(text[r as int], ',');
            let ghost seen = rows.take(r - 1);
            let ghost next = rows.take(r as int);
            proof {
                assert(rows[r - 1] == text[r as int]);
                assert(next.drop_last() =~= seen);
                assert(next.last() == text[r as int]);
                lemma_field_total_prefix(rows, r as int);
                lemma_totals_within_fields(next);
                lemma_totals_within_fields(seen);
                assert(fields.take(0) =~= Seq::empty());
            }
            let ghost missing_before = missing_values;
            let ghost zeros_before = zero_values;
            let mut i: usize = 0;
            while i < values.len()
                invariant
                    i <= values.len(),
                    values.deep_view() == fields,
                    columns.deep_view() == split_on(text[0], ','),
                    1 <= r < all.len(),
                    text == all.deep_view(),
                    r == 1 ==> fields.len() <= columns.len(),
                    missing_values == missing_before + missing_among(fields.take(i as int)),
                    zero_values == zeros_before + zeros_among(fields.take(i as int)),
                    missing_before + zeros_before + fields.len() <= usize::MAX,
                    column_types.deep_view() == if r == 1 {
                        suggested_types(columns.deep_view(), fields.take(i as int))
                    } else {
                        first_row_types(text)
                    },
                decreases values.len() - i,
            {
                let value = values[i];
                let ghost shorter = fields.take(i as int);
                let ghost longer = fields.take(i + 1);
                proof {
                    assert(longer.drop_last() =~= shorter);
                    assert(longer.last() == value@);
                    lemma_counts_within_fields(longer);
                    lemma_counts_within_fields(fields);
                    lemma_counts_prefix(fields, i + 1);
                }
                let trimmed_value = trim(value);
                if trimmed_value.unicode_len() == 0 {
                    missing_values = missing_values + 1;
                    assert(!is_zero(value@)) by {
                        assert(seq!['0'].len() == 1);
                    }
                } else if is_zero_field(value) {
                    zero_values = zero_values + 1;
                }
                if r == 1 {
                    let data_type = suggest(value, "Integer", "Float", "Text");
                    set_entry(&mut column_types, columns[i].to_string(), data_type.to_string());
                    assert(columns.deep_view()[i as int] == columns[i as int]@);
                }
                i += 1;
            }
            assert(fields.take(i as int) =~= fields);
            r += 1;
        }
        assert(rows.take(r - 1) =~= rows);
        Ok(
            FileMetadata {
                row_count: all.len() - 1,
                column_count,
                missing_values,
                zero_values,
                column_types,
            },
        )
    }
}

/// The missing and the zero fields among some of the first fields are no
/// more than those among all.
proof fn lemma_counts_prefix(fields: Seq<Seq<char>>, upto: int)
    requires
        0 <= upto <= fields.len(),
    ensures
        missing_among(fields.take(upto)) <= missing_among(fields),
        zeros_among(fields.take(upto)) <= zeros_among(fields),
    decreases fields.len() - upto,
{
    if upto == fields.len() {
        assert(fields.take(upto) =~= fields);
    } else {
        assert(fields.drop_last().take(upto) =~= fields.take(upto));
        lemma_counts_prefix(fields.drop_last(), upto);
    }
}

/// Whether the first row of `content` has no more fields than the header:
/// what `FileMetadata::analyze_csv` asks of its argument.
pub fn check_first_row(content: &str) -> (fits: bool)
    ensures
        fits == first_row_fits(content@),
{
    let all = lines(content);
    if all.len() < 2 {
        return true;
    }
    let columns = split(all[0], ',');
    let values = split(all[1], ',');
    values.len() <= columns.len()
}

/// The name of the schema type that a field suggests.
pub open spec fn schema_type(field: Seq<char>) -> Seq<char> {
    if is_signed_integer_text(field) {
        "Int64"@
    } else if is_float_text(field) {
        "Float64"@
    } else {
        "Utf8"@
    }
}

/// The description of one field of a schema.
pub open spec fn schema_field(column: Seq<char>, value: Seq<char>) -> Seq<char> {
    "Field { name: \""@ + column + "\", data_type: "@ + schema_type(value) + " }"@
}

/// The schema of `columns`, typed by the fields `values` of the first row.
pub open spec fn schema_text(columns: Seq<Seq<char>>, values: Seq<Seq<char>>) -> Seq<char> {
    "Schema { fields: ["@ + joined(
        Seq::new(columns.len(), |i: int| schema_field(columns[i], values[i])),
        ", "@,
    ) + "] }"@
}

/// The schema that the header and the first row of `csv_content` suggest.
///
/// There is none for a text without lines, for a header alone, and for a
/// first row with another number of fields than the header.
pub fn get_csv_schema(csv_content: &str) -> (outcome: Result<String, String>)
    ensures
        match outcome {
            Ok(schema) => {
                &&& lines_of(csv_content@).len() >= 2
                &&& split_on(lines_of(csv_content@)[0], ',').len() == split_on(
                    lines_of(csv_content@)[1],
                    ',',
                ).len()
                &&& schema@ == schema_text(
                    split_on(lines_of(csv_content@)[0], ','),
                    split_on(lines_of(csv_content@)[1], ','),
                )
            },
            Err(message) => {
                if lines_of(csv_content@).len() == 0 {
                    message@ == "Empty CSV"@
                } else if lines_of(csv_content@).len() == 1 {
                    message@ == "Only header in CSV"@
                } else {
                    &&& message@ == "Mismatched header and data columns"@
                    &&& split_on(lines_of(csv_content@)[0], ',').len() != split_on(
                        lines_of(csv_content@)[1],
                        ',',
                    ).len()
                }
            },
        },
{
    let all = lines(csv_content);
    if all.len() == 0 {
        return Err("Empty CSV".to_string());
    }
    if all.len() == 1 {
        return Err("Only header in CSV".to_string());
    }
    let columns = split(all[0], ',');
    let values = split(all[1], ',');
    if columns.len() != values.len() {
        return Err("Mismatched header and data columns".to_string());
    }
    let ghost names = columns.deep_view();
    let ghost fields = values.deep_view();
    let mut described: Vec<String> = Vec::new();
    let mut i: usize = 0;
    assert(described.deep_view() =~= Seq::new(0, |i: int| schema_field(names[i], fields[i])));
    while i < columns.len()
        invariant
            i <= columns.len(),
            columns.len() == values.len(),
            names == columns.deep_view(),
            fields == values.deep_view(),
            described.deep_view() == Seq::new(i as nat, |k: int| schema_field(names[k], fields[k])),
        decreases columns.len() - i,
    {
        let mut field = "Field { name: \"".to_string();
        field.append(columns[i]);
        field.append("\", data_type: ");
        field.append(suggest(values[i], "Int64", "Float64", "Utf8"));
        field.append(" }");
        assert(names[i as int] == columns[i as int]@);
        assert(fields[i as int] == values[i as int]@);
        assert(field@ == schema_field(names[i as int], fields[i as int]));
        push_string(&mut described, field);
        assert(described.deep_view() =~= Seq::new(
            (i + 1) as nat,
            |k: int| schema_field(names[k], fields[k]),
        ));
        i += 1;
    }
    let mut schema = "Schema { fields: [".to_string();
    schema.append(join(&described, ", ").as_str());
    schema.append("] }");
    Ok(schema)
}

} // verus!
