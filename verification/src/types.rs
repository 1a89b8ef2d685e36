//! The records that an analysis hands to its callers.

use vstd::prelude::*;

verus! {

/// The data type that a column resolves to.
#[derive(Clone, Copy, Debug, PartialEq, Eq, Structural)]
pub enum DataType {
    Integer,
    Float,
    Text,
    Enum,
    Boolean,
    Unknown,
}

impl DataType {
    /// The SQL keyword of the type. An enum column has a type of its own; the
    /// bare keyword is still `ENUM`.
    pub open spec fn sql_keyword(self) -> Seq<char> {
        match self {
            DataType::Integer => "INTEGER"@,
            DataType::Float => "NUMERIC"@,
            DataType::Text => "TEXT"@,
            DataType::Boolean => "BOOLEAN"@,
            DataType::Enum => "ENUM"@,
            DataType::Unknown => "TEXT"@,
        }
    }

    pub fn to_sql_type(&self) -> (keyword: &'static str)
        ensures
            keyword@ == self.sql_keyword(),
    {
        match self {
            DataType::Integer => "INTEGER",
            DataType::Float => "NUMERIC",
            DataType::Text => "TEXT",
            DataType::Boolean => "BOOLEAN",
            DataType::Enum => "ENUM",
            DataType::Unknown => "TEXT",
        }
    }
}

/// Summary statistics of a numeric column. The mean is in millionths. The
/// analysis leaves the statistics of every column unset.
#[derive(Clone, Copy, Debug, PartialEq, Eq, Structural)]
pub struct NumericStats {
    pub min: i64,
    pub max: i64,
    pub mean: i128,
    pub null_count: usize,
    pub distinct_count: usize,
}

/// Summary statistics of a text column. The analysis leaves the statistics of
/// every column unset.
#[derive(Clone, Copy, Debug, PartialEq, Eq, Structural)]
pub struct StringStats {
    pub min_length: usize,
    pub max_length: usize,
    pub null_count: usize,
    pub distinct_count: usize,
}

/// What the analysis found out about one column.
#[derive(Clone, Debug)]
pub struct ColumnMetadata {
    pub name: String,
    pub data_type: DataType,
    /// Up to five of the distinct values that are not blank, in the order in
    /// which they first appeared.
    pub sample_values: Vec<String>,
    /// Whether some cell of the column is blank.
    pub nullable: bool,
    /// The number of distinct values that are not blank.
    pub unique_count: usize,
    pub numeric_stats: Option<NumericStats>,
    pub string_stats: Option<StringStats>,
}

/// A column's metadata as mathematical values.
pub struct ColumnRecord {
    pub name: Seq<char>,
    pub data_type: DataType,
    pub sample_values: Seq<Seq<char>>,
    pub nullable: bool,
    pub unique_count: nat,
    pub numeric_stats: Option<NumericStats>,
    pub string_stats: Option<StringStats>,
}

impl View for ColumnMetadata {
    type V = ColumnRecord;

    open spec fn view(&self) -> ColumnRecord {
        ColumnRecord {
            name: self.name@,
            data_type: self.data_type,
            sample_values: self.sample_values.deep_view(),
            nullable: self.nullable,
            unique_count: self.unique_count as nat,
            numeric_stats: self.numeric_stats,
            string_stats: self.string_stats,
        }
    }
}

/// The records of `columns`, in order.
pub open spec fn column_records(columns: Seq<ColumnMetadata>) -> Seq<ColumnRecord> {
    columns.map_values(|column: ColumnMetadata| column@)
}

/// The SQL that declares a table and the template that fills it.
#[derive(Clone, Debug)]
pub struct SqlStatements {
    pub create_table: String,
    pub insert_template: String,
}

/// A pair of SQL texts as mathematical values.
pub struct SqlText {
    pub create_table: Seq<char>,
    pub insert_template: Seq<char>,
}

impl View for SqlStatements {
    type V = SqlText;

    open spec fn view(&self) -> SqlText {
        SqlText { create_table: self.create_table@, insert_template: self.insert_template@ }
    }
}

} // verus!
