//! Schema and distribution inference for tabular text: per column a data type,
//! nullability and cardinality, and the SQL that reflects them. Beside it, a
//! first look at comma-separated text line by line, and a store of files in
//! memory.
//!
//! Nothing here computes in floating point. Where the decision on a column
//! needs a confidence score, the analysis asks its caller for it, in
//! millionths.

pub mod candidates;
pub mod column;
pub mod csv_metadata;
pub mod entries;
pub mod file_metadata;
pub mod file_system;
pub mod frequency;
pub mod reader;
pub mod sql_conversion;
pub mod statistical_methods;
pub mod test_utils;
pub mod text;
pub mod types;

pub use csv_metadata::{AnalysisStep, CSVMetadata, PendingAnalysis};
pub use file_metadata::{get_csv_schema, FileMetadata};
pub use file_system::{SupportedFileType, VirtualFile, VirtualFileSystem};
pub use frequency::FrequencyTable;
pub use reader::AnalysisError;
pub use sql_conversion::generate_sql_statements;
pub use statistical_methods::{
    analyze_distribution, quick_frequency_check, DebugInfo, DistributionAnalysis, QuickCheck,
    Screening, Thresholds,
};
pub use test_utils::assert_ok;
pub use types::{ColumnMetadata, DataType, NumericStats, SqlStatements, StringStats};
