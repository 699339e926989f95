//! Descriptive statistics over a series of numbers read one per line: the
//! parts that are integer and text logic. Which groups of statistics a
//! bundle holds and over which prefix of the sorted series, where the
//! median lies, how percentile lists and separators are read, how input is
//! cut into lines, and how results are written as `key<sep>value` lines.
pub mod ingest;
pub mod percentile;
pub mod render;
pub mod scope;
pub mod separator;
pub mod split;

pub use ingest::{line_ranges, ErrorPolicy, SortingPolicy};
pub use percentile::{get_percents, parse_u8, slice_len, Percentiles};
pub use render::{decimal_string, field_key_string, render, StatisticsText, NUM_FIELDS};
pub use scope::{bundle_scopes_of, median_positions, Scope};
pub use separator::{KeyValueParseError, KeyValueSep};
