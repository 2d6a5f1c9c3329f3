//! Live statistics over an append-only, line-oriented event log: counts of
//! two event markers, the success ratio between them, and the average time
//! from a start event to the completion event that follows it.
//!
//! Each refresh reads the whole log anew. A start or cycle-end line without
//! a readable timestamp fails the whole refresh (nothing partial is kept);
//! the statistics held before it stay as they were.

pub mod counter;
pub mod duration;
pub mod metrics;
pub mod text;
pub mod timestamp;

pub use counter::count_pattern_lines;
pub use duration::{aggregate_durations, DurationTotals};
pub use metrics::{
    compute_snapshot, success_rate_centi_of, Markers, MetricsSnapshot, MetricsStore,
    COMPLETION_MARKER, CYCLE_END_MARKER, START_MARKER,
};
pub use text::{chars_of, contains_in, line_spans};
pub use timestamp::{parse_timestamp, parse_u32_digits, IntErrorKind, TimeStampParseError};
