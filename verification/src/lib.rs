//! Line-count analysis core: aggregation of per-file line counts into
//! per-language summaries, percentage and magnitude formatting, two-tree
//! comparison, and table / JSON / CSV report rendering.
//!
//! All fractional quantities are carried as scaled integers: durations in
//! nanoseconds, percentages in hundredths of a percent. Rounding is
//! round-half-up throughout, and each renderer documents the number of
//! fractional digits it emits.

pub mod analyze;
pub mod compare;
pub mod format;
pub mod order;
pub mod render;
pub mod stats;
pub mod table;
