//! The logic behind a small bets website: the calendar that picks the day
//! whose bets are shown, the table's data provider (caching, range
//! clamping and multi-column stable sorting of the rows) and the Tailwind
//! class preset that styles the table.

pub mod calendar;
pub mod order;
pub mod picker;
pub mod provider;
pub mod tailwind;
