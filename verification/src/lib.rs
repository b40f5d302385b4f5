//! Weekly budget reporting: a calendar year cut into Sunday-to-Saturday weeks
//! that stop at month boundaries, and the aggregation of a ledger snapshot
//! into a report for one such week.
//!
//! - [`date`]: calendar dates, their day numbers, and the date arithmetic.
//! - [`calendar_weeks`]: the partition of a year into month weeks, and the
//!   month week of a date; [`calendar_laws`] proves what holds of it.
//! - [`ynab`]: the records of the ledger.
//! - [`watch_list`]: the names of the category groups to report on.
//! - [`report`]: the report table and its group totals; [`report_laws`]
//!   proves what holds of them.
//! - [`weekly_report`]: the report of the week of a date, from the ledger to
//!   its tables.
//! - [`config`]: how a report is put out.
//! - [`visual_report`]: amounts and colours as the visual report writes and
//!   reads them.
//! - [`text`], [`sequences`]: the order of names, digits, and kept parts of
//!   sequences.

pub mod calendar_laws;
pub mod calendar_weeks;
pub mod config;
pub mod date;
pub mod report;
pub mod report_laws;
pub mod sequences;
pub mod text;
pub mod visual_report;
pub mod watch_list;
pub mod weekly_report;
pub mod ynab;
