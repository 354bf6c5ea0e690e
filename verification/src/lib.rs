//! Core library of a single-user desktop time tracker.
//!
//! Projects own activity types, activity types own time entries; the store
//! keeps them with referential integrity and name-uniqueness invariants and
//! serves ordered reads and per-day summaries.  Beside the store live the
//! time-string utilities ("HH:MM" and decimal hours) and the view-state
//! model that a GUI shell drives.

pub mod app_state;
pub mod chars;
pub mod date;
pub mod database;
pub mod models;
pub mod records;
pub mod timefmt;
