//! A terminal calendar: events, an in-memory event store, calendar navigation,
//! a vim-style event form and CSV import/export, with their contracts proved by Verus.
pub mod datetime;
pub mod text;
pub mod events;
pub mod sorting;
pub mod calendar;
pub mod store;
pub mod modal;
pub mod views;
pub mod ui;
pub mod csv_file;
