//! A calendar event library: recurrence rules, their expansion into concrete
//! occurrence time-ranges, and an all-or-nothing writer that records an event
//! together with its recurrence metadata and every occurrence.

pub mod contact;
pub mod generate;
pub mod rule;
pub mod tag;
pub mod time;
pub mod user;
pub mod writer;
