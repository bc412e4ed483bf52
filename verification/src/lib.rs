//! Scheduling and dispatch core of a race-reminder service.
//!
//! The library tracks a season of scheduled races, selects the next upcoming
//! race relative to a given instant, decides when fixed reminder thresholds
//! become due, renders the reminder and query-reply messages, and maintains a
//! deduplicated registry of subscriber identities. All instants are whole
//! seconds since 1970-01-01 00:00:00 UTC; calendar arithmetic, the fixed
//! timestamp format and its parser are part of the library and verified.

pub mod calendar;
pub mod event;
pub mod registry;
pub mod reminder;
pub mod responder;
pub mod selector;
pub mod timefmt;
