//! Protocol-translation core of a groupware gateway: a WBXML codec for
//! ActiveSync payloads, marshalling between EWS calendar items and iCalendar,
//! identity derivation for backend resources, and the incremental-sync state
//! machine. Transport, persistence and the CalDAV wire live outside this crate
//! and exchange plain values with it.

pub mod auth;
pub mod caldav;
pub mod clock;
pub mod config;
pub mod eas;
pub mod error;
pub mod ews;
pub mod ews_marshaller;
pub mod ical;
pub mod identity;
pub mod operation;
pub mod rrule_engine;
pub mod storage;
pub mod sync;
pub mod sync_laws;
pub mod text;
pub mod utils;
pub mod wbxml;
pub mod wbxml_laws;
pub mod xml;
