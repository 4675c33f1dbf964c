//! Verified core of a canteen menu service.
//!
//! The pipeline runs from a requested day-offset to a chat message: `date`
//! resolves the offset around weekends and plans the prefetch date set,
//! `dom` reads the menu page through scraper as plain values, `extract`
//! turns those values into structured menu records or a reported fault,
//! `cache` keeps the raw-snapshot and structured tiers consistent under
//! reconciliation, `codec` writes and reads the structured tier with a
//! proved round trip, `message` renders the records for Telegram's
//! MarkdownV2, and `service` is the façade that callers drive. Network and
//! disk stay outside: callers fetch what a key's query string names and hand
//! the text back.

pub mod cache;
pub mod codec;
pub mod date;
pub mod dom;
pub mod extract;
pub mod menu;
pub mod message;
pub mod service;
pub mod text;
