//! A local record store for prompt entries: filtered listing, patch and
//! upsert semantics, seeding and schema migration decisions.

pub mod text;
pub mod record;
mod source;
pub mod listing;
pub mod store;
pub mod schema;
pub mod laws;
