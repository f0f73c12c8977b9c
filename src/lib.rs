//! A moderation read-model for reports filed against private messages: an
//! in-memory store of persons, messages and reports, the composed report view,
//! the resolve transition, the unresolved count and the filtered, ordered,
//! paginated listing.

pub mod model;
pub mod view;
pub mod pagination;
pub mod query;
pub mod laws;
