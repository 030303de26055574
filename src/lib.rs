//! Presence tracking for hosts seen in address-resolution traffic, and the
//! fan-out of presence changes to independently paced viewers.

pub mod record;
pub mod table;
pub mod hub;
pub mod session;
pub mod frame;
pub mod ingest;
