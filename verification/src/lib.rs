//! An access-control record store for an SSH-access management tool: hosts,
//! users and user groups, the grant queries over them, and a persisted
//! textual format with a verified round trip.

pub mod codec;
pub mod store;
