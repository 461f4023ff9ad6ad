//! Session-management core of an authentication service: an in-memory
//! registry that issues and revokes opaque session tokens bound to users.

pub mod kvmap;
pub mod sessions;
