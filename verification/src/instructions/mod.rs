//! The instructions as a client builds them.

pub mod revoke;
