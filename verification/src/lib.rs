//! A lightweight identity/directory engine: users, groups and memberships
//! held in a relational-style store, password authentication through
//! per-user envelopes, session-token issuance and cleanup, and a
//! per-connection protocol state machine with group-based authorization.

pub mod types;
pub mod filter;
pub mod store;
pub mod auth;
pub mod token;
pub mod protocol;
pub mod bootstrap;
