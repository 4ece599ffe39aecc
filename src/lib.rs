//! Core of an RPKI certificate authority: the resource limiter that decides
//! what a child may be certified for, the provisioning messages exchanged
//! with a parent, and the event-sourced key store that persists aggregates.
pub mod aggregate;
pub mod history;
pub mod names;
pub mod paths;
pub mod provisioning;
pub mod resources;
pub mod storage;
pub mod store;
