//! The authenticated record layer of a distributed name directory.
//!
//! Peers claim names ([`key::Key`]) and publish signed values under them
//! ([`record::Record`]). Every entity verifies its own signature and creation time,
//! writes are gated on a weight answer for the owning peer ([`auth`]), and replicas
//! reconcile record sets with a deterministic last-write-wins merge ([`merge`]) over a
//! store with one slot per key and owning peer ([`storage`]). The operations a node
//! offers its callers are in [`api`].

pub mod api;
pub mod auth;
pub mod codec;
pub mod crypto;
pub mod error;
pub mod key;
pub mod merge;
pub mod order;
pub mod record;
pub mod storage;
