//! Reconciliation of GitHub repositories: the records kept for a company are
//! brought in line with what GitHub lists, and every repository is held to
//! the company's settings policy.
//!
//! The library decides and records; it makes no call of its own. A run says
//! which call comes next, is handed the answer, and moves on:
//!
//! - `sync` starts the two runs from what was read: the pages of GitHub's
//!   listing and the repositories kept.
//! - `index` holds the kept repositories of one company by name.
//! - `converge` is the run that upserts what is listed and deletes what is
//!   listed no more, in the store and then in its mirror; `store` says what
//!   such a run makes of the store.
//! - `policy`, `teams` and `enforce` are the settings policy and the run that
//!   corrects the repositories that deviate from it, and only those.
//! - `repos`, `timestamp` and `text` are the records and what they are made
//!   of; `webhooks` are the payloads of the webhook server.

pub mod converge;
pub mod deserialize_null_string;
pub mod enforce;
pub mod error;
pub mod index;
pub mod policy;
pub mod repos;
pub mod store;
pub mod sync;
pub mod teams;
pub mod text;
pub mod timestamp;
pub mod webhooks;
