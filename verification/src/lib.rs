//! The decisions of a Kitsune2 transport that is backed by a local `dtn7-rs` daemon.
//!
//! The daemon's application endpoint hands over each bundle once and forgets it. So a
//! bundle is committed to a journal before it is decoded, stays there until it was
//! dispatched, and holds newer bundles back in the daemon as long as it cannot be. What
//! stands here decides: which names, addresses and settings are valid, what the daemon is
//! asked, how much of an answer is read, what a bundle is mapped to, which files of the
//! journal's directory are records, and what is done next. It performs no input or output.
//!
//! - [`config`], [`factory`]: what a transport is created from, and in which order.
//! - [`address`]: node names, peer URLs, endpoint ids, requests.
//! - [`body`], [`bundle`]: reading an answer and handing on what it holds.
//! - [`path`], [`record`], [`checksum`], [`commit`], [`removal`], [`recovery`], [`journal`]: the
//!   durable journal.
//! - [`guarantees`]: what the journal keeps, whatever happens to it.
//! - [`receiver`]: the receiver, and what it promises through failures and restarts.
//! - [`laws`]: what each operation means, in terms of what it is given and what it gives.
//! - [`error`], [`text`]: messages, and the texts they and the names are made of.
//! - [`outside`]: the calls into other crates.

pub mod address;
pub mod body;
pub mod bundle;
pub mod checksum;
pub mod commit;
pub mod config;
pub mod error;
pub mod factory;
pub mod guarantees;
pub mod journal;
pub mod laws;
pub mod outside;
pub mod path;
pub mod receiver;
pub mod record;
pub mod recovery;
pub mod removal;
pub mod text;

pub use crate::address::node_url;
pub use crate::config::DtnConfig;
pub use crate::factory::DtnTransportFactory;
