//! A gateway between federations of ecash.
//!
//! The gateway keeps one live client for each federation that it is
//! connected to, and it swaps ecash between two of them: notes of one
//! federation are redeemed at the other, and notes of the same value are
//! issued there in return.
//!
//! This library holds the rules of the gateway, each with a contract that
//! is proved of it:
//!
//! - [`registry`]: the registry of federation clients, and the steps by
//!   which a federation is registered in it;
//! - [`client`]: the steps by which the client of one federation is built,
//!   and the records that are kept of the federations;
//! - [`swap`]: the stages of a swap;
//! - [`federation`], [`hex`], [`id_map`]: federation identifiers, their text
//!   and the ordered map that is keyed by them;
//! - [`types`], [`db`], [`error`], [`config`], [`connect_federation`]: what
//!   is told about a federation, its record, the errors of a request, the
//!   settings of the service, and the request that connects a federation.
//!
//! What takes time or reaches outside (the store, the network, the
//! federation clients at work) is left to the caller: where work of that
//! kind is part of a rule, the rule is a function that takes what has
//! happened and says what is to be done next.

pub mod client;
pub mod config;
pub mod connect_federation;
pub mod db;
pub mod error;
pub mod federation;
pub mod hex;
pub mod id_map;
pub mod registry;
pub mod swap;
pub mod types;

pub use client::LocalClientBuilder;
pub use registry::MultiMint;

use vstd::prelude::*;

verus! {

/// What the request handlers share: the registry of federation clients.
pub struct AppState<H> {
    pub multimint: MultiMint<H>,
}

} // verus!
