//! Verified core of a Substrate-based chain: the state-db pruning window,
//! the balances and multi-token ledgers, account permissions, slot and
//! finality helpers and the runtime's parameters.

pub mod accounts;
pub mod babe_rpc;
pub mod balances;
pub mod basic_authorship;
pub mod block_builder;
pub mod chain_spec;
pub mod changes_tries;
pub mod cli;
pub mod common;
pub mod digest;
pub mod finality_proof;
pub mod gossip;
pub mod gossip_engine;
pub mod import_verifier;
pub mod list_cache;
pub mod runtime;
pub mod runtime_api;
pub mod scale;
pub mod slots;
pub mod state_db;
pub mod tokens;
pub mod warp_sync;
