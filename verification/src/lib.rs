//! A DAG-based consensus protocol: block storage, DAG solidification, tip
//! selection, milestone consensus and round tracking, as verified state machines.
pub mod types;
pub mod index_set;
pub mod block_storage;
pub mod block_dag;
pub mod tip_selection;
pub mod vote;
pub mod consensus;
pub mod consensus_round;
pub mod plugin;
pub mod plugins;
pub mod config;
pub mod inbox;
pub mod error;
pub mod protocol;
pub mod consensus_feed;
pub mod virtual_voting;
pub mod simulator;
pub mod sim;
pub mod block_factory;
pub mod validator;
pub mod committee_selection;
pub mod networking;
pub mod outbox;
