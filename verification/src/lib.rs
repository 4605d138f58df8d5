pub mod block;
pub mod block_factory;
pub mod block_store;
pub mod cli;
pub mod committee_manager;
pub mod id_provider;
pub mod indexer;
pub mod laws;
pub mod mempool;
pub mod message;
pub mod message_id_factory;
pub mod network;
pub mod network_connection;
pub mod node_factory;
pub mod qc;
pub mod rng;
pub mod simulation;
pub mod subscriber;
pub mod transaction;
pub mod transaction_generator;
pub mod validator_node;
pub mod vote_book;
