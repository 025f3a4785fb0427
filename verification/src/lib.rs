//! Load balancing, response caching and usage statistics of a web3 proxy.

pub mod cache;
pub mod connections;
pub mod error;
pub mod funnel;
pub mod in_flight;
pub mod json;
pub mod jsonrpc;
pub mod lookup;
pub mod proxy;
pub mod quorum;
pub mod requests;
pub mod run;
pub mod servers;
pub mod stats;
pub mod tally;
pub mod text;
pub mod upstream;
