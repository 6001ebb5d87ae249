//! Ingest core for channel-access data: timestamp partitioning, typed
//! message acceptors and per-channel writers, series registration
//! decisions, the address-keyed connection table, per-connection channel
//! bookkeeping, and the decisions of the IOC search with its blacklist.
pub mod acceptor;
pub mod addrmap;
pub mod bytes;
pub mod channels;
pub mod channelwriter;
pub mod connset;
pub mod error;
pub mod findioc;
pub mod metrics;
pub mod search;
pub mod series;
pub mod stats;
pub mod timesplit;
pub mod tools;
pub mod types;
