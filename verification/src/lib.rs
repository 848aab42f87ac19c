//! A multi-protocol in-memory cache library: a memory-bounded key/value store
//! with expiration, LRU eviction and compare-and-swap, wire codecs for the
//! memcached text protocol, RESP, ping and length-prefixed echo, and the
//! buffer-pool and connection state machinery of a per-worker event loop.

pub mod buffer;
pub mod num;
pub mod storage;
pub mod wire;
pub mod ping;
pub mod echo;
pub mod resp;
pub mod protocol;
pub mod request;
pub mod connection;
pub mod token;
pub mod config;
