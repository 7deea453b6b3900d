//! A Chord distributed hash table with end-to-end encrypted message storage.
pub mod api;
pub mod digest;
pub mod hex;
pub mod keys;
pub mod laws;
pub mod limiter;
pub mod lookup;
pub mod maintenance;
pub mod messages;
pub mod node;
pub mod ring;
pub mod selection;
pub mod serve;
pub mod storage;
pub mod store;
