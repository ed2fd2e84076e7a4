//! Verified core of a synchronisation agent that mirrors a cloud inventory
//! of wireless access points, with their network names, into a key-value
//! store: the retry policy, the paging of the device listing, the
//! access-point filter, the batching and deduplication of network names,
//! and the commands that write them to the store.
pub mod credential;
pub mod decimal;
pub mod inventory;
pub mod policy;
pub mod radio;
pub mod retry;
pub mod store;
