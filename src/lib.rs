//! A DNS forwarding resolver core: a bit-exact wire codec with name
//! compression, a TTL-aware answer cache, the slot table that matches
//! upstream replies to in-flight queries, and the per-query decisions of the
//! server loop. Small sibling programs (a Game of Life grid and a few
//! puzzle solvers) live beside it.
pub mod protocol;
pub mod decode;
pub mod encode;
pub mod roundtrip;
pub mod cache;
pub mod client;
pub mod server;
pub mod game;
pub mod patterns;
pub mod cses;
