//! The DNS mode: rules for names, ad blocking, and the server that answers from them.
pub mod adblock;
pub mod answer_laws;
pub mod cache;
pub mod call_laws;
pub mod config;
pub mod matcher;
pub mod platform;
pub mod proxy;
pub mod resolver;
pub mod resolver_laws;
pub mod server;
pub mod system_laws;
pub mod trie;
pub mod wire;
