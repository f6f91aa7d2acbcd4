//! The hosts file format: its lines, its text, and the block that is managed here.
pub mod block;
pub mod block_laws;
pub mod call_laws;
pub mod formatter;
pub mod parser;
pub mod parser_laws;
pub mod round_trip;
pub mod validator;
pub mod validator_laws;
