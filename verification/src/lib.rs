//! Hosts-file profiles and a rule-driven DNS responder.
pub mod apply;
pub mod clock;
pub mod dns;
pub mod error;
pub mod hosts;
pub mod ident;
pub mod model_laws;
pub mod models;
pub mod net;
pub mod net_laws;
pub mod order;
pub mod text;
pub mod text_laws;
