//! The settings of the DNS server.
use vstd::prelude::*;
use vstd::string::*;

verus! {

broadcast use vstd::string::group_string_axioms;

/// The settings of the DNS server.
#[derive(Debug, Clone, PartialEq, Eq)]
pub struct DnsConfig {
    /// The port to listen on.
    pub port: u16,
    /// The servers that unknown names are looked up at.
    pub upstream: Vec<String>,
    /// How many answers are remembered.
    pub cache_size: usize,
    /// How long to wait for an answer from another server, in milliseconds.
    pub timeout_ms: u64,
    /// Whether the servers are looked for again while the server runs.
    pub refresh_upstream: bool,
}

impl Default for DnsConfig {
    fn default() -> (r: Self)
        ensures
            r.port == 53,
            crate::text::texts(r.upstream@) == seq!["8.8.8.8"@, "1.1.1.1"@],
            r.cache_size == 1000,
            r.timeout_ms == 3000,
            !r.refresh_upstream,
    {
        let mut upstream: Vec<String> = Vec::new();
        upstream.push("8.8.8.8".to_owned());
        upstream.push("1.1.1.1".to_owned());
        assert(crate::text::texts(upstream@) =~= seq!["8.8.8.8"@, "1.1.1.1"@]);
        DnsConfig { port: 53, upstream, cache_size: 1000, timeout_ms: 3000, refresh_upstream: false }
    }
}

} // verus!
