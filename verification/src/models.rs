//! The data of the library: profiles, rules, plans and DNS settings.
use vstd::prelude::*;
use vstd::string::*;

use crate::clock::{utc_now, Timestamp};
use crate::error::{prefixed, MhostError};
use crate::ident::Uuid;
use crate::net::{is_local_resolver, IpAddr};

verus! {

broadcast use vstd::string::group_string_axioms;

// ---------------------------------------------------------------------------
// Identifiers
// ---------------------------------------------------------------------------
/// Names a profile.
#[derive(Debug, Clone, Copy, PartialEq, Eq, Structural, Hash)]
pub struct ProfileId(pub Uuid);

/// Names a rule.
#[derive(Debug, Clone, Copy, PartialEq, Eq, Structural, Hash)]
pub struct RuleId(pub Uuid);

/// Names a subscription source.
#[derive(Debug, Clone, Copy, PartialEq, Eq, Structural, Hash)]
pub struct SourceId(pub Uuid);

impl ProfileId {
    /// The hyphenated text.
    pub fn to_text(&self) -> (r: String)
        ensures
            r@ == crate::ident::hyphenated(self.0.0),
    {
        self.0.to_text()
    }

    /// Reads an identifier. Text that is no UUID is an invalid input.
    pub fn parse_text(s: &str) -> (r: Result<Self, MhostError>)
        ensures
            match crate::ident::uuid_parse(s@) {
                Ok(n) => r == Ok::<ProfileId, MhostError>(ProfileId(Uuid(n))),
                Err(e) => r matches Err(MhostError::InvalidInput(t)) && t@
                    == "invalid profile id: "@ + e,
            },
            forall|n: u128|
                #![trigger crate::ident::hyphenated(n)]
                crate::ident::hyphenated(n) == s@ ==> r == Ok::<ProfileId, MhostError>(
                    ProfileId(Uuid(n)),
                ),
    {
        match Uuid::parse_str(s) {
            Ok(u) => Ok(ProfileId(u)),
            Err(e) => Err(
                MhostError::InvalidInput(prefixed("invalid profile id: ", e.as_str())),
            ),
        }
    }
}

impl std::str::FromStr for ProfileId {
    type Err = MhostError;

    fn from_str(s: &str) -> (r: Result<Self, MhostError>)
        ensures
            match crate::ident::uuid_parse(s@) {
                Ok(n) => r == Ok::<ProfileId, MhostError>(ProfileId(Uuid(n))),
                Err(e) => r matches Err(MhostError::InvalidInput(t)) && t@
                    == "invalid profile id: "@ + e,
            },
            forall|n: u128|
                #![trigger crate::ident::hyphenated(n)]
                crate::ident::hyphenated(n) == s@ ==> r == Ok::<ProfileId, MhostError>(
                    ProfileId(Uuid(n)),
                ),
    {
        ProfileId::parse_text(s)
    }
}

impl RuleId {
    /// The hyphenated text.
    pub fn to_text(&self) -> (r: String)
        ensures
            r@ == crate::ident::hyphenated(self.0.0),
    {
        self.0.to_text()
    }
}

impl SourceId {
    /// The hyphenated text.
    pub fn to_text(&self) -> (r: String)
        ensures
            r@ == crate::ident::hyphenated(self.0.0),
    {
        self.0.to_text()
    }
}

// ---------------------------------------------------------------------------
// Profiles and rules
// ---------------------------------------------------------------------------
/// How a profile takes effect: through the hosts file or through the DNS server.
#[derive(Debug, Clone, Copy, PartialEq, Eq, Structural)]
pub enum ProfileMode {
    Hosts,
    Dns,
}

impl Default for ProfileMode {
    fn default() -> (r: Self)
        ensures
            r == ProfileMode::Hosts,
    {
        ProfileMode::Hosts
    }
}

/// A named set of rules.
#[derive(Debug, Clone, PartialEq, Eq)]
pub struct Profile {
    pub id: ProfileId,
    pub name: String,
    pub description: Option<String>,
    pub enabled: bool,
    pub protected: bool,
    pub tags: Vec<String>,
    pub rules: Vec<HostRule>,
    pub mode: ProfileMode,
    pub created_at: Timestamp,
    pub updated_at: Timestamp,
}

impl Profile {
    /// A fresh profile: switched off, unprotected, without rules, in hosts mode.
    pub fn new(name: &str) -> (r: Self)
        ensures
            r.name@ == name@,
            r.description is None,
            !r.enabled,
            !r.protected,
            r.tags@.len() == 0,
            r.rules@.len() == 0,
            r.mode == ProfileMode::Hosts,
            r.created_at == r.updated_at,
            crate::ident::is_version_4(r.id.0.0),
    {
        let now = utc_now();
        Profile {
            id: ProfileId(Uuid::new_v4()),
            name: name.to_owned(),
            description: None,
            enabled: false,
            protected: false,
            tags: Vec::new(),
            rules: Vec::new(),
            mode: ProfileMode::Hosts,
            created_at: now,
            updated_at: now,
        }
    }
}

/// A domain that several lines give an address to.
#[derive(Debug, Clone, PartialEq, Eq)]
pub struct DuplicateRule {
    pub domain: String,
    pub lines: Vec<usize>,
    pub kind: DuplicateKind,
}

/// Whether the lines of a duplicate agree on the address.
#[derive(Debug, Clone, Copy, PartialEq, Eq, Structural)]
pub enum DuplicateKind {
    SameIp,
    DifferentIp,
}

/// A line of a hosts file: an address with its domains, or a comment alone.
#[derive(Debug, Clone, PartialEq, Eq)]
pub struct HostRule {
    pub id: RuleId,
    /// `None` for a line that is a comment alone.
    pub ip: Option<IpAddr>,
    pub domains: Vec<String>,
    pub enabled: bool,
    /// The whole text of a line that is a comment alone; otherwise what follows
    /// the `#` of the line.
    pub comment: Option<String>,
    pub source: RuleSource,
    /// The number of the line in its text, counted from 1, where it is known.
    pub line_number: Option<usize>,
}

/// The text of an optional string.
pub open spec fn text_of(s: Option<String>) -> Option<Seq<char>> {
    match s {
        Some(t) => Some(t@),
        None => None,
    }
}

/// What a rule says, apart from the identifier it was given.
#[verifier::ext_equal]
pub struct RuleFacts {
    pub ip: Option<IpAddr>,
    pub domains: Seq<Seq<char>>,
    pub enabled: bool,
    pub comment: Option<Seq<char>>,
    pub manual: bool,
    pub line_number: Option<usize>,
}

impl View for HostRule {
    type V = RuleFacts;

    open spec fn view(&self) -> RuleFacts {
        RuleFacts {
            ip: self.ip,
            domains: crate::text::texts(self.domains@),
            enabled: self.enabled,
            comment: text_of(self.comment),
            manual: self.source is Manual,
            line_number: self.line_number,
        }
    }
}

/// What a fresh rule says.
pub open spec fn rule_facts(ip: IpAddr, domains: Seq<Seq<char>>) -> RuleFacts {
    RuleFacts {
        ip: Some(ip),
        domains,
        enabled: true,
        comment: None,
        manual: true,
        line_number: None,
    }
}

/// What a comment line says.
pub open spec fn comment_facts(text: Seq<char>) -> RuleFacts {
    RuleFacts {
        ip: None,
        domains: seq![],
        enabled: false,
        comment: Some(text),
        manual: true,
        line_number: None,
    }
}

impl HostRule {
    /// A rule that gives `ip` to each of `domains`.
    pub fn new(ip: IpAddr, domains: Vec<String>) -> (r: Self)
        ensures
            r@ == rule_facts(ip, crate::text::texts(domains@)),
            r.domains == domains,
            crate::ident::is_version_4(r.id.0.0),
    {
        HostRule {
            id: RuleId(Uuid::new_v4()),
            ip: Some(ip),
            domains,
            enabled: true,
            comment: None,
            source: RuleSource::Manual,
            line_number: None,
        }
    }

    /// A line that is a comment alone.
    pub fn comment_only(text: &str) -> (r: Self)
        ensures
            r@ == comment_facts(text@),
            crate::ident::is_version_4(r.id.0.0),
    {
        let r = HostRule {
            id: RuleId(Uuid::new_v4()),
            ip: None,
            domains: Vec::new(),
            enabled: false,
            comment: Some(text.to_owned()),
            source: RuleSource::Manual,
            line_number: None,
        };
        assert(r@.domains =~= seq![]);
        r
    }

    /// Whether the line is a comment alone.
    pub fn is_comment_only(&self) -> (r: bool)
        ensures
            r == (self.ip is None),
    {
        self.ip.is_none()
    }
}

/// A subscription that rules came from.
#[derive(Debug, Clone, PartialEq, Eq)]
pub struct ExternalSource {
    pub source_id: SourceId,
    pub source_name: String,
}

/// Where a rule came from.
#[derive(Debug, Clone, PartialEq, Eq)]
pub enum RuleSource {
    Manual,
    Remote(ExternalSource),
    AdBlock(ExternalSource),
}

// ---------------------------------------------------------------------------
// Ad blocking
// ---------------------------------------------------------------------------
/// How a blocked domain is answered: with the address of all zeros, or as a
/// domain that does not exist.
#[derive(Debug, Clone, Copy, PartialEq, Eq, Structural)]
pub enum AdBlockResponse {
    ZeroAddress,
    NxDomain,
}

impl Default for AdBlockResponse {
    fn default() -> (r: Self)
        ensures
            r == AdBlockResponse::ZeroAddress,
    {
        AdBlockResponse::ZeroAddress
    }
}

/// A blocklist that is fetched from a URL.
#[derive(Debug, Clone, PartialEq, Eq)]
pub struct AdBlockSource {
    pub source_id: SourceId,
    pub name: String,
    pub url: String,
    pub enabled: bool,
    pub response: AdBlockResponse,
    /// The last successful fetch, if there was one.
    pub last_fetched_at: Option<Timestamp>,
    /// The message of the last fetch, if it failed.
    pub last_error: Option<String>,
    /// The number of rules in the last successful fetch.
    pub rule_count: usize,
    /// The entity tag that came with the last successful fetch.
    pub etag: Option<String>,
}

/// The settings of the ad blocker.
#[derive(Debug, Clone, PartialEq, Eq)]
pub struct AdBlockState {
    pub enabled: bool,
    pub sources: Vec<AdBlockSource>,
    pub whitelist: Vec<String>,
    pub auto_refresh_enabled: bool,
    /// Hours between refreshes; 0 means that none happen.
    pub refresh_interval_hours: u32,
}

impl Default for AdBlockState {
    fn default() -> (r: Self)
        ensures
            !r.enabled,
            r.sources@.len() == 0,
            r.whitelist@.len() == 0,
            r.auto_refresh_enabled,
            r.refresh_interval_hours == 24,
    {
        AdBlockState {
            enabled: false,
            sources: Vec::new(),
            whitelist: Vec::new(),
            auto_refresh_enabled: true,
            refresh_interval_hours: 24,
        }
    }
}

/// The format of an export.
#[derive(Debug, Clone, Copy, PartialEq, Eq, Structural)]
pub enum ExportFormat {
    Hosts,
    Json,
}

// ---------------------------------------------------------------------------
// Plans
// ---------------------------------------------------------------------------
/// What applying the enabled profiles would do.
#[derive(Debug, Clone, PartialEq)]
pub struct ApplyPlan {
    pub rules: Vec<ResolvedRule>,
    pub conflicts: Vec<RuleConflict>,
    pub diff: HostsDiff,
    pub backup_required: bool,
}

/// One domain with its address, and the profile that it came from.
#[derive(Debug, Clone, PartialEq)]
pub struct ResolvedRule {
    pub ip: IpAddr,
    pub domain: String,
    pub source_profile_id: ProfileId,
    pub source_profile_name: String,
}

/// What a resolved rule says.
#[verifier::ext_equal]
pub struct ResolvedFacts {
    pub ip: IpAddr,
    pub domain: Seq<char>,
    pub source_profile_id: ProfileId,
    pub source_profile_name: Seq<char>,
}

impl View for ResolvedRule {
    type V = ResolvedFacts;

    open spec fn view(&self) -> ResolvedFacts {
        ResolvedFacts {
            ip: self.ip,
            domain: self.domain@,
            source_profile_id: self.source_profile_id,
            source_profile_name: self.source_profile_name@,
        }
    }
}

/// A domain to which the enabled profiles give different addresses.
#[derive(Debug, Clone, PartialEq)]
pub struct RuleConflict {
    pub domain: String,
    pub rules: Vec<ResolvedRule>,
}

/// The lines that a plan adds, removes and keeps.
#[derive(Debug, Clone, PartialEq)]
pub struct HostsDiff {
    pub added: Vec<String>,
    pub removed: Vec<String>,
    pub unchanged: Vec<String>,
}

/// A saved set of profiles.
#[derive(Debug, Clone, PartialEq)]
pub struct Snapshot {
    pub id: String,
    pub name: String,
    pub description: Option<String>,
    pub profiles: Vec<Profile>,
    pub created_at: Timestamp,
}

/// A saved set of profiles, without the profiles.
#[derive(Debug, Clone, PartialEq)]
pub struct SnapshotMeta {
    pub id: String,
    pub name: String,
    pub description: Option<String>,
    pub profile_count: usize,
    pub created_at: Timestamp,
}

// ---------------------------------------------------------------------------
// The DNS settings that were found
// ---------------------------------------------------------------------------
/// The DNS settings of the system as they were found: servers that the user had
/// entered, or none of the user's own.
#[derive(Debug, Clone, PartialEq, Eq)]
pub enum OriginalDns {
    Manual(Vec<String>),
    DhcpEmpty,
}

/// The servers of a list that are not this machine itself, in order.
pub open spec fn foreign(servers: Seq<Seq<char>>) -> Seq<Seq<char>>
    decreases servers.len(),
{
    if servers.len() == 0 {
        seq![]
    } else if crate::net::is_local(servers.last()) {
        foreign(servers.drop_last())
    } else {
        foreign(servers.drop_last()).push(servers.last())
    }
}

/// The argument that stands for "no servers of the user's own".
pub open spec fn empty_argv() -> Seq<Seq<char>> {
    seq!["Empty"@]
}

/// `foreign` keeps members of the list, and exactly those that are not local.
pub proof fn lemma_foreign(servers: Seq<Seq<char>>)
    ensures
        forall|s: Seq<char>| #[trigger]
            foreign(servers).contains(s) <==> servers.contains(s) && !crate::net::is_local(s),
        foreign(servers).len() <= servers.len(),
    decreases servers.len(),
{
    if servers.len() > 0 {
        let init = servers.drop_last();
        lemma_foreign(init);
        assert forall|s: Seq<char>| #[trigger]
            foreign(servers).contains(s) <==> servers.contains(s) && !crate::net::is_local(s) by {
            if servers.contains(s) {
                let i = choose|i: int| 0 <= i < servers.len() && servers[i] == s;
                if i < init.len() {
                    assert(init[i] == s);
                }
            }
            if init.contains(s) {
                let i = choose|i: int| 0 <= i < init.len() && init[i] == s;
                assert(servers[i] == s);
            }
            if s == servers.last() {
                assert(servers[servers.len() - 1] == s);
            }
            if !crate::net::is_local(servers.last()) {
                let f = foreign(init);
                let g = f.push(servers.last());
                if g.contains(s) {
                    let i = choose|i: int| 0 <= i < g.len() && g[i] == s;
                    if i < f.len() {
                        assert(f[i] == s);
                    }
                }
                if f.contains(s) {
                    let i = choose|i: int| 0 <= i < f.len() && f[i] == s;
                    assert(g[i] == s);
                }
                assert(g[f.len() as int] == servers.last());
            }
        }
    }
}

/// The servers of `servers` that are not this machine itself.
pub fn without_local(servers: &Vec<String>) -> (r: Vec<String>)
    ensures
        crate::text::texts(r@) == foreign(crate::text::texts(servers@)),
{
    let mut out: Vec<String> = Vec::new();
    let ghost t = crate::text::texts(servers@);
    let mut i: usize = 0;
    assert(crate::text::texts(out@) =~= foreign(t.take(0)));
    while i < servers.len()
        invariant
            i <= servers@.len(),
            t == crate::text::texts(servers@),
            crate::text::texts(out@) == foreign(t.take(i as int)),
        decreases servers.len() - i,
    {
        let ghost before = crate::text::texts(out@);
        proof {
            assert(t.take(i + 1).drop_last() =~= t.take(i as int));
            assert(t.take(i + 1).last() == servers@[i as int]@);
        }
        if !is_local_resolver(servers[i].as_str()) {
            out.push(servers[i].clone());
            assert(crate::text::texts(out@) =~= before.push(servers@[i as int]@));
        }
        i = i + 1;
    }
    assert(t.take(i as int) =~= t);
    out
}

/// The list whose one member is `Empty`.
fn empty_list() -> (r: Vec<String>)
    ensures
        crate::text::texts(r@) == empty_argv(),
{
    let mut v: Vec<String> = Vec::new();
    v.push("Empty".to_owned());
    assert(crate::text::texts(v@) =~= empty_argv());
    v
}

impl OriginalDns {
    /// The servers to hand back to the system.
    pub open spec fn restored(&self) -> Seq<Seq<char>> {
        match self {
            OriginalDns::Manual(s) => {
                let f = foreign(crate::text::texts(s@));
                if f.len() == 0 {
                    empty_argv()
                } else {
                    f
                }
            },
            OriginalDns::DhcpEmpty => empty_argv(),
        }
    }

    /// The arguments that restore these settings: the servers that are not this
    /// machine itself, or `Empty` when there are none.
    pub fn restore_argv(&self) -> (r: Vec<String>)
        ensures
            crate::text::texts(r@) == self.restored(),
    {
        match self {
            OriginalDns::Manual(s) => {
                let f = without_local(s);
                assert(crate::text::texts(f@).len() == f@.len());
                if f.len() == 0 {
                    empty_list()
                } else {
                    f
                }
            },
            OriginalDns::DhcpEmpty => empty_list(),
        }
    }

    /// Whether the user had entered servers.
    pub fn is_manual(&self) -> (r: bool)
        ensures
            r == (self is Manual),
    {
        match self {
            OriginalDns::Manual(_) => true,
            OriginalDns::DhcpEmpty => false,
        }
    }

    /// The settings that a stored server list with the mark `manual` stands for.
    pub fn from_tagged(servers: &Vec<String>) -> (r: Self)
        ensures
            r matches OriginalDns::Manual(s) && crate::text::texts(s@) == foreign(
                crate::text::texts(servers@),
            ),
    {
        OriginalDns::Manual(without_local(servers))
    }

    /// The settings that a stored server list without a mark stands for: a list
    /// that is empty but for local servers, or that holds `Empty`, means that the
    /// user had entered none.
    pub fn from_legacy(servers: &Vec<String>) -> (r: Self)
        ensures
            ({
                let f = foreign(crate::text::texts(servers@));
                if f.len() == 0 || f.contains("Empty"@) {
                    r is DhcpEmpty
                } else {
                    r matches OriginalDns::Manual(s) && crate::text::texts(s@) == f
                }
            }),
    {
        let f = without_local(servers);
        let ghost t = crate::text::texts(f@);
        assert(t.len() == f@.len());
        if f.len() == 0 {
            return OriginalDns::DhcpEmpty;
        }
        let mut i: usize = 0;
        while i < f.len()
            invariant
                i <= f@.len(),
                t == crate::text::texts(f@),
                t == foreign(crate::text::texts(servers@)),
                forall|j: int| 0 <= j < i ==> t[j] != "Empty"@,
            decreases f.len() - i,
        {
            if crate::text::same_text(f[i].as_str(), "Empty") {
                assert(t[i as int] == "Empty"@);
                return OriginalDns::DhcpEmpty;
            }
            i = i + 1;
        }
        OriginalDns::Manual(f)
    }
}

/// What is restored is never empty, and nothing in it is this machine itself.
pub proof fn restored_is_never_local(o: OriginalDns)
    ensures
        o.restored().len() > 0,
        forall|i: int| 0 <= i < o.restored().len() ==> !crate::net::is_local(
            #[trigger] o.restored()[i],
        ),
{
    let r = o.restored();
    crate::net::lemma_word_is_not_local();
    match o {
        OriginalDns::Manual(s) => {
            let t = crate::text::texts(s@);
            lemma_foreign(t);
            assert forall|i: int| 0 <= i < r.len() implies !crate::net::is_local(#[trigger] r[i]) by {
                if foreign(t).len() > 0 {
                    assert(foreign(t).contains(r[i]));
                }
            }
        },
        OriginalDns::DhcpEmpty => {},
    }
}

/// The state of the DNS mode.
#[derive(Debug, Clone, PartialEq)]
pub struct DnsStatus {
    pub running: bool,
    pub port: u16,
    pub upstream: Vec<String>,
    /// The settings found when the mode was switched on.
    pub original_dns: OriginalDns,
    pub rule_count: usize,
    pub cache_capacity: usize,
}

} // verus!
