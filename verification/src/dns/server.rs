//! The DNS server: what it answers, what it remembers, and when it asks another
//! server. Sockets and waiting are left to the caller, who hands in the bytes of a
//! request or what another server said, and is told what to do.
use vstd::prelude::*;
use vstd::string::*;

use crate::dns::cache::{copy_bytes, AnswerCache};
use crate::dns::config::DnsConfig;
use crate::dns::resolver::RuleEngine;
use crate::dns::wire::{
    read_query, write_address, write_answer, write_bare_reply, write_status, DnsQuery, FORM_ERR,
    NOT_IMP, NO_ERROR, SERV_FAIL, TYPE_A, TYPE_AAAA,
};
use crate::error::prefixed;
use crate::models::Profile;
use crate::net::{IpAddr, SocketAddr};
use crate::text::{decimal_text, same_text, slice_of, to_chars, to_text};

verus! {

use crate::dns::cache::Remembered;

broadcast use vstd::string::group_string_axioms;

/// How long an answer from a rule counts, in seconds.
pub const LOCAL_RULE_TTL: u32 = 300;

/// Whether replies are marked as authoritative.
pub const AUTHORITATIVE: bool = false;

/// Whether replies are marked as those of a server that asks others.
pub const RECURSIVE: bool = true;

/// How often the servers are looked for again, in seconds.
pub const UPSTREAM_REFRESH_SECS: u64 = 60;

/// The nanoseconds of a second.
pub const SECOND: u128 = 1_000_000_000;

/// The latest point in time at which a request can be received, in nanoseconds.
pub const LAST_INSTANT: u128 = 0x4000_0000_0000_0000_0000_0000_0000_0000;

/// A failure of the DNS server.
#[derive(Debug, Clone, PartialEq, Eq)]
pub enum DnsError {
    Bind(String),
    Server(String),
    Upstream(String),
    Codec(String),
    Resolver(String),
}

impl DnsError {
    /// The message of the error.
    pub open spec fn message(&self) -> Seq<char> {
        match self {
            DnsError::Bind(t) => "failed to bind DNS socket: "@ + t@,
            DnsError::Server(t) => "DNS server error: "@ + t@,
            DnsError::Upstream(t) => "failed to resolve upstream: "@ + t@,
            DnsError::Codec(t) => "DNS message codec error: "@ + t@,
            DnsError::Resolver(t) => "failed to build resolver: "@ + t@,
        }
    }

    /// The message of the error.
    pub fn to_text(&self) -> (r: String)
        ensures
            r@ == self.message(),
    {
        match self {
            DnsError::Bind(t) => prefixed("failed to bind DNS socket: ", t.as_str()),
            DnsError::Server(t) => prefixed("DNS server error: ", t.as_str()),
            DnsError::Upstream(t) => prefixed("failed to resolve upstream: ", t.as_str()),
            DnsError::Codec(t) => prefixed("DNS message codec error: ", t.as_str()),
            DnsError::Resolver(t) => prefixed("failed to build resolver: ", t.as_str()),
        }
    }
}

// ---------------------------------------------------------------------------
// Meaning
// ---------------------------------------------------------------------------
/// A name without the dots at its end.
pub open spec fn trim_dots(s: Seq<char>) -> Seq<char>
    decreases s.len(),
{
    if s.len() > 0 && s.last() == '.' {
        trim_dots(s.drop_last())
    } else {
        s
    }
}

/// The mark of a record type in the key of an answer.
pub open spec fn type_mark(kind: u16) -> char {
    if kind == TYPE_A {
        '\u{1}'
    } else if kind == TYPE_AAAA {
        '\u{2}'
    } else {
        '\u{0}'
    }
}

/// The key under which the answer for a name and a type is remembered.
pub open spec fn cache_key(name: Seq<char>, kind: u16) -> Seq<char> {
    name.push('|').push(type_mark(kind))
}

/// What to do about a question for which nothing is remembered.
#[derive(Debug, Clone, Copy, PartialEq, Eq, Structural)]
pub enum Decision {
    /// Say that this type of record is not supported.
    NotSupported,
    /// Answer with this address.
    Answer(IpAddr),
    /// Answer without a record.
    NoRecord,
    /// Ask another server.
    Forward,
}

/// Whether an address is of the family that a record type is for.
pub open spec fn is_of_type(ip: IpAddr, kind: u16) -> bool {
    match ip {
        IpAddr::V4(_) => kind == TYPE_A,
        IpAddr::V6(_) => kind == TYPE_AAAA,
    }
}

/// Only addresses are answered. A rule for the name or for one of its parents decides;
/// an address of the other family means that there is no record. Without a rule
/// another server is asked.
pub open spec fn decision(
    rules: Map<Seq<char>, IpAddr>,
    name: Seq<char>,
    kind: u16,
) -> Decision {
    if kind != TYPE_A && kind != TYPE_AAAA {
        Decision::NotSupported
    } else {
        match crate::dns::matcher::nearest(rules, crate::dns::matcher::parents(name)) {
            Some(ip) => if is_of_type(ip, kind) {
                Decision::Answer(ip)
            } else {
                Decision::NoRecord
            },
            None => Decision::Forward,
        }
    }
}

/// What to do about a request.
#[derive(Debug, PartialEq, Eq)]
pub enum Step {
    /// Send these bytes.
    Reply(Vec<u8>),
    /// Nothing: what came is too short to be answered.
    Ignore,
    /// Ask another server.
    Lookup(Pending),
}

/// A request that waits for another server.
#[derive(Debug, PartialEq, Eq)]
pub struct Pending {
    pub request: Vec<u8>,
    pub name: String,
    pub kind: u16,
    pub key: String,
    pub received: u128,
    /// The servers to ask.
    pub servers: Vec<String>,
}

/// What another server said.
#[derive(Debug, PartialEq, Eq)]
pub enum Upstream {
    /// A record, as bytes, and how long it counts, in seconds.
    Record { ttl: u32, record: Vec<u8> },
    /// No record.
    Nothing,
    /// No answer.
    Failure,
}

/// A record that another server sent: its type, how long it counts, in seconds, and its
/// bytes.
#[derive(Debug, PartialEq, Eq)]
pub struct UpstreamRecord {
    pub kind: u16,
    pub ttl: u32,
    pub record: Vec<u8>,
}

/// The first record of a type.
pub open spec fn first_of(records: Seq<UpstreamRecord>, kind: u16) -> Option<UpstreamRecord>
    decreases records.len(),
{
    if records.len() == 0 {
        None
    } else if records[0].kind == kind {
        Some(records[0])
    } else {
        first_of(records.skip(1), kind)
    }
}

/// The bytes to send, if any: those that were made, or else a format error to whoever
/// sent enough for a number.
pub open spec fn sent(request: Seq<u8>, made: Option<Seq<u8>>) -> Option<Seq<u8>> {
    match made {
        Some(b) => Some(b),
        None => if request.len() < 2 {
            None
        } else {
            Some(crate::dns::wire::bare_reply(request[0], request[1], FORM_ERR))
        },
    }
}

/// Whether a step sends what was made for a request, which has a response code.
pub open spec fn step_sends(step: Step, request: Seq<u8>, made: Option<Seq<u8>>, code: u8) -> bool {
    &&& match sent(request, made) {
        Some(b) => step matches Step::Reply(v) && v@ == b,
        None => step is Ignore,
    }
    &&& made matches Some(b) ==> fits(b, request, code)
}

/// Whether a reply has the header that it should have, and repeats the question of the
/// request.
pub open spec fn fits(reply: Seq<u8>, request: Seq<u8>, code: u8) -> bool {
    &&& crate::dns::wire::replies_to(reply, request, AUTHORITATIVE, RECURSIVE, code)
    &&& crate::dns::wire::decoded(reply) is Some ==> crate::dns::wire::repeats(reply, request)
}

/// Whether a step sends the reply with a response code and without an answer, which repeats
/// the question of the request.
pub open spec fn step_says(step: Step, request: Seq<u8>, code: u8) -> bool {
    &&& step_sends(step, request, status(request, code), code)
    &&& status(request, code) matches Some(b) ==> crate::dns::wire::repeats(b, request)
        && crate::dns::wire::counts(b, 0)
}

/// Whether a reply that is sent holds the one record, if that is one for an address.
pub open spec fn step_carries(step: Step, request: Seq<u8>, record: Seq<u8>, made: Option<Seq<u8>>) -> bool {
    made is Some ==> (step matches Step::Reply(v) && crate::dns::wire::counts(v@, 1)
        && crate::dns::wire::carries(v@, request, record))
}

/// The bytes of the reply with a response code and without an answer.
pub open spec fn status(request: Seq<u8>, code: u8) -> Option<Seq<u8>> {
    crate::dns::wire::status_reply(request, AUTHORITATIVE, RECURSIVE, code)
}

/// The bytes of the reply with one answer.
pub open spec fn answer(request: Seq<u8>, record: Seq<u8>) -> Option<Seq<u8>> {
    crate::dns::wire::answer_reply(request, AUTHORITATIVE, RECURSIVE, record)
}

/// Whether a step that sends a reply sends one with the number of the request, marked
/// as a reply.
pub open spec fn step_addresses(step: Step, request: Seq<u8>) -> bool {
    step matches Step::Reply(v) ==> v@.len() >= 12 && request.len() >= 2 && v@[0] == request[0]
        && v@[1] == request[1] && v@[2] >= 0x80
}

/// The question of a message, if it is a standard query that has one: the name without
/// the dots at its end, and the type.
pub open spec fn question_of(q: Option<crate::dns::wire::QueryFacts>) -> Option<(Seq<char>, u16)> {
    match q {
        Some(f) => if f.is_query && f.is_standard {
            match f.question {
                Some((name, kind)) => Some((trim_dots(name), kind)),
                None => None,
            }
        } else {
            None
        },
        None => None,
    }
}

/// The bytes of the reply from a remembered answer that still counts.
pub open spec fn remembered_reply(
    items: Seq<Remembered>,
    key: Seq<char>,
    now: u128,
    request: Seq<u8>,
) -> Option<Seq<u8>> {
    match crate::dns::cache::find_item(items, key) {
        Some(x) => if x.expires > now {
            answer(request, x.record)
        } else {
            None
        },
        None => None,
    }
}

/// What is done, and what is remembered then, when nothing that is remembered answers
/// the question.
pub open spec fn decided(
    d: Decision,
    request: Seq<u8>,
    name: Seq<char>,
    kind: u16,
    now: u128,
    servers: Seq<Seq<char>>,
    limit: nat,
    before: Seq<Remembered>,
    after: Seq<Remembered>,
    step: Step,
) -> bool {
    match d {
        Decision::NotSupported => after == before && step_says(step, request, NOT_IMP),
        Decision::NoRecord => after == before && step_says(step, request, NO_ERROR),
        Decision::Answer(ip) => match crate::dns::wire::address_record(
            request,
            LOCAL_RULE_TTL,
            ip,
        ) {
            Some(record) => {
                &&& crate::dns::wire::gives_address(record, LOCAL_RULE_TTL, ip)
                &&& step_sends(step, request, answer(request, record), NO_ERROR)
                &&& step_carries(step, request, record, answer(request, record))
                &&& after == crate::dns::cache::with_item(
                    before,
                    limit,
                    Remembered {
                        key: cache_key(name, kind),
                        record,
                        expires: (now + LOCAL_RULE_TTL * SECOND) as u128,
                    },
                )
            },
            None => after == before && step_sends(step, request, None, NO_ERROR),
        },
        Decision::Forward => {
            &&& after == before
            &&& step matches Step::Lookup(p) && p.request@ == request && p.name@ == name && p.kind
                == kind && p.key@ == cache_key(name, kind) && p.received == now
                && crate::text::texts(p.servers@) == servers
        },
    }
}

// ---------------------------------------------------------------------------
// Requests
// ---------------------------------------------------------------------------
/// A name without the dots at its end.
fn without_dots(s: &str) -> (r: String)
    ensures
        r@ == trim_dots(s@),
{
    let v = to_chars(s);
    let mut n: usize = v.len();
    assert(v@.take(n as int) =~= v@);
    while n > 0 && v[n - 1] == '.'
        invariant
            n <= v@.len(),
            trim_dots(v@) == trim_dots(v@.take(n as int)),
        decreases n,
    {
        assert(v@.take(n as int).drop_last() =~= v@.take(n - 1));
        n = n - 1;
    }
    let out = slice_of(&v, 0, n);
    assert(out@ =~= v@.take(n as int));
    to_text(&out)
}

/// The key under which the answer for a name and a type is remembered.
pub fn make_cache_key(name: &str, kind: u16) -> (r: String)
    ensures
        r@ == cache_key(name@, kind),
{
    let mut s: String = name.to_owned();
    s.push('|');
    if kind == TYPE_A {
        s.push('\u{1}');
    } else if kind == TYPE_AAAA {
        s.push('\u{2}');
    } else {
        s.push('\u{0}');
    }
    s
}

/// The step that sends what was made, or a format error.
fn send(request: &[u8], made: Option<Vec<u8>>, Ghost(code): Ghost<u8>) -> (r: Step)
    requires
        made matches Some(b) ==> fits(b@, request@, code),
    ensures
        step_addresses(r, request@),
        step_sends(
            r,
            request@,
            match made {
                Some(b) => Some(b@),
                None => None,
            },
            code,
        ),
{
    match made {
        Some(b) => Step::Reply(b),
        None => {
            if request.len() < 2 {
                Step::Ignore
            } else {
                match write_bare_reply(request[0], request[1], FORM_ERR) {
                    Some(b) => Step::Reply(b),
                    None => Step::Ignore,
                }
            }
        },
    }
}

/// The rules, the remembered answers and the settings of a DNS server.
pub struct DnsServer {
    config: DnsConfig,
    rules: RuleEngine,
    cache: AnswerCache,
    upstream: Vec<String>,
    running: bool,
}

impl DnsServer {
    /// The address of each name.
    pub closed spec fn rules(&self) -> Map<Seq<char>, IpAddr> {
        self.rules@
    }

    /// The answers that are remembered.
    pub closed spec fn items(&self) -> Seq<Remembered> {
        self.cache.items()
    }

    /// How many answers can be remembered.
    pub closed spec fn limit(&self) -> nat {
        self.cache.limit()
    }

    /// The servers that unknown names are looked up at.
    pub closed spec fn servers(&self) -> Seq<Seq<char>> {
        crate::text::texts(self.upstream@)
    }

    /// The settings.
    pub closed spec fn settings(&self) -> DnsConfig {
        self.config
    }

    /// Whether the server runs.
    pub closed spec fn runs(&self) -> bool {
        self.running
    }

    /// The remembered answers are in order.
    pub closed spec fn wf(&self) -> bool {
        self.cache.wf()
    }

    /// Everything but the remembered answers is the same.
    pub open spec fn same_but_for_answers(&self, other: &DnsServer) -> bool {
        &&& self.rules() == other.rules()
        &&& self.limit() == other.limit()
        &&& self.servers() == other.servers()
        &&& self.settings() == other.settings()
        &&& self.runs() == other.runs()
    }

    /// A server with these settings, without rules, that does not run yet. It can
    /// remember at least one answer.
    pub fn new(config: DnsConfig) -> (r: Result<Self, DnsError>)
        requires
            config.cache_size <= usize::MAX / 128,
        ensures
            r matches Ok(s) && {
                &&& s.wf()
                &&& s.rules() == Map::<Seq<char>, IpAddr>::empty()
                &&& s.items() == Seq::<Remembered>::empty()
                &&& s.limit() == if config.cache_size == 0 {
                    1
                } else {
                    config.cache_size as nat
                }
                &&& s.servers() == crate::text::texts(config.upstream@)
                &&& s.settings() == config
                &&& !s.runs()
            },
    {
        let cache = AnswerCache::new(config.cache_size);
        let upstream = copy_list(&config.upstream);
        Ok(DnsServer { config, rules: RuleEngine::new(), cache, upstream, running: false })
    }

    /// Replaces the rules by those of the profiles. All remembered answers are
    /// forgotten, so that none of them stands against a new rule.
    pub fn reload_rules(&mut self, profiles: &[Profile])
        requires
            old(self).wf(),
        ensures
            final(self).wf(),
            final(self).rules() == crate::dns::resolver::dns_rules(profiles@),
            final(self).items() == Seq::<Remembered>::empty(),
            final(self).limit() == old(self).limit(),
            final(self).servers() == old(self).servers(),
            final(self).settings() == old(self).settings(),
            final(self).runs() == old(self).runs(),
    {
        self.rules.rebuild(profiles);
        self.cache.clear();
    }

    /// What to do about a question for which nothing is remembered.
    pub fn decide(&self, name: &str, kind: u16) -> (r: Decision)
        ensures
            r == decision(self.rules(), name@, kind),
    {
        if kind != TYPE_A && kind != TYPE_AAAA {
            return Decision::NotSupported;
        }
        match self.rules.resolve(name) {
            Some(ip) => {
                let fits = match ip {
                    IpAddr::V4(_) => kind == TYPE_A,
                    IpAddr::V6(_) => kind == TYPE_AAAA,
                };
                if fits {
                    Decision::Answer(ip)
                } else {
                    Decision::NoRecord
                }
            },
            None => Decision::Forward,
        }
    }

    /// What to do about the bytes of a request that was received at `now`: send the
    /// remembered answer, or what the rules decide, or ask another server. What cannot
    /// be understood, or answered, is answered with a format error.
    pub fn receive(&mut self, request: &[u8], now: u128) -> (r: Step)
        requires
            old(self).wf(),
            now <= LAST_INSTANT,
        ensures
            final(self).wf(),
            final(self).same_but_for_answers(old(self)),
            step_addresses(r, request@),
            match question_of(crate::dns::wire::decoded(request@)) {
                Some((name, kind)) => {
                    let key = cache_key(name, kind);
                    let left = crate::dns::cache::swept(old(self).items(), key, now);
                    match remembered_reply(old(self).items(), key, now, request@) {
                        Some(b) => final(self).items() == left && step_sends(
                            r,
                            request@,
                            Some(b),
                            NO_ERROR,
                        ) && step_carries(
                            r,
                            request@,
                            crate::dns::cache::find_item(old(self).items(), key)->0.record,
                            Some(b),
                        ),
                        None => decided(
                            decision(old(self).rules(), name, kind),
                            request@,
                            name,
                            kind,
                            now,
                            old(self).servers(),
                            old(self).limit(),
                            left,
                            final(self).items(),
                            r,
                        ),
                    }
                },
                None => final(self).items() == old(self).items() && step_sends(
                    r,
                    request@,
                    None,
                    NO_ERROR,
                ),
            },
    {
        let query = read_query(request);
        self.answer_query(request, query, now)
    }

    /// What to do about a request with the bytes `request` that reads as `query`.
    pub fn answer_query(&mut self, request: &[u8], query: Option<DnsQuery>, now: u128) -> (r: Step)
        requires
            old(self).wf(),
            now <= LAST_INSTANT,
        ensures
            final(self).wf(),
            final(self).same_but_for_answers(old(self)),
            step_addresses(r, request@),
            match question_of(
                match query {
                    Some(q) => Some(q@),
                    None => None,
                },
            ) {
                Some((name, kind)) => {
                    let key = cache_key(name, kind);
                    let left = crate::dns::cache::swept(old(self).items(), key, now);
                    match remembered_reply(old(self).items(), key, now, request@) {
                        Some(b) => final(self).items() == left && step_sends(
                            r,
                            request@,
                            Some(b),
                            NO_ERROR,
                        ) && step_carries(
                            r,
                            request@,
                            crate::dns::cache::find_item(old(self).items(), key)->0.record,
                            Some(b),
                        ),
                        None => decided(
                            decision(old(self).rules(), name, kind),
                            request@,
                            name,
                            kind,
                            now,
                            old(self).servers(),
                            old(self).limit(),
                            left,
                            final(self).items(),
                            r,
                        ),
                    }
                },
                None => final(self).items() == old(self).items() && step_sends(
                    r,
                    request@,
                    None,
                    NO_ERROR,
                ),
            },
    {
        let question = match query {
            Some(q) => {
                if q.is_query && q.is_standard {
                    q.question
                } else {
                    None
                }
            },
            None => None,
        };
        let (full, kind) = match question {
            Some(x) => x,
            None => {
                return send(request, None, Ghost(NO_ERROR));
            },
        };
        let name = without_dots(full.as_str());
        let key = make_cache_key(name.as_str(), kind);
        match self.cache.fresh(key.as_str(), now) {
            Some(record) => {
                match write_answer(request, AUTHORITATIVE, RECURSIVE, &record) {
                    Some(b) => {
                        return Step::Reply(b);
                    },
                    None => {},
                }
            },
            None => {},
        }
        match self.decide(name.as_str(), kind) {
            Decision::NotSupported => {
                let made = write_status(request, AUTHORITATIVE, RECURSIVE, NOT_IMP);
                send(request, made, Ghost(NOT_IMP))
            },
            Decision::NoRecord => {
                let made = write_status(request, AUTHORITATIVE, RECURSIVE, NO_ERROR);
                send(request, made, Ghost(NO_ERROR))
            },
            Decision::Answer(ip) => {
                match write_address(request, LOCAL_RULE_TTL, ip) {
                    Some(record) => {
                        let made = write_answer(request, AUTHORITATIVE, RECURSIVE, &record);
                        self.cache.put(key, record, now + LOCAL_RULE_TTL as u128 * SECOND);
                        send(request, made, Ghost(NO_ERROR))
                    },
                    None => send(request, None, Ghost(NO_ERROR)),
                }
            },
            Decision::Forward => Step::Lookup(
                Pending {
                    request: copy_bytes(request),
                    name,
                    kind,
                    key,
                    received: now,
                    servers: copy_list(&self.upstream),
                },
            ),
        }
    }

    /// What to do once another server has spoken: send its record and remember it as
    /// long as it counts, or say that there is no record, or that the server failed. A
    /// record that counts for no time is not remembered.
    pub fn upstream_answered(&mut self, pending: Pending, said: Upstream) -> (r: Step)
        requires
            old(self).wf(),
            pending.received <= LAST_INSTANT,
        ensures
            final(self).wf(),
            final(self).same_but_for_answers(old(self)),
            step_addresses(r, pending.request@),
            match said {
                Upstream::Record { ttl, record } => {
                    &&& step_sends(
                        r,
                        pending.request@,
                        answer(pending.request@, record@),
                        NO_ERROR,
                    )
                    &&& step_carries(
                        r,
                        pending.request@,
                        record@,
                        answer(pending.request@, record@),
                    )
                    &&& final(self).items() == if ttl == 0 {
                        old(self).items()
                    } else {
                        crate::dns::cache::with_item(
                            old(self).items(),
                            old(self).limit(),
                            Remembered {
                                key: pending.key@,
                                record: record@,
                                expires: (pending.received + ttl * SECOND) as u128,
                            },
                        )
                    }
                },
                Upstream::Nothing => final(self).items() == old(self).items() && step_says(
                    r,
                    pending.request@,
                    NO_ERROR,
                ),
                Upstream::Failure => final(self).items() == old(self).items() && step_says(
                    r,
                    pending.request@,
                    SERV_FAIL,
                ),
            },
    {
        match said {
            Upstream::Record { ttl, record } => {
                let made = write_answer(&pending.request, AUTHORITATIVE, RECURSIVE, &record);
                if ttl > 0 {
                    self.cache.put(pending.key, record, pending.received + ttl as u128 * SECOND);
                }
                send(&pending.request, made, Ghost(NO_ERROR))
            },
            Upstream::Nothing => {
                let made = write_status(&pending.request, AUTHORITATIVE, RECURSIVE, NO_ERROR);
                send(&pending.request, made, Ghost(NO_ERROR))
            },
            Upstream::Failure => {
                let made = write_status(&pending.request, AUTHORITATIVE, RECURSIVE, SERV_FAIL);
                send(&pending.request, made, Ghost(SERV_FAIL))
            },
        }
    }

    /// Marks the server as running. Whoever finds it running already is told so.
    pub fn try_start(&mut self) -> (r: bool)
        requires
            old(self).wf(),
        ensures
            final(self).wf(),
            r == !old(self).runs(),
            final(self).runs(),
            final(self).items() == old(self).items(),
            final(self).rules() == old(self).rules(),
            final(self).limit() == old(self).limit(),
            final(self).servers() == old(self).servers(),
            final(self).settings() == old(self).settings(),
    {
        if self.running {
            false
        } else {
            self.running = true;
            true
        }
    }

    /// Takes back the start of the server, because its socket could not be bound, and
    /// says so.
    pub fn bind_failed(&mut self, reason: &str) -> (r: DnsError)
        requires
            old(self).wf(),
        ensures
            r matches DnsError::Bind(m) && m@ == "127.0.0.1:"@ + crate::text::decimal(
                old(self).settings().port as nat,
            ) + ": "@ + reason@,
            final(self).wf(),
            !final(self).runs(),
            final(self).items() == old(self).items(),
            final(self).rules() == old(self).rules(),
            final(self).limit() == old(self).limit(),
            final(self).servers() == old(self).servers(),
            final(self).settings() == old(self).settings(),
    {
        self.running = false;
        let mut m: String = "127.0.0.1:".to_owned();
        m.append(decimal_text(self.config.port as u64).as_str());
        m.append(": ");
        m.append(reason);
        DnsError::Bind(m)
    }

    /// Marks the server as not running, unless its task came to an error.
    pub fn stop(&mut self, ended: TaskEnd) -> (r: Result<(), DnsError>)
        requires
            old(self).wf(),
        ensures
            final(self).wf(),
            match ended {
                TaskEnd::NotStarted | TaskEnd::Cancelled | TaskEnd::Returned(Ok(())) => r is Ok
                    && !final(self).runs(),
                TaskEnd::Returned(Err(e)) => r == Err::<(), DnsError>(e) && final(self).runs()
                    == old(self).runs(),
                TaskEnd::Broken(why) => r == Err::<(), DnsError>(DnsError::Server(why))
                    && final(self).runs() == old(self).runs(),
            },
            final(self).items() == old(self).items(),
            final(self).rules() == old(self).rules(),
            final(self).limit() == old(self).limit(),
            final(self).servers() == old(self).servers(),
            final(self).settings() == old(self).settings(),
    {
        match ended {
            TaskEnd::Returned(Err(e)) => {
                return Err(e);
            },
            TaskEnd::Broken(why) => {
                return Err(DnsError::Server(why));
            },
            TaskEnd::NotStarted | TaskEnd::Cancelled | TaskEnd::Returned(Ok(())) => {},
        }
        self.running = false;
        Ok(())
    }

    /// Whether the server runs.
    pub fn is_running(&self) -> (r: bool)
        ensures
            r == self.runs(),
    {
        self.running
    }

    /// The port to listen on.
    pub fn port(&self) -> (r: u16)
        ensures
            r == self.settings().port,
    {
        self.config.port
    }

    /// How long to wait for another server, in milliseconds.
    pub fn timeout_ms(&self) -> (r: u64)
        ensures
            r == self.settings().timeout_ms,
    {
        self.config.timeout_ms
    }

    /// Whether the servers are looked for again while this one runs.
    pub fn refreshes_upstream(&self) -> (r: bool)
        ensures
            r == self.settings().refresh_upstream,
    {
        self.config.refresh_upstream
    }

    /// The servers that unknown names are looked up at.
    pub fn upstream(&self) -> (r: Vec<String>)
        ensures
            crate::text::texts(r@) == self.servers(),
    {
        copy_list(&self.upstream)
    }

    /// How many answers can be remembered.
    pub fn cache_capacity(&self) -> (r: usize)
        ensures
            r == self.limit(),
    {
        self.cache.capacity()
    }

    /// The number of names that have an address.
    pub fn rule_count(&self) -> (r: usize)
        ensures
            r == self.rules().dom().len(),
    {
        self.rules.rule_count()
    }

    /// What to do about the list of servers that was found while the server runs:
    /// nothing if it is the one in use, and otherwise to build a resolver for it.
    pub fn refresh_tick(&self, found: &Vec<String>) -> (r: RefreshStep)
        ensures
            if crate::text::texts(found@) == self.servers() {
                r is Unchanged
            } else {
                match first_bad_server(crate::text::texts(found@)) {
                    Some(s) => r matches RefreshStep::Keep(DnsError::Upstream(m)) && m@
                        == bad_server_message(s),
                    None => r matches RefreshStep::Swap(p) && plans(p, found@),
                }
            },
    {
        if same_list(found, &self.upstream) {
            RefreshStep::Unchanged
        } else {
            match resolver_plan(found) {
                Ok(p) => RefreshStep::Swap(p),
                Err(e) => RefreshStep::Keep(e),
            }
        }
    }

    /// The rules.
    pub fn rule_engine_for_test(&self) -> (r: &RuleEngine)
        ensures
            r@ == self.rules(),
    {
        &self.rules
    }

    /// Uses other servers from now on.
    pub fn use_upstream(&mut self, new_upstream: Vec<String>)
        requires
            old(self).wf(),
        ensures
            final(self).wf(),
            final(self).servers() == crate::text::texts(new_upstream@),
            final(self).items() == old(self).items(),
            final(self).rules() == old(self).rules(),
            final(self).limit() == old(self).limit(),
            final(self).settings() == old(self).settings(),
            final(self).runs() == old(self).runs(),
    {
        self.upstream = new_upstream;
    }

    /// Uses other servers from now on, unless one of them is no address; then nothing
    /// changes.
    pub fn set_upstream_for_test(&mut self, new_upstream: Vec<String>) -> (r: Result<
        (),
        DnsError,
    >)
        requires
            old(self).wf(),
        ensures
            final(self).wf(),
            match first_bad_server(crate::text::texts(new_upstream@)) {
                None => r is Ok && final(self).servers() == crate::text::texts(new_upstream@),
                Some(s) => (r matches Err(DnsError::Upstream(m)) && m@ == bad_server_message(s))
                    && final(self).servers() == old(self).servers(),
            },
            final(self).items() == old(self).items(),
            final(self).rules() == old(self).rules(),
            final(self).limit() == old(self).limit(),
            final(self).settings() == old(self).settings(),
            final(self).runs() == old(self).runs(),
    {
        match resolver_plan(&new_upstream) {
            Ok(_) => {
                self.use_upstream(new_upstream);
                Ok(())
            },
            Err(e) => Err(e),
        }
    }
}

/// At least one answer can be remembered, and no two under one key.
pub(crate) proof fn lemma_wf(s: DnsServer)
    requires
        s.wf(),
    ensures
        s.limit() > 0,
        s.items().len() <= s.limit(),
        crate::dns::cache::keys_differ(s.items()),
{
}

// ---------------------------------------------------------------------------
// Servers
// ---------------------------------------------------------------------------
/// What another server said with some records: the first one of the type that was asked
/// for counts, and without one there is no record.
pub fn matching_record(records: Vec<UpstreamRecord>, kind: u16) -> (r: Upstream)
    ensures
        match first_of(records@, kind) {
            Some(x) => r matches Upstream::Record { ttl, record } && ttl == x.ttl && record@
                == x.record@,
            None => r is Nothing,
        },
{
    let mut i: usize = 0;
    assert(records@.skip(0) =~= records@);
    while i < records.len()
        invariant
            i <= records@.len(),
            first_of(records@, kind) == first_of(records@.skip(i as int), kind),
        decreases records.len() - i,
    {
        let ghost rest = records@.skip(i as int);
        assert(rest[0] == records@[i as int]);
        assert(rest.skip(1) =~= records@.skip(i + 1));
        if records[i].kind == kind {
            return Upstream::Record {
                ttl: records[i].ttl,
                record: copy_bytes(&records[i].record),
            };
        }
        i = i + 1;
    }
    assert(records@.skip(i as int).len() == 0);
    Upstream::Nothing
}

/// The socket address of a server: with its own port, or with port 53.
pub open spec fn server_address(s: Seq<char>) -> Option<SocketAddr> {
    match crate::net::parse_socket(s) {
        Some(a) => Some(a),
        None => match crate::net::parse_ip(s) {
            Some(ip) => Some(SocketAddr { ip, port: 53, scope_id: 0 }),
            None => None,
        },
    }
}

/// The first server of a list that is no address.
pub open spec fn first_bad_server(servers: Seq<Seq<char>>) -> Option<Seq<char>>
    decreases servers.len(),
{
    if servers.len() == 0 {
        None
    } else if server_address(servers[0]) is None {
        Some(servers[0])
    } else {
        first_bad_server(servers.skip(1))
    }
}

/// The message about a server that is no address.
pub open spec fn bad_server_message(s: Seq<char>) -> Seq<char> {
    "invalid server '"@ + s + "': invalid IP address syntax"@
}

/// The socket addresses of some servers, or an error about the first that is none.
pub fn server_addresses(upstream: &Vec<String>) -> (r: Result<Vec<SocketAddr>, DnsError>)
    ensures
        match first_bad_server(crate::text::texts(upstream@)) {
            None => r matches Ok(v) && v@.len() == upstream@.len() && forall|i: int|
                0 <= i < v@.len() ==> server_address(upstream@[i]@) == Some(#[trigger] v@[i]),
            Some(s) => r matches Err(DnsError::Upstream(m)) && m@ == bad_server_message(s),
        },
{
    let mut out: Vec<SocketAddr> = Vec::new();
    let ghost t = crate::text::texts(upstream@);
    let mut i: usize = 0;
    assert(t.skip(0) =~= t);
    while i < upstream.len()
        invariant
            i <= upstream@.len(),
            t == crate::text::texts(upstream@),
            out@.len() == i,
            first_bad_server(t) == first_bad_server(t.skip(i as int)),
            forall|j: int|
                0 <= j < i ==> server_address(upstream@[j]@) == Some(#[trigger] out@[j]),
        decreases upstream.len() - i,
    {
        let s = &upstream[i];
        let ghost rest = t.skip(i as int);
        assert(rest[0] == s@);
        assert(rest.skip(1) =~= t.skip(i + 1));
        match SocketAddr::parse_text(s.as_str()) {
            Some(a) => {
                out.push(a);
            },
            None => {
                match IpAddr::parse_text(s.as_str()) {
                    Some(ip) => {
                        out.push(SocketAddr { ip, port: 53, scope_id: 0 });
                    },
                    None => {
                        let mut m: String = "invalid server '".to_owned();
                        m.append(s.as_str());
                        m.append("': invalid IP address syntax");
                        return Err(DnsError::Upstream(m));
                    },
                }
            },
        }
        i = i + 1;
    }
    assert(t.skip(i as int).len() == 0);
    Ok(out)
}

/// The servers that names are looked up at: those of a list, or, if the list is empty,
/// those of the system.
#[derive(Debug, PartialEq, Eq)]
pub enum ResolverPlan {
    System,
    Servers(Vec<SocketAddr>),
}

/// What to do about a list of servers that was found.
#[derive(Debug, PartialEq, Eq)]
pub enum RefreshStep {
    Unchanged,
    Keep(DnsError),
    Swap(ResolverPlan),
}

/// How the task of the server ended.
#[derive(Debug, PartialEq, Eq)]
pub enum TaskEnd {
    NotStarted,
    Returned(Result<(), DnsError>),
    Cancelled,
    Broken(String),
}

/// Whether a plan uses the servers of a list.
pub open spec fn plans(p: ResolverPlan, upstream: Seq<String>) -> bool {
    match p {
        ResolverPlan::System => upstream.len() == 0,
        ResolverPlan::Servers(v) => upstream.len() > 0 && v@.len() == upstream.len() && forall|
            i: int,
        |
            0 <= i < v@.len() ==> server_address(upstream[i]@) == Some(#[trigger] v@[i]),
    }
}

/// How to look names up at the servers of a list.
pub fn resolver_plan(upstream: &Vec<String>) -> (r: Result<ResolverPlan, DnsError>)
    ensures
        match first_bad_server(crate::text::texts(upstream@)) {
            None => r matches Ok(p) && plans(p, upstream@),
            Some(s) => r matches Err(DnsError::Upstream(m)) && m@ == bad_server_message(s),
        },
{
    if upstream.len() == 0 {
        assert(crate::text::texts(upstream@).len() == 0);
        return Ok(ResolverPlan::System);
    }
    match server_addresses(upstream) {
        Ok(v) => Ok(ResolverPlan::Servers(v)),
        Err(e) => Err(e),
    }
}

/// A copy of a list of texts.
pub fn copy_list(v: &Vec<String>) -> (r: Vec<String>)
    ensures
        crate::text::texts(r@) == crate::text::texts(v@),
{
    let ghost t = crate::text::texts(v@);
    let mut out: Vec<String> = Vec::new();
    let mut i: usize = 0;
    assert(crate::text::texts(out@) =~= t.take(0));
    while i < v.len()
        invariant
            i <= v@.len(),
            t == crate::text::texts(v@),
            crate::text::texts(out@) == t.take(i as int),
        decreases v.len() - i,
    {
        let ghost before = crate::text::texts(out@);
        out.push(v[i].clone());
        assert(crate::text::texts(out@) =~= before.push(t[i as int]));
        assert(t.take(i + 1) =~= t.take(i as int).push(t[i as int]));
        i = i + 1;
    }
    assert(t.take(i as int) =~= t);
    out
}

/// Tests two lists of texts for equality.
pub fn same_list(a: &Vec<String>, b: &Vec<String>) -> (r: bool)
    ensures
        r == (crate::text::texts(a@) == crate::text::texts(b@)),
{
    let ghost s = crate::text::texts(a@);
    let ghost t = crate::text::texts(b@);
    assert(s.len() == a@.len() && t.len() == b@.len());
    if a.len() != b.len() {
        return false;
    }
    let mut i: usize = 0;
    while i < a.len()
        invariant
            i <= a@.len(),
            a@.len() == b@.len(),
            s == crate::text::texts(a@),
            t == crate::text::texts(b@),
            forall|j: int| 0 <= j < i ==> s[j] == t[j],
        decreases a.len() - i,
    {
        assert(s[i as int] == a@[i as int]@ && t[i as int] == b@[i as int]@);
        if !same_text(a[i].as_str(), b[i].as_str()) {
            return false;
        }
        i = i + 1;
    }
    assert(s =~= t);
    true
}

// ---------------------------------------------------------------------------
// Laws
// ---------------------------------------------------------------------------
/// Answers for different types of addresses are remembered apart.
pub proof fn keys_tell_types_apart(name: Seq<char>, other: Seq<char>)
    ensures
        cache_key(name, TYPE_A) != cache_key(other, TYPE_AAAA),
{
    assert(cache_key(name, TYPE_A).last() == '\u{1}');
    assert(cache_key(other, TYPE_AAAA).last() == '\u{2}');
}

/// Answers for different names are remembered apart.
pub proof fn keys_tell_names_apart(name: Seq<char>, other: Seq<char>, kind: u16)
    requires
        cache_key(name, kind) == cache_key(other, kind),
    ensures
        name == other,
{
    assert(name =~= cache_key(name, kind).drop_last().drop_last());
    assert(other =~= cache_key(other, kind).drop_last().drop_last());
}

/// With nothing remembered, as after the rules were loaded, the rules decide.
pub proof fn rules_decide_after_reload(key: Seq<char>, now: u128, request: Seq<u8>)
    ensures
        remembered_reply(Seq::<Remembered>::empty(), key, now, request) is None,
        crate::dns::cache::swept(Seq::<Remembered>::empty(), key, now) == Seq::<
            Remembered,
        >::empty(),
{
}

/// An answer is given from memory until its time is over, and not after.
pub proof fn answers_expire(items: Seq<Remembered>, key: Seq<char>, now: u128, request: Seq<u8>)
    requires
        crate::dns::cache::find_item(items, key) matches Some(x) && x.expires <= now,
    ensures
        remembered_reply(items, key, now, request) is None,
{
}

/// A rule for a name decides for every name under it: no other server is asked for its
/// addresses.
pub proof fn rules_cover_subdomains(
    rules: Map<Seq<char>, IpAddr>,
    sub: Seq<char>,
    name: Seq<char>,
    kind: u16,
)
    requires
        rules.contains_key(name),
    ensures
        decision(rules, name, kind) != Decision::Forward,
        decision(rules, sub + seq!['.'] + name, kind) != Decision::Forward,
{
    crate::dns::matcher::an_entry_covers_subdomains(rules, sub, name);
    crate::dns::matcher::lemma_nearest_some(rules, crate::dns::matcher::parents(name), 0);
}

/// A question for another type of record than addresses is refused: whatever is sent
/// says that the type is not supported, repeats the question and has no answer, or, where
/// no such reply can be made, is a format error. No other server is asked, and what is remembered stays.
pub proof fn other_types_are_refused(
    rules: Map<Seq<char>, IpAddr>,
    request: Seq<u8>,
    name: Seq<char>,
    kind: u16,
    now: u128,
    servers: Seq<Seq<char>>,
    limit: nat,
    before: Seq<Remembered>,
    after: Seq<Remembered>,
    step: Step,
)
    requires
        kind != TYPE_A && kind != TYPE_AAAA,
        decided(
            decision(rules, name, kind),
            request,
            name,
            kind,
            now,
            servers,
            limit,
            before,
            after,
            step,
        ),
    ensures
        after == before,
        !(step is Lookup),
        step matches Step::Reply(v) ==> (v@[3] % 16 == NOT_IMP && crate::dns::wire::repeats(
            v@,
            request,
        ) && crate::dns::wire::counts(v@, 0)) || v@ == crate::dns::wire::bare_reply(
            request[0],
            request[1],
            FORM_ERR,
        ),
{
}

/// A name with a rule is answered with the address of the rule: a reply that is made ends
/// with the address and how long it counts, and repeats the question.
pub proof fn rules_give_their_address(
    rules: Map<Seq<char>, IpAddr>,
    request: Seq<u8>,
    name: Seq<char>,
    kind: u16,
    now: u128,
    servers: Seq<Seq<char>>,
    limit: nat,
    before: Seq<Remembered>,
    after: Seq<Remembered>,
    step: Step,
    ip: IpAddr,
)
    requires
        decision(rules, name, kind) == Decision::Answer(ip),
        decided(
            decision(rules, name, kind),
            request,
            name,
            kind,
            now,
            servers,
            limit,
            before,
            after,
            step,
        ),
        crate::dns::wire::address_record(request, LOCAL_RULE_TTL, ip) matches Some(record)
            && answer(request, record) is Some,
    ensures
        step matches Step::Reply(v) && crate::dns::wire::gives_address(v@, LOCAL_RULE_TTL, ip)
            && crate::dns::wire::repeats(v@, request) && crate::dns::wire::replies_to(
            v@,
            request,
            AUTHORITATIVE,
            RECURSIVE,
            NO_ERROR,
        ),
{
}

/// Once the servers are swapped, the new ones are asked: a question that neither a rule
/// nor a remembered answer decides is handed out with the servers that the last swap has
/// set, whatever was used before.
pub proof fn swapped_servers_are_asked(
    server: DnsServer,
    swapped: Seq<Seq<char>>,
    request: Seq<u8>,
    name: Seq<char>,
    kind: u16,
    now: u128,
    after: Seq<Remembered>,
    step: Step,
)
    requires
        server.servers() == swapped,
        decision(server.rules(), name, kind) == Decision::Forward,
        decided(
            decision(server.rules(), name, kind),
            request,
            name,
            kind,
            now,
            server.servers(),
            server.limit(),
            crate::dns::cache::swept(server.items(), cache_key(name, kind), now),
            after,
            step,
        ),
    ensures
        step matches Step::Lookup(p) && crate::text::texts(p.servers@) == swapped && p.request@
            == request && p.name@ == name,
{
}

/// Without a rule for a name or for a parent of it, another server is asked.
pub proof fn unknown_names_are_forwarded(rules: Map<Seq<char>, IpAddr>, name: Seq<char>, kind: u16)
    requires
        kind == TYPE_A || kind == TYPE_AAAA,
        forall|n: int| #[trigger]
            crate::dns::matcher::starts_parent(name, n) ==> !rules.contains_key(name.skip(n)),
    ensures
        decision(rules, name, kind) == Decision::Forward,
{
    if crate::dns::matcher::nearest(rules, crate::dns::matcher::parents(name)) is Some {
        crate::dns::matcher::only_parents_answer(rules, name);
    }
}

/// The rule for the longest part of a name decides, where a part is the name itself or what
/// follows one of its dots. Whatever the IPv4 address of the rule is, a query of type 1 is
/// answered with it and one of type 28 has no record; for an IPv6 address it is the other
/// way round; and any other type is not supported.
pub proof fn the_longest_rule_decides(
    rules: Map<Seq<char>, IpAddr>,
    name: Seq<char>,
    n: int,
    kind: u16,
)
    requires
        0 <= n <= name.len(),
        n == 0 || name[n - 1] == '.',
        rules.contains_key(name.skip(n)),
        forall|k: int|
            0 <= k < n && (k == 0 || name[k - 1] == '.') ==> !rules.contains_key(
                #[trigger] name.skip(k),
            ),
    ensures
        match rules[name.skip(n)] {
            IpAddr::V4(a) => decision(rules, name, 1) == Decision::Answer(IpAddr::V4(a))
                && decision(rules, name, 28) == Decision::NoRecord,
            IpAddr::V6(b) => decision(rules, name, 28) == Decision::Answer(IpAddr::V6(b))
                && decision(rules, name, 1) == Decision::NoRecord,
        },
        kind != 1 && kind != 28 ==> decision(rules, name, kind) == Decision::NotSupported,
{
    crate::dns::matcher::the_longest_part_answers(rules, name, n);
}

/// Without a rule for a name or for what follows one of its dots, another server is asked
/// for its addresses, and no other type is supported.
pub proof fn no_rule_no_decision(rules: Map<Seq<char>, IpAddr>, name: Seq<char>, kind: u16)
    requires
        forall|k: int|
            0 <= k <= name.len() && (k == 0 || name[k - 1] == '.') ==> !rules.contains_key(
                #[trigger] name.skip(k),
            ),
    ensures
        decision(rules, name, kind) == if kind == 1 || kind == 28 {
            Decision::Forward
        } else {
            Decision::NotSupported
        },
{
    crate::dns::matcher::no_part_no_answer(rules, name);
}

} // verus!
