//! The DNS server.
use hickory_proto::op::{Message, OpCode, Query, ResponseCode};
use hickory_proto::rr::rdata::A;
use hickory_proto::rr::{Name, RData, Record, RecordType};
use hickory_proto::serialize::binary::{BinDecodable, BinEncodable};
use mhost::dns::config::DnsConfig;
use mhost::dns::server::{
    make_cache_key, matching_record, resolver_plan, server_addresses, Decision, DnsError, DnsServer, Pending,
    RefreshStep, ResolverPlan, Step, TaskEnd, Upstream, UpstreamRecord, LOCAL_RULE_TTL,
    SECOND,
};
use mhost::dns::wire::DnsQuery;
use mhost::ident::Uuid;
use mhost::models::{HostRule, Profile, ProfileMode, RuleId, RuleSource};

fn make_profile(name: &str, mode: ProfileMode, enabled: bool, rules: Vec<HostRule>) -> Profile {
    let mut p = Profile::new(name);
    p.mode = mode;
    p.enabled = enabled;
    p.rules = rules;
    p
}

fn make_rule(ip: Option<&str>, domains: Vec<&str>, enabled: bool) -> HostRule {
    HostRule {
        id: RuleId(Uuid::new_v4()),
        ip: ip.map(|s| s.parse().unwrap()),
        domains: domains.iter().map(|d| d.to_string()).collect(),
        enabled,
        comment: None,
        source: RuleSource::Manual,
        line_number: None,
    }
}

fn dns_profile(name: &str, ip: &str, domain: &str) -> Profile {
    make_profile(name, ProfileMode::Dns, true, vec![make_rule(Some(ip), vec![domain], true)])
}

fn server_with(profiles: &[Profile]) -> DnsServer {
    let mut server = DnsServer::new(DnsConfig { port: 1054, ..Default::default() }).unwrap();
    server.reload_rules(profiles);
    server
}

fn request(id: u16, name: &str, kind: RecordType) -> Vec<u8> {
    let mut request = Message::new();
    request.set_id(id);
    request.set_recursion_desired(true);
    request.add_query(Query::query(Name::from_utf8(name).unwrap(), kind));
    request.to_bytes().unwrap()
}

fn reply(step: Step) -> Message {
    match step {
        Step::Reply(bytes) => Message::from_bytes(&bytes).unwrap(),
        other => panic!("expected a reply, got {:?}", other),
    }
}

fn pending(step: Step) -> Pending {
    match step {
        Step::Lookup(p) => p,
        other => panic!("expected a lookup, got {:?}", other),
    }
}

fn address(message: &Message) -> String {
    match message.answers()[0].data() {
        Some(RData::A(a)) => a.0.to_string(),
        Some(RData::AAAA(a)) => a.0.to_string(),
        other => panic!("expected an address, got {:?}", other),
    }
}

#[test]
fn test_dns_server_start_stop() {
    let mut server = DnsServer::new(DnsConfig { port: 1053, ..Default::default() }).unwrap();
    assert!(!server.is_running());
    assert!(server.try_start());
    assert!(server.is_running());
    assert_eq!(server.stop(TaskEnd::Returned(Ok(()))), Ok(()));
    assert!(!server.is_running());
}

#[test]
fn test_dns_server_resolve_custom_domain() {
    let mut server = server_with(&[dns_profile("dns_test", "127.0.0.1", "test.example.com")]);
    let response = reply(server.receive(&request(1234, "test.example.com.", RecordType::A), 0));
    assert_eq!(response.id(), 1234);
    assert_eq!(response.response_code(), ResponseCode::NoError);
    assert!(!response.answers().is_empty());
    assert_eq!(address(&response), "127.0.0.1");
}

#[test]
fn test_dns_server_not_found() {
    let mut server = server_with(&[]);
    let p = pending(server.receive(&request(5678, "nonexistent.test.", RecordType::A), 0));
    assert_eq!(p.name, "nonexistent.test");
    assert_eq!(p.kind, 1);
    let response = reply(server.upstream_answered(p, Upstream::Failure));
    assert_eq!(response.id(), 5678);
    assert_eq!(response.response_code(), ResponseCode::ServFail);
}

#[test]
fn test_dns_server_aaaa_query_local_rule() {
    let mut server = server_with(&[dns_profile("dns_test_aaaa", "::1", "v6.example.com")]);
    let response = reply(server.receive(&request(2000, "v6.example.com.", RecordType::AAAA), 0));
    assert_eq!(response.id(), 2000);
    assert_eq!(response.response_code(), ResponseCode::NoError);
    assert_eq!(response.answers().len(), 1);
    let answer = &response.answers()[0];
    assert_eq!(answer.record_type(), RecordType::AAAA);
    assert_eq!(address(&response), "::1");
    assert_eq!(answer.ttl(), LOCAL_RULE_TTL);
}

#[test]
fn test_dns_server_aaaa_query_mismatched_family() {
    let mut server = server_with(&[dns_profile("mismatch", "127.0.0.1", "v4.example.com")]);
    let response = reply(server.receive(&request(2001, "v4.example.com.", RecordType::AAAA), 0));
    assert_eq!(response.response_code(), ResponseCode::NoError);
    assert_eq!(response.answers().len(), 0);
}

#[test]
fn test_dns_server_ttl_uses_local_rule_constant() {
    let mut server = server_with(&[dns_profile("dns_test_ttl", "127.0.0.1", "ttl.example.com")]);
    let response = reply(server.receive(&request(2002, "ttl.example.com.", RecordType::A), 0));
    assert_eq!(response.answers()[0].ttl(), LOCAL_RULE_TTL);
}

#[test]
fn test_dns_server_cache_hit_on_second_query() {
    let mut server = DnsServer::new(DnsConfig {
        port: 1059,
        cache_size: 100,
        ..Default::default()
    })
    .unwrap();
    server.reload_rules(&[dns_profile("p1", "127.0.0.1", "cache.example.com")]);
    let ask = |server: &mut DnsServer, id: u16| {
        address(&reply(server.receive(&request(id, "cache.example.com.", RecordType::A), 0)))
    };
    assert_eq!(ask(&mut server, 3000), "127.0.0.1");
    assert_eq!(ask(&mut server, 3001), "127.0.0.1");
    server.reload_rules(&[dns_profile("p2", "10.0.0.1", "cache.example.com")]);
    assert_eq!(ask(&mut server, 3002), "10.0.0.1");
}

#[test]
fn test_user_scenario_reload_must_invalidate_cache() {
    let mut server = server_with(&[dns_profile("A", "127.0.0.1", "cache.example.com")]);
    let ask = |server: &mut DnsServer, id: u16| {
        address(&reply(server.receive(&request(id, "cache.example.com.", RecordType::A), 0)))
    };
    assert_eq!(ask(&mut server, 4000), "127.0.0.1");
    assert_eq!(ask(&mut server, 4001), "127.0.0.1");
    server.reload_rules(&[dns_profile("B", "10.0.0.1", "cache.example.com")]);
    assert_eq!(ask(&mut server, 4002), "10.0.0.1");
}

#[test]
fn test_dns_server_reload_after_profile_edit() {
    let profile = dns_profile("p1", "127.0.0.1", "local1.dns");
    let mut server = server_with(&[profile.clone()]);
    assert_eq!(server.rule_count(), 1);
    let mut updated = profile;
    updated.rules.push(make_rule(Some("127.0.0.1"), vec!["local3.dns"], true));
    server.reload_rules(&[updated]);
    assert_eq!(server.rule_count(), 2);
    let engine = server.rule_engine_for_test();
    assert_eq!(engine.resolve("local1.dns"), Some("127.0.0.1".parse().unwrap()));
    assert_eq!(engine.resolve("local3.dns"), Some("127.0.0.1".parse().unwrap()));
}

#[test]
fn test_dns_server_double_start_concurrent() {
    let mut server = DnsServer::new(DnsConfig { port: 1061, ..Default::default() }).unwrap();
    assert!(server.try_start());
    assert!(!server.try_start());
    assert!(server.is_running());
}

#[test]
fn test_dns_server_cache_ttl_expiry() {
    let server = DnsServer::new(DnsConfig {
        port: 1060,
        cache_size: 5,
        ..Default::default()
    })
    .unwrap();
    assert_eq!(server.cache_capacity(), 5);
}

#[test]
fn test_cache_capacity_uses_parking_lot_lock() {
    let config = DnsConfig {
        port: 1061,
        cache_size: 42,
        ..Default::default()
    };
    let server = DnsServer::new(config).unwrap();
    for _ in 0..100 {
        assert_eq!(server.cache_capacity(), 42);
    }
}

#[test]
fn test_cache_keys_disambiguate_by_record_type() {
    let mut server = server_with(&[dns_profile("types", "127.0.0.1", "typed.example.com")]);
    let count = |server: &mut DnsServer, kind: RecordType| {
        reply(server.receive(&request(1234, "typed.example.com.", kind), 0)).answer_count()
    };
    assert_eq!(count(&mut server, RecordType::A), 1);
    assert_eq!(count(&mut server, RecordType::AAAA), 0);
    assert_eq!(count(&mut server, RecordType::A), 1);
}

#[test]
fn test_dns_server_upstream_snapshot_reflects_current_upstream() {
    let config = DnsConfig {
        port: 1070,
        upstream: vec!["1.1.1.1".to_string(), "8.8.8.8".to_string()],
        refresh_upstream: false,
        ..Default::default()
    };
    let mut server = DnsServer::new(config).unwrap();
    assert_eq!(
        server.upstream(),
        vec!["1.1.1.1".to_string(), "8.8.8.8".to_string()]
    );
    server
        .set_upstream_for_test(vec!["9.9.9.9".to_string()])
        .unwrap();
    assert_eq!(server.upstream(), vec!["9.9.9.9".to_string()]);
}

#[test]
fn the_settings_are_kept() {
    let config = DnsConfig {
        port: 1071,
        upstream: vec!["1.1.1.1".to_string()],
        cache_size: 0,
        timeout_ms: 100,
        refresh_upstream: true,
    };
    let server = DnsServer::new(config).unwrap();
    assert_eq!(server.port(), 1071);
    assert_eq!(server.timeout_ms(), 100);
    assert!(server.refreshes_upstream());
    assert_eq!(server.cache_capacity(), 1);
}

#[test]
fn what_cannot_be_read_is_a_format_error() {
    let mut server = server_with(&[]);
    assert_eq!(server.receive(&[], 0), Step::Ignore);
    assert_eq!(server.receive(&[7], 0), Step::Ignore);
    let expected = vec![0xab, 0xcd, 0x80, 0x01, 0, 0, 0, 0, 0, 0, 0, 0];
    assert_eq!(server.receive(&[0xab, 0xcd, 9], 0), Step::Reply(expected.clone()));
    let message = Message::from_bytes(&expected).unwrap();
    assert_eq!(message.id(), 0xabcd);
    assert_eq!(message.response_code(), ResponseCode::FormErr);
}

#[test]
fn only_standard_queries_are_answered() {
    let mut server = server_with(&[dns_profile("p", "127.0.0.1", "x.com")]);
    let bytes = request(9, "x.com.", RecordType::A);
    let mut status = Message::from_bytes(&bytes).unwrap();
    status.set_op_code(OpCode::Status);
    let r = reply(server.receive(&status.to_bytes().unwrap(), 0));
    assert_eq!(r.response_code(), ResponseCode::FormErr);
    let mut answer = Message::from_bytes(&bytes).unwrap();
    answer.set_message_type(hickory_proto::op::MessageType::Response);
    let r = reply(server.receive(&answer.to_bytes().unwrap(), 0));
    assert_eq!(r.response_code(), ResponseCode::FormErr);
    let mut empty = Message::new();
    empty.set_id(9);
    let r = reply(server.receive(&empty.to_bytes().unwrap(), 0));
    assert_eq!(r.response_code(), ResponseCode::FormErr);
    assert_eq!(r.id(), 9);
}

#[test]
fn other_types_are_not_supported() {
    let mut server = server_with(&[dns_profile("p", "127.0.0.1", "x.com")]);
    let r = reply(server.receive(&request(5, "x.com.", RecordType::MX), 0));
    assert_eq!(r.id(), 5);
    assert_eq!(r.response_code(), ResponseCode::NotImp);
    assert!(r.recursion_available());
    assert!(!r.authoritative());
    assert_eq!(r.queries().len(), 1);
    assert!(r.answers().is_empty());
}

#[test]
fn the_decision_for_a_name() {
    let server = server_with(&[dns_profile("p", "10.0.0.1", "x.com")]);
    assert_eq!(server.decide("x.com", 1), Decision::Answer("10.0.0.1".parse().unwrap()));
    assert_eq!(server.decide("a.x.com", 1), Decision::Answer("10.0.0.1".parse().unwrap()));
    assert_eq!(server.decide("x.com", 28), Decision::NoRecord);
    assert_eq!(server.decide("x.com", 15), Decision::NotSupported);
    assert_eq!(server.decide("y.com", 28), Decision::Forward);
}

#[test]
fn a_query_can_be_given_as_it_was_read() {
    let mut server = server_with(&[]);
    let query = |is_query: bool, is_standard: bool| {
        Some(DnsQuery {
            is_query,
            is_standard,
            question: Some(("a.b...".to_string(), 28)),
        })
    };
    let p = pending(server.answer_query(&[1, 2, 3], query(true, true), 17));
    assert_eq!(p.name, "a.b");
    assert_eq!(p.kind, 28);
    assert_eq!(p.key, "a.b|\u{2}");
    assert_eq!(p.request, vec![1, 2, 3]);
    assert_eq!(p.received, 17);
    for q in [query(false, true), query(true, false), None] {
        assert!(matches!(server.answer_query(&[1, 2, 3], q, 17), Step::Reply(_)));
    }
    assert_eq!(server.answer_query(&[1], None, 17), Step::Ignore);
}

fn record(name: &str, ttl: u32, last: u8) -> Vec<u8> {
    let name = Name::from_utf8(name).unwrap();
    Record::from_rdata(name, ttl, RData::A(A::new(9, 9, 9, last))).to_bytes().unwrap()
}

#[test]
fn answers_of_other_servers_are_remembered_as_long_as_they_count() {
    let mut server = server_with(&[]);
    let bytes = request(1, "far.example.", RecordType::A);
    let p = pending(server.receive(&bytes, 1000));
    let said = Upstream::Record { ttl: 60, record: record("far.example.", 60, 1) };
    let r = reply(server.upstream_answered(p, said));
    assert_eq!(r.id(), 1);
    assert_eq!(address(&r), "9.9.9.1");
    assert_eq!(r.answers()[0].ttl(), 60);
    let again = request(2, "far.example.", RecordType::A);
    let r = reply(server.receive(&again, 1000 + 60 * SECOND - 1));
    assert_eq!(r.id(), 2);
    assert_eq!(address(&r), "9.9.9.1");
    assert!(matches!(server.receive(&again, 1000 + 60 * SECOND), Step::Lookup(_)));
}

#[test]
fn an_answer_that_counts_for_no_time_is_not_remembered() {
    let mut server = server_with(&[]);
    let bytes = request(1, "zero.example.", RecordType::A);
    let p = pending(server.receive(&bytes, 0));
    let said = Upstream::Record { ttl: 0, record: record("zero.example.", 0, 1) };
    assert_eq!(address(&reply(server.upstream_answered(p, said))), "9.9.9.1");
    assert!(matches!(server.receive(&bytes, 0), Step::Lookup(_)));
}

#[test]
fn the_first_record_of_the_type_counts() {
    let said = |kinds: &[u16]| {
        kinds
            .iter()
            .enumerate()
            .map(|(i, k)| UpstreamRecord { kind: *k, ttl: i as u32, record: vec![i as u8] })
            .collect::<Vec<_>>()
    };
    assert_eq!(
        matching_record(said(&[5, 1, 1]), 1),
        Upstream::Record { ttl: 1, record: vec![1] }
    );
    assert_eq!(matching_record(said(&[5, 28]), 1), Upstream::Nothing);
    assert_eq!(matching_record(said(&[]), 28), Upstream::Nothing);
}

#[test]
fn no_record_is_an_answer_without_error() {
    let mut server = server_with(&[]);
    let p = pending(server.receive(&request(8, "none.example.", RecordType::A), 0));
    let r = reply(server.upstream_answered(p, Upstream::Nothing));
    assert_eq!(r.response_code(), ResponseCode::NoError);
    assert!(r.answers().is_empty());
    assert_eq!(r.id(), 8);
}

#[test]
fn the_oldest_answer_makes_room() {
    let mut server = DnsServer::new(DnsConfig { cache_size: 2, ..Default::default() }).unwrap();
    for (i, name) in ["a.example.", "b.example.", "c.example."].iter().enumerate() {
        let p = pending(server.receive(&request(1, name, RecordType::A), 0));
        let said = Upstream::Record { ttl: 60, record: record(name, 60, i as u8) };
        reply(server.upstream_answered(p, said));
    }
    assert!(matches!(
        server.receive(&request(1, "a.example.", RecordType::A), 0),
        Step::Lookup(_)
    ));
    for name in ["b.example.", "c.example."] {
        assert!(matches!(server.receive(&request(1, name, RecordType::A), 0), Step::Reply(_)));
    }
}

#[test]
fn keys_tell_types_apart() {
    assert_eq!(make_cache_key("x", 1), "x|\u{1}");
    assert_eq!(make_cache_key("x", 28), "x|\u{2}");
    assert_eq!(make_cache_key("x", 15), "x|\u{0}");
}

#[test]
fn starting_and_stopping_can_fail() {
    let mut server = DnsServer::new(DnsConfig { port: 1054, ..Default::default() }).unwrap();
    assert!(server.try_start());
    assert_eq!(
        server.bind_failed("in use").to_text(),
        "failed to bind DNS socket: 127.0.0.1:1054: in use"
    );
    assert!(!server.is_running());
    assert!(server.try_start());
    let failed = DnsError::Server("recv failed: x".to_string());
    assert_eq!(
        server.stop(TaskEnd::Returned(Err(failed.clone()))),
        Err(failed)
    );
    assert!(server.is_running());
    assert_eq!(
        server.stop(TaskEnd::Broken("panic".to_string())).unwrap_err().to_text(),
        "DNS server error: panic"
    );
    assert_eq!(server.stop(TaskEnd::Cancelled), Ok(()));
    assert!(!server.is_running());
    assert_eq!(server.stop(TaskEnd::NotStarted), Ok(()));
}

#[test]
fn servers_are_addresses_with_or_without_a_port() {
    let list = vec!["9.9.9.9".to_string(), "[::1]:54".to_string()];
    let v = server_addresses(&list).unwrap();
    assert_eq!(v[0].to_text(), "9.9.9.9:53");
    assert_eq!(v[1].to_text(), "[::1]:54");
    assert_eq!(resolver_plan(&vec![]), Ok(ResolverPlan::System));
    assert!(matches!(resolver_plan(&list), Ok(ResolverPlan::Servers(v)) if v.len() == 2));
    assert_eq!(
        resolver_plan(&vec!["1.1.1.1".to_string(), "x".to_string(), "y".to_string()])
            .unwrap_err()
            .to_text(),
        "failed to resolve upstream: invalid server 'x': invalid IP address syntax"
    );
}

#[test]
fn servers_are_swapped_only_for_better_ones() {
    let config = DnsConfig { upstream: vec!["1.1.1.1".to_string()], ..Default::default() };
    let mut server = DnsServer::new(config).unwrap();
    assert_eq!(server.refresh_tick(&vec!["1.1.1.1".to_string()]), RefreshStep::Unchanged);
    assert!(matches!(
        server.refresh_tick(&vec!["2.2.2.2".to_string()]),
        RefreshStep::Swap(ResolverPlan::Servers(_))
    ));
    assert!(matches!(
        server.refresh_tick(&vec!["bad".to_string()]),
        RefreshStep::Keep(DnsError::Upstream(_))
    ));
    assert!(server.set_upstream_for_test(vec!["bad".to_string()]).is_err());
    assert_eq!(server.upstream(), vec!["1.1.1.1".to_string()]);
}

#[test]
fn messages_of_the_server() {
    assert_eq!(
        DnsError::Codec("x".to_string()).to_text(),
        "DNS message codec error: x"
    );
    assert_eq!(
        DnsError::Resolver("x".to_string()).to_text(),
        "failed to build resolver: x"
    );
}

#[test]
fn replies_repeat_the_question_and_hold_the_address() {
    let mut server = server_with(&[dns_profile("p", "10.1.2.3", "a.test")]);
    for id in [1, 2] {
        let name = if id == 1 { "a.test." } else { "b.a.test." };
        let bytes = match server.receive(&request(id, name, RecordType::A), 0) {
            Step::Reply(b) => b,
            other => panic!("unexpected {:?}", other),
        };
        assert_eq!(bytes[4..8], [0, 1, 0, 1]);
        assert_eq!(bytes[bytes.len() - 14..], [0, 1, 0, 1, 0, 0, 1, 44, 0, 4, 10, 1, 2, 3]);
        let message = Message::from_bytes(&bytes).unwrap();
        assert_eq!(message.queries()[0].name().to_utf8(), name);
    }
    let bytes = match server.receive(&request(3, "a.test.", RecordType::MX), 0) {
        Step::Reply(b) => b,
        other => panic!("unexpected {:?}", other),
    };
    assert_eq!(bytes[4..8], [0, 1, 0, 0]);
    let message = Message::from_bytes(&bytes).unwrap();
    assert_eq!(message.queries()[0].name().to_utf8(), "a.test.");
    assert_eq!(message.queries()[0].query_type(), RecordType::MX);
}

#[test]
fn swapped_servers_are_asked() {
    let mut server = server_with(&[]);
    let first = pending(server.receive(&request(1, "x.test.", RecordType::A), 0));
    assert_eq!(first.servers, vec!["8.8.8.8", "1.1.1.1"]);
    server.use_upstream(vec!["9.9.9.9".to_string()]);
    let second = pending(server.receive(&request(2, "x.test.", RecordType::A), 1));
    assert_eq!(second.servers, vec!["9.9.9.9"]);
    assert!(server.set_upstream_for_test(vec!["10.0.0.1:5353".to_string()]).is_ok());
    let third = pending(server.receive(&request(3, "x.test.", RecordType::A), 2));
    assert_eq!(third.servers, vec!["10.0.0.1:5353"]);
}

#[test]
fn replies_say_that_other_servers_are_asked() {
    let mut server = server_with(&[dns_profile("p", "127.0.0.1", "a.test")]);
    for kind in [RecordType::A, RecordType::AAAA, RecordType::MX] {
        let response = reply(server.receive(&request(77, "a.test.", kind), 0));
        assert_eq!(response.id(), 77);
        assert!(response.recursion_available());
        assert!(!response.authoritative());
    }
}

#[test]
fn a_rule_covers_the_names_under_it() {
    let server = server_with(&[dns_profile("p", "10.1.2.3", "corp.test")]);
    let ip: mhost::net::IpAddr = "10.1.2.3".parse().unwrap();
    assert_eq!(server.decide("corp.test", 1), Decision::Answer(ip));
    assert_eq!(server.decide("deep.sub.corp.test", 1), Decision::Answer(ip));
    assert_eq!(server.decide("deep.sub.corp.test", 28), Decision::NoRecord);
    assert_eq!(server.decide("notcorp.test", 1), Decision::Forward);
    assert_eq!(server.decide("test", 1), Decision::Forward);
}
