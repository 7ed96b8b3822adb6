//! Tests of the resolution engine, with stub replies standing in for the
//! servers: the query shape, both modes, and the failure paths.

use dns_client::header::{Header, ResponseCode};
use dns_client::name::DomainName;
use dns_client::packet::Packet;
use dns_client::question::Question;
use dns_client::record::{RData, ResourceRecord};
use dns_client::resolver::{
    create_request, Config, Event, Mode, ResolveError, Resolver, Step,
};

fn name(labels: &[&[u8]]) -> DomainName {
    DomainName { labels: labels.iter().map(|l| l.to_vec()).collect() }
}

fn stub_config() -> Config {
    Config { upstream_server: b"127.0.0.1".to_vec(), root_server: b"198.41.0.4".to_vec() }
}

fn reply(code: ResponseCode, answers: Vec<ResourceRecord>, nameservers: Vec<ResourceRecord>) -> Packet {
    Packet {
        header: Header {
            id: 0x2b2b,
            query_response: true,
            opcode: 0,
            authoritative_answer: false,
            truncated_message: false,
            recursion_desired: true,
            recursion_available: true,
            reserved: 0,
            response_code: code,
            question_count: 0,
            answer_count: answers.len() as u16,
            nameserver_count: nameservers.len() as u16,
            additional_count: 0,
        },
        questions: vec![],
        answers,
        nameserver_records: nameservers,
        additional_records: vec![],
    }
}

fn answer_record() -> ResourceRecord {
    ResourceRecord {
        name: name(&[b"example", b"com"]),
        rtype: 1,
        rclass: 1,
        ttl: 300,
        rdata: RData::Ipv4(93, 184, 216, 34),
    }
}

fn referral_record(target: &[&[u8]]) -> ResourceRecord {
    ResourceRecord {
        name: name(&[b"com"]),
        rtype: 2,
        rclass: 1,
        ttl: 86400,
        rdata: RData::Name(name(target)),
    }
}

fn wire(p: &Packet) -> Vec<u8> {
    p.to_buffer().expect("the stub reply encodes").buf
}

#[test]
fn create_request_has_the_query_shape() {
    let packet = create_request("example.com".to_string());
    assert_eq!(packet.questions.len(), 1);
    assert_eq!(packet.questions[0].qname, name(&[b"example", b"com"]));
    assert_eq!(packet.questions[0].qtype, 1);
    assert_eq!(packet.questions[0].qclass, 1);
    assert!(packet.answers.is_empty());
    assert!(packet.nameserver_records.is_empty());
    assert!(packet.additional_records.is_empty());
    assert_eq!(packet.header.question_count, 1);
    assert_eq!(packet.header.answer_count, 0);
    assert_eq!(packet.header.nameserver_count, 0);
    assert_eq!(packet.header.additional_count, 0);
    assert!(!packet.header.query_response);
    assert!(packet.header.recursion_desired);
    assert_eq!(packet.header.response_code, ResponseCode::NoErr);
}

#[test]
fn request_message_has_the_expected_bytes() {
    let packet = create_request("example.com".to_string());
    let encoded = packet.to_buffer().expect("the query encodes").buf;
    let mut expected = vec![0x2b, 0x2b, 0x01, 0x00, 0, 1, 0, 0, 0, 0, 0, 0];
    expected.extend_from_slice(&[7]);
    expected.extend_from_slice(b"example");
    expected.extend_from_slice(&[3]);
    expected.extend_from_slice(b"com");
    expected.extend_from_slice(&[0, 0, 1, 0, 1]);
    assert_eq!(encoded, expected);
}

#[test]
fn forwarding_success_returns_the_reply_unmodified() {
    let (mut resolver, query) =
        Resolver::start("example.com".to_string(), Mode::Forwarding, &stub_config())
            .expect("the query encodes");
    assert_eq!(query.server, b"127.0.0.1".to_vec());
    let stub = reply(ResponseCode::NoErr, vec![answer_record()], vec![]);
    match resolver.on_event(Event::Reply(wire(&stub))) {
        Step::Done { outcome, warn } => {
            assert_eq!(outcome, Ok(stub));
            assert!(!warn);
        }
        Step::Send(_) => panic!("forwarding never sends a second query"),
    }
}

#[test]
fn forwarding_failure_is_passed_through_with_a_diagnostic() {
    let (mut resolver, _query) =
        Resolver::start("example.com".to_string(), Mode::Forwarding, &stub_config())
            .expect("the query encodes");
    let stub = reply(ResponseCode::ServerFailure, vec![], vec![]);
    match resolver.on_event(Event::Reply(wire(&stub))) {
        Step::Done { outcome, warn } => {
            assert_eq!(outcome, Ok(stub));
            assert!(warn, "a failing status asks for a diagnostic");
        }
        Step::Send(_) => panic!("forwarding never sends a second query"),
    }
}

#[test]
fn iterative_mode_follows_one_referral() {
    let (mut resolver, first) =
        Resolver::start("example.com".to_string(), Mode::Iterative, &stub_config())
            .expect("the query encodes");
    assert_eq!(first.server, b"198.41.0.4".to_vec());
    let root_reply = reply(
        ResponseCode::NoErr,
        vec![],
        vec![referral_record(&[b"127", b"0", b"0", b"2"])],
    );
    let second = match resolver.on_event(Event::Reply(wire(&root_reply))) {
        Step::Send(q) => q,
        Step::Done { .. } => panic!("a usable referral asks for a second query"),
    };
    assert_eq!(second.server, b"127.0.0.2".to_vec());
    assert_eq!(second.message, first.message, "the same question is re-sent");
    let final_reply = reply(ResponseCode::NameError, vec![answer_record()], vec![]);
    match resolver.on_event(Event::Reply(wire(&final_reply))) {
        Step::Done { outcome, warn } => {
            assert_eq!(outcome, Ok(final_reply), "the second reply is final as it stands");
            assert!(!warn, "the second reply's status is not re-checked");
        }
        Step::Send(_) => panic!("the engine follows exactly one referral"),
    }
}

#[test]
fn iterative_root_failure_is_passed_through() {
    let (mut resolver, _query) =
        Resolver::start("example.com".to_string(), Mode::Iterative, &stub_config())
            .expect("the query encodes");
    let stub = reply(ResponseCode::Refused, vec![], vec![]);
    match resolver.on_event(Event::Reply(wire(&stub))) {
        Step::Done { outcome, warn } => {
            assert_eq!(outcome, Ok(stub));
            assert!(warn);
        }
        Step::Send(_) => panic!("a failing root reply ends the resolution"),
    }
}

#[test]
fn iterative_root_reply_without_referral_is_an_error() {
    let (mut resolver, _query) =
        Resolver::start("example.com".to_string(), Mode::Iterative, &stub_config())
            .expect("the query encodes");
    let stub = reply(ResponseCode::NoErr, vec![answer_record()], vec![]);
    match resolver.on_event(Event::Reply(wire(&stub))) {
        Step::Done { outcome, warn } => {
            assert_eq!(outcome, Err(ResolveError::NoReferral));
            assert!(!warn);
        }
        Step::Send(_) => panic!("there is no referral to follow"),
    }
}

#[test]
fn transport_failure_is_an_explicit_error() {
    let (mut resolver, _query) =
        Resolver::start("example.com".to_string(), Mode::Forwarding, &stub_config())
            .expect("the query encodes");
    match resolver.on_event(Event::TransportFailed) {
        Step::Done { outcome, warn } => {
            assert_eq!(outcome, Err(ResolveError::Transport));
            assert!(!warn);
        }
        Step::Send(_) => panic!("a failed transport ends the resolution"),
    }
}

#[test]
fn undecodable_reply_is_an_explicit_error() {
    let (mut resolver, _query) =
        Resolver::start("example.com".to_string(), Mode::Forwarding, &stub_config())
            .expect("the query encodes");
    match resolver.on_event(Event::Reply(vec![1, 2, 3])) {
        Step::Done { outcome, warn } => {
            assert_eq!(outcome, Err(ResolveError::BadReply));
            assert!(!warn);
        }
        Step::Send(_) => panic!("an undecodable reply ends the resolution"),
    }
}

#[test]
fn unencodable_domain_fails_to_start() {
    let result = Resolver::start("bad..name".to_string(), Mode::Forwarding, &stub_config());
    assert!(result.is_err(), "an empty label cannot be encoded");
}
