//! Tests of the wire codec: round trips, compression, and the error
//! cases of encode and decode.

use dns_client::buffer::Buffer;
use dns_client::header::{Header, ResponseCode};
use dns_client::name::DomainName;
use dns_client::packet::{DecodeError, EncodeError, Packet};
use dns_client::question::Question;
use dns_client::record::{RData, ResourceRecord};

fn name(labels: &[&[u8]]) -> DomainName {
    DomainName { labels: labels.iter().map(|l| l.to_vec()).collect() }
}

fn reply_header(answers: u16, nameservers: u16, code: ResponseCode) -> Header {
    Header {
        id: 1,
        query_response: true,
        opcode: 0,
        authoritative_answer: false,
        truncated_message: false,
        recursion_desired: true,
        recursion_available: true,
        reserved: 0,
        response_code: code,
        question_count: 0,
        answer_count: answers,
        nameserver_count: nameservers,
        additional_count: 0,
    }
}

fn address_record(owner: DomainName, a: u8, b: u8, c: u8, d: u8) -> ResourceRecord {
    ResourceRecord { name: owner, rtype: 1, rclass: 1, ttl: 300, rdata: RData::Ipv4(a, b, c, d) }
}

#[test]
fn round_trip_full_packet() {
    let packet = Packet {
        header: Header {
            id: 0x1234,
            query_response: true,
            opcode: 0,
            authoritative_answer: true,
            truncated_message: false,
            recursion_desired: true,
            recursion_available: false,
            reserved: 0,
            response_code: ResponseCode::NoErr,
            question_count: 1,
            answer_count: 1,
            nameserver_count: 1,
            additional_count: 1,
        },
        questions: vec![Question { qname: name(&[b"example", b"com"]), qtype: 1, qclass: 1 }],
        answers: vec![address_record(name(&[b"example", b"com"]), 93, 184, 216, 34)],
        nameserver_records: vec![ResourceRecord {
            name: name(&[b"example", b"com"]),
            rtype: 2,
            rclass: 1,
            ttl: 86400,
            rdata: RData::Name(name(&[b"ns1", b"example", b"com"])),
        }],
        additional_records: vec![ResourceRecord {
            name: name(&[b"ns1", b"example", b"com"]),
            rtype: 16,
            rclass: 1,
            ttl: 60,
            rdata: RData::Raw(vec![4, 116, 101, 120, 116]),
        }],
    };
    let encoded = packet.to_buffer().expect("a well-formed packet encodes");
    let decoded = Packet::from_buffer(&encoded).expect("the encoding decodes");
    assert_eq!(decoded, packet);
}

#[test]
fn round_trip_response_codes() {
    for value in 0u8..16u8 {
        let code = ResponseCode::from_value(value);
        assert_eq!(code.value(), value);
        let packet = Packet {
            header: reply_header(0, 0, code),
            questions: vec![],
            answers: vec![],
            nameserver_records: vec![],
            additional_records: vec![],
        };
        let encoded = packet.to_buffer().expect("encodes");
        let decoded = Packet::from_buffer(&encoded).expect("decodes");
        assert_eq!(decoded.header.response_code, code);
    }
}

#[test]
fn compressed_and_plain_encodings_yield_the_same_names() {
    // Header: id 1, a response, one question and one answer.
    let header = [0u8, 1, 0x80, 0, 0, 1, 0, 1, 0, 0, 0, 0];
    // Question: abc.de, type 1, class 1; starts at offset 12.
    let question = [3, b'a', b'b', b'c', 2, b'd', b'e', 0, 0, 1, 0, 1];
    // Answer owner written as a pointer to offset 12, then type 1,
    // class 1, a time-to-live and four address bytes.
    let fixed = [0, 1, 0, 1, 0, 0, 1, 44, 0, 4, 10, 11, 12, 13];
    let mut compressed = Vec::new();
    compressed.extend_from_slice(&header);
    compressed.extend_from_slice(&question);
    compressed.extend_from_slice(&[0xc0, 12]);
    compressed.extend_from_slice(&fixed);
    // The equivalent message with the answer owner written in full.
    let mut plain = Vec::new();
    plain.extend_from_slice(&header);
    plain.extend_from_slice(&question);
    plain.extend_from_slice(&[3, b'a', b'b', b'c', 2, b'd', b'e', 0]);
    plain.extend_from_slice(&fixed);

    let from_compressed =
        Packet::from_buffer(&Buffer { buf: compressed }).expect("compressed form decodes");
    let from_plain = Packet::from_buffer(&Buffer { buf: plain }).expect("plain form decodes");
    assert_eq!(from_compressed.answers[0].name, name(&[b"abc", b"de"]));
    assert_eq!(from_compressed.answers[0].name, from_plain.answers[0].name);
    assert_eq!(from_compressed.questions[0].qname, from_plain.questions[0].qname);
}

#[test]
fn pointer_loop_is_a_decode_error_not_a_hang() {
    // One question whose name is a pointer to itself.
    let mut bytes = vec![0u8, 1, 0, 0, 0, 1, 0, 0, 0, 0, 0, 0];
    bytes.extend_from_slice(&[0xc0, 12, 0, 1, 0, 1]);
    assert_eq!(
        Packet::from_buffer(&Buffer { buf: bytes }),
        Err(DecodeError::Malformed)
    );
}

#[test]
fn counts_that_exceed_the_bytes_are_a_decode_error() {
    // Claims one question but ends right after the header.
    let bytes = vec![0u8, 1, 0, 0, 0, 1, 0, 0, 0, 0, 0, 0];
    assert_eq!(
        Packet::from_buffer(&Buffer { buf: bytes }),
        Err(DecodeError::Malformed)
    );
}

#[test]
fn short_input_is_a_decode_error() {
    let bytes = vec![0u8, 1, 2];
    assert_eq!(
        Packet::from_buffer(&Buffer { buf: bytes }),
        Err(DecodeError::Malformed)
    );
}

#[test]
fn empty_label_is_an_encode_error() {
    let packet = Packet {
        header: Header { question_count: 1, ..reply_header(0, 0, ResponseCode::NoErr) },
        questions: vec![Question { qname: name(&[b"example", b""]), qtype: 1, qclass: 1 }],
        answers: vec![],
        nameserver_records: vec![],
        additional_records: vec![],
    };
    assert_eq!(packet.to_buffer(), Err(EncodeError::BadPacket));
}

#[test]
fn overlong_label_is_an_encode_error() {
    let long = vec![b'a'; 64];
    let packet = Packet {
        header: Header { question_count: 1, ..reply_header(0, 0, ResponseCode::NoErr) },
        questions: vec![Question { qname: name(&[long.as_slice(), b"com"]), qtype: 1, qclass: 1 }],
        answers: vec![],
        nameserver_records: vec![],
        additional_records: vec![],
    };
    assert_eq!(packet.to_buffer(), Err(EncodeError::BadPacket));
}

#[test]
fn mismatched_counts_are_an_encode_error() {
    let packet = Packet {
        header: reply_header(2, 0, ResponseCode::NoErr),
        questions: vec![],
        answers: vec![address_record(name(&[b"example", b"com"]), 1, 2, 3, 4)],
        nameserver_records: vec![],
        additional_records: vec![],
    };
    assert_eq!(packet.to_buffer(), Err(EncodeError::BadPacket));
}

#[test]
fn oversized_message_is_an_encode_error() {
    let packet = Packet {
        header: reply_header(1, 0, ResponseCode::NoErr),
        questions: vec![],
        answers: vec![ResourceRecord {
            name: name(&[b"example", b"com"]),
            rtype: 16,
            rclass: 1,
            ttl: 0,
            rdata: RData::Raw(vec![0; 600]),
        }],
        nameserver_records: vec![],
        additional_records: vec![],
    };
    assert_eq!(packet.to_buffer(), Err(EncodeError::TooLarge));
}

#[test]
fn trailing_padding_does_not_disturb_decoding() {
    // A datagram lands in a zeroed receive buffer; the bytes after the
    // message stay zero and must not change what is decoded.
    let packet = Packet {
        header: reply_header(1, 0, ResponseCode::NoErr),
        questions: vec![],
        answers: vec![address_record(name(&[b"example", b"com"]), 93, 184, 216, 34)],
        nameserver_records: vec![],
        additional_records: vec![],
    };
    let mut received = Buffer::new();
    let encoded = packet.to_buffer().expect("encodes");
    received.buf[..encoded.buf.len()].copy_from_slice(&encoded.buf);
    let decoded = Packet::from_buffer(&received).expect("the padded buffer decodes");
    assert_eq!(decoded, packet);
}

#[test]
fn receive_buffer_holds_the_largest_message() {
    let buffer = Buffer::new();
    assert_eq!(buffer.buf.len(), 512);
    assert!(buffer.buf.iter().all(|&b| b == 0));
}

#[test]
fn dotted_text_splits_and_joins() {
    let text = b"ns1.example.com".to_vec();
    let parsed = DomainName::from_text(&text);
    assert_eq!(parsed, name(&[b"ns1", b"example", b"com"]));
    assert_eq!(parsed.dotted(), text);
}
