//! The resolution engine: builds the query packet for a domain name and
//! decides, reply by reply, which server to contact next and when to
//! stop.  The engine itself performs no I/O: each step either hands the
//! caller a datagram to send or the final outcome, and the caller feeds
//! back what the transport produced.

use vstd::prelude::*;
use vstd::utf8::encode_utf8;
use vstd::string::StrSliceExecFns;
use crate::buffer::{Buffer, MAX_MESSAGE_LEN, take_range};
use crate::header::{Header, ResponseCode, query_header};
use crate::name::{DomainName, join_labels, split_labels};
use crate::packet::{
    Packet, PacketV, EncodeError, packet_bytes, parse_packet, encodable, wf_packet,
};
use crate::question::{Question, QuestionV};
use crate::record::{RData, RDataV};

verus! {

/// Query type of an address lookup.
pub const QUERY_TYPE_ADDRESS: u16 = 1;

/// Query class of the internet.
pub const QUERY_CLASS_INTERNET: u16 = 1;

/// The resolution modes: delegate the whole lookup to a recursive
/// resolver, or query a root server and follow one referral.
#[derive(Clone, Copy, Debug, PartialEq, Eq)]
pub enum Mode {
    Forwarding,
    Iterative,
}

/// Where each mode sends its first request: the recursive resolver for
/// forwarding, the root server for the iterative mode.  Addresses are
/// kept as text so tests can point both at local stand-ins.
#[derive(Clone, Debug, PartialEq, Eq)]
pub struct Config {
    pub upstream_server: Vec<u8>,
    pub root_server: Vec<u8>,
}

/// Why a resolution ended without a reply packet.
#[derive(Clone, Copy, Debug, PartialEq, Eq)]
pub enum ResolveError {
    /// The transport failed to send or receive.
    Transport,
    /// A reply arrived but its bytes did not decode.
    BadReply,
    /// A root reply reported success but carried no usable referral.
    NoReferral,
}

/// One datagram to send: the server's address text and the message bytes.
#[derive(Clone, Debug, PartialEq, Eq)]
pub struct Query {
    pub server: Vec<u8>,
    pub message: Vec<u8>,
}

/// What the transport produced for the last query sent.
#[derive(Clone, Debug, PartialEq, Eq)]
pub enum Event {
    /// The bytes of the datagram that came back.
    Reply(Vec<u8>),
    /// The send or the receive failed.
    TransportFailed,
}

/// What the engine asks for next: send one more datagram, or stop with
/// the outcome.  `warn` asks for a diagnostic: the reply carries a
/// failing status that the engine passes through to the caller.
#[derive(Debug, PartialEq, Eq)]
pub enum Step {
    Send(Query),
    Done { outcome: Result<Packet, ResolveError>, warn: bool },
}

/// Which reply the engine is waiting for.
#[derive(Clone, Copy, Debug, PartialEq, Eq)]
pub enum Phase {
    /// Forwarding: the recursive resolver's reply decides everything.
    AwaitForward,
    /// Iterative: the root server's reply names the next server.
    AwaitRoot,
    /// Iterative: the referred server's reply is final as it stands.
    AwaitReferral,
    /// The resolution has ended.
    Finished,
}

/// The state of one resolution: the reply awaited and the query message,
/// kept so the referral hop re-sends the same question.
pub struct Resolver {
    pub phase: Phase,
    pub message: Vec<u8>,
}

/// The query packet built for a domain name given as dotted text: a fresh
/// query header and exactly one question, an internet address lookup for
/// the name, with all other sections empty.
pub open spec fn request_packet(domain_bytes: Seq<u8>) -> PacketV {
    PacketV {
        header: query_header(),
        questions: seq![
            QuestionV {
                name: split_labels(domain_bytes),
                qtype: QUERY_TYPE_ADDRESS,
                qclass: QUERY_CLASS_INTERNET,
            },
        ],
        answers: Seq::empty(),
        nameserver_records: Seq::empty(),
        additional_records: Seq::empty(),
    }
}

/// The server named by a reply's first nameserver-referral record, as
/// dotted text, if the record carries a hostname payload.
pub open spec fn referral_server(p: PacketV) -> Option<Seq<u8>> {
    if p.nameserver_records.len() > 0 {
        match p.nameserver_records[0].rdata {
            RDataV::Name(ls) => Some(join_labels(ls)),
            _ => None,
        }
    } else {
        None
    }
}

/// Builds the single-question query packet for a domain name: one
/// internet address lookup under a fresh query header.
pub fn create_request(domain_name: String) -> (p: Packet)
    ensures
        p@ == request_packet(encode_utf8(domain_name@)),
{
    let text = domain_name.as_str().as_bytes_vec();
    assert(text@ == encode_utf8(domain_name@));
    let qname = DomainName::from_text(&text);
    let question = Question { qname, qtype: QUERY_TYPE_ADDRESS, qclass: QUERY_CLASS_INTERNET };
    let ghost qv = question@;
    let header = Header::for_query();
    let mut questions: Vec<Question> = Vec::new();
    questions.push(question);
    let p = Packet {
        header,
        questions,
        answers: Vec::new(),
        nameserver_records: Vec::new(),
        additional_records: Vec::new(),
    };
    proof {
        let req = request_packet(encode_utf8(domain_name@));
        assert(p@.questions =~= seq![qv]);
        assert(qv == req.questions[0]);
        assert(p@.questions =~= req.questions);
        assert(p@.answers =~= req.answers);
        assert(p@.nameserver_records =~= req.nameserver_records);
        assert(p@.additional_records =~= req.additional_records);
    }
    p
}

impl Resolver {
    /// Begins a resolution: builds and encodes the query for the domain
    /// name and names the first server to send it to, chosen by mode.
    /// Fails exactly when the query packet cannot be encoded — a label of
    /// the name is empty or too long, or the encoding would not fit one
    /// message.
    pub fn start(domain_name: String, mode: Mode, config: &Config) -> (r: Result<
        (Resolver, Query),
        EncodeError,
    >)
        ensures
            ({
                let req = request_packet(encode_utf8(domain_name@));
                match r {
                    Ok(rq) => encodable(req) && rq.0.message@ == packet_bytes(req)
                        && rq.1.message@ == packet_bytes(req) && (match mode {
                        Mode::Forwarding => rq.0.phase == Phase::AwaitForward && rq.1.server@
                            == config.upstream_server@,
                        Mode::Iterative => rq.0.phase == Phase::AwaitRoot && rq.1.server@
                            == config.root_server@,
                    }),
                    Err(EncodeError::BadPacket) => !wf_packet(req),
                    Err(EncodeError::TooLarge) => wf_packet(req) && packet_bytes(req).len()
                        > MAX_MESSAGE_LEN,
                }
            }),
    {
        let packet = create_request(domain_name);
        let buffer = match packet.to_buffer() {
            Ok(b) => b,
            Err(e) => {
                return Err(e);
            }
        };
        let message = buffer.buf;
        let kept = take_range(&message, 0, message.len());
        assert(kept@ =~= message@);
        match mode {
            Mode::Forwarding => {
                let server = take_range(&config.upstream_server, 0, config.upstream_server.len());
                assert(server@ =~= config.upstream_server@);
                Ok((Resolver { phase: Phase::AwaitForward, message: kept }, Query { server, message }))
            }
            Mode::Iterative => {
                let server = take_range(&config.root_server, 0, config.root_server.len());
                assert(server@ =~= config.root_server@);
                Ok((Resolver { phase: Phase::AwaitRoot, message: kept }, Query { server, message }))
            }
        }
    }

    /// Feeds the engine what the transport produced for the last query
    /// and yields the next step.  A transport failure or an undecodable
    /// reply ends the resolution with that error.  A decoded reply is
    /// final — passed through with a warning if its status reports a
    /// failure — except a successful root reply in the iterative mode,
    /// which advances the engine one hop: the same message is sent to the
    /// server its first referral record names, and that server's reply is
    /// then final without a further status check.
    pub fn on_event(&mut self, event: Event) -> (s: Step)
        requires
            old(self).phase != Phase::Finished,
        ensures
            final(self).message@ == old(self).message@,
            event matches Event::TransportFailed ==> final(self).phase == Phase::Finished && s == (
            Step::Done { outcome: Err(ResolveError::Transport), warn: false }),
            (event matches Event::Reply(bytes) && parse_packet(bytes@) is None) ==> final(self).phase == Phase::Finished && s == (Step::Done {
                outcome: Err(ResolveError::BadReply),
                warn: false,
            }),
            old(self).phase == Phase::AwaitForward ==> (event matches Event::Reply(bytes) ==> (
            parse_packet(bytes@) matches Some(pv) ==> (final(self).phase == Phase::Finished && (
            s matches Step::Done { outcome, warn } && (outcome matches Ok(p) && p@ == pv) && warn
                == (pv.header.response_code != ResponseCode::NoErr))))),
            old(self).phase == Phase::AwaitRoot ==> (event matches Event::Reply(bytes) ==> (
            parse_packet(bytes@) matches Some(pv) ==> ((pv.header.response_code
                != ResponseCode::NoErr ==> final(self).phase == Phase::Finished && (s matches
            Step::Done { outcome, warn } && (outcome matches Ok(p) && p@ == pv) && warn)) && (
            pv.header.response_code == ResponseCode::NoErr ==> ((referral_server(pv) matches Some(
                srv,
            ) ==> final(self).phase == Phase::AwaitReferral && (s matches Step::Send(q)
                && q.server@ == srv && q.message@ == old(self).message@)) && (referral_server(pv)
                is None ==> final(self).phase == Phase::Finished && s == (Step::Done {
                outcome: Err(ResolveError::NoReferral),
                warn: false,
            }))))))),
            old(self).phase == Phase::AwaitReferral ==> (event matches Event::Reply(bytes) ==> (
            parse_packet(bytes@) matches Some(pv) ==> (final(self).phase == Phase::Finished && (
            s matches Step::Done { outcome, warn } && (outcome matches Ok(p) && p@ == pv) && warn
                == false)))),
    {
        match event {
            Event::TransportFailed => {
                self.phase = Phase::Finished;
                Step::Done { outcome: Err(ResolveError::Transport), warn: false }
            }
            Event::Reply(bytes) => {
                let buffer = Buffer { buf: bytes };
                match Packet::from_buffer(&buffer) {
                    Err(_) => {
                        self.phase = Phase::Finished;
                        Step::Done { outcome: Err(ResolveError::BadReply), warn: false }
                    }
                    Ok(p) => {
                        match self.phase {
                            Phase::AwaitForward => {
                                let warn = !p.header.response_code.is_no_error();
                                self.phase = Phase::Finished;
                                Step::Done { outcome: Ok(p), warn }
                            }
                            Phase::AwaitRoot => {
                                if !p.header.response_code.is_no_error() {
                                    self.phase = Phase::Finished;
                                    Step::Done { outcome: Ok(p), warn: true }
                                } else if p.nameserver_records.len() == 0 {
                                    self.phase = Phase::Finished;
                                    Step::Done {
                                        outcome: Err(ResolveError::NoReferral),
                                        warn: false,
                                    }
                                } else {
                                    assert(p@.nameserver_records[0]
                                        == p.nameserver_records@[0]@);
                                    match &p.nameserver_records[0].rdata {
                                        RData::Name(n) => {
                                            let server = n.dotted();
                                            let message = take_range(
                                                &self.message,
                                                0,
                                                self.message.len(),
                                            );
                                            assert(message@ =~= self.message@);
                                            self.phase = Phase::AwaitReferral;
                                            Step::Send(Query { server, message })
                                        }
                                        _ => {
                                            self.phase = Phase::Finished;
                                            Step::Done {
                                                outcome: Err(ResolveError::NoReferral),
                                                warn: false,
                                            }
                                        }
                                    }
                                }
                            }
                            Phase::AwaitReferral => {
                                self.phase = Phase::Finished;
                                Step::Done { outcome: Ok(p), warn: false }
                            }
                            Phase::Finished => {
                                // unreachable: the caller may not feed a
                                // finished resolution
                                assert(false);
                                Step::Done { outcome: Err(ResolveError::Transport), warn: false }
                            }
                        }
                    }
                }
            }
        }
    }
}

} // verus!

