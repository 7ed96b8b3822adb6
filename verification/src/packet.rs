//! The whole DNS message: one header plus the question, answer,
//! nameserver-referral and additional-data sections, its encoding to the
//! wire and the decoder, with the round-trip proof.

use vstd::prelude::*;
use crate::buffer::{Buffer, MAX_MESSAGE_LEN};
use crate::header::{Header, header_bytes, parse_header, wf_header, lemma_header_round_trip};
use crate::name::MAX_POINTER_HOPS;
use crate::question::{
    Question, QuestionV, questions_view, wf_question, question_bytes, parse_question,
    parse_question_at, lemma_question_round_trip,
};
use crate::record::{
    ResourceRecord, RecordV, records_view, wf_record, record_bytes, parse_record, parse_record_at,
    lemma_record_round_trip,
};

verus! {

/// Why a packet could not be encoded.
#[derive(Clone, Copy, Debug, PartialEq, Eq)]
pub enum EncodeError {
    /// A header field, count or record does not fit the wire format.
    BadPacket,
    /// The encoding exceeds the message size limit.
    TooLarge,
}

/// Why received bytes could not be decoded: truncated data, counts that
/// disagree with the remaining bytes, or a malformed name.
#[derive(Clone, Copy, Debug, PartialEq, Eq)]
pub enum DecodeError {
    Malformed,
}

/// The mathematical value of a packet.
pub ghost struct PacketV {
    pub header: Header,
    pub questions: Seq<QuestionV>,
    pub answers: Seq<RecordV>,
    pub nameserver_records: Seq<RecordV>,
    pub additional_records: Seq<RecordV>,
}

/// A DNS message: one header plus four ordered record sections.
#[derive(Clone, Debug, PartialEq, Eq)]
pub struct Packet {
    pub header: Header,
    pub questions: Vec<Question>,
    pub answers: Vec<ResourceRecord>,
    pub nameserver_records: Vec<ResourceRecord>,
    pub additional_records: Vec<ResourceRecord>,
}

impl View for Packet {
    type V = PacketV;

    open spec fn view(&self) -> PacketV {
        PacketV {
            header: self.header,
            questions: questions_view(self.questions@),
            answers: records_view(self.answers@),
            nameserver_records: records_view(self.nameserver_records@),
            additional_records: records_view(self.additional_records@),
        }
    }
}

/// The wire bytes of the questions from index `i` on.
pub open spec fn questions_bytes_from(qs: Seq<QuestionV>, i: int) -> Seq<u8>
    decreases qs.len() - i,
{
    if i < 0 || i >= qs.len() {
        Seq::empty()
    } else {
        question_bytes(qs[i]) + questions_bytes_from(qs, i + 1)
    }
}

/// The wire bytes of a question section.
pub open spec fn questions_bytes(qs: Seq<QuestionV>) -> Seq<u8> {
    questions_bytes_from(qs, 0)
}

/// The wire bytes of the records from index `i` on.
pub open spec fn records_bytes_from(rs: Seq<RecordV>, i: int) -> Seq<u8>
    decreases rs.len() - i,
{
    if i < 0 || i >= rs.len() {
        Seq::empty()
    } else {
        record_bytes(rs[i]) + records_bytes_from(rs, i + 1)
    }
}

/// The wire bytes of a record section.
pub open spec fn records_bytes(rs: Seq<RecordV>) -> Seq<u8> {
    records_bytes_from(rs, 0)
}

/// Every question of the section can be written on the wire.
pub open spec fn wf_questions(qs: Seq<QuestionV>) -> bool {
    forall|i: int| 0 <= i < qs.len() ==> wf_question(#[trigger] qs[i])
}

/// Every record of the section can be written on the wire.
pub open spec fn wf_records(rs: Seq<RecordV>) -> bool {
    forall|i: int| 0 <= i < rs.len() ==> wf_record(#[trigger] rs[i])
}

/// A packet can be written on the wire: the header fields fit, the four
/// header counts equal the lengths of their sections, and every entry is
/// well formed.
pub open spec fn wf_packet(p: PacketV) -> bool {
    &&& wf_header(p.header)
    &&& p.header.question_count as int == p.questions.len()
    &&& p.header.answer_count as int == p.answers.len()
    &&& p.header.nameserver_count as int == p.nameserver_records.len()
    &&& p.header.additional_count as int == p.additional_records.len()
    &&& wf_questions(p.questions)
    &&& wf_records(p.answers)
    &&& wf_records(p.nameserver_records)
    &&& wf_records(p.additional_records)
}

/// The wire bytes of a whole packet.
pub open spec fn packet_bytes(p: PacketV) -> Seq<u8> {
    header_bytes(p.header) + questions_bytes(p.questions) + records_bytes(p.answers)
        + records_bytes(p.nameserver_records) + records_bytes(p.additional_records)
}

/// A packet both fits the wire format and fits one message.
pub open spec fn encodable(p: PacketV) -> bool {
    wf_packet(p) && packet_bytes(p).len() <= MAX_MESSAGE_LEN
}

/// Reads `n` questions in a row starting at `pos`.
pub open spec fn parse_questions(buf: Seq<u8>, pos: int, n: nat, hops: nat) -> Option<
    (Seq<QuestionV>, int),
>
    decreases n,
{
    if n == 0 {
        Some((Seq::empty(), pos))
    } else {
        match parse_question(buf, pos, hops) {
            Some(q) => match parse_questions(buf, q.1, (n - 1) as nat, hops) {
                Some(rest) => Some((seq![q.0] + rest.0, rest.1)),
                None => None,
            },
            None => None,
        }
    }
}

/// Reads `n` records in a row starting at `pos`.
pub open spec fn parse_records(buf: Seq<u8>, pos: int, n: nat, hops: nat) -> Option<
    (Seq<RecordV>, int),
>
    decreases n,
{
    if n == 0 {
        Some((Seq::empty(), pos))
    } else {
        match parse_record(buf, pos, hops) {
            Some(r) => match parse_records(buf, r.1, (n - 1) as nat, hops) {
                Some(rest) => Some((seq![r.0] + rest.0, rest.1)),
                None => None,
            },
            None => None,
        }
    }
}

/// Reads a whole message: the header, then exactly as many questions and
/// records as the header counts claim.  `None` on any malformed or
/// truncated section.
pub open spec fn parse_packet(buf: Seq<u8>) -> Option<PacketV> {
    if buf.len() >= 12 {
        let h = parse_header(buf);
        let hops = MAX_POINTER_HOPS as nat;
        match parse_questions(buf, 12, h.question_count as nat, hops) {
            Some(qs) => match parse_records(buf, qs.1, h.answer_count as nat, hops) {
                Some(ans) => match parse_records(buf, ans.1, h.nameserver_count as nat, hops) {
                    Some(nss) => match parse_records(
                        buf,
                        nss.1,
                        h.additional_count as nat,
                        hops,
                    ) {
                        Some(ads) => Some(
                            PacketV {
                                header: h,
                                questions: qs.0,
                                answers: ans.0,
                                nameserver_records: nss.0,
                                additional_records: ads.0,
                            },
                        ),
                        None => None,
                    },
                    None => None,
                },
                None => None,
            },
            None => None,
        }
    } else {
        None
    }
}

proof fn lemma_questions_parse(buf: Seq<u8>, pos: int, qs: Seq<QuestionV>, i: int, hops: nat)
    requires
        wf_questions(qs),
        0 <= i <= qs.len(),
        0 <= pos,
        pos + questions_bytes_from(qs, i).len() <= buf.len(),
        buf.subrange(pos, pos + questions_bytes_from(qs, i).len()) == questions_bytes_from(qs, i),
    ensures
        parse_questions(buf, pos, (qs.len() - i) as nat, hops) == Some(
            (qs.skip(i), pos + questions_bytes_from(qs, i).len()),
        ),
    decreases qs.len() - i,
{
    let enc = questions_bytes_from(qs, i);
    assert(forall|k: int| 0 <= k < enc.len() ==> buf[pos + k] == #[trigger] enc[k]) by {
        assert(forall|k: int|
            0 <= k < enc.len() ==> buf.subrange(pos, pos + enc.len())[k] == #[trigger] enc[k]);
    }
    if i == qs.len() {
        assert(qs.skip(i) =~= Seq::<QuestionV>::empty());
    } else {
        let qb = question_bytes(qs[i]);
        let rest = questions_bytes_from(qs, i + 1);
        assert(enc == qb + rest);
        assert(forall|k: int| 0 <= k < qb.len() ==> enc[k] == #[trigger] qb[k]);
        assert(buf.subrange(pos, pos + qb.len()) =~= qb);
        lemma_question_round_trip(buf, pos, qs[i], hops);
        let pos2 = pos + qb.len();
        assert(forall|k: int| 0 <= k < rest.len() ==> enc[qb.len() + k] == #[trigger] rest[k]);
        assert(buf.subrange(pos2, pos2 + rest.len()) =~= rest);
        lemma_questions_parse(buf, pos2, qs, i + 1, hops);
        assert(seq![qs[i]] + qs.skip(i + 1) =~= qs.skip(i));
    }
}

proof fn lemma_records_parse(buf: Seq<u8>, pos: int, rs: Seq<RecordV>, i: int, hops: nat)
    requires
        wf_records(rs),
        0 <= i <= rs.len(),
        0 <= pos,
        pos + records_bytes_from(rs, i).len() <= buf.len(),
        buf.subrange(pos, pos + records_bytes_from(rs, i).len()) == records_bytes_from(rs, i),
    ensures
        parse_records(buf, pos, (rs.len() - i) as nat, hops) == Some(
            (rs.skip(i), pos + records_bytes_from(rs, i).len()),
        ),
    decreases rs.len() - i,
{
    let enc = records_bytes_from(rs, i);
    assert(forall|k: int| 0 <= k < enc.len() ==> buf[pos + k] == #[trigger] enc[k]) by {
        assert(forall|k: int|
            0 <= k < enc.len() ==> buf.subrange(pos, pos + enc.len())[k] == #[trigger] enc[k]);
    }
    if i == rs.len() {
        assert(rs.skip(i) =~= Seq::<RecordV>::empty());
    } else {
        let rb = record_bytes(rs[i]);
        let rest = records_bytes_from(rs, i + 1);
        assert(enc == rb + rest);
        assert(forall|k: int| 0 <= k < rb.len() ==> enc[k] == #[trigger] rb[k]);
        assert(buf.subrange(pos, pos + rb.len()) =~= rb);
        lemma_record_round_trip(buf, pos, rs[i], hops);
        let pos2 = pos + rb.len();
        assert(forall|k: int| 0 <= k < rest.len() ==> enc[rb.len() + k] == #[trigger] rest[k]);
        assert(buf.subrange(pos2, pos2 + rest.len()) =~= rest);
        lemma_records_parse(buf, pos2, rs, i + 1, hops);
        assert(seq![rs[i]] + rs.skip(i + 1) =~= rs.skip(i));
    }
}

proof fn lemma_parse_questions_len(buf: Seq<u8>, pos: int, n: nat, hops: nat)
    requires
        parse_questions(buf, pos, n, hops) is Some,
    ensures
        parse_questions(buf, pos, n, hops)->Some_0.0.len() == n,
    decreases n,
{
    if n > 0 {
        let q = parse_question(buf, pos, hops)->Some_0;
        lemma_parse_questions_len(buf, q.1, (n - 1) as nat, hops);
    }
}

proof fn lemma_parse_records_len(buf: Seq<u8>, pos: int, n: nat, hops: nat)
    requires
        parse_records(buf, pos, n, hops) is Some,
    ensures
        parse_records(buf, pos, n, hops)->Some_0.0.len() == n,
    decreases n,
{
    if n > 0 {
        let r = parse_record(buf, pos, hops)->Some_0;
        lemma_parse_records_len(buf, r.1, (n - 1) as nat, hops);
    }
}

/// After a successful decode the header counts equal the lengths of the
/// corresponding sections.
pub proof fn lemma_decoded_counts_match(buf: Seq<u8>)
    requires
        parse_packet(buf) is Some,
    ensures
        ({
            let p = parse_packet(buf)->Some_0;
            p.header.question_count as int == p.questions.len() && p.header.answer_count as int
                == p.answers.len() && p.header.nameserver_count as int
                == p.nameserver_records.len() && p.header.additional_count as int
                == p.additional_records.len()
        }),
{
    let h = parse_header(buf);
    let hops = MAX_POINTER_HOPS as nat;
    let qs = parse_questions(buf, 12, h.question_count as nat, hops)->Some_0;
    lemma_parse_questions_len(buf, 12, h.question_count as nat, hops);
    let ans = parse_records(buf, qs.1, h.answer_count as nat, hops)->Some_0;
    lemma_parse_records_len(buf, qs.1, h.answer_count as nat, hops);
    let nss = parse_records(buf, ans.1, h.nameserver_count as nat, hops)->Some_0;
    lemma_parse_records_len(buf, ans.1, h.nameserver_count as nat, hops);
    lemma_parse_records_len(buf, nss.1, h.additional_count as nat, hops);
}

/// Decoding any buffer that begins with the encoding of a well-formed
/// packet yields exactly that packet, whatever follows the encoding.
pub proof fn lemma_packet_parse(p: PacketV, buf: Seq<u8>)
    requires
        wf_packet(p),
        packet_bytes(p).len() <= buf.len(),
        buf.subrange(0, packet_bytes(p).len() as int) == packet_bytes(p),
    ensures
        parse_packet(buf) == Some(p),
{
    let enc = packet_bytes(p);
    let hb = header_bytes(p.header);
    let qb = questions_bytes(p.questions);
    let ab = records_bytes(p.answers);
    let nb = records_bytes(p.nameserver_records);
    let eb = records_bytes(p.additional_records);
    assert(forall|k: int| 0 <= k < enc.len() ==> buf[k] == #[trigger] enc[k]) by {
        assert(forall|k: int|
            0 <= k < enc.len() ==> buf.subrange(0, enc.len() as int)[k] == #[trigger] enc[k]);
    }
    let o1: int = 12;
    let o2 = o1 + qb.len();
    let o3 = o2 + ab.len();
    let o4 = o3 + nb.len();
    let o5 = o4 + eb.len();
    assert(hb.len() == 12);
    assert(enc.len() == o5);
    assert(forall|k: int| 0 <= k < 12 ==> enc[k] == #[trigger] hb[k]);
    assert(buf.subrange(0, 12) =~= hb);
    lemma_header_round_trip(p.header, buf);
    let hops = MAX_POINTER_HOPS as nat;
    assert(forall|k: int| 0 <= k < qb.len() ==> enc[o1 + k] == #[trigger] qb[k]);
    assert(buf.subrange(o1, o2 as int) =~= qb);
    lemma_questions_parse(buf, o1, p.questions, 0, hops);
    assert(p.questions.skip(0) =~= p.questions);
    assert(forall|k: int| 0 <= k < ab.len() ==> enc[o2 + k] == #[trigger] ab[k]);
    assert(buf.subrange(o2 as int, o3 as int) =~= ab);
    lemma_records_parse(buf, o2, p.answers, 0, hops);
    assert(p.answers.skip(0) =~= p.answers);
    assert(forall|k: int| 0 <= k < nb.len() ==> enc[o3 + k] == #[trigger] nb[k]);
    assert(buf.subrange(o3 as int, o4 as int) =~= nb);
    lemma_records_parse(buf, o3, p.nameserver_records, 0, hops);
    assert(p.nameserver_records.skip(0) =~= p.nameserver_records);
    assert(forall|k: int| 0 <= k < eb.len() ==> enc[o4 + k] == #[trigger] eb[k]);
    assert(buf.subrange(o4 as int, o5 as int) =~= eb);
    lemma_records_parse(buf, o4, p.additional_records, 0, hops);
    assert(p.additional_records.skip(0) =~= p.additional_records);
}

/// Round trip: decoding the encoding of any well-formed packet within the
/// protocol size limit reconstructs the packet, equal in all header
/// fields, counts and record fields.
pub proof fn lemma_round_trip(p: PacketV)
    requires
        encodable(p),
    ensures
        parse_packet(packet_bytes(p)) == Some(p),
{
    assert(packet_bytes(p).subrange(0, packet_bytes(p).len() as int) =~= packet_bytes(p));
    lemma_packet_parse(p, packet_bytes(p));
}

/// Appends the wire bytes of the questions from index `i` on.
fn append_questions_from(qs: &Vec<Question>, out: &mut Vec<u8>, i: usize)
    requires
        wf_questions(questions_view(qs@)),
        i <= qs@.len(),
    ensures
        final(out)@ == old(out)@ + questions_bytes_from(questions_view(qs@), i as int),
    decreases qs@.len() - i,
{
    if i < qs.len() {
        let q = &qs[i];
        assert(questions_view(qs@)[i as int] == q@);
        q.append_to(out);
        append_questions_from(qs, out, i + 1);
        assert(out@ =~= old(out)@ + questions_bytes_from(questions_view(qs@), i as int));
    } else {
        assert(out@ =~= old(out)@ + questions_bytes_from(questions_view(qs@), i as int));
    }
}

/// Appends the wire bytes of the records from index `i` on.
fn append_records_from(rs: &Vec<ResourceRecord>, out: &mut Vec<u8>, i: usize)
    requires
        wf_records(records_view(rs@)),
        i <= rs@.len(),
    ensures
        final(out)@ == old(out)@ + records_bytes_from(records_view(rs@), i as int),
    decreases rs@.len() - i,
{
    if i < rs.len() {
        let r = &rs[i];
        assert(records_view(rs@)[i as int] == r@);
        r.append_to(out);
        append_records_from(rs, out, i + 1);
        assert(out@ =~= old(out)@ + records_bytes_from(records_view(rs@), i as int));
    } else {
        assert(out@ =~= old(out)@ + records_bytes_from(records_view(rs@), i as int));
    }
}

/// Reads `n` questions in a row; the execution of `parse_questions`.
fn parse_questions_at(buf: &Vec<u8>, pos: usize, n: u16, hops: u8) -> (r: Option<
    (Vec<Question>, usize),
>)
    ensures
        match (r, parse_questions(buf@, pos as int, n as nat, hops as nat)) {
            (Some(p), Some(s)) => questions_view(p.0@) == s.0 && p.1 == s.1,
            (None, None) => true,
            _ => false,
        },
    decreases n,
{
    if n == 0 {
        let v: Vec<Question> = Vec::new();
        assert(questions_view(v@) =~= Seq::<QuestionV>::empty());
        Some((v, pos))
    } else {
        match parse_question_at(buf, pos, hops) {
            Some(q) => match parse_questions_at(buf, q.1, n - 1, hops) {
                Some(rest) => {
                    let mut v = rest.0;
                    let ghost tail = questions_view(v@);
                    v.insert(0, q.0);
                    assert(questions_view(v@) =~= seq![q.0@] + tail);
                    Some((v, rest.1))
                }
                None => None,
            },
            None => None,
        }
    }
}

/// Reads `n` records in a row; the execution of `parse_records`.
fn parse_records_at(buf: &Vec<u8>, pos: usize, n: u16, hops: u8) -> (r: Option<
    (Vec<ResourceRecord>, usize),
>)
    ensures
        match (r, parse_records(buf@, pos as int, n as nat, hops as nat)) {
            (Some(p), Some(s)) => records_view(p.0@) == s.0 && p.1 == s.1,
            (None, None) => true,
            _ => false,
        },
    decreases n,
{
    if n == 0 {
        let v: Vec<ResourceRecord> = Vec::new();
        assert(records_view(v@) =~= Seq::<RecordV>::empty());
        Some((v, pos))
    } else {
        match parse_record_at(buf, pos, hops) {
            Some(q) => match parse_records_at(buf, q.1, n - 1, hops) {
                Some(rest) => {
                    let mut v = rest.0;
                    let ghost tail = records_view(v@);
                    v.insert(0, q.0);
                    assert(records_view(v@) =~= seq![q.0@] + tail);
                    Some((v, rest.1))
                }
                None => None,
            },
            None => None,
        }
    }
}

impl Packet {
    /// Whether the packet can be written on the wire: header fields fit,
    /// counts equal the section lengths, every entry is well formed.
    pub fn is_wf(&self) -> (b: bool)
        ensures
            b == wf_packet(self@),
    {
        let h = &self.header;
        let code_ok = match h.response_code {
            crate::header::ResponseCode::Reserved(v) => 6 <= v && v < 16,
            _ => true,
        };
        if !(h.opcode < 16 && h.reserved < 8 && code_ok) {
            return false;
        }
        if h.question_count as usize != self.questions.len() || h.answer_count as usize
            != self.answers.len() || h.nameserver_count as usize != self.nameserver_records.len()
            || h.additional_count as usize != self.additional_records.len() {
            return false;
        }
        let mut i: usize = 0;
        while i < self.questions.len()
            invariant
                i <= self.questions@.len(),
                forall|j: int| 0 <= j < i ==> wf_question(#[trigger] questions_view(self.questions@)[j]),
            decreases self.questions@.len() - i,
        {
            if !self.questions[i].qname.is_wf() {
                assert(!wf_question(questions_view(self.questions@)[i as int]));
                return false;
            }
            assert(wf_question(questions_view(self.questions@)[i as int]));
            i = i + 1;
        }
        if !records_all_wf(&self.answers) {
            return false;
        }
        if !records_all_wf(&self.nameserver_records) {
            return false;
        }
        if !records_all_wf(&self.additional_records) {
            return false;
        }
        true
    }

    /// Encodes the packet to its wire bytes.  Succeeds exactly on packets
    /// that fit the wire format and the message size limit; a malformed
    /// packet or an oversized encoding is reported, not written.
    pub fn to_buffer(&self) -> (r: Result<Buffer, EncodeError>)
        ensures
            match r {
                Ok(b) => encodable(self@) && b.buf@ == packet_bytes(self@),
                Err(EncodeError::BadPacket) => !wf_packet(self@),
                Err(EncodeError::TooLarge) => wf_packet(self@) && packet_bytes(self@).len()
                    > MAX_MESSAGE_LEN,
            },
    {
        if !self.is_wf() {
            return Err(EncodeError::BadPacket);
        }
        let mut out: Vec<u8> = Vec::new();
        self.header.append_to(&mut out);
        append_questions_from(&self.questions, &mut out, 0);
        append_records_from(&self.answers, &mut out, 0);
        append_records_from(&self.nameserver_records, &mut out, 0);
        append_records_from(&self.additional_records, &mut out, 0);
        assert(out@ =~= packet_bytes(self@));
        if out.len() > MAX_MESSAGE_LEN {
            return Err(EncodeError::TooLarge);
        }
        Ok(Buffer { buf: out })
    }

    /// Decodes a received message.  Succeeds exactly when the bytes parse:
    /// a header and as many entries of each section as its counts claim;
    /// counts that disagree with the remaining bytes are a decode error,
    /// never a crash.
    pub fn from_buffer(buffer: &Buffer) -> (r: Result<Packet, DecodeError>)
        ensures
            match (r, parse_packet(buffer.buf@)) {
                (Ok(p), Some(s)) => p@ == s,
                (Err(_), None) => true,
                _ => false,
            },
    {
        let buf = &buffer.buf;
        if buf.len() < 12 {
            return Err(DecodeError::Malformed);
        }
        let header = Header::read_from(buf);
        let hops = MAX_POINTER_HOPS;
        let qs = match parse_questions_at(buf, 12, header.question_count, hops) {
            Some(qs) => qs,
            None => {
                return Err(DecodeError::Malformed);
            }
        };
        let ans = match parse_records_at(buf, qs.1, header.answer_count, hops) {
            Some(r) => r,
            None => {
                return Err(DecodeError::Malformed);
            }
        };
        let nss = match parse_records_at(buf, ans.1, header.nameserver_count, hops) {
            Some(r) => r,
            None => {
                return Err(DecodeError::Malformed);
            }
        };
        let ads = match parse_records_at(buf, nss.1, header.additional_count, hops) {
            Some(r) => r,
            None => {
                return Err(DecodeError::Malformed);
            }
        };
        Ok(
            Packet {
                header,
                questions: qs.0,
                answers: ans.0,
                nameserver_records: nss.0,
                additional_records: ads.0,
            },
        )
    }
}

/// Whether every record of the section can be written on the wire.
fn records_all_wf(rs: &Vec<ResourceRecord>) -> (b: bool)
    ensures
        b == wf_records(records_view(rs@)),
{
    let mut i: usize = 0;
    while i < rs.len()
        invariant
            i <= rs@.len(),
            forall|j: int| 0 <= j < i ==> wf_record(#[trigger] records_view(rs@)[j]),
        decreases rs@.len() - i,
    {
        if !rs[i].is_wf() {
            assert(!wf_record(records_view(rs@)[i as int]));
            return false;
        }
        assert(wf_record(records_view(rs@)[i as int]));
        i = i + 1;
    }
    true
}

} // verus!
