//! One entry of the question section: the queried name, the query type
//! and the query class, with their wire layout.

use vstd::prelude::*;
use crate::buffer::{be16_value, append_u16, read_u16, lemma_be16_round_trip};
use crate::name::{
    DomainName, wf_name, name_bytes, parse_name, lemma_name_round_trip, lemma_parse_name_bounds,
};

verus! {

/// The mathematical value of a question.
pub ghost struct QuestionV {
    pub name: Seq<Seq<u8>>,
    pub qtype: u16,
    pub qclass: u16,
}

/// One entry of the question section.  An address lookup uses query type 1
/// and query class 1 (internet).
#[derive(Clone, Debug, PartialEq, Eq)]
pub struct Question {
    pub qname: DomainName,
    pub qtype: u16,
    pub qclass: u16,
}

impl View for Question {
    type V = QuestionV;

    open spec fn view(&self) -> QuestionV {
        QuestionV { name: self.qname@, qtype: self.qtype, qclass: self.qclass }
    }
}

/// The byte views of a sequence of questions.
pub open spec fn questions_view(v: Seq<Question>) -> Seq<QuestionV> {
    Seq::new(v.len(), |i: int| v[i]@)
}

/// A question can be written on the wire.
pub open spec fn wf_question(q: QuestionV) -> bool {
    wf_name(q.name)
}

/// The wire layout of a question: the name, then type and class.
pub open spec fn question_bytes(q: QuestionV) -> Seq<u8> {
    name_bytes(q.name) + seq![
        (q.qtype >> 8) as u8,
        (q.qtype & 0xff) as u8,
        (q.qclass >> 8) as u8,
        (q.qclass & 0xff) as u8,
    ]
}

/// Reads one question at `pos`: a name followed by four fixed bytes.
pub open spec fn parse_question(buf: Seq<u8>, pos: int, hops: nat) -> Option<(QuestionV, int)> {
    match parse_name(buf, pos, hops) {
        Some(r) => if r.1 + 4 <= buf.len() {
            Some(
                (
                    QuestionV {
                        name: r.0,
                        qtype: be16_value(buf[r.1], buf[r.1 + 1]),
                        qclass: be16_value(buf[r.1 + 2], buf[r.1 + 3]),
                    },
                    r.1 + 4,
                ),
            )
        } else {
            None
        },
        None => None,
    }
}

/// Round trip for questions: parsing the encoding of a well-formed
/// question yields that question, whatever surrounds it in the buffer.
pub proof fn lemma_question_round_trip(buf: Seq<u8>, pos: int, q: QuestionV, hops: nat)
    requires
        wf_question(q),
        0 <= pos,
        pos + question_bytes(q).len() <= buf.len(),
        buf.subrange(pos, pos + question_bytes(q).len()) == question_bytes(q),
    ensures
        parse_question(buf, pos, hops) == Some((q, pos + question_bytes(q).len())),
{
    let enc = question_bytes(q);
    let nb = name_bytes(q.name);
    let n = nb.len() as int;
    assert(forall|k: int| 0 <= k < enc.len() ==> buf[pos + k] == #[trigger] enc[k]) by {
        assert(forall|k: int|
            0 <= k < enc.len() ==> buf.subrange(pos, pos + enc.len())[k] == #[trigger] enc[k]);
    }
    assert(forall|k: int| 0 <= k < n ==> enc[k] == #[trigger] nb[k]);
    assert(buf.subrange(pos, pos + n) =~= nb);
    lemma_name_round_trip(buf, pos, q.name, hops);
    let p = pos + n;
    assert(buf[p] == enc[n + 0] && enc[n + 0] == (q.qtype >> 8) as u8);
    assert(buf[p + 1] == enc[n + 1] && enc[n + 1] == (q.qtype & 0xff) as u8);
    assert(buf[p + 2] == enc[n + 2] && enc[n + 2] == (q.qclass >> 8) as u8);
    assert(buf[p + 3] == enc[n + 3] && enc[n + 3] == (q.qclass & 0xff) as u8);
    lemma_be16_round_trip(q.qtype);
    lemma_be16_round_trip(q.qclass);
}

impl Question {
    /// Appends the wire bytes of the question.
    pub fn append_to(&self, out: &mut Vec<u8>)
        requires
            wf_question(self@),
        ensures
            final(out)@ == old(out)@ + question_bytes(self@),
    {
        self.qname.append_to(out);
        append_u16(out, self.qtype);
        append_u16(out, self.qclass);
        assert(out@ =~= old(out)@ + question_bytes(self@));
    }
}

/// Reads one question from `buf` at `pos`; the execution of
/// `parse_question`.
pub fn parse_question_at(buf: &Vec<u8>, pos: usize, hops: u8) -> (r: Option<(Question, usize)>)
    ensures
        match (r, parse_question(buf@, pos as int, hops as nat)) {
            (Some(p), Some(s)) => p.0@ == s.0 && p.1 == s.1,
            (None, None) => true,
            _ => false,
        },
{
    match crate::name::parse_name_at(buf, pos, hops) {
        Some(n) => {
            proof {
                lemma_parse_name_bounds(buf@, pos as int, hops as nat);
            }
            let end = n.1;
            if buf.len() - end >= 4 {
                let qtype = read_u16(buf, end);
                let qclass = read_u16(buf, end + 2);
                Some((Question { qname: n.0, qtype, qclass }, end + 4))
            } else {
                None
            }
        }
        None => None,
    }
}

} // verus!
