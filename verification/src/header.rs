//! The fixed-size message preamble: transaction identifier, operation
//! flags, response status and the four section counts, together with its
//! twelve-byte wire layout.

use vstd::prelude::*;
use crate::buffer::{be16_value, append_u16, read_u16, lemma_be16_round_trip};

verus! {

/// Protocol-level outcome signalled in a reply's header.  Codes above the
/// named ones share the `Reserved` variant, which keeps the numeric value.
#[derive(Clone, Copy, Debug, PartialEq, Eq)]
pub enum ResponseCode {
    NoErr,
    FormatError,
    ServerFailure,
    NameError,
    NotImplemented,
    Refused,
    Reserved(u8),
}

/// The numeric value a code is written as on the wire.
pub open spec fn code_value(c: ResponseCode) -> u8 {
    match c {
        ResponseCode::NoErr => 0,
        ResponseCode::FormatError => 1,
        ResponseCode::ServerFailure => 2,
        ResponseCode::NameError => 3,
        ResponseCode::NotImplemented => 4,
        ResponseCode::Refused => 5,
        ResponseCode::Reserved(v) => v,
    }
}

/// The code a four-bit wire value is read as.
pub open spec fn code_of(v: u8) -> ResponseCode {
    if v == 0 {
        ResponseCode::NoErr
    } else if v == 1 {
        ResponseCode::FormatError
    } else if v == 2 {
        ResponseCode::ServerFailure
    } else if v == 3 {
        ResponseCode::NameError
    } else if v == 4 {
        ResponseCode::NotImplemented
    } else if v == 5 {
        ResponseCode::Refused
    } else {
        ResponseCode::Reserved(v)
    }
}

/// A code fits the four-bit field, and the `Reserved` variant is only used
/// for values the named variants do not cover.
pub open spec fn wf_code(c: ResponseCode) -> bool {
    match c {
        ResponseCode::Reserved(v) => 6 <= v < 16,
        _ => true,
    }
}

/// Writing a well-formed code and reading it back yields the same code.
pub proof fn lemma_code_round_trip(c: ResponseCode)
    requires
        wf_code(c),
    ensures
        code_of(code_value(c)) == c,
{
}

impl ResponseCode {
    /// The numeric value the code is written as.
    pub fn value(&self) -> (v: u8)
        ensures
            v == code_value(*self),
    {
        match self {
            ResponseCode::NoErr => 0,
            ResponseCode::FormatError => 1,
            ResponseCode::ServerFailure => 2,
            ResponseCode::NameError => 3,
            ResponseCode::NotImplemented => 4,
            ResponseCode::Refused => 5,
            ResponseCode::Reserved(v) => *v,
        }
    }

    /// The code read from a numeric wire value.
    pub fn from_value(v: u8) -> (c: ResponseCode)
        ensures
            c == code_of(v),
    {
        if v == 0 {
            ResponseCode::NoErr
        } else if v == 1 {
            ResponseCode::FormatError
        } else if v == 2 {
            ResponseCode::ServerFailure
        } else if v == 3 {
            ResponseCode::NameError
        } else if v == 4 {
            ResponseCode::NotImplemented
        } else if v == 5 {
            ResponseCode::Refused
        } else {
            ResponseCode::Reserved(v)
        }
    }

    /// Whether the code reports success.
    pub fn is_no_error(&self) -> (b: bool)
        ensures
            b == (*self == ResponseCode::NoErr),
    {
        match self {
            ResponseCode::NoErr => true,
            _ => false,
        }
    }
}

/// The fixed-size message preamble.
#[derive(Clone, Copy, Debug, PartialEq, Eq)]
pub struct Header {
    /// Transaction identifier, echoed by the server.
    pub id: u16,
    /// Whether the message is a response (set) or a query (clear).
    pub query_response: bool,
    /// Kind of query; a standard lookup is 0.  Four bits on the wire.
    pub opcode: u8,
    /// Whether the answering server is authoritative for the name.
    pub authoritative_answer: bool,
    /// Whether the message was cut to fit the datagram limit.
    pub truncated_message: bool,
    /// Whether the client asks the server to resolve recursively.
    pub recursion_desired: bool,
    /// Whether the server offers recursive resolution.
    pub recursion_available: bool,
    /// The reserved bits between the flags and the status.  Three bits.
    pub reserved: u8,
    /// Protocol-level outcome of the request.
    pub response_code: ResponseCode,
    /// Number of entries in the question section.
    pub question_count: u16,
    /// Number of records in the answer section.
    pub answer_count: u16,
    /// Number of records in the nameserver-referral section.
    pub nameserver_count: u16,
    /// Number of records in the additional-data section.
    pub additional_count: u16,
}

/// A header's bit fields fit their wire widths.
pub open spec fn wf_header(h: Header) -> bool {
    &&& h.opcode < 16
    &&& h.reserved < 8
    &&& wf_code(h.response_code)
}

pub open spec fn bool_bit(b: bool) -> u8 {
    if b {
        1
    } else {
        0
    }
}

/// The byte that packs the query/response bit, opcode, and the flags that
/// precede the low flag byte.
pub open spec fn flags_hi(h: Header) -> u8 {
    (bool_bit(h.query_response) << 7) | (h.opcode << 3) | (bool_bit(h.authoritative_answer) << 2)
        | (bool_bit(h.truncated_message) << 1) | bool_bit(h.recursion_desired)
}

/// The byte that packs the recursion-available bit, the reserved bits and
/// the response status.
pub open spec fn flags_lo(h: Header) -> u8 {
    (bool_bit(h.recursion_available) << 7) | (h.reserved << 4) | code_value(h.response_code)
}

/// The twelve-byte wire layout of a header.
pub open spec fn header_bytes(h: Header) -> Seq<u8> {
    seq![
        (h.id >> 8) as u8,
        (h.id & 0xff) as u8,
        flags_hi(h),
        flags_lo(h),
        (h.question_count >> 8) as u8,
        (h.question_count & 0xff) as u8,
        (h.answer_count >> 8) as u8,
        (h.answer_count & 0xff) as u8,
        (h.nameserver_count >> 8) as u8,
        (h.nameserver_count & 0xff) as u8,
        (h.additional_count >> 8) as u8,
        (h.additional_count & 0xff) as u8,
    ]
}

/// The header read from the first twelve bytes of a message.
pub open spec fn parse_header(buf: Seq<u8>) -> Header
    recommends
        buf.len() >= 12,
{
    Header {
        id: be16_value(buf[0], buf[1]),
        query_response: (buf[2] >> 7) & 1 == 1,
        opcode: (buf[2] >> 3) & 0xf,
        authoritative_answer: (buf[2] >> 2) & 1 == 1,
        truncated_message: (buf[2] >> 1) & 1 == 1,
        recursion_desired: buf[2] & 1 == 1,
        recursion_available: (buf[3] >> 7) & 1 == 1,
        reserved: (buf[3] >> 4) & 7,
        response_code: code_of(buf[3] & 0xf),
        question_count: be16_value(buf[4], buf[5]),
        answer_count: be16_value(buf[6], buf[7]),
        nameserver_count: be16_value(buf[8], buf[9]),
        additional_count: be16_value(buf[10], buf[11]),
    }
}

/// Writing a well-formed header and reading the bytes back yields the same
/// header, whatever follows it in the buffer.
pub proof fn lemma_header_round_trip(h: Header, buf: Seq<u8>)
    requires
        wf_header(h),
        buf.len() >= 12,
        buf.subrange(0, 12) == header_bytes(h),
    ensures
        parse_header(buf) == h,
{
    assert(header_bytes(h).len() == 12);
    assert forall|i: int| 0 <= i < 12 implies buf[i] == #[trigger] header_bytes(h)[i] by {
        assert(buf[i] == buf.subrange(0, 12)[i]);
    }
    assert(buf[0] == (h.id >> 8) as u8 && buf[1] == (h.id & 0xff) as u8);
    assert(buf[2] == flags_hi(h) && buf[3] == flags_lo(h));
    assert(buf[4] == (h.question_count >> 8) as u8 && buf[5] == (h.question_count & 0xff) as u8);
    assert(buf[6] == (h.answer_count >> 8) as u8 && buf[7] == (h.answer_count & 0xff) as u8);
    assert(buf[8] == (h.nameserver_count >> 8) as u8 && buf[9] == (h.nameserver_count
        & 0xff) as u8);
    assert(buf[10] == (h.additional_count >> 8) as u8 && buf[11] == (h.additional_count
        & 0xff) as u8);
    let qr = bool_bit(h.query_response);
    let op = h.opcode;
    let aa = bool_bit(h.authoritative_answer);
    let tc = bool_bit(h.truncated_message);
    let rd = bool_bit(h.recursion_desired);
    let hi = flags_hi(h);
    assert(hi == (qr << 7) | (op << 3) | (aa << 2) | (tc << 1) | rd);
    assert(
        ((((qr << 7) | (op << 3) | (aa << 2) | (tc << 1) | rd) >> 7) & 1 == 1) == (qr == 1)
            && (((qr << 7) | (op << 3) | (aa << 2) | (tc << 1) | rd) >> 3) & 0xf == op
            && ((((qr << 7) | (op << 3) | (aa << 2) | (tc << 1) | rd) >> 2) & 1 == 1) == (aa == 1)
            && ((((qr << 7) | (op << 3) | (aa << 2) | (tc << 1) | rd) >> 1) & 1 == 1) == (tc == 1)
            && (((qr << 7) | (op << 3) | (aa << 2) | (tc << 1) | rd) & 1 == 1) == (rd == 1)
    ) by (bit_vector)
        requires
            qr < 2,
            op < 16,
            aa < 2,
            tc < 2,
            rd < 2,
    ;
    let ra = bool_bit(h.recursion_available);
    let z = h.reserved;
    let rc = code_value(h.response_code);
    let lo = flags_lo(h);
    assert(lo == (ra << 7) | (z << 4) | rc);
    assert(
        ((((ra << 7) | (z << 4) | rc) >> 7) & 1 == 1) == (ra == 1)
            && (((ra << 7) | (z << 4) | rc) >> 4) & 7 == z
            && ((ra << 7) | (z << 4) | rc) & 0xf == rc
    ) by (bit_vector)
        requires
            ra < 2,
            z < 8,
            rc < 16,
    ;
    lemma_code_round_trip(h.response_code);
    lemma_be16_round_trip(h.id);
    lemma_be16_round_trip(h.question_count);
    lemma_be16_round_trip(h.answer_count);
    lemma_be16_round_trip(h.nameserver_count);
    lemma_be16_round_trip(h.additional_count);
}

/// The fixed transaction identifier queries are sent with.
pub const QUERY_ID: u16 = 0x2b2b;

/// The header a query is sent with: fixed identifier, recursion desired,
/// and all counts zero except the one question.
pub open spec fn query_header() -> Header {
    Header {
        id: QUERY_ID,
        query_response: false,
        opcode: 0,
        authoritative_answer: false,
        truncated_message: false,
        recursion_desired: true,
        recursion_available: false,
        reserved: 0,
        response_code: ResponseCode::NoErr,
        question_count: 1,
        answer_count: 0,
        nameserver_count: 0,
        additional_count: 0,
    }
}

impl Header {
    /// The header a query is sent with.
    pub fn for_query() -> (h: Header)
        ensures
            h == query_header(),
    {
        Header {
            id: QUERY_ID,
            query_response: false,
            opcode: 0,
            authoritative_answer: false,
            truncated_message: false,
            recursion_desired: true,
            recursion_available: false,
            reserved: 0,
            response_code: ResponseCode::NoErr,
            question_count: 1,
            answer_count: 0,
            nameserver_count: 0,
            additional_count: 0,
        }
    }

    /// Appends the twelve wire bytes of the header.
    pub fn append_to(&self, out: &mut Vec<u8>)
        requires
            wf_header(*self),
        ensures
            final(out)@ == old(out)@ + header_bytes(*self),
    {
        append_u16(out, self.id);
        let qr: u8 = if self.query_response { 1 } else { 0 };
        let aa: u8 = if self.authoritative_answer { 1 } else { 0 };
        let tc: u8 = if self.truncated_message { 1 } else { 0 };
        let rd: u8 = if self.recursion_desired { 1 } else { 0 };
        out.push((qr << 7) | (self.opcode << 3) | (aa << 2) | (tc << 1) | rd);
        let ra: u8 = if self.recursion_available { 1 } else { 0 };
        out.push((ra << 7) | (self.reserved << 4) | self.response_code.value());
        append_u16(out, self.question_count);
        append_u16(out, self.answer_count);
        append_u16(out, self.nameserver_count);
        append_u16(out, self.additional_count);
        assert(out@ =~= old(out)@ + header_bytes(*self));
    }

    /// Reads a header from the first twelve bytes of a message.
    pub fn read_from(buf: &Vec<u8>) -> (h: Header)
        requires
            buf@.len() >= 12,
        ensures
            h == parse_header(buf@),
    {
        Header {
            id: read_u16(buf, 0),
            query_response: (buf[2] >> 7) & 1 == 1,
            opcode: (buf[2] >> 3) & 0xf,
            authoritative_answer: (buf[2] >> 2) & 1 == 1,
            truncated_message: (buf[2] >> 1) & 1 == 1,
            recursion_desired: buf[2] & 1 == 1,
            recursion_available: (buf[3] >> 7) & 1 == 1,
            reserved: (buf[3] >> 4) & 7,
            response_code: ResponseCode::from_value(buf[3] & 0xf),
            question_count: read_u16(buf, 4),
            answer_count: read_u16(buf, 6),
            nameserver_count: read_u16(buf, 8),
            additional_count: read_u16(buf, 10),
        }
    }
}

} // verus!
