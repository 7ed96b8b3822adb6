//! One resource record of the answer, nameserver-referral or
//! additional-data section: owning name, type, class, time-to-live and the
//! type-dependent payload, with their wire layout.

use vstd::prelude::*;
use crate::buffer::{
    be16_value, be32_value, append_u16, append_u32, append_bytes, read_u16, read_u32, take_range,
    lemma_be16_round_trip, lemma_be32_round_trip,
};
use crate::name::{
    DomainName, wf_name, name_bytes, parse_name, parse_name_at, lemma_name_round_trip,
    lemma_parse_name_bounds,
};

verus! {

/// Record type of an address record.
pub const RTYPE_A: u16 = 1;

/// Record type of a nameserver-referral record.
pub const RTYPE_NS: u16 = 2;

/// The mathematical value of a record payload.
pub ghost enum RDataV {
    /// A four-byte network address (record type 1).
    Ipv4(u8, u8, u8, u8),
    /// A hostname (record type 2); referral records carry the nameserver
    /// to continue with.
    Name(Seq<Seq<u8>>),
    /// The raw payload of any other record type.
    Raw(Seq<u8>),
}

/// The type-dependent payload of a record.
#[derive(Clone, Debug, PartialEq, Eq)]
pub enum RData {
    /// A four-byte network address (record type 1).
    Ipv4(u8, u8, u8, u8),
    /// A hostname (record type 2); referral records carry the nameserver
    /// to continue with.
    Name(DomainName),
    /// The raw payload of any other record type.
    Raw(Vec<u8>),
}

impl View for RData {
    type V = RDataV;

    open spec fn view(&self) -> RDataV {
        match self {
            RData::Ipv4(a, b, c, d) => RDataV::Ipv4(*a, *b, *c, *d),
            RData::Name(n) => RDataV::Name(n@),
            RData::Raw(v) => RDataV::Raw(v@),
        }
    }
}

/// The mathematical value of a resource record.
pub ghost struct RecordV {
    pub name: Seq<Seq<u8>>,
    pub rtype: u16,
    pub rclass: u16,
    pub ttl: u32,
    pub rdata: RDataV,
}

/// One resource record.
#[derive(Clone, Debug, PartialEq, Eq)]
pub struct ResourceRecord {
    pub name: DomainName,
    pub rtype: u16,
    pub rclass: u16,
    pub ttl: u32,
    pub rdata: RData,
}

impl View for ResourceRecord {
    type V = RecordV;

    open spec fn view(&self) -> RecordV {
        RecordV {
            name: self.name@,
            rtype: self.rtype,
            rclass: self.rclass,
            ttl: self.ttl,
            rdata: self.rdata@,
        }
    }
}

/// The record views of a sequence of records.
pub open spec fn records_view(v: Seq<ResourceRecord>) -> Seq<RecordV> {
    Seq::new(v.len(), |i: int| v[i]@)
}

/// The payload bytes a record carries after its length field.
pub open spec fn rdata_bytes(rd: RDataV) -> Seq<u8> {
    match rd {
        RDataV::Ipv4(a, b, c, d) => seq![a, b, c, d],
        RDataV::Name(ls) => name_bytes(ls),
        RDataV::Raw(v) => v,
    }
}

/// A payload agrees with its record type and fits its length field: an
/// address payload under the address type, a well-formed hostname under
/// the referral type, and anything else under the remaining types.
pub open spec fn wf_rdata(rtype: u16, rd: RDataV) -> bool {
    match rd {
        RDataV::Ipv4(a, b, c, d) => rtype == RTYPE_A,
        RDataV::Name(ls) => rtype == RTYPE_NS && wf_name(ls) && name_bytes(ls).len() <= 0xffff,
        RDataV::Raw(v) => rtype != RTYPE_A && rtype != RTYPE_NS && v.len() <= 0xffff,
    }
}

/// A record can be written on the wire.
pub open spec fn wf_record(r: RecordV) -> bool {
    wf_name(r.name) && wf_rdata(r.rtype, r.rdata)
}

/// The ten fixed bytes between a record's name and its payload: type,
/// class, time-to-live and payload length.
pub open spec fn record_fixed_bytes(r: RecordV) -> Seq<u8> {
    let rdlen = rdata_bytes(r.rdata).len() as u16;
    seq![
        (r.rtype >> 8) as u8,
        (r.rtype & 0xff) as u8,
        (r.rclass >> 8) as u8,
        (r.rclass & 0xff) as u8,
        (r.ttl >> 24) as u8,
        ((r.ttl >> 16) & 0xff) as u8,
        ((r.ttl >> 8) & 0xff) as u8,
        (r.ttl & 0xff) as u8,
        (rdlen >> 8) as u8,
        (rdlen & 0xff) as u8,
    ]
}

/// The wire layout of a record.
pub open spec fn record_bytes(r: RecordV) -> Seq<u8> {
    name_bytes(r.name) + record_fixed_bytes(r) + rdata_bytes(r.rdata)
}

/// Reads one record at `pos`: a name, ten fixed bytes, then a payload of
/// the length the fixed bytes give.  An address-type record must carry
/// four payload bytes; a referral-type payload is read as a (possibly
/// compressed) name; any other payload is kept raw.
pub open spec fn parse_record(buf: Seq<u8>, pos: int, hops: nat) -> Option<(RecordV, int)> {
    match parse_name(buf, pos, hops) {
        None => None,
        Some(nr) => {
            let p = nr.1;
            if p + 10 <= buf.len() {
                let rtype = be16_value(buf[p], buf[p + 1]);
                let rclass = be16_value(buf[p + 2], buf[p + 3]);
                let ttl = be32_value(buf[p + 4], buf[p + 5], buf[p + 6], buf[p + 7]);
                let rdlen = be16_value(buf[p + 8], buf[p + 9]);
                let q = p + 10;
                if q + rdlen <= buf.len() {
                    if rtype == RTYPE_A {
                        if rdlen == 4 {
                            Some(
                                (
                                    RecordV {
                                        name: nr.0,
                                        rtype,
                                        rclass,
                                        ttl,
                                        rdata: RDataV::Ipv4(
                                            buf[q],
                                            buf[q + 1],
                                            buf[q + 2],
                                            buf[q + 3],
                                        ),
                                    },
                                    q + 4,
                                ),
                            )
                        } else {
                            None
                        }
                    } else if rtype == RTYPE_NS {
                        match parse_name(buf, q, hops) {
                            Some(sr) => Some(
                                (
                                    RecordV {
                                        name: nr.0,
                                        rtype,
                                        rclass,
                                        ttl,
                                        rdata: RDataV::Name(sr.0),
                                    },
                                    q + rdlen,
                                ),
                            ),
                            None => None,
                        }
                    } else {
                        Some(
                            (
                                RecordV {
                                    name: nr.0,
                                    rtype,
                                    rclass,
                                    ttl,
                                    rdata: RDataV::Raw(buf.subrange(q, q + rdlen)),
                                },
                                q + rdlen,
                            ),
                        )
                    }
                } else {
                    None
                }
            } else {
                None
            }
        }
    }
}

/// Round trip for records: parsing the encoding of a well-formed record
/// yields that record, whatever surrounds it in the buffer.
pub proof fn lemma_record_round_trip(buf: Seq<u8>, pos: int, r: RecordV, hops: nat)
    requires
        wf_record(r),
        0 <= pos,
        pos + record_bytes(r).len() <= buf.len(),
        buf.subrange(pos, pos + record_bytes(r).len()) == record_bytes(r),
    ensures
        parse_record(buf, pos, hops) == Some((r, pos + record_bytes(r).len())),
{
    let enc = record_bytes(r);
    let nb = name_bytes(r.name);
    let fixed = record_fixed_bytes(r);
    let rdb = rdata_bytes(r.rdata);
    let n = nb.len() as int;
    assert(forall|k: int| 0 <= k < enc.len() ==> buf[pos + k] == #[trigger] enc[k]) by {
        assert(forall|k: int|
            0 <= k < enc.len() ==> buf.subrange(pos, pos + enc.len())[k] == #[trigger] enc[k]);
    }
    assert(forall|k: int| 0 <= k < n ==> enc[k] == #[trigger] nb[k]);
    assert(buf.subrange(pos, pos + n) =~= nb);
    lemma_name_round_trip(buf, pos, r.name, hops);
    let p = pos + n;
    assert(forall|k: int| 0 <= k < 10 ==> enc[n + k] == #[trigger] fixed[k]);
    assert(buf[p] == fixed[0] && buf[p + 1] == fixed[1] && buf[p + 2] == fixed[2] && buf[p + 3]
        == fixed[3] && buf[p + 4] == fixed[4] && buf[p + 5] == fixed[5] && buf[p + 6] == fixed[6]
        && buf[p + 7] == fixed[7] && buf[p + 8] == fixed[8] && buf[p + 9] == fixed[9]);
    lemma_be16_round_trip(r.rtype);
    lemma_be16_round_trip(r.rclass);
    lemma_be32_round_trip(r.ttl);
    let rdlen16 = rdb.len() as u16;
    lemma_be16_round_trip(rdlen16);
    assert(rdb.len() <= 0xffff);
    assert(be16_value(buf[p + 8], buf[p + 9]) == rdb.len());
    let q = p + 10;
    assert(forall|k: int| 0 <= k < rdb.len() ==> enc[n + 10 + k] == #[trigger] rdb[k]);
    assert(buf.subrange(q, q + rdb.len()) =~= rdb);
    match r.rdata {
        RDataV::Ipv4(a, b, c, d) => {
            assert(rdb == seq![a, b, c, d]);
            assert(buf[q] == a && buf[q + 1] == b && buf[q + 2] == c && buf[q + 3] == d);
        }
        RDataV::Name(ls) => {
            lemma_name_round_trip(buf, q, ls, hops);
        }
        RDataV::Raw(v) => {
        }
    }
}

impl ResourceRecord {
    /// Whether the record can be written on the wire.
    pub fn is_wf(&self) -> (b: bool)
        ensures
            b == wf_record(self@),
    {
        if !self.name.is_wf() {
            return false;
        }
        match &self.rdata {
            RData::Ipv4(_, _, _, _) => self.rtype == RTYPE_A,
            RData::Name(n) => {
                if self.rtype != RTYPE_NS || !n.is_wf() {
                    false
                } else {
                    let mut tmp: Vec<u8> = Vec::new();
                    n.append_to(&mut tmp);
                    tmp.len() <= 0xffff
                }
            }
            RData::Raw(v) => self.rtype != RTYPE_A && self.rtype != RTYPE_NS && v.len() <= 0xffff,
        }
    }

    /// Appends the wire bytes of the record.
    pub fn append_to(&self, out: &mut Vec<u8>)
        requires
            wf_record(self@),
        ensures
            final(out)@ == old(out)@ + record_bytes(self@),
    {
        self.name.append_to(out);
        append_u16(out, self.rtype);
        append_u16(out, self.rclass);
        append_u32(out, self.ttl);
        match &self.rdata {
            RData::Ipv4(a, b, c, d) => {
                append_u16(out, 4);
                out.push(*a);
                out.push(*b);
                out.push(*c);
                out.push(*d);
            }
            RData::Name(n) => {
                let mut tmp: Vec<u8> = Vec::new();
                n.append_to(&mut tmp);
                append_u16(out, tmp.len() as u16);
                append_bytes(out, &tmp);
            }
            RData::Raw(v) => {
                append_u16(out, v.len() as u16);
                append_bytes(out, v);
            }
        }
        assert(out@ =~= old(out)@ + record_bytes(self@));
    }
}

/// Reads one record from `buf` at `pos`; the execution of `parse_record`.
pub fn parse_record_at(buf: &Vec<u8>, pos: usize, hops: u8) -> (r: Option<(ResourceRecord, usize)>)
    ensures
        match (r, parse_record(buf@, pos as int, hops as nat)) {
            (Some(p), Some(s)) => p.0@ == s.0 && p.1 == s.1,
            (None, None) => true,
            _ => false,
        },
{
    match parse_name_at(buf, pos, hops) {
        None => None,
        Some(n) => {
            proof {
                lemma_parse_name_bounds(buf@, pos as int, hops as nat);
            }
            let name = n.0;
            let p = n.1;
            if buf.len() - p < 10 {
                return None;
            }
            let rtype = read_u16(buf, p);
            let rclass = read_u16(buf, p + 2);
            let ttl = read_u32(buf, p + 4);
            let rdlen = read_u16(buf, p + 8) as usize;
            let q = p + 10;
            if rdlen > buf.len() - q {
                return None;
            }
            if rtype == RTYPE_A {
                if rdlen == 4 {
                    let rdata = RData::Ipv4(buf[q], buf[q + 1], buf[q + 2], buf[q + 3]);
                    Some((ResourceRecord { name, rtype, rclass, ttl, rdata }, q + 4))
                } else {
                    None
                }
            } else if rtype == RTYPE_NS {
                match parse_name_at(buf, q, hops) {
                    Some(sr) => {
                        let rdata = RData::Name(sr.0);
                        Some((ResourceRecord { name, rtype, rclass, ttl, rdata }, q + rdlen))
                    }
                    None => None,
                }
            } else {
                let rdata = RData::Raw(take_range(buf, q, q + rdlen));
                Some((ResourceRecord { name, rtype, rclass, ttl, rdata }, q + rdlen))
            }
        }
    }
}

} // verus!
