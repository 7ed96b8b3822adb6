//! Domain names as label sequences, their length-prefixed wire encoding,
//! and the decoder for both plain labels and compression pointers.

use vstd::prelude::*;
use crate::buffer::{append_bytes, take_range};

verus! {

/// Longest label the wire format can carry: the length octet keeps its two
/// top bits to mark compression pointers.
pub const MAX_LABEL_LEN: usize = 63;

/// How many compression pointers the decoder follows within one name
/// before treating the input as malformed; this bounds decoding even on
/// adversarial pointer loops.
pub const MAX_POINTER_HOPS: u8 = 16;

/// A domain name as its sequence of labels: "example.com" is the two
/// labels "example" and "com".
#[derive(Clone, Debug, PartialEq, Eq)]
pub struct DomainName {
    pub labels: Vec<Vec<u8>>,
}

/// The byte sequences held by a sequence of byte vectors.
pub open spec fn labels_view(v: Seq<Vec<u8>>) -> Seq<Seq<u8>> {
    Seq::new(v.len(), |i: int| v[i]@)
}

impl View for DomainName {
    type V = Seq<Seq<u8>>;

    open spec fn view(&self) -> Seq<Seq<u8>> {
        labels_view(self.labels@)
    }
}

/// A name can be written on the wire: every label is nonempty and fits the
/// six-bit length field.
pub open spec fn wf_name(labels: Seq<Seq<u8>>) -> bool {
    forall|i: int| 0 <= i < labels.len() ==> 1 <= (#[trigger] labels[i]).len() <= 63
}

/// The wire encoding of the labels from index `i` on: each label
/// length-prefixed, the whole terminated by a zero octet.
pub open spec fn name_bytes_from(labels: Seq<Seq<u8>>, i: int) -> Seq<u8>
    decreases labels.len() - i,
{
    if i < 0 || i >= labels.len() {
        seq![0u8]
    } else {
        seq![labels[i].len() as u8] + labels[i] + name_bytes_from(labels, i + 1)
    }
}

/// The uncompressed wire encoding of a whole name.
pub open spec fn name_bytes(labels: Seq<Seq<u8>>) -> Seq<u8> {
    name_bytes_from(labels, 0)
}

/// The buffer position a compression pointer at `pos` refers to.
pub open spec fn pointer_target(buf: Seq<u8>, pos: int) -> int {
    (buf[pos] - 192) * 256 + buf[pos + 1]
}

/// Reads a name starting at `pos`: a run of length-prefixed labels ended
/// by a zero octet, or cut short by a compression pointer to an earlier
/// run.  Yields the labels and the position just past the name's bytes,
/// or `None` on malformed input.  `hops` bounds the pointers followed.
pub open spec fn parse_name(buf: Seq<u8>, pos: int, hops: nat) -> Option<(Seq<Seq<u8>>, int)>
    decreases hops, buf.len() - pos,
{
    if pos < 0 || pos >= buf.len() {
        None
    } else {
        let b = buf[pos];
        if b == 0 {
            Some((Seq::empty(), pos + 1))
        } else if b < 64 {
            if pos + 1 + b <= buf.len() {
                match parse_name(buf, pos + 1 + b, hops) {
                    Some(r) => Some((seq![buf.subrange(pos + 1, pos + 1 + b)] + r.0, r.1)),
                    None => None,
                }
            } else {
                None
            }
        } else if b >= 192 {
            if pos + 2 <= buf.len() && hops > 0 {
                match parse_name(buf, pointer_target(buf, pos), (hops - 1) as nat) {
                    Some(r) => Some((r.0, pos + 2)),
                    None => None,
                }
            } else {
                None
            }
        } else {
            None
        }
    }
}

/// A parsed name sits inside the buffer: its end lies past its start and
/// within the bytes.
pub proof fn lemma_parse_name_bounds(buf: Seq<u8>, pos: int, hops: nat)
    requires
        parse_name(buf, pos, hops) is Some,
    ensures
        pos < parse_name(buf, pos, hops)->Some_0.1 <= buf.len(),
    decreases hops, buf.len() - pos,
{
    let b = buf[pos];
    if b == 0 {
    } else if b < 64 {
        lemma_parse_name_bounds(buf, pos + 1 + b, hops);
    } else {
    }
}

/// Reading an uncompressed name encoding back yields exactly the labels
/// it was written from, whatever surrounds it and whatever the hop budget.
proof fn lemma_name_bytes_parse(buf: Seq<u8>, pos: int, labels: Seq<Seq<u8>>, i: int, hops: nat)
    requires
        wf_name(labels),
        0 <= i <= labels.len(),
        0 <= pos,
        pos + name_bytes_from(labels, i).len() <= buf.len(),
        buf.subrange(pos, pos + name_bytes_from(labels, i).len()) == name_bytes_from(labels, i),
    ensures
        parse_name(buf, pos, hops) == Some(
            (labels.skip(i), pos + name_bytes_from(labels, i).len()),
        ),
    decreases labels.len() - i,
{
    let enc = name_bytes_from(labels, i);
    assert(forall|k: int| 0 <= k < enc.len() ==> buf[pos + k] == #[trigger] enc[k]) by {
        assert(forall|k: int|
            0 <= k < enc.len() ==> buf.subrange(pos, pos + enc.len())[k] == #[trigger] enc[k]);
    }
    if i == labels.len() {
        assert(enc == seq![0u8]);
        assert(enc[0] == 0u8);
        assert(buf[pos + 0] == enc[0]);
        assert(buf[pos] == 0u8);
        assert(labels.skip(i) =~= Seq::<Seq<u8>>::empty());
    } else {
        let lab = labels[i];
        let rest = name_bytes_from(labels, i + 1);
        assert(enc == seq![lab.len() as u8] + lab + rest);
        assert(1 <= lab.len() <= 63);
        let b = buf[pos];
        assert(buf[pos] == enc[0] && enc[0] == lab.len() as u8);
        assert(b == lab.len());
        assert(forall|k: int| 0 <= k < lab.len() ==> enc[1 + k] == #[trigger] lab[k]);
        assert(buf.subrange(pos + 1, pos + 1 + b) =~= lab);
        let pos2 = pos + 1 + lab.len();
        assert(forall|k: int| 0 <= k < rest.len() ==> enc[1 + lab.len() + k] == #[trigger] rest[k]);
        assert(buf.subrange(pos2, pos2 + rest.len()) =~= rest);
        lemma_name_bytes_parse(buf, pos2, labels, i + 1, hops);
        assert(seq![buf.subrange(pos + 1, pos + 1 + b)] + labels.skip(i + 1) =~= labels.skip(i));
    }
}

/// Round trip for names: parsing an uncompressed encoding of well-formed
/// labels, at any position of any buffer that holds it, yields those
/// labels and ends just past the encoding.
pub proof fn lemma_name_round_trip(buf: Seq<u8>, pos: int, labels: Seq<Seq<u8>>, hops: nat)
    requires
        wf_name(labels),
        0 <= pos,
        pos + name_bytes(labels).len() <= buf.len(),
        buf.subrange(pos, pos + name_bytes(labels).len()) == name_bytes(labels),
    ensures
        parse_name(buf, pos, hops) == Some((labels, pos + name_bytes(labels).len())),
{
    lemma_name_bytes_parse(buf, pos, labels, 0, hops);
    assert(labels.skip(0) =~= labels);
}

/// A compression pointer stands for the name found at its target: the
/// labels read at `pos` are exactly the labels read at the target, and the
/// name occupies the two pointer bytes.
pub proof fn lemma_pointer_parse(buf: Seq<u8>, pos: int, hops: nat)
    requires
        0 <= pos,
        pos + 2 <= buf.len(),
        buf[pos] >= 192,
        hops > 0,
    ensures
        match parse_name(buf, pointer_target(buf, pos), (hops - 1) as nat) {
            Some(r) => parse_name(buf, pos, hops) == Some((r.0, pos + 2)),
            None => parse_name(buf, pos, hops) is None,
        },
{
}

/// Label-pointer compression yields the same logical name as an
/// equivalent uncompressed encoding: if the target of a pointer parses to
/// some labels, and another buffer holds those labels written without
/// compression, both reads give the same name.
pub proof fn lemma_compression_equivalence(
    buf: Seq<u8>,
    pos: int,
    hops: nat,
    plain: Seq<u8>,
    pos2: int,
    hops2: nat,
    labels: Seq<Seq<u8>>,
)
    requires
        0 <= pos,
        pos + 2 <= buf.len(),
        buf[pos] >= 192,
        hops > 0,
        parse_name(buf, pointer_target(buf, pos), (hops - 1) as nat) matches Some(r) && r.0
            == labels,
        wf_name(labels),
        0 <= pos2,
        pos2 + name_bytes(labels).len() <= plain.len(),
        plain.subrange(pos2, pos2 + name_bytes(labels).len()) == name_bytes(labels),
    ensures
        parse_name(buf, pos, hops) matches Some(r) && r.0 == labels,
        parse_name(plain, pos2, hops2) matches Some(r) && r.0 == labels,
{
    lemma_pointer_parse(buf, pos, hops);
    lemma_name_round_trip(plain, pos2, labels, hops2);
}

impl DomainName {
    /// Whether every label is nonempty and short enough for the wire.
    pub fn is_wf(&self) -> (b: bool)
        ensures
            b == wf_name(self@),
    {
        let mut i: usize = 0;
        while i < self.labels.len()
            invariant
                i <= self.labels@.len(),
                forall|j: int| 0 <= j < i ==> 1 <= (#[trigger] self.labels@[j]@).len() <= 63,
            decreases self.labels@.len() - i,
        {
            let l = self.labels[i].len();
            if l < 1 || l > MAX_LABEL_LEN {
                assert(!(1 <= self@[i as int].len() <= 63));
                return false;
            }
            i = i + 1;
        }
        true
    }

    /// Appends the wire bytes of the labels from index `i` on.
    fn append_from(&self, out: &mut Vec<u8>, i: usize)
        requires
            wf_name(self@),
            i <= self.labels@.len(),
        ensures
            final(out)@ == old(out)@ + name_bytes_from(self@, i as int),
        decreases self.labels@.len() - i,
    {
        if i == self.labels.len() {
            out.push(0u8);
            assert(out@ =~= old(out)@ + name_bytes_from(self@, i as int));
        } else {
            let lab = &self.labels[i];
            assert(self@[i as int] == self.labels@[i as int]@);
            assert(1 <= lab@.len() <= 63);
            out.push(lab.len() as u8);
            append_bytes(out, lab);
            self.append_from(out, i + 1);
            assert(out@ =~= old(out)@ + name_bytes_from(self@, i as int));
        }
    }

    /// Appends the uncompressed wire encoding of the whole name.
    pub fn append_to(&self, out: &mut Vec<u8>)
        requires
            wf_name(self@),
        ensures
            final(out)@ == old(out)@ + name_bytes(self@),
    {
        self.append_from(out, 0);
    }
}

/// The labels a dotted text form splits into: a dot separates labels, so
/// consecutive, leading or trailing dots give empty labels, and empty text
/// gives one empty label.  Only a split whose labels are all well formed
/// can be written on the wire.
pub open spec fn split_labels(s: Seq<u8>) -> Seq<Seq<u8>>
    decreases s.len(),
{
    if s.len() == 0 {
        seq![Seq::<u8>::empty()]
    } else if s[0] == 46 {
        seq![Seq::<u8>::empty()] + split_labels(s.skip(1))
    } else {
        seq![seq![s[0]] + split_labels(s.skip(1))[0]] + split_labels(s.skip(1)).skip(1)
    }
}

/// The dotted text form of a label sequence: the labels joined by dots.
pub open spec fn join_labels(ls: Seq<Seq<u8>>) -> Seq<u8>
    decreases ls.len(),
{
    if ls.len() == 0 {
        Seq::empty()
    } else if ls.len() == 1 {
        ls[0]
    } else {
        ls[0] + seq![46u8] + join_labels(ls.skip(1))
    }
}

impl DomainName {
    /// Splits dotted text into a name; the execution of `split_labels`.
    fn split_from(s: &Vec<u8>, from: usize) -> (r: DomainName)
        requires
            from <= s@.len(),
        ensures
            r@ == split_labels(s@.skip(from as int)),
            r.labels@.len() >= 1,
        decreases s@.len() - from,
    {
        if from == s.len() {
            let mut labels: Vec<Vec<u8>> = Vec::new();
            labels.push(Vec::new());
            let r = DomainName { labels };
            assert(s@.skip(from as int) =~= Seq::<u8>::empty());
            assert(r@ =~= seq![Seq::<u8>::empty()]);
            r
        } else {
            let b = s[from];
            let mut rest = Self::split_from(s, from + 1);
            let ghost tail = rest@;
            assert(s@.skip(from as int)[0] == b);
            assert(s@.skip(from as int).skip(1) =~= s@.skip(from as int + 1));
            if b == 46 {
                rest.labels.insert(0, Vec::new());
                assert(rest@ =~= seq![Seq::<u8>::empty()] + tail);
                rest
            } else {
                let mut head = rest.labels.remove(0);
                let ghost tail1 = labels_view(rest.labels@);
                assert(tail1 =~= tail.skip(1));
                assert(head@ == tail[0]);
                head.insert(0, b);
                assert(head@ =~= seq![b] + tail[0]);
                let ghost h1 = head@;
                rest.labels.insert(0, head);
                assert(rest@ =~= seq![h1] + tail1);
                assert(seq![h1] + tail1 =~= seq![seq![b] + tail[0]] + tail.skip(1));
                rest
            }
        }
    }

    /// The name whose labels are the dot-separated parts of `text`.
    pub fn from_text(text: &Vec<u8>) -> (r: DomainName)
        ensures
            r@ == split_labels(text@),
    {
        let r = Self::split_from(text, 0);
        assert(text@.skip(0) =~= text@);
        r
    }

    /// The dotted text form of the labels from index `i` on.
    fn dotted_from(&self, i: usize) -> (r: Vec<u8>)
        requires
            i <= self.labels@.len(),
        ensures
            r@ == join_labels(self@.skip(i as int)),
        decreases self.labels@.len() - i,
    {
        if i == self.labels.len() {
            let r: Vec<u8> = Vec::new();
            assert(self@.skip(i as int) =~= Seq::<Seq<u8>>::empty());
            r
        } else {
            let lab = &self.labels[i];
            let mut r = take_range(lab, 0, lab.len());
            assert(self@.skip(i as int)[0] == self@[i as int]);
            if i + 1 < self.labels.len() {
                r.push(46u8);
                let rest = self.dotted_from(i + 1);
                append_bytes(&mut r, &rest);
                assert(self@.skip(i as int).skip(1) =~= self@.skip(i as int + 1));
                assert(r@ =~= join_labels(self@.skip(i as int)));
            } else {
                assert(self@.skip(i as int).len() == 1);
                assert(r@ =~= join_labels(self@.skip(i as int)));
            }
            r
        }
    }

    /// The dotted text form of the whole name.
    pub fn dotted(&self) -> (r: Vec<u8>)
        ensures
            r@ == join_labels(self@),
    {
        let r = self.dotted_from(0);
        assert(self@.skip(0) =~= self@);
        r
    }
}

/// Reads a name from `buf` at `pos`, following at most `hops` compression
/// pointers; the execution of `parse_name`.
pub fn parse_name_at(buf: &Vec<u8>, pos: usize, hops: u8) -> (r: Option<(DomainName, usize)>)
    ensures
        match (r, parse_name(buf@, pos as int, hops as nat)) {
            (Some(p), Some(s)) => p.0@ == s.0 && p.1 == s.1,
            (None, None) => true,
            _ => false,
        },
    decreases hops, buf@.len() - pos,
{
    if pos >= buf.len() {
        return None;
    }
    let b = buf[pos];
    if b == 0 {
        let dn = DomainName { labels: Vec::new() };
        assert(dn@ =~= Seq::<Seq<u8>>::empty());
        Some((dn, pos + 1))
    } else if b < 64 {
        let bl = b as usize;
        if bl <= buf.len() - pos - 1 {
            let label = take_range(buf, pos + 1, pos + 1 + bl);
            match parse_name_at(buf, pos + 1 + bl, hops) {
                Some(p) => {
                    let mut dn = p.0;
                    let ghost tail = dn@;
                    dn.labels.insert(0, label);
                    assert(dn@ =~= seq![label@] + tail);
                    Some((dn, p.1))
                }
                None => None,
            }
        } else {
            None
        }
    } else if b >= 192 {
        if pos + 1 < buf.len() && hops > 0 {
            let target = ((b - 192) as usize) * 256 + (buf[pos + 1] as usize);
            assert(target == pointer_target(buf@, pos as int));
            match parse_name_at(buf, target, hops - 1) {
                Some(p) => Some((p.0, pos + 2)),
                None => None,
            }
        } else {
            None
        }
    } else {
        None
    }
}

} // verus!
