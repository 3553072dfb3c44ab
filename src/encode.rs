//! Writing a DNS message to wire bytes, with name compression: a name, or
//! the dotted tail of a name, that was already written in this message is
//! replaced by a pointer to where it was written.
use vstd::prelude::*;
use crate::decode::{header_of, u16_at};
use crate::protocol::{
    Header, Message, MessageModel, Question, QuestionModel, RecordModel, ResourceRecord,
    questions_model, records_model,
};

verus! {

/// Offsets from here on cannot be reached by a 14-bit pointer.
pub const POINTER_LIMIT: usize = 0x4000;

/// The longest label that a length byte can announce.
pub const MAX_LABEL_LEN: usize = 63;

/// Why a message could not be written.
#[derive(Clone, Copy, Debug, PartialEq, Eq, Structural)]
pub enum EncodeError {
    /// A name holds an empty label (two dots in a row, or a leading dot).
    EmptyLabel,
    /// A name holds a label longer than 63 bytes.
    LabelTooLong,
}

/// The names written so far, each with the offset where it starts.
pub type Tally = Seq<(Seq<u8>, u16)>;

/// The offset of the latest entry for `name`, if there is one.
pub open spec fn tally_lookup(t: Tally, name: Seq<u8>) -> Option<u16>
    decreases t.len(),
{
    if t.len() == 0 {
        None
    } else if t.last().0 == name {
        Some(t.last().1)
    } else {
        tally_lookup(t.drop_last(), name)
    }
}

/// The index of the first dot in `name` at or after `i`, or the length.
pub open spec fn dot_from(name: Seq<u8>, i: int) -> int
    decreases name.len() - i,
{
    if i >= name.len() {
        name.len() as int
    } else if i >= 0 && name[i] == 0x2Eu8 {
        i
    } else {
        dot_from(name, i + 1)
    }
}

pub open spec fn be16(v: u16) -> Seq<u8> {
    seq![(v / 256) as u8, (v % 256) as u8]
}

pub open spec fn be32(v: u32) -> Seq<u8> {
    seq![(v / 16777216) as u8, ((v / 65536) % 256) as u8, ((v / 256) % 256) as u8, (v % 256) as u8]
}

/// The bytes of a pointer to `offset`.
pub open spec fn pointer_wire(offset: u16) -> Seq<u8> {
    seq![((0xC0 + offset / 256) % 256) as u8, (offset % 256) as u8]
}

/// The wire bytes of the dotted name `name` written at offset `pos`, with
/// the tally before and after.
pub open spec fn name_wire(t: Tally, pos: int, name: Seq<u8>) -> Result<(Seq<u8>, Tally), EncodeError>
    decreases name.len(),
{
    if name.len() == 0 {
        Ok((seq![0u8], t))
    } else {
        match tally_lookup(t, name) {
            Some(offset) => Ok((pointer_wire(offset), t)),
            None => {
                let t2 = if pos < POINTER_LIMIT {
                    t.push((name, pos as u16))
                } else {
                    t
                };
                let i = dot_from(name, 0);
                let label = name.subrange(0, i);
                if i == 0 {
                    Err(EncodeError::EmptyLabel)
                } else if i > MAX_LABEL_LEN {
                    Err(EncodeError::LabelTooLong)
                } else if 0 < i < name.len() {
                    match name_wire(t2, pos + 1 + i, name.subrange(i + 1, name.len() as int)) {
                        Err(e) => Err(e),
                        Ok((rest, t3)) => Ok((seq![i as u8] + label + rest, t3)),
                    }
                } else {
                    Ok((seq![i as u8] + label + seq![0u8], t2))
                }
            },
        }
    }
}

/// The bytes of a header.
pub open spec fn header_wire(h: Header) -> Seq<u8> {
    be16(h.id) + seq![h.flags.left, h.flags.right] + be16(h.qdcount) + be16(h.ancount) + be16(
        h.nscount,
    ) + be16(h.arcount)
}

/// The bytes of a question written at `pos`.
pub open spec fn question_wire(t: Tally, pos: int, q: QuestionModel) -> Result<
    (Seq<u8>, Tally),
    EncodeError,
> {
    match name_wire(t, pos, vstd::utf8::encode_utf8(q.name)) {
        Err(e) => Err(e),
        Ok((n, t2)) => Ok((n + be16(q.qtype) + be16(q.qclass), t2)),
    }
}

/// The bytes of a resource record written at `pos`.
pub open spec fn record_wire(t: Tally, pos: int, r: RecordModel) -> Result<
    (Seq<u8>, Tally),
    EncodeError,
> {
    match name_wire(t, pos, vstd::utf8::encode_utf8(r.name)) {
        Err(e) => Err(e),
        Ok((n, t2)) => Ok(
            (n + be16(r.rtype) + be16(r.rclass) + be32(r.ttl) + be16(r.rdlength) + r.rdata, t2),
        ),
    }
}

/// The bytes of the questions `qs` written one after another from `pos`.
pub open spec fn questions_wire(t: Tally, pos: int, qs: Seq<QuestionModel>) -> Result<
    (Seq<u8>, Tally),
    EncodeError,
>
    decreases qs.len(),
{
    if qs.len() == 0 {
        Ok((seq![], t))
    } else {
        match question_wire(t, pos, qs[0]) {
            Err(e) => Err(e),
            Ok((b, t2)) => match questions_wire(t2, pos + b.len(), qs.drop_first()) {
                Err(e) => Err(e),
                Ok((rest, t3)) => Ok((b + rest, t3)),
            },
        }
    }
}

/// The bytes of the records `rs` written one after another from `pos`.
pub open spec fn records_wire(t: Tally, pos: int, rs: Seq<RecordModel>) -> Result<
    (Seq<u8>, Tally),
    EncodeError,
>
    decreases rs.len(),
{
    if rs.len() == 0 {
        Ok((seq![], t))
    } else {
        match record_wire(t, pos, rs[0]) {
            Err(e) => Err(e),
            Ok((b, t2)) => match records_wire(t2, pos + b.len(), rs.drop_first()) {
                Err(e) => Err(e),
                Ok((rest, t3)) => Ok((b + rest, t3)),
            },
        }
    }
}

/// Appends the result of writing a section to the bytes before it.
pub open spec fn then_wire(
    before: Result<(Seq<u8>, Tally), EncodeError>,
    section: spec_fn(Tally, int) -> Result<(Seq<u8>, Tally), EncodeError>,
) -> Result<(Seq<u8>, Tally), EncodeError> {
    match before {
        Err(e) => Err(e),
        Ok((b, t)) => match section(t, b.len() as int) {
            Err(e) => Err(e),
            Ok((s, t2)) => Ok((b + s, t2)),
        },
    }
}

/// The wire bytes of a message: the header as it stands, then each section
/// in order.
pub open spec fn message_wire(m: MessageModel) -> Result<Seq<u8>, EncodeError> {
    let h = Ok::<(Seq<u8>, Tally), EncodeError>((header_wire(m.header), seq![]));
    let q = then_wire(h, |t: Tally, p: int| questions_wire(t, p, m.questions));
    let an = then_wire(q, |t: Tally, p: int| records_wire(t, p, m.answers));
    let ns = then_wire(an, |t: Tally, p: int| records_wire(t, p, m.authorities));
    let ar = then_wire(ns, |t: Tally, p: int| records_wire(t, p, m.additionals));
    match ar {
        Err(e) => Err(e),
        Ok((b, _)) => Ok(b),
    }
}


proof fn lemma_be16_reads_back(v: u16, b: Seq<u8>, at: int)
    requires
        0 <= at,
        at + 2 <= b.len(),
        b[at] == be16(v)[0],
        b[at + 1] == be16(v)[1],
    ensures
        u16_at(b, at) == v,
{
}

/// The header part of the round trip: the twelve bytes written for a
/// header read back as that header, whatever bytes follow them.
pub proof fn lemma_header_roundtrip(h: Header, rest: Seq<u8>)
    ensures
        header_of(header_wire(h) + rest) == h,
{
    let b = header_wire(h) + rest;
    assert(b.len() >= 12);
    lemma_be16_reads_back(h.id, b, 0);
    lemma_be16_reads_back(h.qdcount, b, 4);
    lemma_be16_reads_back(h.ancount, b, 6);
    lemma_be16_reads_back(h.nscount, b, 8);
    lemma_be16_reads_back(h.arcount, b, 10);
}

/// Writes names and bytes into a buffer, remembering where each name was
/// written so that a later copy can become a pointer. Offsets count from the
/// start of the buffer.
pub struct MessageWriter {
    pub underlying: Vec<u8>,
    label_tally: Vec<(Vec<u8>, u16)>,
}

/// `w1` is `w0` after a step whose result the spec gives as `s`.
pub open spec fn advanced(
    w0: MessageWriter,
    w1: MessageWriter,
    r: Result<(), EncodeError>,
    s: Result<(Seq<u8>, Tally), EncodeError>,
) -> bool {
    match s {
        Ok((b, t)) => r is Ok && w1.written() == w0.written() + b && w1.tally() == t,
        Err(e) => r == Err::<(), EncodeError>(e),
    }
}

impl MessageWriter {
    /// The bytes in the buffer.
    pub closed spec fn written(&self) -> Seq<u8> {
        self.underlying@
    }

    /// The names written so far, with their offsets.
    pub closed spec fn tally(&self) -> Tally {
        self.label_tally@.map_values(|e: (Vec<u8>, u16)| (e.0@, e.1))
    }

    /// A writer that appends to `underlying` and has written no name yet.
    pub fn new(underlying: Vec<u8>) -> (r: MessageWriter)
        ensures
            r.written() == underlying@,
            r.tally() == Seq::<(Seq<u8>, u16)>::empty(),
    {
        let r = MessageWriter { underlying, label_tally: Vec::new() };
        assert(r.tally() =~= Seq::<(Seq<u8>, u16)>::empty());
        r
    }

    /// Appends bytes as they are.
    pub fn write_all(&mut self, buf: &[u8])
        ensures
            final(self).written() == old(self).written() + buf@,
            final(self).tally() == old(self).tally(),
    {
        let mut i: usize = 0;
        while i < buf.len()
            invariant
                i <= buf@.len(),
                self.underlying@ == old(self).underlying@ + buf@.subrange(0, i as int),
                self.tally() == old(self).tally(),
            decreases buf@.len() - i,
        {
            self.underlying.push(buf[i]);
            assert(buf@.subrange(0, i + 1) =~= buf@.subrange(0, i as int).push(buf@[i as int]));
            i = i + 1;
        }
        assert(buf@.subrange(0, buf@.len() as int) =~= buf@);
    }

    /// The offset recorded for `name[start..]`, the latest if several.
    fn lookup(&self, name: &[u8], start: usize) -> (r: Option<u16>)
        requires
            start <= name@.len(),
        ensures
            r == tally_lookup(self.tally(), name@.subrange(start as int, name@.len() as int)),
    {
        let ghost sub = name@.subrange(start as int, name@.len() as int);
        let mut k: usize = self.label_tally.len();
        assert(self.tally().subrange(0, k as int) =~= self.tally());
        while k > 0
            invariant
                start <= name@.len(),
                sub == name@.subrange(start as int, name@.len() as int),
                self.tally().len() == self.label_tally@.len(),
                k <= self.label_tally@.len(),
                tally_lookup(self.tally(), sub) == tally_lookup(self.tally().subrange(0, k as int), sub),
            decreases k,
        {
            let ghost pre = self.tally().subrange(0, k as int);
            assert(pre.drop_last() =~= self.tally().subrange(0, k - 1));
            let entry = &self.label_tally[k - 1];
            assert(pre.last() == (entry.0@, entry.1));
            if bytes_eq_tail(&entry.0, name, start) {
                return Some(entry.1);
            }
            k = k - 1;
        }
        None
    }

    /// Writes `name[start..]` as a dotted name, compressing it against the
    /// names written before.
    fn write_name_from(&mut self, name: &[u8], start: usize) -> (r: Result<(), EncodeError>)
        requires
            start <= name@.len(),
        ensures
            advanced(
                *old(self),
                *final(self),
                r,
                name_wire(
                    old(self).tally(),
                    old(self).written().len() as int,
                    name@.subrange(start as int, name@.len() as int),
                ),
            ),
        decreases name@.len() - start,
    {
        let ghost sub = name@.subrange(start as int, name@.len() as int);
        if start == name.len() {
            assert(sub.len() == 0);
            let zero = [0u8];
            assert(zero@ =~= seq![0u8]);
            self.write_all(&zero);
            return Ok(());
        }
        match self.lookup(name, start) {
            Some(offset) => {
                let hi: u8 = ((0xC0u16 + offset / 256) % 256) as u8;
                let lo: u8 = (offset % 256) as u8;
                let ptr = [hi, lo];
                assert(ptr@ =~= pointer_wire(offset));
                self.write_all(&ptr);
                Ok(())
            },
            None => {
                let pos = self.underlying.len();
                if pos < POINTER_LIMIT {
                    let mut copy: Vec<u8> = Vec::new();
                    copy_tail(&mut copy, name, start);
                    let ghost t0 = self.tally();
                    self.label_tally.push((copy, pos as u16));
                    assert(self.tally() =~= t0.push((sub, pos as u16)));
                }
                let end = dot_index(name, start);
                let len = end - start;
                if len == 0 {
                    return Err(EncodeError::EmptyLabel);
                }
                if len > MAX_LABEL_LEN {
                    return Err(EncodeError::LabelTooLong);
                }
                let ghost before = self.underlying@;
                let head = [len as u8];
                assert(head@ =~= seq![len as u8]);
                self.write_all(&head);
                let label = &name[start..end];
                assert(label@ =~= name@.subrange(start as int, end as int));
                self.write_all(label);
                assert(sub.subrange(0, len as int) =~= name@.subrange(start as int, end as int));
                assert(self.underlying@ =~= before + seq![len as u8] + sub.subrange(0, len as int));
                if end < name.len() {
                    let ghost mid = self.underlying@;
                    assert(sub.subrange(len + 1, sub.len() as int) =~= name@.subrange(
                        end + 1,
                        name@.len() as int,
                    ));
                    let ghost tmid = self.tally();
                    let r = self.write_name_from(name, end + 1);
                    proof {
                        match name_wire(
                            tmid,
                            mid.len() as int,
                            name@.subrange(end + 1, name@.len() as int),
                        ) {
                            Ok((rb, _)) => {
                                assert(self.underlying@ =~= before + (seq![len as u8] + sub.subrange(
                                    0,
                                    len as int,
                                ) + rb));
                            },
                            Err(_) => {},
                        }
                    }
                    assert(mid.len() == before.len() + 1 + len);
                    r
                } else {
                    let zero = [0u8];
                    assert(zero@ =~= seq![0u8]);
                    self.write_all(&zero);
                    assert(self.underlying@ =~= before + (seq![len as u8] + sub.subrange(
                        0,
                        len as int,
                    ) + seq![0u8]));
                    Ok(())
                }
            },
        }
    }

    /// Writes a dotted name, compressing it against the names written
    /// before.
    pub fn write_name(&mut self, name: &str) -> (r: Result<(), EncodeError>)
        ensures
            advanced(
                *old(self),
                *final(self),
                r,
                name_wire(
                    old(self).tally(),
                    old(self).written().len() as int,
                    vstd::utf8::encode_utf8(name@),
                ),
            ),
    {
        let bytes = name.as_bytes();
        assert(bytes@.subrange(0, bytes@.len() as int) =~= bytes@);
        self.write_name_from(bytes, 0)
    }
}

/// Whether `a` holds exactly the bytes `b[start..]`.
fn bytes_eq_tail(a: &Vec<u8>, b: &[u8], start: usize) -> (r: bool)
    requires
        start <= b@.len(),
    ensures
        r == (a@ == b@.subrange(start as int, b@.len() as int)),
{
    if a.len() != b.len() - start {
        return false;
    }
    let n = b.len();
    let mut i: usize = 0;
    while i < a.len()
        invariant
            n == b@.len(),
            start <= b@.len(),
            a@.len() == b@.len() - start,
            i <= a@.len(),
            forall|j: int| 0 <= j < i ==> a@[j] == b@[start + j],
        decreases a@.len() - i,
    {
        assert(start + i < b@.len());
        if a[i] != b[start + i] {
            return false;
        }
        i = i + 1;
    }
    assert(a@ =~= b@.subrange(start as int, b@.len() as int));
    true
}

/// Appends `name[start..]` to `out`.
fn copy_tail(out: &mut Vec<u8>, name: &[u8], start: usize)
    requires
        old(out)@.len() == 0,
        start <= name@.len(),
    ensures
        final(out)@ == name@.subrange(start as int, name@.len() as int),
{
    let mut i: usize = start;
    while i < name.len()
        invariant
            start <= i <= name@.len(),
            out@ == name@.subrange(start as int, i as int),
        decreases name@.len() - i,
    {
        out.push(name[i]);
        assert(name@.subrange(start as int, i + 1) =~= name@.subrange(start as int, i as int).push(
            name@[i as int],
        ));
        i = i + 1;
    }
}

/// The index of the first dot in `name` at or after `start`, or the length.
fn dot_index(name: &[u8], start: usize) -> (r: usize)
    requires
        start < name@.len(),
    ensures
        start <= r <= name@.len(),
        r - start == dot_from(name@.subrange(start as int, name@.len() as int), 0),
{
    let ghost sub = name@.subrange(start as int, name@.len() as int);
    let mut i: usize = start;
    while i < name.len()
        invariant
            start <= i <= name@.len(),
            sub == name@.subrange(start as int, name@.len() as int),
            dot_from(sub, 0) == dot_from(sub, i - start),
        decreases name@.len() - i,
    {
        assert(sub[i - start] == name@[i as int]);
        if name[i] == 0x2Eu8 {
            return i;
        }
        i = i + 1;
    }
    i
}


fn write_u16(w: &mut MessageWriter, v: u16)
    ensures
        final(w).written() == old(w).written() + be16(v),
        final(w).tally() == old(w).tally(),
{
    let b = [(v / 256) as u8, (v % 256) as u8];
    assert(b@ =~= be16(v));
    w.write_all(&b);
}

fn write_u32(w: &mut MessageWriter, v: u32)
    ensures
        final(w).written() == old(w).written() + be32(v),
        final(w).tally() == old(w).tally(),
{
    let b = [(v / 16777216) as u8, ((v / 65536) % 256) as u8, ((v / 256) % 256) as u8, (v % 256) as u8];
    assert(b@ =~= be32(v));
    w.write_all(&b);
}

impl Header {
    /// Writes the twelve header bytes as they stand.
    pub fn write(&self, w: &mut MessageWriter)
        ensures
            final(w).written() == old(w).written() + header_wire(*self),
            final(w).tally() == old(w).tally(),
    {
        write_u16(w, self.id);
        let f = [self.flags.left, self.flags.right];
        assert(f@ =~= seq![self.flags.left, self.flags.right]);
        w.write_all(&f);
        write_u16(w, self.qdcount);
        write_u16(w, self.ancount);
        write_u16(w, self.nscount);
        write_u16(w, self.arcount);
        assert(w.written() =~= old(w).written() + header_wire(*self));
    }
}

impl Question {
    /// Writes the question, compressing its name.
    pub fn write(&self, w: &mut MessageWriter) -> (r: Result<(), EncodeError>)
        ensures
            advanced(
                *old(w),
                *final(w),
                r,
                question_wire(old(w).tally(), old(w).written().len() as int, self@),
            ),
    {
        let ghost w0 = w.written();
        let ghost t0 = w.tally();
        w.write_name(self.qname.as_str())?;
        let ghost w1 = w.written();
        proof {
            match name_wire(t0, w0.len() as int, vstd::utf8::encode_utf8(self.qname@)) {
                Ok((n, _)) => {
                    assert(w1.subrange(w0.len() as int, w1.len() as int) =~= n);
                },
                Err(_) => {},
            }
        }
        write_u16(w, self.qtype);
        write_u16(w, self.qclass);
        assert(w.written() =~= w0 + (w1.subrange(w0.len() as int, w1.len() as int) + be16(self.qtype)
            + be16(self.qclass)));
        Ok(())
    }
}

impl ResourceRecord {
    /// Writes the record, compressing its name. The length field and the
    /// data are written as they stand.
    pub fn write(&self, w: &mut MessageWriter) -> (r: Result<(), EncodeError>)
        ensures
            advanced(
                *old(w),
                *final(w),
                r,
                record_wire(old(w).tally(), old(w).written().len() as int, self@),
            ),
    {
        let ghost w0 = w.written();
        let ghost t0 = w.tally();
        w.write_name(self.name.as_str())?;
        let ghost w1 = w.written();
        proof {
            match name_wire(t0, w0.len() as int, vstd::utf8::encode_utf8(self.name@)) {
                Ok((n, _)) => {
                    assert(w1.subrange(w0.len() as int, w1.len() as int) =~= n);
                },
                Err(_) => {},
            }
        }
        write_u16(w, self.rtype);
        write_u16(w, self.rclass);
        write_u32(w, self.ttl);
        write_u16(w, self.rdlength);
        w.write_all(self.rdata.as_slice());
        assert(w.written() =~= w0 + (w1.subrange(w0.len() as int, w1.len() as int) + be16(self.rtype)
            + be16(self.rclass) + be32(self.ttl) + be16(self.rdlength) + self.rdata@));
        Ok(())
    }
}

/// Writes the questions one after another.
fn write_questions(w: &mut MessageWriter, qs: &Vec<Question>) -> (r: Result<(), EncodeError>)
    ensures
        advanced(
            *old(w),
            *final(w),
            r,
            questions_wire(old(w).tally(), old(w).written().len() as int, questions_model(qs@)),
        ),
{
    let ghost all = questions_model(qs@);
    let ghost base = w.written();
    let mut i: usize = 0;
    assert(all.subrange(0, all.len() as int) =~= all);
    while i < qs.len()
        invariant
            i <= qs@.len(),
            all == questions_model(qs@),
            base == old(w).written(),
            w.written().len() >= base.len(),
            w.written() == base + w.written().subrange(base.len() as int, w.written().len() as int),
            questions_wire(old(w).tally(), base.len() as int, all) == match questions_wire(
                w.tally(),
                w.written().len() as int,
                all.subrange(i as int, all.len() as int),
            ) {
                Ok((rest, t)) => Ok(
                    (w.written().subrange(base.len() as int, w.written().len() as int) + rest, t),
                ),
                Err(e) => Err::<(Seq<u8>, Tally), EncodeError>(e),
            },
        decreases qs@.len() - i,
    {
        let ghost acc = w.written().subrange(base.len() as int, w.written().len() as int);
        let ghost tail = all.subrange(i as int, all.len() as int);
        assert(tail[0] == qs@[i as int]@);
        assert(tail.drop_first() =~= all.subrange(i + 1, all.len() as int));
        let ghost tb = w.tally();
        let ghost pb = w.written();
        qs[i].write(w)?;
        proof {
            let acc2 = w.written().subrange(base.len() as int, w.written().len() as int);
            match question_wire(tb, pb.len() as int, tail[0]) {
                Ok((b, _)) => {
                    assert(acc2 =~= acc + b);
                    assert(acc2.subrange(acc.len() as int, acc2.len() as int) =~= b);
                },
                Err(_) => {},
            }
            assert(w.written() =~= base + acc2);
            match questions_wire(
                w.tally(),
                w.written().len() as int,
                all.subrange(i + 1, all.len() as int),
            ) {
                Ok((rest, _)) => {
                    assert(acc2 + rest =~= acc + (acc2.subrange(acc.len() as int, acc2.len() as int)
                        + rest));
                },
                Err(_) => {},
            }
        }
        i = i + 1;
    }
    proof {
        let acc = w.written().subrange(base.len() as int, w.written().len() as int);
        assert(acc + seq![] =~= acc);
    }
    Ok(())
}

/// Writes the records one after another.
fn write_records(w: &mut MessageWriter, rs: &Vec<ResourceRecord>) -> (r: Result<(), EncodeError>)
    ensures
        advanced(
            *old(w),
            *final(w),
            r,
            records_wire(old(w).tally(), old(w).written().len() as int, records_model(rs@)),
        ),
{
    let ghost all = records_model(rs@);
    let ghost base = w.written();
    let mut i: usize = 0;
    assert(all.subrange(0, all.len() as int) =~= all);
    while i < rs.len()
        invariant
            i <= rs@.len(),
            all == records_model(rs@),
            base == old(w).written(),
            w.written().len() >= base.len(),
            w.written() == base + w.written().subrange(base.len() as int, w.written().len() as int),
            records_wire(old(w).tally(), base.len() as int, all) == match records_wire(
                w.tally(),
                w.written().len() as int,
                all.subrange(i as int, all.len() as int),
            ) {
                Ok((rest, t)) => Ok(
                    (w.written().subrange(base.len() as int, w.written().len() as int) + rest, t),
                ),
                Err(e) => Err::<(Seq<u8>, Tally), EncodeError>(e),
            },
        decreases rs@.len() - i,
    {
        let ghost acc = w.written().subrange(base.len() as int, w.written().len() as int);
        let ghost tail = all.subrange(i as int, all.len() as int);
        assert(tail[0] == rs@[i as int]@);
        assert(tail.drop_first() =~= all.subrange(i + 1, all.len() as int));
        let ghost tb = w.tally();
        let ghost pb = w.written();
        rs[i].write(w)?;
        proof {
            let acc2 = w.written().subrange(base.len() as int, w.written().len() as int);
            match record_wire(tb, pb.len() as int, tail[0]) {
                Ok((b, _)) => {
                    assert(acc2 =~= acc + b);
                    assert(acc2.subrange(acc.len() as int, acc2.len() as int) =~= b);
                },
                Err(_) => {},
            }
            assert(w.written() =~= base + acc2);
            match records_wire(
                w.tally(),
                w.written().len() as int,
                all.subrange(i + 1, all.len() as int),
            ) {
                Ok((rest, _)) => {
                    assert(acc2 + rest =~= acc + (acc2.subrange(acc.len() as int, acc2.len() as int)
                        + rest));
                },
                Err(_) => {},
            }
        }
        i = i + 1;
    }
    proof {
        let acc = w.written().subrange(base.len() as int, w.written().len() as int);
        assert(acc + seq![] =~= acc);
    }
    Ok(())
}

impl Message {
    /// Writes the whole message: the header as it stands, then each section
    /// in order, with names compressed against those written before.
    pub fn write(&self, w: &mut MessageWriter) -> (r: Result<(), EncodeError>)
        requires
            old(w).written().len() == 0,
            old(w).tally().len() == 0,
        ensures
            match message_wire(self@) {
                Ok(b) => r is Ok && final(w).written() == b,
                Err(e) => r == Err::<(), EncodeError>(e),
            },
    {
        let ghost m = self@;
        let ghost h = Ok::<(Seq<u8>, Tally), EncodeError>((header_wire(m.header), seq![]));
        let ghost q = then_wire(h, |t: Tally, p: int| questions_wire(t, p, m.questions));
        let ghost an = then_wire(q, |t: Tally, p: int| records_wire(t, p, m.answers));
        let ghost ns = then_wire(an, |t: Tally, p: int| records_wire(t, p, m.authorities));
        let ghost ar = then_wire(ns, |t: Tally, p: int| records_wire(t, p, m.additionals));
        self.header.write(w);
        assert(w.written() =~= header_wire(m.header));
        assert(w.tally() =~= Seq::<(Seq<u8>, u16)>::empty());
        assert(h == Ok::<(Seq<u8>, Tally), EncodeError>((w.written(), w.tally())));
        let r1 = write_questions(w, &self.questions);
        if let Err(e) = r1 {
            return Err(e);
        }
        assert(q == Ok::<(Seq<u8>, Tally), EncodeError>((w.written(), w.tally())));
        let r2 = write_records(w, &self.answers);
        if let Err(e) = r2 {
            return Err(e);
        }
        assert(an == Ok::<(Seq<u8>, Tally), EncodeError>((w.written(), w.tally())));
        let r3 = write_records(w, &self.authorities);
        if let Err(e) = r3 {
            return Err(e);
        }
        assert(ns == Ok::<(Seq<u8>, Tally), EncodeError>((w.written(), w.tally())));
        let r4 = write_records(w, &self.additionals);
        if let Err(e) = r4 {
            return Err(e);
        }
        assert(ar == Ok::<(Seq<u8>, Tally), EncodeError>((w.written(), w.tally())));
        Ok(())
    }

    /// The message as one UDP datagram.
    pub fn to_udp_packet(&self) -> (r: Result<Vec<u8>, EncodeError>)
        ensures
            match message_wire(self@) {
                Ok(b) => r matches Ok(v) && v@ == b,
                Err(e) => r == Err::<Vec<u8>, EncodeError>(e),
            },
    {
        let mut writer = MessageWriter::new(Vec::new());
        self.write(&mut writer)?;
        Ok(writer.underlying)
    }
}

} // verus!
