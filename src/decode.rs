//! Reading a DNS message from its wire bytes. Each reader has a spec
//! function that says what the bytes at a position mean; the executable
//! reader is proved to return exactly that.
use vstd::prelude::*;
use vstd::utf8::{valid_utf8, decode_utf8};
use crate::protocol::{
    Flags, Header, Message, MessageModel, Question, QuestionModel, RecordModel, ResourceRecord,
    questions_model, records_model,
};

verus! {

/// How many compression pointers one name may follow. Bounds the work on a
/// message whose pointers form a cycle.
pub const MAX_POINTER_HOPS: u32 = 128;

/// Why a datagram could not be read as a message.
#[derive(Clone, Copy, Debug, PartialEq, Eq, Structural)]
pub enum DecodeError {
    /// The bytes end before the item being read.
    Truncated,
    /// The header announces two or more questions.
    UnsupportedQuestionCount,
    /// A name's bytes are not UTF-8.
    InvalidLabel,
    /// A name follows more compression pointers than allowed.
    PointerLoop,
}

/// The kind of item that starts with a given length byte.
#[derive(Clone, Copy, Debug, PartialEq, Eq, Structural)]
pub enum LabelKind {
    /// The zero byte that ends a name.
    Absent,
    /// A label of this many bytes follows.
    Data(usize),
    /// The rest of the name is at this offset of the message.
    Pointer(u16),
}

pub open spec fn u16_at(buf: Seq<u8>, pos: int) -> u16 {
    (buf[pos] as int * 256 + buf[pos + 1] as int) as u16
}

pub open spec fn u32_at(buf: Seq<u8>, pos: int) -> u32 {
    (buf[pos] as int * 16777216 + buf[pos + 1] as int * 65536 + buf[pos + 2] as int * 256
        + buf[pos + 3] as int) as u32
}

/// The label item at `pos`, and the position after it.
pub open spec fn label_at(buf: Seq<u8>, pos: int) -> Result<(LabelKind, int), DecodeError> {
    if pos < 0 || pos >= buf.len() {
        Err(DecodeError::Truncated)
    } else if buf[pos] == 0 {
        Ok((LabelKind::Absent, pos + 1))
    } else if buf[pos] >= 0xC0 {
        if pos + 1 >= buf.len() {
            Err(DecodeError::Truncated)
        } else {
            Ok((LabelKind::Pointer(((buf[pos] - 0xC0) * 256 + buf[pos + 1]) as u16), pos + 2))
        }
    } else {
        Ok((LabelKind::Data(buf[pos] as usize), pos + 1))
    }
}

/// A label joined in front of the rest of a name, with a dot between.
pub open spec fn join_label(label: Seq<u8>, rest: Seq<u8>) -> Seq<u8> {
    if rest.len() == 0 {
        label
    } else {
        label + seq![0x2Eu8] + rest
    }
}

/// The bytes of the dotted name at `pos`, following at most `hops` pointers,
/// and the position after the name where it stands (not where a pointer led).
pub open spec fn name_at(buf: Seq<u8>, pos: int, hops: nat) -> Result<(Seq<u8>, int), DecodeError>
    decreases hops, buf.len() - pos,
{
    match label_at(buf, pos) {
        Err(e) => Err(e),
        Ok((LabelKind::Absent, next)) => Ok((seq![], next)),
        Ok((LabelKind::Pointer(target), next)) => {
            if hops == 0 {
                Err(DecodeError::PointerLoop)
            } else {
                match name_at(buf, target as int, (hops - 1) as nat) {
                    Err(e) => Err(e),
                    Ok((n, _)) => Ok((n, next)),
                }
            }
        },
        Ok((LabelKind::Data(len), next)) => {
            if next + len > buf.len() {
                Err(DecodeError::Truncated)
            } else {
                match name_at(buf, next + len, hops) {
                    Err(e) => Err(e),
                    Ok((rest, after)) => Ok(
                        (join_label(buf.subrange(next, next + len as int), rest), after),
                    ),
                }
            }
        },
    }
}

/// The name at `pos` as text.
pub open spec fn name_text_at(buf: Seq<u8>, pos: int) -> Result<(Seq<char>, int), DecodeError> {
    match name_at(buf, pos, MAX_POINTER_HOPS as nat) {
        Err(e) => Err(e),
        Ok((bytes, next)) => if valid_utf8(bytes) {
            Ok((decode_utf8(bytes), next))
        } else {
            Err(DecodeError::InvalidLabel)
        },
    }
}

/// The question at `pos`.
pub open spec fn question_at(buf: Seq<u8>, pos: int) -> Result<(QuestionModel, int), DecodeError> {
    match name_text_at(buf, pos) {
        Err(e) => Err(e),
        Ok((name, p)) => if p + 4 > buf.len() {
            Err(DecodeError::Truncated)
        } else {
            Ok((QuestionModel { name, qtype: u16_at(buf, p), qclass: u16_at(buf, p + 2) }, p + 4))
        },
    }
}

/// The resource record at `pos`.
pub open spec fn record_at(buf: Seq<u8>, pos: int) -> Result<(RecordModel, int), DecodeError> {
    match name_text_at(buf, pos) {
        Err(e) => Err(e),
        Ok((name, p)) => if p + 10 > buf.len() {
            Err(DecodeError::Truncated)
        } else if p + 10 + u16_at(buf, p + 8) > buf.len() {
            Err(DecodeError::Truncated)
        } else {
            let len = u16_at(buf, p + 8);
            Ok(
                (
                    RecordModel {
                        name,
                        rtype: u16_at(buf, p),
                        rclass: u16_at(buf, p + 2),
                        ttl: u32_at(buf, p + 4),
                        rdlength: len,
                        rdata: buf.subrange(p + 10, p + 10 + len),
                    },
                    p + 10 + len,
                ),
            )
        },
    }
}

/// `count` resource records one after another from `pos`.
pub open spec fn records_at(buf: Seq<u8>, pos: int, count: nat) -> Result<
    (Seq<RecordModel>, int),
    DecodeError,
>
    decreases count,
{
    if count == 0 {
        Ok((seq![], pos))
    } else {
        match record_at(buf, pos) {
            Err(e) => Err(e),
            Ok((r, p)) => match records_at(buf, p, (count - 1) as nat) {
                Err(e) => Err(e),
                Ok((rest, q)) => Ok((seq![r] + rest, q)),
            },
        }
    }
}

/// The header held by the first twelve bytes.
pub open spec fn header_of(buf: Seq<u8>) -> Header {
    Header {
        id: u16_at(buf, 0),
        flags: Flags { left: buf[2], right: buf[3] },
        qdcount: u16_at(buf, 4),
        ancount: u16_at(buf, 6),
        nscount: u16_at(buf, 8),
        arcount: u16_at(buf, 10),
    }
}

/// The question section that starts right after the header.
pub open spec fn question_section(buf: Seq<u8>, qdcount: u16) -> Result<
    (Seq<QuestionModel>, int),
    DecodeError,
> {
    if qdcount == 0 {
        Ok((seq![], 12))
    } else {
        match question_at(buf, 12) {
            Err(e) => Err(e),
            Ok((q, p)) => Ok((seq![q], p)),
        }
    }
}

/// The message that `buf` holds. Bytes after the last record are ignored.
pub open spec fn message_of(buf: Seq<u8>) -> Result<MessageModel, DecodeError> {
    if buf.len() < 12 {
        Err(DecodeError::Truncated)
    } else if header_of(buf).qdcount >= 2 {
        Err(DecodeError::UnsupportedQuestionCount)
    } else {
        let h = header_of(buf);
        match question_section(buf, h.qdcount) {
            Err(e) => Err(e),
            Ok((qs, after_q)) => match records_at(buf, after_q, h.ancount as nat) {
                Err(e) => Err(e),
                Ok((an, after_an)) => match records_at(buf, after_an, h.nscount as nat) {
                    Err(e) => Err(e),
                    Ok((ns, after_ns)) => match records_at(buf, after_ns, h.arcount as nat) {
                        Err(e) => Err(e),
                        Ok((ar, _)) => Ok(
                            MessageModel {
                                header: h,
                                questions: qs,
                                answers: an,
                                authorities: ns,
                                additionals: ar,
                            },
                        ),
                    },
                },
            },
        }
    }
}


/// Relies on `String::from_utf8`: it accepts exactly the byte strings that
/// are valid UTF-8, and the text it returns is what those bytes encode.
#[verifier::external_body]
fn utf8_to_string(bytes: Vec<u8>) -> (r: Option<String>)
    ensures
        r is Some <==> valid_utf8(bytes@),
        r matches Some(s) ==> s@ == decode_utf8(bytes@),
{
    String::from_utf8(bytes).ok()
}

/// Appends `buf[start..end]` to `out`.
fn extend_from(out: &mut Vec<u8>, buf: &[u8], start: usize, end: usize)
    requires
        start <= end <= buf@.len(),
    ensures
        final(out)@ == old(out)@ + buf@.subrange(start as int, end as int),
{
    let mut i: usize = start;
    while i < end
        invariant
            start <= i <= end <= buf@.len(),
            out@ == old(out)@ + buf@.subrange(start as int, i as int),
        decreases end - i,
    {
        out.push(buf[i]);
        assert(buf@.subrange(start as int, i + 1) =~= buf@.subrange(start as int, i as int).push(buf@[i as int]));
        i = i + 1;
    }
}

/// Reads a big-endian 16-bit integer at `pos`.
pub fn read_u16(buf: &[u8], pos: usize) -> (r: Result<(u16, usize), DecodeError>)
    ensures
        match r {
            Ok((v, p)) => pos + 2 <= buf@.len() && v == u16_at(buf@, pos as int) && p == pos + 2,
            Err(e) => pos + 2 > buf@.len() && e == DecodeError::Truncated,
        },
{
    if pos >= buf.len() || buf.len() - pos < 2 {
        return Err(DecodeError::Truncated);
    }
    let v: u16 = (buf[pos] as u16) * 256 + buf[pos + 1] as u16;
    Ok((v, pos + 2))
}

/// Reads a big-endian 32-bit integer at `pos`.
pub fn read_u32(buf: &[u8], pos: usize) -> (r: Result<(u32, usize), DecodeError>)
    ensures
        match r {
            Ok((v, p)) => pos + 4 <= buf@.len() && v == u32_at(buf@, pos as int) && p == pos + 4,
            Err(e) => pos + 4 > buf@.len() && e == DecodeError::Truncated,
        },
{
    if pos >= buf.len() || buf.len() - pos < 4 {
        return Err(DecodeError::Truncated);
    }
    let v: u32 = (buf[pos] as u32) * 16777216 + (buf[pos + 1] as u32) * 65536
        + (buf[pos + 2] as u32) * 256 + buf[pos + 3] as u32;
    Ok((v, pos + 4))
}

impl LabelKind {
    /// Reads the length byte (and, for a pointer, the byte after it) at `pos`.
    pub fn read(buf: &[u8], pos: usize) -> (r: Result<(LabelKind, usize), DecodeError>)
        ensures
            match r {
                Ok((k, p)) => label_at(buf@, pos as int) == Ok::<(LabelKind, int), DecodeError>(
                    (k, p as int),
                ),
                Err(e) => label_at(buf@, pos as int) == Err::<(LabelKind, int), DecodeError>(e),
            },
    {
        if pos >= buf.len() {
            return Err(DecodeError::Truncated);
        }
        let b0 = buf[pos];
        if b0 == 0 {
            Ok((LabelKind::Absent, pos + 1))
        } else if b0 >= 0xC0 {
            if pos + 1 >= buf.len() {
                return Err(DecodeError::Truncated);
            }
            let target: u16 = ((b0 - 0xC0) as u16) * 256 + buf[pos + 1] as u16;
            Ok((LabelKind::Pointer(target), pos + 2))
        } else {
            Ok((LabelKind::Data(b0 as usize), pos + 1))
        }
    }
}

/// Reads the bytes of the dotted name at `pos`, following at most `hops`
/// compression pointers.
pub fn read_name_bytes(buf: &[u8], pos: usize, hops: u32) -> (r: Result<(Vec<u8>, usize), DecodeError>)
    ensures
        match r {
            Ok((v, p)) => name_at(buf@, pos as int, hops as nat) == Ok::<(Seq<u8>, int), DecodeError>(
                (v@, p as int),
            ),
            Err(e) => name_at(buf@, pos as int, hops as nat) == Err::<(Seq<u8>, int), DecodeError>(e),
        },
    decreases hops, buf@.len() - pos,
{
    match LabelKind::read(buf, pos) {
        Err(e) => Err(e),
        Ok((LabelKind::Absent, next)) => Ok((Vec::new(), next)),
        Ok((LabelKind::Pointer(target), next)) => {
            if hops == 0 {
                return Err(DecodeError::PointerLoop);
            }
            match read_name_bytes(buf, target as usize, hops - 1) {
                Err(e) => Err(e),
                Ok((n, _)) => Ok((n, next)),
            }
        },
        Ok((LabelKind::Data(len), next)) => {
            if len > buf.len() - next {
                return Err(DecodeError::Truncated);
            }
            let end = next + len;
            match read_name_bytes(buf, end, hops) {
                Err(e) => Err(e),
                Ok((rest, after)) => {
                    let mut out: Vec<u8> = Vec::new();
                    extend_from(&mut out, buf, next, end);
                    if rest.len() > 0 {
                        out.push(0x2Eu8);
                        extend_from(&mut out, rest.as_slice(), 0, rest.len());
                        assert(rest@.subrange(0, rest@.len() as int) =~= rest@);
                    }
                    assert(out@ =~= join_label(buf@.subrange(next as int, end as int), rest@));
                    Ok((out, after))
                },
            }
        },
    }
}

/// Reads the name at `pos` as text.
pub fn read_labels_to_str(buf: &[u8], pos: usize) -> (r: Result<(String, usize), DecodeError>)
    ensures
        match r {
            Ok((s, p)) => name_text_at(buf@, pos as int) == Ok::<(Seq<char>, int), DecodeError>(
                (s@, p as int),
            ),
            Err(e) => name_text_at(buf@, pos as int) == Err::<(Seq<char>, int), DecodeError>(e),
        },
{
    match read_name_bytes(buf, pos, MAX_POINTER_HOPS) {
        Err(e) => Err(e),
        Ok((bytes, next)) => match utf8_to_string(bytes) {
            None => Err(DecodeError::InvalidLabel),
            Some(s) => Ok((s, next)),
        },
    }
}


impl Question {
    /// Reads the question at `pos`.
    pub fn read(buf: &[u8], pos: usize) -> (r: Result<(Question, usize), DecodeError>)
        ensures
            match r {
                Ok((q, p)) => question_at(buf@, pos as int) == Ok::<(QuestionModel, int), DecodeError>(
                    (q@, p as int),
                ),
                Err(e) => question_at(buf@, pos as int) == Err::<(QuestionModel, int), DecodeError>(e),
            },
    {
        let (qname, p) = read_labels_to_str(buf, pos)?;
        if p >= buf.len() || buf.len() - p < 4 {
            return Err(DecodeError::Truncated);
        }
        let (qtype, p) = read_u16(buf, p)?;
        let (qclass, p) = read_u16(buf, p)?;
        Ok((Question { qname, qtype, qclass }, p))
    }
}

impl ResourceRecord {
    /// Reads the resource record at `pos`.
    pub fn read(buf: &[u8], pos: usize) -> (r: Result<(ResourceRecord, usize), DecodeError>)
        ensures
            match r {
                Ok((rr, p)) => record_at(buf@, pos as int) == Ok::<(RecordModel, int), DecodeError>(
                    (rr@, p as int),
                ),
                Err(e) => record_at(buf@, pos as int) == Err::<(RecordModel, int), DecodeError>(e),
            },
    {
        let (name, p) = read_labels_to_str(buf, pos)?;
        if p >= buf.len() || buf.len() - p < 10 {
            return Err(DecodeError::Truncated);
        }
        let (rtype, p) = read_u16(buf, p)?;
        let (rclass, p) = read_u16(buf, p)?;
        let (ttl, p) = read_u32(buf, p)?;
        let (rdlength, p) = read_u16(buf, p)?;
        if (rdlength as usize) > buf.len() - p {
            return Err(DecodeError::Truncated);
        }
        let end = p + rdlength as usize;
        let mut rdata: Vec<u8> = Vec::new();
        extend_from(&mut rdata, buf, p, end);
        assert(rdata@ =~= buf@.subrange(p as int, end as int));
        Ok((ResourceRecord { name, rtype, rclass, ttl, rdlength, rdata }, end))
    }

    /// Reads `count` records one after another from `pos`.
    pub fn read_all(buf: &[u8], pos: usize, count: u16) -> (r: Result<
        (Vec<ResourceRecord>, usize),
        DecodeError,
    >)
        ensures
            match r {
                Ok((v, p)) => records_at(buf@, pos as int, count as nat) == Ok::<
                    (Seq<RecordModel>, int),
                    DecodeError,
                >((records_model(v@), p as int)),
                Err(e) => records_at(buf@, pos as int, count as nat) == Err::<
                    (Seq<RecordModel>, int),
                    DecodeError,
                >(e),
            },
    {
        let mut records: Vec<ResourceRecord> = Vec::new();
        let mut p: usize = pos;
        let mut i: u16 = 0;
        while i < count
            invariant
                i <= count,
                records_at(buf@, pos as int, count as nat) == match records_at(
                    buf@,
                    p as int,
                    (count - i) as nat,
                ) {
                    Ok((rest, q)) => Ok((records_model(records@) + rest, q)),
                    Err(e) => Err::<(Seq<RecordModel>, int), DecodeError>(e),
                },
            decreases count - i,
        {
            let ghost before = records@;
            match ResourceRecord::read(buf, p) {
                Err(e) => {
                    return Err(e);
                },
                Ok((rr, next)) => {
                    records.push(rr);
                    assert(records_model(records@) =~= records_model(before).push(rr@));
                    proof {
                        match records_at(buf@, next as int, (count - i - 1) as nat) {
                            Ok((rest, q)) => {
                                assert(records_model(before) + (seq![rr@] + rest) =~= records_model(
                                    records@,
                                ) + rest);
                            },
                            Err(_) => {},
                        }
                    }
                    p = next;
                },
            }
            i = i + 1;
        }
        assert(records_model(records@) + seq![] =~= records_model(records@));
        Ok((records, p))
    }
}

impl Header {
    /// Reads the header from the first twelve bytes.
    pub fn from_bytes(b: &[u8]) -> (r: Header)
        requires
            b@.len() >= 12,
        ensures
            r == header_of(b@),
    {
        Header {
            id: (b[0] as u16) * 256 + b[1] as u16,
            flags: Flags::from_bytes(b[2], b[3]),
            qdcount: (b[4] as u16) * 256 + b[5] as u16,
            ancount: (b[6] as u16) * 256 + b[7] as u16,
            nscount: (b[8] as u16) * 256 + b[9] as u16,
            arcount: (b[10] as u16) * 256 + b[11] as u16,
        }
    }
}

impl Message {
    /// Reads a whole message. Fails on a short or malformed datagram and on
    /// a header that announces two or more questions.
    pub fn from_bytes(b: &[u8]) -> (r: Result<Message, DecodeError>)
        ensures
            match r {
                Ok(m) => message_of(b@) == Ok::<MessageModel, DecodeError>(m@),
                Err(e) => message_of(b@) == Err::<MessageModel, DecodeError>(e),
            },
    {
        if b.len() < 12 {
            return Err(DecodeError::Truncated);
        }
        let header = Header::from_bytes(b);
        if header.qdcount >= 2 {
            return Err(DecodeError::UnsupportedQuestionCount);
        }
        let mut questions: Vec<Question> = Vec::new();
        let mut p: usize = 12;
        if header.qdcount == 1 {
            let (q, next) = Question::read(b, 12)?;
            questions.push(q);
            p = next;
        }
        assert(question_section(b@, header.qdcount) == Ok::<(Seq<QuestionModel>, int), DecodeError>(
            (questions_model(questions@), p as int),
        )) by {
            if header.qdcount == 1 {
                assert(questions_model(questions@) =~= seq![questions@[0]@]);
            } else {
                assert(questions_model(questions@) =~= seq![]);
            }
        }
        let (answers, p) = ResourceRecord::read_all(b, p, header.ancount)?;
        let (authorities, p) = ResourceRecord::read_all(b, p, header.nscount)?;
        let (additionals, _) = ResourceRecord::read_all(b, p, header.arcount)?;
        Ok(Message { header, questions, answers, authorities, additionals })
    }
}

} // verus!
