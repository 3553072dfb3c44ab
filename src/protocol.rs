//! The DNS message wire format: header flags, questions, resource records,
//! label encoding and compression pointers.
use vstd::prelude::*;

verus! {

/// The two flag bytes of a DNS header.
#[derive(Clone, Copy, Debug, PartialEq, Eq, Structural)]
pub struct Flags {
    pub left: u8,
    pub right: u8,
}

pub open spec fn qr_of(f: Flags) -> u8 {
    f.left >> 7u8
}

pub open spec fn opcode_of(f: Flags) -> u8 {
    (f.left >> 3u8) & 0x0Fu8
}

pub open spec fn aa_of(f: Flags) -> u8 {
    (f.left >> 2u8) & 1u8
}

pub open spec fn tc_of(f: Flags) -> u8 {
    (f.left >> 1u8) & 1u8
}

pub open spec fn rd_of(f: Flags) -> u8 {
    f.left & 1u8
}

pub open spec fn ra_of(f: Flags) -> u8 {
    f.right >> 7u8
}

pub open spec fn z_of(f: Flags) -> u8 {
    (f.right >> 6u8) & 1u8
}

pub open spec fn ad_of(f: Flags) -> u8 {
    (f.right >> 5u8) & 1u8
}

pub open spec fn cd_of(f: Flags) -> u8 {
    (f.right >> 4u8) & 1u8
}

pub open spec fn rcode_of(f: Flags) -> u8 {
    f.right & 0x0Fu8
}

/// Every field that the flag bytes hold, except the one named by `skip`
/// (0 QR, 1 opcode, 2 AA, 3 TC, 4 RD, 5 RA, 6 Z, 7 AD, 8 CD, 9 RCODE), reads
/// the same in `a` and in `b`.
pub open spec fn same_flags_except(a: Flags, b: Flags, skip: int) -> bool {
    &&& (skip != 0 ==> qr_of(a) == qr_of(b))
    &&& (skip != 1 ==> opcode_of(a) == opcode_of(b))
    &&& (skip != 2 ==> aa_of(a) == aa_of(b))
    &&& (skip != 3 ==> tc_of(a) == tc_of(b))
    &&& (skip != 4 ==> rd_of(a) == rd_of(b))
    &&& (skip != 5 ==> ra_of(a) == ra_of(b))
    &&& (skip != 6 ==> z_of(a) == z_of(b))
    &&& (skip != 7 ==> ad_of(a) == ad_of(b))
    &&& (skip != 8 ==> cd_of(a) == cd_of(b))
    &&& (skip != 9 ==> rcode_of(a) == rcode_of(b))
}

impl Flags {
    pub fn from_bytes(left: u8, right: u8) -> (r: Flags)
        ensures
            r.left == left,
            r.right == right,
    {
        Flags { left, right }
    }

    /// QR: 0 for a query, 1 for a response.
    pub fn qr(&self) -> (r: u8)
        ensures
            r == qr_of(*self),
            r < 2,
    {
        let l = self.left;
        assert(l >> 7u8 < 2u8) by (bit_vector);
        l >> 7u8
    }

    /// Opcode: the kind of query (0 standard, 1 inverse, 2 status).
    pub fn opcode(&self) -> (r: u8)
        ensures
            r == opcode_of(*self),
    {
        (self.left >> 3u8) & 0x0Fu8
    }

    /// AA: the answer comes from an authoritative server.
    pub fn aa(&self) -> (r: u8)
        ensures
            r == aa_of(*self),
    {
        (self.left >> 2u8) & 1u8
    }

    /// TC: the message was truncated.
    pub fn tc(&self) -> (r: u8)
        ensures
            r == tc_of(*self),
    {
        (self.left >> 1u8) & 1u8
    }

    /// RD: recursion desired.
    pub fn rd(&self) -> (r: u8)
        ensures
            r == rd_of(*self),
    {
        self.left & 1u8
    }

    /// RA: recursion available.
    pub fn ra(&self) -> (r: u8)
        ensures
            r == ra_of(*self),
    {
        self.right >> 7u8
    }

    /// Z: reserved, zero on the wire.
    pub fn z(&self) -> (r: u8)
        ensures
            r == z_of(*self),
    {
        (self.right >> 6u8) & 1u8
    }

    /// AD: authentic data (DNSSEC).
    pub fn ad(&self) -> (r: u8)
        ensures
            r == ad_of(*self),
    {
        (self.right >> 5u8) & 1u8
    }

    /// CD: checking disabled (DNSSEC).
    pub fn cd(&self) -> (r: u8)
        ensures
            r == cd_of(*self),
    {
        (self.right >> 4u8) & 1u8
    }

    /// RCODE: 0 no error, 2 server failure, 3 name error, ...
    pub fn rcode(&self) -> (r: u8)
        ensures
            r == rcode_of(*self),
    {
        self.right & 0x0Fu8
    }

    pub fn set_qr(&mut self, qr: u8)
        requires
            qr < 2,
        ensures
            qr_of(*final(self)) == qr,
            same_flags_except(*old(self), *final(self), 0),
    {
        let l = self.left;
        let n = (l & 0x7Fu8) | (qr << 7u8);
        assert(
            qr < 2 ==> n >> 7u8 == qr
            && (n >> 3u8) & 0x0Fu8 == (l >> 3u8) & 0x0Fu8
            && (n >> 2u8) & 1u8 == (l >> 2u8) & 1u8
            && (n >> 1u8) & 1u8 == (l >> 1u8) & 1u8
            && n & 1u8 == l & 1u8
        ) by (bit_vector)
            requires n == (l & 0x7Fu8) | (qr << 7u8);
        self.left = n;
    }

    /// Sets the opcode. No other field changes.
    pub fn set_opcode(&mut self, v: u8)
        requires
            v < 16,
        ensures
            opcode_of(*final(self)) == v,
            same_flags_except(*old(self), *final(self), 1),
    {
        let b = self.left;
        let n = (b & 0x87u8) | (v << 3u8);
        assert(
            v < 16u8 ==> (n >> 3u8) & 15u8 == v
            && n >> 7u8 == b >> 7u8
            && (n >> 2u8) & 1u8 == (b >> 2u8) & 1u8
            && (n >> 1u8) & 1u8 == (b >> 1u8) & 1u8
            && n & 1u8 == b & 1u8
        ) by (bit_vector)
            requires n == (b & 0x87u8) | (v << 3u8);
        self.left = n;
    }
    /// Sets AA. No other field changes.
    pub fn set_aa(&mut self, v: u8)
        requires
            v < 2,
        ensures
            aa_of(*final(self)) == v,
            same_flags_except(*old(self), *final(self), 2),
    {
        let b = self.left;
        let n = (b & 0xFBu8) | (v << 2u8);
        assert(
            v < 2u8 ==> (n >> 2u8) & 1u8 == v
            && n >> 7u8 == b >> 7u8
            && (n >> 3u8) & 15u8 == (b >> 3u8) & 15u8
            && (n >> 1u8) & 1u8 == (b >> 1u8) & 1u8
            && n & 1u8 == b & 1u8
        ) by (bit_vector)
            requires n == (b & 0xFBu8) | (v << 2u8);
        self.left = n;
    }
    /// Sets TC. No other field changes.
    pub fn set_tc(&mut self, v: u8)
        requires
            v < 2,
        ensures
            tc_of(*final(self)) == v,
            same_flags_except(*old(self), *final(self), 3),
    {
        let b = self.left;
        let n = (b & 0xFDu8) | (v << 1u8);
        assert(
            v < 2u8 ==> (n >> 1u8) & 1u8 == v
            && n >> 7u8 == b >> 7u8
            && (n >> 3u8) & 15u8 == (b >> 3u8) & 15u8
            && (n >> 2u8) & 1u8 == (b >> 2u8) & 1u8
            && n & 1u8 == b & 1u8
        ) by (bit_vector)
            requires n == (b & 0xFDu8) | (v << 1u8);
        self.left = n;
    }
    /// Sets RD. No other field changes.
    pub fn set_rd(&mut self, v: u8)
        requires
            v < 2,
        ensures
            rd_of(*final(self)) == v,
            same_flags_except(*old(self), *final(self), 4),
    {
        let b = self.left;
        let n = (b & 0xFEu8) | (v << 0u8);
        assert(
            v < 2u8 ==> n & 1u8 == v
            && n >> 7u8 == b >> 7u8
            && (n >> 3u8) & 15u8 == (b >> 3u8) & 15u8
            && (n >> 2u8) & 1u8 == (b >> 2u8) & 1u8
            && (n >> 1u8) & 1u8 == (b >> 1u8) & 1u8
        ) by (bit_vector)
            requires n == (b & 0xFEu8) | (v << 0u8);
        self.left = n;
    }
    /// Sets RA. No other field changes.
    pub fn set_ra(&mut self, v: u8)
        requires
            v < 2,
        ensures
            ra_of(*final(self)) == v,
            same_flags_except(*old(self), *final(self), 5),
    {
        let b = self.right;
        let n = (b & 0x7Fu8) | (v << 7u8);
        assert(
            v < 2u8 ==> n >> 7u8 == v
            && (n >> 6u8) & 1u8 == (b >> 6u8) & 1u8
            && (n >> 5u8) & 1u8 == (b >> 5u8) & 1u8
            && (n >> 4u8) & 1u8 == (b >> 4u8) & 1u8
            && n & 15u8 == b & 15u8
        ) by (bit_vector)
            requires n == (b & 0x7Fu8) | (v << 7u8);
        self.right = n;
    }
    /// Sets Z. No other field changes.
    pub fn set_z(&mut self, v: u8)
        requires
            v < 2,
        ensures
            z_of(*final(self)) == v,
            same_flags_except(*old(self), *final(self), 6),
    {
        let b = self.right;
        let n = (b & 0xBFu8) | (v << 6u8);
        assert(
            v < 2u8 ==> (n >> 6u8) & 1u8 == v
            && n >> 7u8 == b >> 7u8
            && (n >> 5u8) & 1u8 == (b >> 5u8) & 1u8
            && (n >> 4u8) & 1u8 == (b >> 4u8) & 1u8
            && n & 15u8 == b & 15u8
        ) by (bit_vector)
            requires n == (b & 0xBFu8) | (v << 6u8);
        self.right = n;
    }
    /// Sets AD. No other field changes.
    pub fn set_ad(&mut self, v: u8)
        requires
            v < 2,
        ensures
            ad_of(*final(self)) == v,
            same_flags_except(*old(self), *final(self), 7),
    {
        let b = self.right;
        let n = (b & 0xDFu8) | (v << 5u8);
        assert(
            v < 2u8 ==> (n >> 5u8) & 1u8 == v
            && n >> 7u8 == b >> 7u8
            && (n >> 6u8) & 1u8 == (b >> 6u8) & 1u8
            && (n >> 4u8) & 1u8 == (b >> 4u8) & 1u8
            && n & 15u8 == b & 15u8
        ) by (bit_vector)
            requires n == (b & 0xDFu8) | (v << 5u8);
        self.right = n;
    }
    /// Sets CD. No other field changes.
    pub fn set_cd(&mut self, v: u8)
        requires
            v < 2,
        ensures
            cd_of(*final(self)) == v,
            same_flags_except(*old(self), *final(self), 8),
    {
        let b = self.right;
        let n = (b & 0xEFu8) | (v << 4u8);
        assert(
            v < 2u8 ==> (n >> 4u8) & 1u8 == v
            && n >> 7u8 == b >> 7u8
            && (n >> 6u8) & 1u8 == (b >> 6u8) & 1u8
            && (n >> 5u8) & 1u8 == (b >> 5u8) & 1u8
            && n & 15u8 == b & 15u8
        ) by (bit_vector)
            requires n == (b & 0xEFu8) | (v << 4u8);
        self.right = n;
    }
    /// Sets RCODE. No other field changes.
    pub fn set_rcode(&mut self, v: u8)
        requires
            v < 16,
        ensures
            rcode_of(*final(self)) == v,
            same_flags_except(*old(self), *final(self), 9),
    {
        let b = self.right;
        let n = (b & 0xF0u8) | (v << 0u8);
        assert(
            v < 16u8 ==> n & 15u8 == v
            && n >> 7u8 == b >> 7u8
            && (n >> 6u8) & 1u8 == (b >> 6u8) & 1u8
            && (n >> 5u8) & 1u8 == (b >> 5u8) & 1u8
            && (n >> 4u8) & 1u8 == (b >> 4u8) & 1u8
        ) by (bit_vector)
            requires n == (b & 0xF0u8) | (v << 0u8);
        self.right = n;
    }
}


/// The twelve bytes at the start of every message.
#[derive(Clone, Copy, Debug, PartialEq, Eq, Structural)]
pub struct Header {
    /// Transaction id chosen by whoever sent the query.
    pub id: u16,
    pub flags: Flags,
    /// Number of entries in the question section.
    pub qdcount: u16,
    /// Number of resource records in the answer section.
    pub ancount: u16,
    /// Number of name server records in the authority section.
    pub nscount: u16,
    /// Number of records in the additional section.
    pub arcount: u16,
}

/// What a message asks about. Used as the cache key.
#[derive(Clone, Debug, PartialEq, Eq, Hash)]
pub struct Question {
    pub qname: String,
    pub qtype: u16,
    pub qclass: u16,
}

pub ghost struct QuestionModel {
    pub name: Seq<char>,
    pub qtype: u16,
    pub qclass: u16,
}

impl View for Question {
    type V = QuestionModel;

    open spec fn view(&self) -> QuestionModel {
        QuestionModel { name: self.qname@, qtype: self.qtype, qclass: self.qclass }
    }
}

/// One answer, authority or additional entry. The data is kept as raw bytes.
#[derive(Clone, Debug)]
pub struct ResourceRecord {
    pub name: String,
    pub rtype: u16,
    pub rclass: u16,
    /// Seconds the record may be kept.
    pub ttl: u32,
    pub rdlength: u16,
    pub rdata: Vec<u8>,
}

pub ghost struct RecordModel {
    pub name: Seq<char>,
    pub rtype: u16,
    pub rclass: u16,
    pub ttl: u32,
    pub rdlength: u16,
    pub rdata: Seq<u8>,
}

impl View for ResourceRecord {
    type V = RecordModel;

    open spec fn view(&self) -> RecordModel {
        RecordModel {
            name: self.name@,
            rtype: self.rtype,
            rclass: self.rclass,
            ttl: self.ttl,
            rdlength: self.rdlength,
            rdata: self.rdata@,
        }
    }
}

/// A whole DNS message: header and four sections.
#[derive(Clone, Debug)]
pub struct Message {
    pub header: Header,
    pub questions: Vec<Question>,
    pub answers: Vec<ResourceRecord>,
    pub authorities: Vec<ResourceRecord>,
    pub additionals: Vec<ResourceRecord>,
}

pub ghost struct MessageModel {
    pub header: Header,
    pub questions: Seq<QuestionModel>,
    pub answers: Seq<RecordModel>,
    pub authorities: Seq<RecordModel>,
    pub additionals: Seq<RecordModel>,
}

pub open spec fn questions_model(qs: Seq<Question>) -> Seq<QuestionModel> {
    qs.map_values(|q: Question| q@)
}

pub open spec fn records_model(rs: Seq<ResourceRecord>) -> Seq<RecordModel> {
    rs.map_values(|r: ResourceRecord| r@)
}

impl View for Message {
    type V = MessageModel;

    open spec fn view(&self) -> MessageModel {
        MessageModel {
            header: self.header,
            questions: questions_model(self.questions@),
            answers: records_model(self.answers@),
            authorities: records_model(self.authorities@),
            additionals: records_model(self.additionals@),
        }
    }
}


/// A byte-for-byte copy of `v`.
pub fn copy_bytes(v: &Vec<u8>) -> (r: Vec<u8>)
    ensures
        r@ == v@,
{
    let mut r: Vec<u8> = Vec::new();
    let mut i: usize = 0;
    while i < v.len()
        invariant
            i <= v@.len(),
            r@ == v@.subrange(0, i as int),
        decreases v@.len() - i,
    {
        r.push(v[i]);
        assert(v@.subrange(0, i + 1) =~= v@.subrange(0, i as int).push(v@[i as int]));
        i = i + 1;
    }
    assert(v@.subrange(0, v@.len() as int) =~= v@);
    r
}

impl Question {
    /// A copy of the question that can be kept independently.
    pub fn duplicate(&self) -> (r: Question)
        ensures
            r@ == self@,
    {
        Question { qname: self.qname.clone(), qtype: self.qtype, qclass: self.qclass }
    }
}

impl ResourceRecord {
    /// A copy of the record that can be changed independently.
    pub fn duplicate(&self) -> (r: ResourceRecord)
        ensures
            r@ == self@,
    {
        ResourceRecord {
            name: self.name.clone(),
            rtype: self.rtype,
            rclass: self.rclass,
            ttl: self.ttl,
            rdlength: self.rdlength,
            rdata: copy_bytes(&self.rdata),
        }
    }
}

/// A copy of each record, in order.
pub fn copy_records(v: &Vec<ResourceRecord>) -> (r: Vec<ResourceRecord>)
    ensures
        records_model(r@) == records_model(v@),
{
    let mut r: Vec<ResourceRecord> = Vec::new();
    let mut i: usize = 0;
    while i < v.len()
        invariant
            i <= v@.len(),
            r@.len() == i,
            forall|j: int| 0 <= j < i ==> r@[j]@ == v@[j]@,
        decreases v@.len() - i,
    {
        r.push(v[i].duplicate());
        i = i + 1;
    }
    assert(records_model(r@) =~= records_model(v@));
    r
}

/// A copy of each question, in order.
pub fn copy_questions(v: &Vec<Question>) -> (r: Vec<Question>)
    ensures
        questions_model(r@) == questions_model(v@),
{
    let mut r: Vec<Question> = Vec::new();
    let mut i: usize = 0;
    while i < v.len()
        invariant
            i <= v@.len(),
            r@.len() == i,
            forall|j: int| 0 <= j < i ==> r@[j]@ == v@[j]@,
        decreases v@.len() - i,
    {
        r.push(v[i].duplicate());
        i = i + 1;
    }
    assert(questions_model(r@) =~= questions_model(v@));
    r
}

impl Message {
    /// A copy of the message that can be changed independently.
    pub fn duplicate(&self) -> (r: Message)
        ensures
            r@ == self@,
    {
        Message {
            header: self.header,
            questions: copy_questions(&self.questions),
            answers: copy_records(&self.answers),
            authorities: copy_records(&self.authorities),
            additionals: copy_records(&self.additionals),
        }
    }
}

} // verus!
