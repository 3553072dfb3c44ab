//! Laws that tie the reader to the writer: what the writer produces for a
//! well-formed message, compression pointers included, reads back as that
//! message.
use vstd::prelude::*;
use vstd::utf8::{encode_utf8, encode_utf8_decode_utf8, encode_utf8_valid_utf8};
use crate::decode::{
    DecodeError, LabelKind, MAX_POINTER_HOPS, header_of, label_at, message_of, name_at, name_text_at, question_at,
    question_section, record_at, records_at,
};
use crate::encode::{
    POINTER_LIMIT, Tally, dot_from, lemma_header_roundtrip, header_wire, message_wire, name_wire,
    pointer_wire, question_wire, questions_wire, record_wire, records_wire, tally_lookup,
};
use crate::protocol::{MessageModel, QuestionModel, RecordModel};

verus! {

/// The number of labels that the writer emits for a dotted name.
pub open spec fn labels(name: Seq<u8>) -> nat
    decreases name.len(),
{
    if name.len() == 0 {
        0
    } else {
        let i = dot_from(name, 0);
        if 0 < i < name.len() {
            1 + labels(name.subrange(i + 1, name.len() as int))
        } else {
            1
        }
    }
}

/// The name does not end with a dot.
pub open spec fn no_trailing_dot(name: Seq<u8>) -> bool {
    name.len() == 0 || name.last() != 0x2Eu8
}

/// Reading at the recorded offset of a tally entry gives its name.
pub open spec fn entry_ok(b: Seq<u8>, e: (Seq<u8>, u16)) -> bool {
    &&& e.1 < POINTER_LIMIT
    &&& name_at(b, e.1 as int, labels(e.0)) matches Ok((n, _)) && n == e.0
}

proof fn lemma_dot_from(name: Seq<u8>, j: int)
    requires
        0 <= j,
    ensures
        j <= dot_from(name, j) || (j > name.len() && dot_from(name, j) == name.len()),
        dot_from(name, j) <= name.len() || j > name.len(),
        dot_from(name, j) < name.len() ==> name[dot_from(name, j)] == 0x2Eu8,
    decreases name.len() - j,
{
    if j < name.len() && name[j] != 0x2Eu8 {
        lemma_dot_from(name, j + 1);
    }
}

/// A successful read depends only on the bytes it looked at: it gives the
/// same result on any longer buffer with the same start.
pub proof fn lemma_name_prefix(p: Seq<u8>, b: Seq<u8>, off: int, h: nat)
    requires
        p.len() <= b.len(),
        b.subrange(0, p.len() as int) == p,
        name_at(p, off, h) is Ok,
    ensures
        name_at(b, off, h) == name_at(p, off, h),
    decreases h, p.len() - off,
{
    assert(b[off] == p[off]) by {
        assert(b.subrange(0, p.len() as int)[off] == b[off]);
    }
    if p[off] >= 0xC0 {
        assert(b[off + 1] == p[off + 1]) by {
            assert(b.subrange(0, p.len() as int)[off + 1] == b[off + 1]);
        }
    }
    assert(label_at(b, off) == label_at(p, off));
    match label_at(p, off) {
        Ok((LabelKind::Pointer(t), _)) => {
            lemma_name_prefix(p, b, t as int, (h - 1) as nat);
        },
        Ok((LabelKind::Data(len), next)) => {
            lemma_name_prefix(p, b, next + len, h);
            assert(b.subrange(next, next + len) =~= p.subrange(next, next + len)) by {
                assert forall|k: int| 0 <= k < len implies #[trigger] b.subrange(next, next + len)[k]
                    == p.subrange(next, next + len)[k] by {
                    assert(b.subrange(0, p.len() as int)[next + k] == b[next + k]);
                }
            }
        },
        _ => {},
    }
}

/// More pointer hops never change a successful read.
pub proof fn lemma_name_fuel(b: Seq<u8>, off: int, h: nat, h2: nat)
    requires
        h <= h2,
        name_at(b, off, h) is Ok,
    ensures
        name_at(b, off, h2) == name_at(b, off, h),
    decreases h, b.len() - off,
{
    match label_at(b, off) {
        Ok((LabelKind::Pointer(t), _)) => {
            lemma_name_fuel(b, t as int, (h - 1) as nat, (h2 - 1) as nat);
        },
        Ok((LabelKind::Data(len), next)) => {
            lemma_name_fuel(b, next + len, h, h2);
        },
        _ => {},
    }
}

/// The entry that a successful lookup found.
proof fn lemma_lookup_entry(t: Tally, name: Seq<u8>) -> (i: int)
    requires
        tally_lookup(t, name) is Some,
    ensures
        0 <= i < t.len(),
        t[i].0 == name,
        tally_lookup(t, name) == Some(t[i].1),
    decreases t.len(),
{
    if t.last().0 == name {
        t.len() - 1
    } else {
        let i = lemma_lookup_entry(t.drop_last(), name);
        i
    }
}


proof fn lemma_entry_prefix(p: Seq<u8>, b: Seq<u8>, e: (Seq<u8>, u16))
    requires
        p.len() <= b.len(),
        b.subrange(0, p.len() as int) == p,
        entry_ok(p, e),
    ensures
        entry_ok(b, e),
{
    lemma_name_prefix(p, b, e.1 as int, labels(e.0));
}

/// The name that `name_wire` emits, read back from where it starts.
pub open spec fn reads_back(q: Seq<u8>, pos: nat, h: nat, name: Seq<u8>, end: nat) -> bool {
    name_at(q, pos as int, h) == Ok::<(Seq<u8>, int), crate::decode::DecodeError>((name, end as int))
}

/// A pointer written for a tally entry reads back as the entry's name.
proof fn lemma_pointer_reads_back(t: Tally, p: Seq<u8>, name: Seq<u8>, off: u16)
    requires
        tally_lookup(t, name) == Some(off),
        forall|i: int| 0 <= i < t.len() ==> (#[trigger] t[i]).1 < POINTER_LIMIT,
        forall|i: int| 0 <= i < t.len() && (#[trigger] t[i]).0.len() <= name.len() ==> entry_ok(p, t[i]),
    ensures
        reads_back(p + pointer_wire(off), p.len(), labels(name) + 1, name, p.len() + 2),
{
    let pos = p.len() as int;
    let j = lemma_lookup_entry(t, name);
    let bytes = pointer_wire(off);
    let q = p + bytes;
    assert(entry_ok(p, t[j]));
    assert(q.subrange(0, p.len() as int) =~= p);
    lemma_name_prefix(p, q, off as int, labels(name));
    assert(q[pos] == bytes[0] && q[pos + 1] == bytes[1]);
    assert(label_at(q, pos) == Ok::<(LabelKind, int), crate::decode::DecodeError>(
        (LabelKind::Pointer(off), pos + 2),
    ));
}

/// A single label followed by the zero byte reads back as that label.
proof fn lemma_last_label_reads_back(p: Seq<u8>, name: Seq<u8>, h: nat)
    requires
        0 < name.len() <= 63,
    ensures
        reads_back(
            p + (seq![name.len() as u8] + name + seq![0u8]),
            p.len(),
            h,
            name,
            p.len() + name.len() + 2,
        ),
{
    let pos = p.len() as int;
    let i = name.len() as int;
    let bytes = seq![i as u8] + name + seq![0u8];
    let q = p + bytes;
    assert(q[pos] == i as u8);
    assert(q[pos + 1 + i] == 0u8);
    assert(q.subrange(pos + 1, pos + 1 + i) =~= name);
    assert(name_at(q, pos + 1 + i, h) == Ok::<(Seq<u8>, int), crate::decode::DecodeError>(
        (seq![], pos + 2 + i),
    ));
}

/// A label followed by the bytes of the rest reads back as the dotted name.
proof fn lemma_label_then_rest(p: Seq<u8>, label: Seq<u8>, rest: Seq<u8>, rb: Seq<u8>, h: nat)
    requires
        0 < label.len() <= 63,
        rest.len() > 0,
        reads_back(
            p + seq![label.len() as u8] + label + rb,
            p.len() + 1 + label.len(),
            h,
            rest,
            p.len() + 1 + label.len() + rb.len(),
        ),
    ensures
        reads_back(
            p + (seq![label.len() as u8] + label + rb),
            p.len(),
            h,
            label + seq![0x2Eu8] + rest,
            p.len() + 1 + label.len() + rb.len(),
        ),
{
    let pos = p.len() as int;
    let i = label.len() as int;
    let q = p + (seq![i as u8] + label + rb);
    assert(q =~= p + seq![i as u8] + label + rb);
    assert(q[pos] == i as u8);
    assert(q.subrange(pos + 1, pos + 1 + i) =~= label);
}

/// Names: what the writer emits for a name at the end of `p` reads back,
/// from that offset, as the name; and every tally entry it adds reads back
/// as its name from its offset.
#[verifier::rlimit(100)]
#[verifier::spinoff_prover]
pub proof fn lemma_name_roundtrip(t: Tally, p: Seq<u8>, name: Seq<u8>)
    requires
        name_wire(t, p.len() as int, name) is Ok,
        no_trailing_dot(name),
        forall|i: int| 0 <= i < t.len() ==> (#[trigger] t[i]).1 < POINTER_LIMIT,
        forall|i: int| 0 <= i < t.len() && (#[trigger] t[i]).0.len() <= name.len() ==> entry_ok(p, t[i]),
    ensures
        name_wire(t, p.len() as int, name) matches Ok((bytes, t2)) && {
            &&& reads_back(p + bytes, p.len(), labels(name) + 1, name, p.len() + bytes.len())
            &&& tally_lookup(t, name) is None ==> reads_back(
                p + bytes,
                p.len(),
                labels(name),
                name,
                p.len() + bytes.len(),
            )
            &&& t.len() <= t2.len()
            &&& t2.subrange(0, t.len() as int) == t
            &&& forall|i: int| 0 <= i < t2.len() ==> (#[trigger] t2[i]).1 < POINTER_LIMIT
            &&& forall|i: int| t.len() <= i < t2.len() ==> entry_ok(p + bytes, #[trigger] t2[i])
        },
    decreases name.len(),
{
    let pos = p.len() as int;
    assert(t.subrange(0, t.len() as int) =~= t);
    if name.len() == 0 {
        let q = p + seq![0u8];
        assert(q[pos] == 0);
        assert(name =~= Seq::<u8>::empty());
        return;
    }
    match tally_lookup(t, name) {
        Some(off) => {
            lemma_pointer_reads_back(t, p, name, off);
        },
        None => {
            let t2 = if pos < POINTER_LIMIT {
                t.push((name, pos as u16))
            } else {
                t
            };
            let i = dot_from(name, 0);
            lemma_dot_from(name, 0);
            let label = name.subrange(0, i);
            if 0 < i < name.len() {
                let rest = name.subrange(i + 1, name.len() as int);
                let p_label = p + seq![i as u8] + label;
                assert(rest.last() == name.last());
                assert(p_label.subrange(0, p.len() as int) =~= p);
                assert forall|k: int| 0 <= k < t2.len() && (#[trigger] t2[k]).0.len() <= rest.len() implies entry_ok(
                    p_label,
                    t2[k],
                ) by {
                    assert(t2[k] == t[k]);
                    lemma_entry_prefix(p, p_label, t[k]);
                }
                lemma_name_roundtrip(t2, p_label, rest);
                let (rb, t3) = name_wire(t2, pos + 1 + i, rest)->Ok_0;
                assert(name =~= label + seq![0x2Eu8] + rest);
                lemma_label_then_rest(p, label, rest, rb, labels(name));
                let q = p + (seq![i as u8] + label + rb);
                assert(q =~= p_label + rb);
                assert(labels(name) == labels(rest) + 1);
                lemma_name_fuel(q, pos, labels(name), labels(name) + 1);
                assert(t3.subrange(0, t.len() as int) =~= t) by {
                    assert forall|k: int| 0 <= k < t.len() implies t3.subrange(0, t.len() as int)[k] == t[k] by {
                        assert(t3.subrange(0, t2.len() as int)[k] == t3[k]);
                    }
                }
                if pos < POINTER_LIMIT {
                    assert(t3[t.len() as int] == (name, pos as u16)) by {
                        assert(t3.subrange(0, t2.len() as int)[t.len() as int] == t3[t.len() as int]);
                    }
                    assert(entry_ok(q, (name, pos as u16)));
                }
                assert forall|k: int| t.len() <= k < t3.len() implies entry_ok(q, #[trigger] t3[k]) by {
                    if k >= t2.len() {
                        assert(entry_ok(p_label + rb, t3[k]));
                    }
                }
            } else {
                assert(label =~= name);
                lemma_last_label_reads_back(p, name, labels(name));
                lemma_name_fuel(p + (seq![i as u8] + label + seq![0u8]), pos, labels(name), labels(name) + 1);
                assert(t2.subrange(0, t.len() as int) =~= t);
                if pos < POINTER_LIMIT {
                    assert(entry_ok(p + (seq![i as u8] + label + seq![0u8]), (name, pos as u16)));
                }
            }
        },
    }
}


/// Every tally entry reads back as its name from its offset in `b`.
pub open spec fn tally_ok(b: Seq<u8>, t: Tally) -> bool {
    forall|i: int| 0 <= i < t.len() ==> entry_ok(b, #[trigger] t[i])
}

/// A name that the reader gets back as it was written: no trailing dot,
/// and few enough labels for the pointer hops that the reader allows.
pub open spec fn name_ok(name: Seq<char>) -> bool {
    no_trailing_dot(encode_utf8(name)) && labels(encode_utf8(name)) < MAX_POINTER_HOPS
}

/// `b` starts with `p`.
pub open spec fn extends(b: Seq<u8>, p: Seq<u8>) -> bool {
    p.len() <= b.len() && b.subrange(0, p.len() as int) == p
}

proof fn lemma_extends_trans(b: Seq<u8>, q: Seq<u8>, p: Seq<u8>)
    requires
        extends(b, q),
        extends(q, p),
    ensures
        extends(b, p),
{
    assert(b.subrange(0, p.len() as int) =~= q.subrange(0, p.len() as int)) by {
        assert forall|k: int| 0 <= k < p.len() implies #[trigger] b.subrange(0, p.len() as int)[k]
            == q.subrange(0, p.len() as int)[k] by {
            assert(b.subrange(0, q.len() as int)[k] == b[k]);
        }
    }
}

proof fn lemma_tally_prefix(p: Seq<u8>, b: Seq<u8>, t: Tally)
    requires
        extends(b, p),
        tally_ok(p, t),
    ensures
        tally_ok(b, t),
{
    assert forall|i: int| 0 <= i < t.len() implies entry_ok(b, #[trigger] t[i]) by {
        lemma_entry_prefix(p, b, t[i]);
    }
}

/// A name written as text reads back as that text, from any buffer that
/// starts with what was written; the tally stays valid.
proof fn lemma_text_roundtrip(t: Tally, p: Seq<u8>, name: Seq<char>, b: Seq<u8>)
    requires
        tally_ok(p, t),
        name_ok(name),
        name_wire(t, p.len() as int, encode_utf8(name)) matches Ok((bytes, _)) && extends(b, p + bytes),
    ensures
        name_wire(t, p.len() as int, encode_utf8(name)) matches Ok((bytes, t2)) && {
            &&& tally_ok(p + bytes, t2)
            &&& name_text_at(b, p.len() as int) == Ok::<(Seq<char>, int), DecodeError>(
                (name, (p.len() + bytes.len()) as int),
            )
        },
{
    let n = encode_utf8(name);
    let (bytes, t2) = name_wire(t, p.len() as int, n)->Ok_0;
    let q = p + bytes;
    assert forall|i: int| 0 <= i < t.len() implies (#[trigger] t[i]).1 < POINTER_LIMIT by {
        assert(entry_ok(p, t[i]));
    }
    lemma_name_roundtrip(t, p, n);
    assert(extends(q, p)) by {
        assert(q.subrange(0, p.len() as int) =~= p);
    }
    lemma_tally_prefix(p, q, t);
    assert forall|i: int| 0 <= i < t2.len() implies entry_ok(q, #[trigger] t2[i]) by {
        if i < t.len() {
            assert(t2[i] == t2.subrange(0, t.len() as int)[i]);
        }
    }
    lemma_name_fuel(q, p.len() as int, labels(n) + 1, MAX_POINTER_HOPS as nat);
    lemma_name_prefix(q, b, p.len() as int, MAX_POINTER_HOPS as nat);
    encode_utf8_valid_utf8(name);
    encode_utf8_decode_utf8(name);
}


/// A record the reader gets back as written: its name is `name_ok` and its
/// length field counts its data.
pub open spec fn record_ok(r: RecordModel) -> bool {
    name_ok(r.name) && r.rdlength == r.rdata.len()
}

proof fn lemma_question_roundtrip(t: Tally, p: Seq<u8>, q: QuestionModel, b: Seq<u8>)
    requires
        tally_ok(p, t),
        name_ok(q.name),
        question_wire(t, p.len() as int, q) matches Ok((bytes, _)) && extends(b, p + bytes),
    ensures
        question_wire(t, p.len() as int, q) matches Ok((bytes, t2)) && {
            &&& tally_ok(p + bytes, t2)
            &&& question_at(b, p.len() as int) == Ok::<(QuestionModel, int), DecodeError>(
                (q, (p.len() + bytes.len()) as int),
            )
        },
{
    let (nb, t2) = name_wire(t, p.len() as int, encode_utf8(q.name))->Ok_0;
    let (bytes, _) = question_wire(t, p.len() as int, q)->Ok_0;
    let pn = p + nb;
    assert(p + bytes =~= pn + (crate::encode::be16(q.qtype) + crate::encode::be16(q.qclass)));
    assert(extends(p + bytes, pn)) by {
        assert((p + bytes).subrange(0, pn.len() as int) =~= pn);
    }
    lemma_extends_trans(b, p + bytes, pn);
    lemma_text_roundtrip(t, p, q.name, b);
    lemma_tally_prefix(pn, p + bytes, t2);
    let at = pn.len() as int;
    assert(b[at] == (p + bytes)[at] && b[at + 1] == (p + bytes)[at + 1] && b[at + 2] == (p
        + bytes)[at + 2] && b[at + 3] == (p + bytes)[at + 3]) by {
        assert(b.subrange(0, (p + bytes).len() as int)[at] == b[at]);
        assert(b.subrange(0, (p + bytes).len() as int)[at + 1] == b[at + 1]);
        assert(b.subrange(0, (p + bytes).len() as int)[at + 2] == b[at + 2]);
        assert(b.subrange(0, (p + bytes).len() as int)[at + 3] == b[at + 3]);
    }
}

proof fn lemma_be32_reads_back(v: u32)
    ensures
        (v / 16777216) as u8 as int * 16777216 + ((v / 65536) % 256) as u8 as int * 65536 + ((v / 256)
            % 256) as u8 as int * 256 + (v % 256) as u8 as int == v,
{
    let a = v / 16777216;
    let b1 = (v / 65536) % 256;
    let c = (v / 256) % 256;
    let d = v % 256;
    assert(a < 256);
    assert(a * 16777216 + b1 * 65536 + c * 256 + d == v) by (nonlinear_arith)
        requires
            a == v / 16777216,
            b1 == (v / 65536) % 256,
            c == (v / 256) % 256,
            d == v % 256,
    ;
}

/// The fixed-size fields and the data of a record read back.
proof fn lemma_record_fields(b: Seq<u8>, at: int, r: RecordModel)
    requires
        0 <= at,
        r.rdlength == r.rdata.len(),
        at + 10 + r.rdata.len() <= b.len(),
        b.subrange(at, at + 10 + r.rdata.len()) == crate::encode::be16(r.rtype) + crate::encode::be16(
            r.rclass,
        ) + crate::encode::be32(r.ttl) + crate::encode::be16(r.rdlength) + r.rdata,
    ensures
        crate::decode::u16_at(b, at) == r.rtype,
        crate::decode::u16_at(b, at + 2) == r.rclass,
        crate::decode::u32_at(b, at + 4) == r.ttl,
        crate::decode::u16_at(b, at + 8) == r.rdlength,
        b.subrange(at + 10, at + 10 + r.rdata.len()) == r.rdata,
{
    let s = b.subrange(at, at + 10 + r.rdata.len());
    assert forall|k: int| 0 <= k < s.len() implies #[trigger] b[at + k] == s[k] by {}
    assert(b[at] == s[0] && b[at + 1] == s[1] && b[at + 2] == s[2] && b[at + 3] == s[3]);
    assert(b[at + 4] == s[4] && b[at + 5] == s[5] && b[at + 6] == s[6] && b[at + 7] == s[7]);
    assert(b[at + 8] == s[8] && b[at + 9] == s[9]);
    lemma_be32_reads_back(r.ttl);
    assert(b.subrange(at + 10, at + 10 + r.rdata.len()) =~= r.rdata) by {
        assert forall|k: int| 0 <= k < r.rdata.len() implies #[trigger] b.subrange(
            at + 10,
            at + 10 + r.rdata.len(),
        )[k] == r.rdata[k] by {
            assert(b[at + 10 + k] == s[10 + k]);
        }
    }
}

#[verifier::spinoff_prover]
proof fn lemma_record_roundtrip(t: Tally, p: Seq<u8>, r: RecordModel, b: Seq<u8>)
    requires
        tally_ok(p, t),
        record_ok(r),
        record_wire(t, p.len() as int, r) matches Ok((bytes, _)) && extends(b, p + bytes),
    ensures
        record_wire(t, p.len() as int, r) matches Ok((bytes, t2)) && {
            &&& tally_ok(p + bytes, t2)
            &&& record_at(b, p.len() as int) == Ok::<(RecordModel, int), DecodeError>(
                (r, (p.len() + bytes.len()) as int),
            )
        },
{
    let (nb, t2) = name_wire(t, p.len() as int, encode_utf8(r.name))->Ok_0;
    let (bytes, _) = record_wire(t, p.len() as int, r)->Ok_0;
    let pn = p + nb;
    let fixed = crate::encode::be16(r.rtype) + crate::encode::be16(r.rclass) + crate::encode::be32(r.ttl)
        + crate::encode::be16(r.rdlength);
    let w = p + bytes;
    assert(w =~= pn + (fixed + r.rdata));
    assert(extends(w, pn)) by {
        assert(w.subrange(0, pn.len() as int) =~= pn);
    }
    lemma_extends_trans(b, w, pn);
    lemma_text_roundtrip(t, p, r.name, b);
    lemma_tally_prefix(pn, w, t2);
    let at = pn.len() as int;
    assert(b.subrange(at, at + 10 + r.rdata.len()) =~= fixed + r.rdata) by {
        assert forall|k: int| 0 <= k < 10 + r.rdata.len() implies #[trigger] b.subrange(
            at,
            at + 10 + r.rdata.len(),
        )[k] == (fixed + r.rdata)[k] by {
            assert(b.subrange(0, w.len() as int)[at + k] == b[at + k]);
            assert(w[at + k] == (fixed + r.rdata)[k]);
        }
    }
    assert(fixed + r.rdata =~= crate::encode::be16(r.rtype) + crate::encode::be16(r.rclass)
        + crate::encode::be32(r.ttl) + crate::encode::be16(r.rdlength) + r.rdata);
    lemma_record_fields(b, at, r);
}


#[verifier::rlimit(100)]
#[verifier::spinoff_prover]
proof fn lemma_records_roundtrip(t: Tally, p: Seq<u8>, rs: Seq<RecordModel>, b: Seq<u8>)
    requires
        tally_ok(p, t),
        forall|i: int| 0 <= i < rs.len() ==> record_ok(#[trigger] rs[i]),
        records_wire(t, p.len() as int, rs) matches Ok((bytes, _)) && extends(b, p + bytes),
    ensures
        records_wire(t, p.len() as int, rs) matches Ok((bytes, t2)) && {
            &&& tally_ok(p + bytes, t2)
            &&& records_at(b, p.len() as int, rs.len()) == Ok::<(Seq<RecordModel>, int), DecodeError>(
                (rs, (p.len() + bytes.len()) as int),
            )
        },
    decreases rs.len(),
{
    if rs.len() == 0 {
        assert(p + seq![] =~= p);
        assert(rs =~= Seq::<RecordModel>::empty());
        return;
    }
    let (b0, t1) = record_wire(t, p.len() as int, rs[0])->Ok_0;
    let (bytes, _) = records_wire(t, p.len() as int, rs)->Ok_0;
    let p_next = p + b0;
    let (rest, t2) = records_wire(t1, p_next.len() as int, rs.drop_first())->Ok_0;
    assert(p + bytes =~= p_next + rest);
    assert(extends(p + bytes, p_next)) by {
        assert((p + bytes).subrange(0, p_next.len() as int) =~= p_next);
    }
    lemma_extends_trans(b, p + bytes, p_next);
    assert(record_ok(rs[0]));
    lemma_record_roundtrip(t, p, rs[0], b);
    assert forall|i: int| 0 <= i < rs.drop_first().len() implies record_ok(#[trigger] rs.drop_first()[i]) by {
        assert(rs.drop_first()[i] == rs[i + 1]);
    }
    lemma_records_roundtrip(t1, p_next, rs.drop_first(), b);
    assert(record_at(b, p.len() as int) == Ok::<(RecordModel, int), DecodeError>(
        (rs[0], p_next.len() as int),
    ));
    assert(records_at(b, p_next.len() as int, (rs.len() - 1) as nat) == Ok::<
        (Seq<RecordModel>, int),
        DecodeError,
    >((rs.drop_first(), (p_next.len() + rest.len()) as int)));
    assert(seq![rs[0]] + rs.drop_first() =~= rs);
    assert(bytes =~= b0 + rest);
    assert(records_at(b, p.len() as int, rs.len()) == Ok::<(Seq<RecordModel>, int), DecodeError>(
        (seq![rs[0]] + rs.drop_first(), (p_next.len() + rest.len()) as int),
    ));
}

#[verifier::rlimit(100)]
#[verifier::spinoff_prover]
proof fn lemma_questions_roundtrip(t: Tally, p: Seq<u8>, qs: Seq<QuestionModel>, b: Seq<u8>)
    requires
        tally_ok(p, t),
        p.len() == 12,
        qs.len() <= 1,
        forall|i: int| 0 <= i < qs.len() ==> name_ok(#[trigger] qs[i].name),
        questions_wire(t, p.len() as int, qs) matches Ok((bytes, _)) && extends(b, p + bytes),
    ensures
        questions_wire(t, p.len() as int, qs) matches Ok((bytes, t2)) && {
            &&& tally_ok(p + bytes, t2)
            &&& question_section(b, qs.len() as u16) == Ok::<(Seq<QuestionModel>, int), DecodeError>(
                (qs, (p.len() + bytes.len()) as int),
            )
        },
{
    if qs.len() == 0 {
        assert(p + seq![] =~= p);
        assert(qs =~= Seq::<QuestionModel>::empty());
        return;
    }
    let (b0, t1) = question_wire(t, 12, qs[0])->Ok_0;
    assert(qs.drop_first().len() == 0);
    assert(b0 + seq![] =~= b0);
    assert(questions_wire(t1, 12 + b0.len() as int, qs.drop_first()) == Ok::<
        (Seq<u8>, Tally),
        crate::encode::EncodeError,
    >((seq![], t1)));
    let (bytes, t2) = questions_wire(t, p.len() as int, qs)->Ok_0;
    assert(bytes == b0);
    lemma_question_roundtrip(t, p, qs[0], b);
    assert(seq![qs[0]] =~= qs);
    assert(qs.len() as u16 == 1);
    assert(question_at(b, 12) == Ok::<(QuestionModel, int), DecodeError>((qs[0], (12 + b0.len()) as int)));
}

/// A message that the reader gets back as written: each header count is the
/// length of its section, there is at most one question, and every name
/// and record is `name_ok` and `record_ok`.
pub open spec fn message_ok(m: MessageModel) -> bool {
    &&& m.header.qdcount == m.questions.len() <= 1
    &&& m.header.ancount == m.answers.len()
    &&& m.header.nscount == m.authorities.len()
    &&& m.header.arcount == m.additionals.len()
    &&& forall|i: int| 0 <= i < m.questions.len() ==> name_ok(#[trigger] m.questions[i].name)
    &&& forall|i: int| 0 <= i < m.answers.len() ==> record_ok(#[trigger] m.answers[i])
    &&& forall|i: int| 0 <= i < m.authorities.len() ==> record_ok(#[trigger] m.authorities[i])
    &&& forall|i: int| 0 <= i < m.additionals.len() ==> record_ok(#[trigger] m.additionals[i])
}

/// The reader assembles a message from its parts.
proof fn lemma_message_of_parts(b: Seq<u8>, m: MessageModel, upto_q: int, upto_an: int, upto_ns: int, upto_ar: int)
    requires
        b.len() >= 12,
        header_of(b) == m.header,
        m.header.qdcount < 2,
        question_section(b, m.header.qdcount) == Ok::<(Seq<QuestionModel>, int), DecodeError>(
            (m.questions, upto_q),
        ),
        records_at(b, upto_q, m.header.ancount as nat) == Ok::<(Seq<RecordModel>, int), DecodeError>(
            (m.answers, upto_an),
        ),
        records_at(b, upto_an, m.header.nscount as nat) == Ok::<(Seq<RecordModel>, int), DecodeError>(
            (m.authorities, upto_ns),
        ),
        records_at(b, upto_ns, m.header.arcount as nat) == Ok::<(Seq<RecordModel>, int), DecodeError>(
            (m.additionals, upto_ar),
        ),
    ensures
        message_of(b) == Ok::<MessageModel, DecodeError>(m),
{
}

/// The sections of a written message, each with the tally it leaves.
pub ghost struct WireParts {
    pub qb: Seq<u8>,
    pub t1: Tally,
    pub ab: Seq<u8>,
    pub t2: Tally,
    pub nb: Seq<u8>,
    pub t3: Tally,
    pub rb: Seq<u8>,
}

/// The bytes of a message are its header and the bytes of each section,
/// each section written with the tally the one before left.
proof fn lemma_message_wire_parts(m: MessageModel) -> (w: WireParts)
    requires
        message_wire(m) is Ok,
    ensures
        questions_wire(Seq::empty(), 12, m.questions) == Ok::<(Seq<u8>, Tally), crate::encode::EncodeError>(
            (w.qb, w.t1),
        ),
        records_wire(w.t1, (12 + w.qb.len()) as int, m.answers) == Ok::<(Seq<u8>, Tally), crate::encode::EncodeError>(
            (w.ab, w.t2),
        ),
        records_wire(w.t2, (12 + w.qb.len() + w.ab.len()) as int, m.authorities) == Ok::<
            (Seq<u8>, Tally),
            crate::encode::EncodeError,
        >((w.nb, w.t3)),
        records_wire(w.t3, (12 + w.qb.len() + w.ab.len() + w.nb.len()) as int, m.additionals) matches Ok((rb, _))
            && rb == w.rb,
        message_wire(m) == Ok::<Seq<u8>, crate::encode::EncodeError>(
            header_wire(m.header) + w.qb + w.ab + w.nb + w.rb,
        ),
{
    let (qb, t1) = questions_wire(Seq::empty(), 12, m.questions)->Ok_0;
    let (ab, t2) = records_wire(t1, (12 + qb.len()) as int, m.answers)->Ok_0;
    let (nb, t3) = records_wire(t2, (12 + qb.len() + ab.len()) as int, m.authorities)->Ok_0;
    let (rb, t4) = records_wire(t3, (12 + qb.len() + ab.len() + nb.len()) as int, m.additionals)->Ok_0;
    assert(header_wire(m.header).len() == 12);
    assert(header_wire(m.header) + qb + ab + nb + rb == header_wire(m.header) + qb + ab + nb + rb);
    WireParts { qb, t1, ab, t2, nb, t3, rb }
}

/// The sections written one after another read back as the message.
#[verifier::rlimit(100)]
#[verifier::spinoff_prover]
proof fn lemma_parts_read_back(m: MessageModel, w: WireParts)
    requires
        message_ok(m),
        questions_wire(Seq::empty(), 12, m.questions) == Ok::<(Seq<u8>, Tally), crate::encode::EncodeError>(
            (w.qb, w.t1),
        ),
        records_wire(w.t1, (12 + w.qb.len()) as int, m.answers) == Ok::<
            (Seq<u8>, Tally),
            crate::encode::EncodeError,
        >((w.ab, w.t2)),
        records_wire(w.t2, (12 + w.qb.len() + w.ab.len()) as int, m.authorities) == Ok::<
            (Seq<u8>, Tally),
            crate::encode::EncodeError,
        >((w.nb, w.t3)),
        records_wire(w.t3, (12 + w.qb.len() + w.ab.len() + w.nb.len()) as int, m.additionals) matches Ok(
            (rb, _),
        ) && rb == w.rb,
    ensures
        message_of(header_wire(m.header) + w.qb + w.ab + w.nb + w.rb) == Ok::<MessageModel, DecodeError>(m),
{
    let head = header_wire(m.header);
    let b = head + w.qb + w.ab + w.nb + w.rb;
    let t0 = Seq::<(Seq<u8>, u16)>::empty();
    let upto_q = head + w.qb;
    let upto_an = upto_q + w.ab;
    let upto_ns = upto_an + w.nb;
    assert(head.len() == 12);
    assert(extends(b, b)) by {
        assert(b.subrange(0, b.len() as int) =~= b);
    }
    assert(extends(b, upto_ns)) by {
        assert(b.subrange(0, upto_ns.len() as int) =~= upto_ns);
    }
    assert(extends(b, upto_an)) by {
        assert(b.subrange(0, upto_an.len() as int) =~= upto_an);
    }
    assert(extends(b, upto_q)) by {
        assert(b.subrange(0, upto_q.len() as int) =~= upto_q);
    }
    assert(tally_ok(head, t0));
    assert(tally_ok(upto_q, w.t1) && question_section(b, m.questions.len() as u16) == Ok::<
        (Seq<QuestionModel>, int),
        DecodeError,
    >((m.questions, upto_q.len() as int))) by {
        lemma_questions_roundtrip(t0, head, m.questions, b);
    }
    assert(tally_ok(upto_an, w.t2) && records_at(b, upto_q.len() as int, m.answers.len()) == Ok::<
        (Seq<RecordModel>, int),
        DecodeError,
    >((m.answers, upto_an.len() as int))) by {
        lemma_records_roundtrip(w.t1, upto_q, m.answers, b);
    }
    assert(tally_ok(upto_ns, w.t3) && records_at(b, upto_an.len() as int, m.authorities.len()) == Ok::<
        (Seq<RecordModel>, int),
        DecodeError,
    >((m.authorities, upto_ns.len() as int))) by {
        lemma_records_roundtrip(w.t2, upto_an, m.authorities, b);
    }
    assert(records_at(b, upto_ns.len() as int, m.additionals.len()) == Ok::<
        (Seq<RecordModel>, int),
        DecodeError,
    >((m.additionals, b.len() as int))) by {
        lemma_records_roundtrip(w.t3, upto_ns, m.additionals, b);
    }
    lemma_header_roundtrip(m.header, w.qb + w.ab + w.nb + w.rb);
    assert(b =~= head + (w.qb + w.ab + w.nb + w.rb));
    lemma_message_of_parts(b, m, upto_q.len() as int, upto_an.len() as int, upto_ns.len() as int, b.len() as int);
}

/// Reading what the writer wrote gives back the message: for a well-formed
/// message, compression pointers included.
pub proof fn lemma_decode_after_encode(m: MessageModel)
    requires
        message_ok(m),
        message_wire(m) is Ok,
    ensures
        message_of(message_wire(m)->Ok_0) == Ok::<MessageModel, DecodeError>(m),
{
    let w = lemma_message_wire_parts(m);
    lemma_parts_read_back(m, w);
}

/// Round trip: bytes in the writer's canonical form (each repeated name, or
/// dotted tail of a name, replaced by a pointer to its latest earlier
/// occurrence) that were written for a well-formed message read back as a
/// message that the writer turns into exactly those bytes again.
pub proof fn lemma_canonical_roundtrip(m: MessageModel, b: Seq<u8>)
    requires
        message_ok(m),
        message_wire(m) == Ok::<Seq<u8>, crate::encode::EncodeError>(b),
    ensures
        message_of(b) matches Ok(m2) && message_wire(m2) == Ok::<Seq<u8>, crate::encode::EncodeError>(b),
{
    lemma_decode_after_encode(m);
}

} // verus!
