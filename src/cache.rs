//! The answer cache: a store keyed by question whose entries expire after
//! the smallest TTL of their records, capped at a ceiling. Reads hand out a
//! copy whose TTLs are reduced by the seconds elapsed since insertion.
//! Time is passed in as whole seconds by the caller.
use vstd::prelude::*;
use crate::protocol::{Question, QuestionModel, RecordModel, ResourceRecord, records_model, copy_records};

verus! {

/// The longest time, in seconds, that an answer is trusted.
pub const MAX_TTL_SECONDS: u32 = 1800;

/// A record's TTL, capped at the ceiling.
pub open spec fn capped_ttl(ttl: u32) -> u32 {
    if ttl > MAX_TTL_SECONDS {
        MAX_TTL_SECONDS
    } else {
        ttl
    }
}

/// The records with each TTL capped at the ceiling.
pub open spec fn capped(rs: Seq<RecordModel>) -> Seq<RecordModel> {
    rs.map_values(|r: RecordModel| RecordModel { ttl: capped_ttl(r.ttl), ..r })
}

/// A TTL after `elapsed` seconds, floored at zero.
pub open spec fn decayed_ttl(ttl: u32, elapsed: u64) -> u32 {
    if elapsed < ttl {
        (ttl - elapsed) as u32
    } else {
        0
    }
}

/// The records with each TTL reduced by `elapsed` seconds, floored at zero.
pub open spec fn decayed(rs: Seq<RecordModel>, elapsed: u64) -> Seq<RecordModel> {
    rs.map_values(|r: RecordModel| RecordModel { ttl: decayed_ttl(r.ttl, elapsed), ..r })
}

/// `m` is the smallest TTL of `rs`, capped at the ceiling.
pub open spec fn is_capped_min_ttl(rs: Seq<RecordModel>, m: u32) -> bool {
    &&& forall|i: int| 0 <= i < rs.len() ==> m <= capped_ttl(#[trigger] rs[i].ttl)
    &&& exists|i: int| 0 <= i < rs.len() && m == capped_ttl(#[trigger] rs[i].ttl)
}

/// The smallest TTL of a non-empty list of records, capped at the ceiling.
pub open spec fn capped_min_ttl(rs: Seq<RecordModel>) -> u32 {
    choose|m: u32| is_capped_min_ttl(rs, m)
}

/// The capped minimum is unique.
pub proof fn lemma_capped_min_unique(rs: Seq<RecordModel>, m: u32)
    requires
        is_capped_min_ttl(rs, m),
    ensures
        capped_min_ttl(rs) == m,
{
    let c = capped_min_ttl(rs);
    assert(is_capped_min_ttl(rs, c));
    let i = choose|i: int| 0 <= i < rs.len() && m == capped_ttl(#[trigger] rs[i].ttl);
    let j = choose|j: int| 0 <= j < rs.len() && c == capped_ttl(#[trigger] rs[j].ttl);
    assert(m <= capped_ttl(rs[j].ttl));
    assert(c <= capped_ttl(rs[i].ttl));
}

/// The smallest TTL of the records, capped at the ceiling; `None` when
/// there is no record.
pub fn min_ttl(rr: &[ResourceRecord]) -> (r: Option<u32>)
    ensures
        r is None <==> rr@.len() == 0,
        r matches Some(m) ==> is_capped_min_ttl(records_model(rr@), m),
        r matches Some(m) ==> m == capped_min_ttl(records_model(rr@)),
{
    if rr.len() == 0 {
        return None;
    }
    let ghost rs = records_model(rr@);
    let mut m: u32 = rr[0].ttl;
    let mut k: usize = 0;
    let mut i: usize = 1;
    while i < rr.len()
        invariant
            1 <= i <= rr@.len(),
            rs == records_model(rr@),
            k < i,
            m == rr@[k as int].ttl,
            forall|j: int| 0 <= j < i ==> m <= #[trigger] rr@[j].ttl,
        decreases rr@.len() - i,
    {
        if rr[i].ttl < m {
            m = rr[i].ttl;
            k = i;
        }
        i = i + 1;
    }
    let c = if m > MAX_TTL_SECONDS {
        MAX_TTL_SECONDS
    } else {
        m
    };
    assert(rs[k as int].ttl == m);
    assert forall|i: int| 0 <= i < rs.len() implies c <= capped_ttl(#[trigger] rs[i].ttl) by {
        assert(rs[i].ttl == rr@[i].ttl);
    }
    proof {
        lemma_capped_min_unique(rs, c);
    }
    Some(c)
}

/// A snapshot of the answers to one question.
pub struct CacheEntry {
    answers: Vec<ResourceRecord>,
    inserted_at: u64,
    expires_at: u64,
}

pub ghost struct CacheEntryModel {
    pub answers: Seq<RecordModel>,
    pub inserted_at: u64,
    pub expires_at: u64,
}

impl View for CacheEntry {
    type V = CacheEntryModel;

    closed spec fn view(&self) -> CacheEntryModel {
        CacheEntryModel {
            answers: records_model(self.answers@),
            inserted_at: self.inserted_at,
            expires_at: self.expires_at,
        }
    }
}

/// The entry for `k`: the latest one in `s`.
pub open spec fn find_entry(s: Seq<(QuestionModel, CacheEntryModel)>, k: QuestionModel) -> Option<
    CacheEntryModel,
>
    decreases s.len(),
{
    if s.len() == 0 {
        None
    } else if s.last().0 == k {
        Some(s.last().1)
    } else {
        find_entry(s.drop_last(), k)
    }
}

/// What a read at time `now` returns for an entry.
pub open spec fn served(e: Option<CacheEntryModel>, now: u64) -> Option<Seq<RecordModel>> {
    match e {
        Some(e) => if now < e.expires_at {
            Some(decayed(e.answers, if now > e.inserted_at { (now - e.inserted_at) as u64 } else { 0 }))
        } else {
            None
        },
        None => None,
    }
}

/// The cache. Reads take `&self`; a caller shares it behind a lock.
pub struct DnsCache {
    entries: Vec<(Question, CacheEntry)>,
}

impl View for DnsCache {
    type V = Seq<(QuestionModel, CacheEntryModel)>;

    closed spec fn view(&self) -> Seq<(QuestionModel, CacheEntryModel)> {
        self.entries@.map_values(|e: (Question, CacheEntry)| (e.0@, e.1@))
    }
}

impl DnsCache {
    /// The entry stored for `q`, if any (expired or not).
    pub open spec fn entry(&self, q: QuestionModel) -> Option<CacheEntryModel> {
        find_entry(self@, q)
    }

    /// An empty cache.
    pub fn new() -> (r: DnsCache)
        ensures
            forall|q: QuestionModel| r.entry(q) is None,
    {
        let r = DnsCache { entries: Vec::new() };
        assert(r@ =~= Seq::<(QuestionModel, CacheEntryModel)>::empty());
        r
    }

    /// The index of the latest entry for `q`.
    fn position(&self, q: &Question) -> (r: Option<usize>)
        ensures
            match r {
                Some(i) => i < self@.len() && self@[i as int].0 == q@ && forall|j: int|
                    i < j < self@.len() ==> self@[j].0 != q@,
                None => self.entry(q@) is None,
            },
            r matches Some(i) ==> self.entry(q@) == Some(self@[i as int].1),
    {
        let mut k: usize = self.entries.len();
        assert(self@.subrange(0, k as int) =~= self@);
        while k > 0
            invariant
                k <= self@.len(),
                self@.len() == self.entries@.len(),
                forall|j: int| k <= j < self@.len() ==> self@[j].0 != q@,
                find_entry(self@, q@) == find_entry(self@.subrange(0, k as int), q@),
            decreases k,
        {
            let ghost pre = self@.subrange(0, k as int);
            assert(pre.drop_last() =~= self@.subrange(0, k - 1));
            let e = &self.entries[k - 1];
            assert(self@[k - 1] == (e.0@, e.1@));
            if question_eq(&e.0, q) {
                return Some(k - 1);
            }
            k = k - 1;
        }
        assert(self@.subrange(0, 0) =~= Seq::<(QuestionModel, CacheEntryModel)>::empty());
        None
    }
}

/// Looking up any key after the entry at `i`, the last for its key, is
/// given a new value.
proof fn lemma_find_after_update(
    s: Seq<(QuestionModel, CacheEntryModel)>,
    i: int,
    v: CacheEntryModel,
    k2: QuestionModel,
)
    requires
        0 <= i < s.len(),
        forall|j: int| i < j < s.len() ==> s[j].0 != s[i].0,
    ensures
        find_entry(s.update(i, (s[i].0, v)), k2) == if k2 == s[i].0 {
            Some(v)
        } else {
            find_entry(s, k2)
        },
    decreases s.len(),
{
    let t = s.update(i, (s[i].0, v));
    if i < s.len() - 1 {
        assert(t.drop_last() =~= s.drop_last().update(i, (s[i].0, v)));
        lemma_find_after_update(s.drop_last(), i, v, k2);
    } else {
        assert(t.drop_last() =~= s.drop_last());
    }
}

/// Caps each record's TTL at the ceiling. Nothing else changes.
pub fn normalise_ttl(answers: &mut Vec<ResourceRecord>)
    ensures
        records_model(final(answers)@) == capped(records_model(old(answers)@)),
{
    let mut i: usize = 0;
    while i < answers.len()
        invariant
            i <= answers@.len(),
            answers@.len() == old(answers)@.len(),
            forall|j: int| 0 <= j < i ==> #[trigger] answers@[j]@ == (RecordModel {
                ttl: capped_ttl(old(answers)@[j].ttl),
                ..old(answers)@[j]@
            }),
            forall|j: int| i <= j < answers@.len() ==> #[trigger] answers@[j] == old(answers)@[j],
        decreases answers@.len() - i,
    {
        let mut rr = answers[i].duplicate();
        if rr.ttl > MAX_TTL_SECONDS {
            rr.ttl = MAX_TTL_SECONDS;
        }
        answers.set(i, rr);
        i = i + 1;
    }
    assert(records_model(answers@) =~= capped(records_model(old(answers)@)));
}

/// Reduces each record's TTL by `elapsed` seconds, floored at zero.
pub fn decay_ttls(answers: &mut Vec<ResourceRecord>, elapsed: u64)
    ensures
        records_model(final(answers)@) == decayed(records_model(old(answers)@), elapsed),
{
    let mut i: usize = 0;
    while i < answers.len()
        invariant
            i <= answers@.len(),
            answers@.len() == old(answers)@.len(),
            forall|j: int| 0 <= j < i ==> #[trigger] answers@[j]@ == (RecordModel {
                ttl: decayed_ttl(old(answers)@[j].ttl, elapsed),
                ..old(answers)@[j]@
            }),
            forall|j: int| i <= j < answers@.len() ==> #[trigger] answers@[j] == old(answers)@[j],
        decreases answers@.len() - i,
    {
        let mut rr = answers[i].duplicate();
        rr.ttl = if elapsed < rr.ttl as u64 {
            (rr.ttl as u64 - elapsed) as u32
        } else {
            0
        };
        answers.set(i, rr);
        i = i + 1;
    }
    assert(records_model(answers@) =~= decayed(records_model(old(answers)@), elapsed));
}

/// `c1` is `c0` after storing `answers` for `q` at time `now`: with no
/// answers nothing changes; otherwise `q` maps to the new entry and every
/// other question keeps its entry.
pub open spec fn after_set(c0: DnsCache, c1: DnsCache, q: QuestionModel, answers: Seq<RecordModel>, now: u64) -> bool {
    &&& answers.len() == 0 ==> forall|k: QuestionModel| c1.entry(k) == c0.entry(k)
    &&& answers.len() > 0 ==> c1.entry(q) == Some(stored_entry(answers, now))
    &&& forall|k: QuestionModel| k != q ==> c1.entry(k) == c0.entry(k)
}

impl DnsCache {
    /// The answers stored for `question`, with each TTL reduced by the
    /// seconds elapsed since they were stored; `None` when there is no entry
    /// or it has expired at `now`. The stored entry is not changed.
    pub fn get(&self, question: &Question, now: u64) -> (r: Option<Vec<ResourceRecord>>)
        ensures
            match r {
                Some(v) => served(self.entry(question@), now) == Some(records_model(v@)),
                None => served(self.entry(question@), now) is None,
            },
    {
        match self.position(question) {
            None => None,
            Some(i) => {
                let e = &self.entries[i].1;
                assert(self@[i as int].1 == e@);
                if now >= e.expires_at {
                    return None;
                }
                let elapsed = now.saturating_sub(e.inserted_at);
                let mut answers = copy_records(&e.answers);
                decay_ttls(&mut answers, elapsed);
                Some(answers)
            },
        }
    }

    /// Stores a snapshot of `answers` for `question` at time `now`, with
    /// each TTL capped at the ceiling, replacing any earlier entry. It
    /// expires after the smallest capped TTL. With no answers nothing
    /// changes.
    pub fn set(&mut self, question: &Question, answers: Vec<ResourceRecord>, now: u64)
        ensures
            after_set(*old(self), *final(self), question@, records_model(answers@), now),
    {
        let m = match min_ttl(answers.as_slice()) {
            None => {
                return;
            },
            Some(m) => m,
        };
        let mut answers = answers;
        normalise_ttl(&mut answers);
        let entry = CacheEntry { answers, inserted_at: now, expires_at: now.saturating_add(m as u64) };
        let ghost ev = entry@;
        match self.position(question) {
            Some(i) => {
                let ghost s0 = self@;
                self.entries.set(i, (question.duplicate(), entry));
                assert(self@ =~= s0.update(i as int, (s0[i as int].0, ev)));
                assert forall|k: QuestionModel| #[trigger] self.entry(k) == if k == question@ {
                    Some(ev)
                } else {
                    find_entry(s0, k)
                } by {
                    lemma_find_after_update(s0, i as int, ev, k);
                }
            },
            None => {
                let ghost s0 = self@;
                self.entries.push((question.duplicate(), entry));
                assert(self@ =~= s0.push((question@, ev)));
                assert(self@.drop_last() =~= s0);
            },
        }
    }
}

/// The entry that `DnsCache::set` stores for `answers` at time `now`.
pub open spec fn stored_entry(answers: Seq<RecordModel>, now: u64) -> CacheEntryModel {
    CacheEntryModel {
        answers: capped(answers),
        inserted_at: now,
        expires_at: now.saturating_add(capped_min_ttl(answers) as u64),
    }
}

/// TTL decay: once answers are stored at `now`, a read `d` seconds later
/// returns them with every TTL reduced by `d` (floored at zero) while `d`
/// is below the smallest capped TTL, and misses from then on.
pub proof fn lemma_ttl_decay(c: DnsCache, q: QuestionModel, answers: Seq<RecordModel>, now: u64, d: u64)
    requires
        answers.len() > 0,
        c.entry(q) == Some(stored_entry(answers, now)),
        now + d <= u64::MAX,
        now + MAX_TTL_SECONDS <= u64::MAX,
    ensures
        served(c.entry(q), (now + d) as u64) == if d < capped_min_ttl(answers) {
            Some(decayed(capped(answers), d))
        } else {
            None
        },
{
    lemma_min_exists(answers);
    let m = capped_min_ttl(answers);
    assert(is_capped_min_ttl(answers, m));
    let i = choose|i: int| 0 <= i < answers.len() && m == capped_ttl(#[trigger] answers[i].ttl);
    assert(m <= MAX_TTL_SECONDS);
}

/// Some capped minimum exists for a non-empty list.
proof fn lemma_min_exists(rs: Seq<RecordModel>)
    requires
        rs.len() > 0,
    ensures
        exists|m: u32| is_capped_min_ttl(rs, m),
    decreases rs.len(),
{
    if rs.len() == 1 {
        assert(is_capped_min_ttl(rs, capped_ttl(rs[0].ttl)));
    } else {
        let rest = rs.drop_first();
        lemma_min_exists(rest);
        let m = choose|m: u32| is_capped_min_ttl(rest, m);
        let c0 = capped_ttl(rs[0].ttl);
        let k = choose|i: int| 0 <= i < rest.len() && m == capped_ttl(#[trigger] rest[i].ttl);
        assert(rest[k] == rs[k + 1]);
        if c0 <= m {
            assert forall|i: int| 0 <= i < rs.len() implies c0 <= capped_ttl(#[trigger] rs[i].ttl) by {
                if i > 0 {
                    assert(rs[i] == rest[i - 1]);
                }
            }
            assert(is_capped_min_ttl(rs, c0));
        } else {
            assert forall|i: int| 0 <= i < rs.len() implies m <= capped_ttl(#[trigger] rs[i].ttl) by {
                if i > 0 {
                    assert(rs[i] == rest[i - 1]);
                }
            }
            assert(is_capped_min_ttl(rs, m));
        }
    }
}

/// TTL ceiling: whatever a read returns after answers were stored, no
/// record's TTL exceeds the ceiling, however large it was when stored.
pub proof fn lemma_ttl_ceiling(c: DnsCache, q: QuestionModel, answers: Seq<RecordModel>, now: u64, t: u64)
    requires
        c.entry(q) == Some(stored_entry(answers, now)),
    ensures
        forall|i: int| 0 <= i < capped(answers).len() ==> #[trigger] capped(answers)[i].ttl <= MAX_TTL_SECONDS,
        served(c.entry(q), t) matches Some(rs) ==> forall|i: int|
            0 <= i < rs.len() ==> #[trigger] rs[i].ttl <= MAX_TTL_SECONDS,
{
}

/// Whether two questions are the same key.
fn question_eq(a: &Question, b: &Question) -> (r: bool)
    ensures
        r == (a@ == b@),
{
    let same_name = a.qname == b.qname;
    same_name && a.qtype == b.qtype && a.qclass == b.qclass
}

} // verus!
