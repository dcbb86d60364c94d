use vstd::multiset::Multiset;
use vstd::prelude::*;

verus! {

/// Why a domain could not be resolved.
#[derive(Clone, Copy, Debug, PartialEq, Eq, Structural)]
pub enum DnsFailure {
    NotFound,
    Timeout,
    NoAddresses,
}

/// The kind of record an answer is for.
#[derive(Clone, Copy, Debug, PartialEq, Eq, Structural)]
pub enum RecordType {
    /// Mail exchangers, as host names.
    Mx,
    /// Network addresses of a host, as text.
    Addr,
}

/// A cached answer for one domain and record type: the values, or the
/// failure that a resolution met, valid until `expires`.
#[derive(Debug)]
pub struct DnsEntry {
    pub domain: String,
    pub rtype: RecordType,
    pub answer: Result<Vec<String>, DnsFailure>,
    pub expires: u64,
}

/// Bounds on how long an answer is kept, in seconds.
#[derive(Clone, Copy, Debug, PartialEq, Eq, Structural)]
pub struct DnsCacheConfig {
    /// Shortest time a successful answer is kept, whatever its TTL.
    pub min_ttl: u64,
    /// Longest time a successful answer is kept, whatever its TTL.
    pub max_ttl: u64,
    /// How long a failed resolution is kept.
    pub negative_ttl: u64,
}

/// How long an answer advertised with `ttl` is kept.
pub open spec fn effective_ttl(cfg: DnsCacheConfig, ttl: u64, positive: bool) -> u64 {
    if !positive {
        cfg.negative_ttl
    } else if ttl < cfg.min_ttl {
        cfg.min_ttl
    } else if ttl > cfg.max_ttl && cfg.max_ttl >= cfg.min_ttl {
        cfg.max_ttl
    } else {
        ttl
    }
}

/// `now + ttl`, held at the largest timestamp.
pub open spec fn expiry_of(now: u64, ttl: u64) -> u64 {
    if now + ttl <= u64::MAX {
        (now + ttl) as u64
    } else {
        u64::MAX
    }
}

/// What answers are keyed by: a domain and a record type.
pub type DnsKey = (Seq<char>, RecordType);

pub open spec fn entry_key(e: DnsEntry) -> DnsKey {
    (e.domain@, e.rtype)
}

/// Answers keyed by domain and record type, each one served only until it
/// expires.
pub struct DnsCache {
    pub entries: Vec<DnsEntry>,
    pub cfg: DnsCacheConfig,
}

impl DnsCache {
    /// No key has two entries.
    pub open spec fn wf(&self) -> bool {
        forall|i: int, j: int|
            0 <= i < j < self.entries@.len() ==> entry_key(self.entries@[i])
                != entry_key(self.entries@[j])
    }

    pub open spec fn has_entry(&self, d: DnsKey) -> bool {
        exists|i: int| 0 <= i < self.entries@.len() && #[trigger] entry_key(self.entries@[i]) == d
    }

    /// The entry held for domain `d`, fresh or stale.
    pub open spec fn entry_for(&self, d: DnsKey) -> Option<DnsEntry> {
        if self.has_entry(d) {
            let i = choose|i: int|
                0 <= i < self.entries@.len() && #[trigger] entry_key(self.entries@[i]) == d;
            Some(self.entries@[i])
        } else {
            None
        }
    }

    /// What a lookup of `d` at `now` is served from the cache: nothing where
    /// no entry is held or the one held has expired.
    pub open spec fn lookup_spec(&self, d: DnsKey, now: u64) -> Option<
        Result<Vec<String>, DnsFailure>,
    > {
        match self.entry_for(d) {
            Some(e) => if now < e.expires {
                Some(e.answer)
            } else {
                None
            },
            None => None,
        }
    }

    pub proof fn lemma_entry_at(&self, i: int)
        requires
            self.wf(),
            0 <= i < self.entries@.len(),
        ensures
            self.entry_for(entry_key(self.entries@[i])) == Some(self.entries@[i]),
    {
        let d = entry_key(self.entries@[i]);
        assert(self.has_entry(d));
    }

    pub fn new(cfg: DnsCacheConfig) -> (r: DnsCache)
        ensures
            r.wf(),
            r.cfg == cfg,
            forall|d: DnsKey| #[trigger] r.entry_for(d) is None,
    {
        DnsCache { entries: Vec::new(), cfg }
    }

    fn position(&self, domain: &String, rtype: RecordType) -> (r: Option<usize>)
        ensures
            match r {
                Some(i) => i < self.entries@.len() && entry_key(self.entries@[i as int]) == (
                    domain@,
                    rtype,
                ),
                None => !self.has_entry((domain@, rtype)),
            },
    {
        let mut i: usize = 0;
        while i < self.entries.len()
            invariant
                i <= self.entries@.len(),
                forall|j: int| 0 <= j < i ==> entry_key(self.entries@[j]) != (domain@, rtype),
            decreases self.entries@.len() - i,
        {
            if self.entries[i].domain == *domain && self.entries[i].rtype == rtype {
                return Some(i);
            }
            i = i + 1;
        }
        None
    }

    /// Serves the `rtype` records of `domain` from the cache at `now`; `None`
    /// means a fresh query is due.
    pub fn lookup(&self, domain: &String, rtype: RecordType, now: u64) -> (r: Option<
        &Result<Vec<String>, DnsFailure>,
    >)
        requires
            self.wf(),
        ensures
            r matches Some(a) ==> self.lookup_spec((domain@, rtype), now) == Some(*a),
            r is None ==> self.lookup_spec((domain@, rtype), now) is None,
    {
        match self.position(domain, rtype) {
            Some(i) => {
                proof {
                    self.lemma_entry_at(i as int);
                }
                if now < self.entries[i].expires {
                    Some(&self.entries[i].answer)
                } else {
                    None
                }
            },
            None => None,
        }
    }

    /// Records the answer of a resolution made at `now` with advertised `ttl`,
    /// replacing any entry that `domain` had for `rtype`.
    pub fn insert(
        &mut self,
        domain: String,
        rtype: RecordType,
        answer: Result<Vec<String>, DnsFailure>,
        now: u64,
        ttl: u64,
    )
        requires
            old(self).wf(),
        ensures
            final(self).wf(),
            final(self).cfg == old(self).cfg,
            final(self).entry_for((domain@, rtype)) == Some(
                DnsEntry {
                    domain,
                    rtype,
                    answer,
                    expires: expiry_of(now, effective_ttl(old(self).cfg, ttl, answer is Ok)),
                },
            ),
            forall|d: DnsKey|
                d != (domain@, rtype) ==> #[trigger] final(self).entry_for(d) == old(self).entry_for(
                    d,
                ),
    {
        let keep = if answer.is_ok() {
            if ttl < self.cfg.min_ttl {
                self.cfg.min_ttl
            } else if ttl > self.cfg.max_ttl && self.cfg.max_ttl >= self.cfg.min_ttl {
                self.cfg.max_ttl
            } else {
                ttl
            }
        } else {
            self.cfg.negative_ttl
        };
        let expires = if keep <= u64::MAX - now {
            now + keep
        } else {
            u64::MAX
        };
        let pos = self.position(&domain, rtype);
        let ghost old_cache = *self;
        let entry = DnsEntry { domain, rtype, answer, expires };
        let ghost e = entry;
        let i: usize = match pos {
            Some(i) => {
                self.entries.set(i, entry);
                i
            },
            None => {
                self.entries.push(entry);
                (self.entries.len() - 1) as usize
            },
        };
        proof {
            assert(self.entries@[i as int] == e);
            self.lemma_entry_at(i as int);
            assert forall|d: DnsKey|
                d != entry_key(e) implies #[trigger] self.entry_for(d) == old_cache.entry_for(d) by {
                if old_cache.has_entry(d) {
                    let j = choose|j: int|
                        0 <= j < old_cache.entries@.len() && #[trigger] entry_key(old_cache.entries@[j])
                            == d;
                    old_cache.lemma_entry_at(j);
                    assert(self.entries@[j] == old_cache.entries@[j]);
                    self.lemma_entry_at(j);
                } else if self.has_entry(d) {
                    let j = choose|j: int|
                        0 <= j < self.entries@.len() && #[trigger] entry_key(self.entries@[j]) == d;
                    if j != i {
                        assert(entry_key(old_cache.entries@[j]) == d);
                    }
                }
            }
        }
    }
}

/// An answer is served from the cache, with no new query, from the moment it
/// is stored until its expiry; from then on a fresh query is due.
pub proof fn law_dns_cache_ttl(
    c: DnsCache,
    domain: String,
    rtype: RecordType,
    answer: Result<Vec<String>, DnsFailure>,
    now: u64,
    ttl: u64,
    t: u64,
)
    requires
        c.entry_for((domain@, rtype)) == Some(
            DnsEntry {
                domain,
                rtype,
                answer,
                expires: expiry_of(now, effective_ttl(c.cfg, ttl, answer is Ok)),
            },
        ),
    ensures
        t < expiry_of(now, effective_ttl(c.cfg, ttl, answer is Ok)) ==> c.lookup_spec((domain@, rtype), t)
            == Some(answer),
        t >= expiry_of(now, effective_ttl(c.cfg, ttl, answer is Ok)) ==> c.lookup_spec((domain@, rtype), t)
            is None,
{
}

/// A mail exchanger of a domain and its preference: lower is tried first.
#[derive(Clone, Debug, PartialEq, Eq)]
pub struct MxRecord {
    pub preference: u16,
    pub exchange: String,
}

/// Lexicographic order on texts, character by character.
pub open spec fn text_lt(a: Seq<char>, b: Seq<char>) -> bool
    decreases a.len(),
{
    if a.len() == 0 {
        b.len() > 0
    } else if b.len() == 0 {
        false
    } else if a[0] != b[0] {
        a[0] < b[0]
    } else {
        text_lt(a.drop_first(), b.drop_first())
    }
}

pub proof fn lemma_text_lt_asym(a: Seq<char>, b: Seq<char>)
    requires
        text_lt(a, b),
    ensures
        !text_lt(b, a),
    decreases a.len(),
{
    if a.len() > 0 && b.len() > 0 && a[0] == b[0] {
        lemma_text_lt_asym(a.drop_first(), b.drop_first());
    }
}

pub proof fn lemma_text_lt_trans(a: Seq<char>, b: Seq<char>, c: Seq<char>)
    requires
        text_lt(a, b),
        text_lt(b, c),
    ensures
        text_lt(a, c),
    decreases a.len(),
{
    if a.len() > 0 && b.len() > 0 && c.len() > 0 && a[0] == b[0] && b[0] == c[0] {
        lemma_text_lt_trans(a.drop_first(), b.drop_first(), c.drop_first());
    }
}

/// The order in which exchangers are tried: by preference, then by name.
pub open spec fn mx_lt(x: MxRecord, y: MxRecord) -> bool {
    x.preference < y.preference || (x.preference == y.preference && text_lt(
        x.exchange@,
        y.exchange@,
    ))
}

pub open spec fn mx_sorted(s: Seq<MxRecord>) -> bool {
    forall|i: int, j: int| 0 <= i < j < s.len() ==> !mx_lt(#[trigger] s[j], #[trigger] s[i])
}

proof fn lemma_mx_lt_asym(x: MxRecord, y: MxRecord)
    requires
        mx_lt(x, y),
    ensures
        !mx_lt(y, x),
{
    if x.preference == y.preference {
        lemma_text_lt_asym(x.exchange@, y.exchange@);
    }
}

proof fn lemma_mx_lt_trans(x: MxRecord, y: MxRecord, z: MxRecord)
    requires
        mx_lt(x, y),
        mx_lt(y, z),
    ensures
        mx_lt(x, z),
{
    if x.preference == y.preference && y.preference == z.preference {
        lemma_text_lt_trans(x.exchange@, y.exchange@, z.exchange@);
    }
}

fn text_less(a: &String, b: &String) -> (r: bool)
    ensures
        r == text_lt(a@, b@),
{
    let ca = crate::text::chars_of(a.as_str());
    let cb = crate::text::chars_of(b.as_str());
    let mut i: usize = 0;
    proof {
        assert(a@.subrange(0, a@.len() as int) =~= a@);
        assert(b@.subrange(0, b@.len() as int) =~= b@);
    }
    while i < ca.len() && i < cb.len() && ca[i] == cb[i]
        invariant
            ca@ == a@,
            cb@ == b@,
            i <= ca@.len(),
            i <= cb@.len(),
            text_lt(a@, b@) == text_lt(a@.subrange(i as int, a@.len() as int), b@.subrange(
                i as int,
                b@.len() as int,
            )),
        decreases ca@.len() - i,
    {
        proof {
            assert(a@.subrange(i as int, a@.len() as int).drop_first() =~= a@.subrange(
                i + 1,
                a@.len() as int,
            ));
            assert(b@.subrange(i as int, b@.len() as int).drop_first() =~= b@.subrange(
                i + 1,
                b@.len() as int,
            ));
        }
        i = i + 1;
    }
    if i == ca.len() {
        i < cb.len()
    } else if i == cb.len() {
        false
    } else {
        ca[i] < cb[i]
    }
}

fn mx_less(x: &MxRecord, y: &MxRecord) -> (r: bool)
    ensures
        r == mx_lt(*x, *y),
{
    x.preference < y.preference || (x.preference == y.preference && text_less(
        &x.exchange,
        &y.exchange,
    ))
}

/// Puts mail exchangers in the order they are tried: ascending preference,
/// ties by name.
pub fn order_mx(records: Vec<MxRecord>) -> (r: Vec<MxRecord>)
    ensures
        mx_sorted(r@),
        r@.to_multiset() == records@.to_multiset(),
{
    broadcast use vstd::seq_lib::group_to_multiset_ensures;

    let mut rest = records;
    let mut out: Vec<MxRecord> = Vec::new();
    while rest.len() > 0
        invariant
            mx_sorted(out@),
            out@.to_multiset().add(rest@.to_multiset()) == records@.to_multiset(),
        decreases rest@.len(),
    {
        let ghost before = rest@;
        let x = rest.pop().unwrap();
        proof {
            assert(before =~= rest@.push(x));
        }
        let mut p: usize = 0;
        while p < out.len() && !mx_less(&x, &out[p])
            invariant
                p <= out@.len(),
                forall|i: int| 0 <= i < p ==> !mx_lt(x, #[trigger] out@[i]),
            decreases out@.len() - p,
        {
            p = p + 1;
        }
        let ghost prev = out@;
        out.insert(p, x);
        proof {
            assert forall|i: int, j: int| 0 <= i < j < out@.len() implies !mx_lt(
                #[trigger] out@[j],
                #[trigger] out@[i],
            ) by {
                if j == p {
                    assert(out@[i] == prev[i]);
                } else if i == p {
                    assert(out@[j] == prev[j - 1]);
                    assert(mx_lt(x, prev[p as int]));
                    if j - 1 == p {
                        lemma_mx_lt_asym(x, prev[p as int]);
                    } else {
                        assert(!mx_lt(prev[j - 1], prev[p as int]));
                        if mx_lt(prev[j - 1], x) {
                            lemma_mx_lt_trans(prev[j - 1], x, prev[p as int]);
                        }
                    }
                } else {
                    let pi = if i < p { i } else { i - 1 };
                    let pj = if j < p { j } else { j - 1 };
                    assert(out@[i] == prev[pi]);
                    assert(out@[j] == prev[pj]);
                }
            }
            vstd::seq_lib::to_multiset_insert(prev, p as int, x);
            assert(out@ == prev.insert(p as int, x));
            vstd::seq_lib::to_multiset_build(rest@, x);
            assert(out@.to_multiset().add(rest@.to_multiset()) =~= prev.to_multiset().add(before.to_multiset()));
        }
    }
    proof {
        assert(rest@.to_multiset() =~= Multiset::empty());
        assert(out@.to_multiset().add(Multiset::empty()) =~= out@.to_multiset());
    }
    out
}

} // verus!
