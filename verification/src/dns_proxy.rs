//! Decisions of the local DNS proxy: which queries are blocked, what the
//! response cache serves, and the byte framing of DNS over TCP.

use std::collections::HashMap;

use vstd::prelude::*;

use crate::dns_message::{blocked_response, spec_blocked_response};
use crate::text::{
    chars_of, class_pred, index_before, lemma_len_before, len_before, lower_seq, lowered_range,
    skip_end, string_from_chars, trim_end_while, CharClass,
};

verus! {

broadcast use vstd::std_specs::hash::group_hash_axioms;

/// Initial value of the bucket hash.
pub const HASH_SEED: u64 = 0xcbf2_9ce4_8422_2325;

pub open spec fn mix(h: u64, c: char) -> u64 {
    ((h << 5u64) | (h >> 59u64)) ^ (c as u64)
}

/// The bucket of a domain in a `DomainSet`.
pub open spec fn domain_hash(s: Seq<char>) -> u64
    decreases s.len(),
{
    if s.len() == 0 {
        HASH_SEED
    } else {
        mix(domain_hash(s.drop_last()), s.last())
    }
}

fn hash_range(v: &Vec<char>, lo: usize, hi: usize) -> (h: u64)
    requires
        lo <= hi <= v.len(),
    ensures
        h == domain_hash(v@.subrange(lo as int, hi as int)),
{
    let mut h: u64 = HASH_SEED;
    let mut i = lo;
    assert(v@.subrange(lo as int, lo as int) =~= Seq::<char>::empty());
    while i < hi
        invariant
            lo <= i <= hi <= v.len(),
            h == domain_hash(v@.subrange(lo as int, i as int)),
        decreases hi - i,
    {
        let c = v[i];
        h = ((h << 5u64) | (h >> 59u64)) ^ (c as u64);
        assert(v@.subrange(lo as int, i + 1).drop_last() =~= v@.subrange(lo as int, i as int));
        i += 1;
    }
    h
}

fn same_chars(a: &Vec<char>, v: &Vec<char>, lo: usize, hi: usize) -> (res: bool)
    requires
        lo <= hi <= v.len(),
    ensures
        res == (a@ == v@.subrange(lo as int, hi as int)),
{
    if a.len() != hi - lo {
        return false;
    }
    let mut i: usize = 0;
    while i < a.len()
        invariant
            a.len() == hi - lo,
            lo <= hi <= v.len(),
            i <= a.len(),
            forall|j: int| 0 <= j < i ==> a@[j] == v@[lo + j],
        decreases a.len() - i,
    {
        if a[i] != v[lo + i] {
            assert(v@.subrange(lo as int, hi as int)[i as int] != a@[i as int]);
            return false;
        }
        i += 1;
    }
    assert(a@ =~= v@.subrange(lo as int, hi as int));
    true
}

/// A set of domain names, hashed into buckets for lookup.
pub struct DomainSet {
    members: Vec<Vec<char>>,
    buckets: HashMap<u64, Vec<usize>>,
}

impl View for DomainSet {
    type V = Set<Seq<char>>;

    closed spec fn view(&self) -> Set<Seq<char>> {
        Set::new(|d: Seq<char>| exists|i: int| 0 <= i < self.members@.len() && self.members@[i]@ == d)
    }
}

impl DomainSet {
    /// Every member is in the bucket of its hash, and buckets only index members of that hash.
    pub closed spec fn wf(&self) -> bool {
        &&& forall|k: u64, j: int|
            #![trigger self.buckets@[k]@[j]]
            self.buckets@.contains_key(k) && 0 <= j < self.buckets@[k]@.len() ==> {
                &&& self.buckets@[k]@[j] < self.members@.len()
                &&& domain_hash(self.members@[self.buckets@[k]@[j] as int]@) == k
            }
        &&& forall|i: int|
            #![trigger self.members@[i]]
            0 <= i < self.members@.len() ==> {
                &&& self.buckets@.contains_key(domain_hash(self.members@[i]@))
                &&& self.buckets@[domain_hash(self.members@[i]@)]@.contains(i as usize)
            }
    }

    pub fn new() -> (s: Self)
        ensures
            s.wf(),
            s@ == Set::<Seq<char>>::empty(),
    {
        let s = DomainSet { members: Vec::new(), buckets: HashMap::new() };
        assert(s@ =~= Set::<Seq<char>>::empty());
        s
    }

    /// Whether `v[lo..hi]` is a member.
    pub fn contains_range(&self, v: &Vec<char>, lo: usize, hi: usize) -> (res: bool)
        requires
            self.wf(),
            lo <= hi <= v.len(),
        ensures
            res == self@.contains(v@.subrange(lo as int, hi as int)),
    {
        let ghost d = v@.subrange(lo as int, hi as int);
        let h = hash_range(v, lo, hi);
        match self.buckets.get(&h) {
            None => {
                assert(!self@.contains(d)) by {
                    if self@.contains(d) {
                        let i = choose|i: int| 0 <= i < self.members@.len() && self.members@[i]@ == d;
                        assert(self.members@[i]@ == d);
                    }
                }
                false
            },
            Some(bucket) => {
                let mut j: usize = 0;
                while j < bucket.len()
                    invariant
                        self.wf(),
                        lo <= hi <= v.len(),
                        d == v@.subrange(lo as int, hi as int),
                        h == domain_hash(d),
                        self.buckets@.contains_key(h),
                        bucket@ == self.buckets@[h]@,
                        j <= bucket.len(),
                        forall|k: int| 0 <= k < j ==> self.members@[bucket@[k] as int]@ != d,
                    decreases bucket.len() - j,
                {
                    let idx = bucket[j];
                    assert(self.buckets@[h]@[j as int] == idx);
                    if same_chars(&self.members[idx], v, lo, hi) {
                        return true;
                    }
                    j += 1;
                }
                assert(!self@.contains(d)) by {
                    if self@.contains(d) {
                        let i = choose|i: int| 0 <= i < self.members@.len() && self.members@[i]@ == d;
                        assert(self.members@[i]@ == d);
                        assert(domain_hash(self.members@[i]@) == h);
                        assert(self.buckets@[h]@.contains(i as usize));
                        assert(bucket@.contains(i as usize));
                        assert(self.members.len() == self.members@.len());
                        let iu = i as usize;
                        assert(exists|k: int| 0 <= k < bucket@.len() && bucket@[k] == iu);
                        let k = choose|k: int| 0 <= k < bucket@.len() && bucket@[k] == iu;
                        assert(bucket@[k] as int == i);
                        assert(self.members@[bucket@[k] as int]@ == d);
                        assert(k < j);
                    }
                }
                false
            },
        }
    }

    /// Adds a domain given as characters.
    pub fn insert_chars(&mut self, d: Vec<char>)
        requires
            old(self).wf(),
        ensures
            final(self).wf(),
            final(self)@ == old(self)@.insert(d@),
    {
        let n = d.len();
        if self.contains_range(&d, 0, n) {
            assert(d@.subrange(0, n as int) =~= d@);
            assert(self@ =~= old(self)@.insert(d@));
            return;
        }
        assert(d@.subrange(0, n as int) =~= d@);
        let h = hash_range(&d, 0, n);
        let idx = self.members.len();
        let ghost old_members = self.members@;
        let ghost old_buckets = self.buckets@;
        self.members.push(d);
        let mut bucket = match self.buckets.remove(&h) {
            Some(b) => b,
            None => Vec::new(),
        };
        let ghost old_bucket = bucket@;
        assert(old_buckets.contains_key(h) ==> old_bucket == old_buckets[h]@);
        assert(!old_buckets.contains_key(h) ==> old_bucket == Seq::<usize>::empty());
        bucket.push(idx);
        self.buckets.insert(h, bucket);
        assert forall|k: u64, j: int|
            #![trigger self.buckets@[k]@[j]]
            self.buckets@.contains_key(k) && 0 <= j < self.buckets@[k]@.len() implies {
                &&& self.buckets@[k]@[j] < self.members@.len()
                &&& domain_hash(self.members@[self.buckets@[k]@[j] as int]@) == k
            } by {
            if k == h {
                if j < old_bucket.len() {
                    assert(self.buckets@[k]@[j] == old_buckets[k]@[j]);
                }
            } else {
                assert(self.buckets@[k] == old_buckets[k]);
                assert(old_buckets[k]@[j] < old_members.len());
            }
        }
        assert forall|i: int|
            #![trigger self.members@[i]]
            0 <= i < self.members@.len() implies {
                &&& self.buckets@.contains_key(domain_hash(self.members@[i]@))
                &&& self.buckets@[domain_hash(self.members@[i]@)]@.contains(i as usize)
            } by {
            if i < old_members.len() {
                assert(self.members@[i] == old_members[i]);
                let hk = domain_hash(old_members[i]@);
                assert(old_buckets.contains_key(hk));
                assert(old_buckets[hk]@.contains(i as usize));
                let k = choose|k: int| 0 <= k < old_buckets[hk]@.len() && old_buckets[hk]@[k] == i as usize;
                if hk == h {
                    assert(self.buckets@[hk]@[k] == i as usize);
                } else {
                    assert(self.buckets@[hk] == old_buckets[hk]);
                    assert(self.buckets@[hk]@[k] == i as usize);
                }
            } else {
                assert(self.buckets@[h]@[old_bucket.len() as int] == idx);
            }
        }
        assert forall|x: Seq<char>| #[trigger] self@.contains(x) == old(self)@.insert(d@).contains(x) by {
            if exists|i: int| 0 <= i < old_members.len() && old_members[i]@ == x {
                let i = choose|i: int| 0 <= i < old_members.len() && old_members[i]@ == x;
                assert(self.members@[i]@ == x);
            }
            if exists|i: int| 0 <= i < self.members@.len() && self.members@[i]@ == x {
                let i = choose|i: int| 0 <= i < self.members@.len() && self.members@[i]@ == x;
                if i < old_members.len() {
                    assert(old_members[i]@ == x);
                }
            }
            assert(self.members@[idx as int]@ == d@);
        }
        assert(self@ =~= old(self)@.insert(d@));
    }
}

} // verus!

verus! {

impl DomainSet {
    /// Whether every member of `self` is a member of `other`.
    pub fn is_subset_of(&self, other: &DomainSet) -> (res: bool)
        requires
            self.wf(),
            other.wf(),
        ensures
            res == self@.subset_of(other@),
    {
        let mut i: usize = 0;
        while i < self.members.len()
            invariant
                self.wf(),
                other.wf(),
                i <= self.members.len(),
                forall|k: int| 0 <= k < i ==> other@.contains(#[trigger] self.members@[k]@),
            decreases self.members.len() - i,
        {
            let m = &self.members[i];
            let n = m.len();
            assert(m@.subrange(0, n as int) =~= m@);
            if !other.contains_range(m, 0, n) {
                assert(self@.contains(m@));
                return false;
            }
            i += 1;
        }
        assert forall|d: Seq<char>| self@.contains(d) implies other@.contains(d) by {
            let k = choose|k: int| 0 <= k < self.members@.len() && self.members@[k]@ == d;
            assert(other@.contains(self.members@[k]@));
        }
        true
    }

    /// Whether the two sets hold the same domains.
    pub fn same_domains(&self, other: &DomainSet) -> (res: bool)
        requires
            self.wf(),
            other.wf(),
        ensures
            res == (self@ == other@),
    {
        let a = self.is_subset_of(other);
        let b = other.is_subset_of(self);
        if a && b {
            assert(self@ =~= other@);
        }
        a && b
    }
}

/// The set of the lower-cased names.
pub open spec fn lowered_names(domains: Seq<String>) -> Set<Seq<char>> {
    Set::new(
        |d: Seq<char>| exists|i: int| 0 <= i < domains.len() && d == lower_seq(#[trigger] domains[i]@),
    )
}

/// The set that the proxy matches queries against: the enabled blocklist
/// names, lower-cased.
pub fn blocklist_set(domains: Vec<String>) -> (set: DomainSet)
    ensures
        set.wf(),
        set@ == lowered_names(domains@),
{
    let mut set = DomainSet::new();
    let mut i: usize = 0;
    while i < domains.len()
        invariant
            i <= domains.len(),
            set.wf(),
            set@ == lowered_names(domains@.take(i as int)),
        decreases domains.len() - i,
    {
        let v = chars_of(domains[i].as_str());
        let n = v.len();
        let lowered = lowered_range(&v, 0, n);
        assert(v@.subrange(0, n as int) =~= v@);
        set.insert_chars(lowered);
        assert(set@ =~= lowered_names(domains@.take(i + 1))) by {
            assert forall|d: Seq<char>|
                #[trigger] lowered_names(domains@.take(i + 1)).contains(d) implies set@.contains(d) by {
                let k = choose|k: int|
                    0 <= k < domains@.take(i + 1).len() && d == lower_seq(
                        #[trigger] domains@.take(i + 1)[k]@,
                    );
                if k < i {
                    assert(domains@.take(i as int)[k] == domains@.take(i + 1)[k]);
                    assert(lowered_names(domains@.take(i as int)).contains(d));
                }
            }
            assert forall|d: Seq<char>|
                #[trigger] set@.contains(d) implies lowered_names(domains@.take(i + 1)).contains(d) by {
                if d != lower_seq(domains@[i as int]@) {
                    assert(lowered_names(domains@.take(i as int)).contains(d));
                    let k = choose|k: int|
                        0 <= k < domains@.take(i as int).len() && d == lower_seq(
                            #[trigger] domains@.take(i as int)[k]@,
                        );
                    assert(domains@.take(i as int)[k] == domains@.take(i + 1)[k]);
                } else {
                    assert(domains@.take(i + 1)[i as int] == domains@[i as int]);
                }
            }
        }
        i += 1;
    }
    assert(domains@.take(domains.len() as int) =~= domains@);
    set
}

/// Where a label of `q` starts: the beginning, or just after a dot.
pub open spec fn label_start(q: Seq<char>, i: int) -> bool {
    i == 0 || (0 < i <= q.len() && q[i - 1] == '.')
}

/// A query is blocked when it, or a parent domain of it, is in the set.
pub open spec fn spec_domain_matches(q: Seq<char>, blocked: Set<Seq<char>>) -> bool {
    exists|i: int| label_start(q, i) && #[trigger] blocked.contains(q.subrange(i, q.len() as int))
}

/// Whether the query name, or one of its parent domains, is blocked.
pub fn domain_matches(query: &str, blocked: &DomainSet) -> (res: bool)
    requires
        blocked.wf(),
    ensures
        res == spec_domain_matches(query@, blocked@),
{
    let v = chars_of(query);
    let n = v.len();
    let mut i: usize = 0;
    loop
        invariant
            v@ == query@,
            n == v.len(),
            blocked.wf(),
            i <= n,
            label_start(v@, i as int),
            forall|j: int|
                0 <= j < i && label_start(v@, j) ==> !blocked@.contains(
                    #[trigger] v@.subrange(j, n as int),
                ),
        decreases n - i,
    {
        if blocked.contains_range(&v, i, n) {
            return true;
        }
        let dot = index_before(&v, i, n, '.');
        proof {
            lemma_len_before(v@.subrange(i as int, n as int), '.');
            assert(v@.subrange(i as int, dot as int).len() == dot - i);
            assert(dot - i == len_before(v@.subrange(i as int, n as int), '.'));
            assert forall|j: int| i < j <= dot implies !label_start(v@, j) by {
                assert(v@.subrange(i as int, n as int)[j - 1 - i] == v@[j - 1]);
            }
        }
        if dot == n {
            assert(!spec_domain_matches(v@, blocked@)) by {
                if spec_domain_matches(v@, blocked@) {
                    let j = choose|j: int|
                        label_start(v@, j) && #[trigger] blocked@.contains(v@.subrange(j, n as int));
                    assert(j <= i || j > n);
                }
            }
            return false;
        }
        assert(v@[dot as int] == v@.subrange(i as int, n as int)[dot - i]);
        assert(v@[dot as int] == '.');
        i = dot + 1;
    }
}

} // verus!

verus! {

/// If a domain is blocked, so is every name under it.
pub proof fn lemma_subdomains_blocked(d: Seq<char>, label: Seq<char>, blocked: Set<Seq<char>>)
    requires
        spec_domain_matches(d, blocked),
    ensures
        spec_domain_matches(label.push('.') + d, blocked),
{
    let q = label.push('.') + d;
    let i = choose|i: int| label_start(d, i) && #[trigger] blocked.contains(d.subrange(i, d.len() as int));
    let k = label.len() + 1 + i;
    assert(q.subrange(k, q.len() as int) =~= d.subrange(i, d.len() as int));
    if i == 0 {
        assert(q[k - 1] == '.');
    } else {
        assert(q[k - 1] == d[i - 1]);
    }
    assert(label_start(q, k));
}

/// The query name of a DNS question as the blocklist compares it: without
/// trailing dots, lower-cased.
pub fn query_domain(name: &str) -> (domain: String)
    ensures
        domain@ == lower_seq(trim_end_while(name@, class_pred(CharClass::Dot))),
{
    let v = chars_of(name);
    let n = v.len();
    let end = skip_end(&v, 0, n, CharClass::Dot);
    assert(v@.subrange(0, n as int) =~= v@);
    let lowered = lowered_range(&v, 0, end);
    string_from_chars(&lowered)
}

/// The message for a listener that could not be bound; `addr_in_use` tells
/// whether the error was "address in use", `error` is its text.
pub fn bind_error(protocol: &str, address: &str, addr_in_use: bool, error: &str) -> (msg: String)
    ensures
        addr_in_use ==> msg@ == "Unable to start "@ + protocol@ + " DNS on "@ + address@
            + ": port 53 is already in use. Disable Internet Connection Sharing or another DNS service, then retry. Hosts-file protection can still be used as a fallback."@,
        !addr_in_use ==> msg@ == "Unable to start "@ + protocol@ + " DNS on "@ + address@ + ": "@
            + error@,
{
    let mut msg = crate::text::text("Unable to start ");
    crate::text::push_text(&mut msg, protocol);
    crate::text::push_text(&mut msg, " DNS on ");
    crate::text::push_text(&mut msg, address);
    if addr_in_use {
        crate::text::push_text(
            &mut msg,
            ": port 53 is already in use. Disable Internet Connection Sharing or another DNS service, then retry. Hosts-file protection can still be used as a fallback.",
        );
    } else {
        crate::text::push_text(&mut msg, ": ");
        crate::text::push_text(&mut msg, error);
    }
    msg
}

/// The largest DNS message the proxy reads.
pub const MAX_DNS_PACKET: usize = 65_535;

/// The length announced by the two-byte prefix of a DNS-over-TCP message,
/// `None` when it is zero (or larger than a DNS message can be).
pub fn tcp_frame_length(prefix: [u8; 2]) -> (len: Option<usize>)
    ensures
        ({
            let n = prefix[0] as int * 256 + prefix[1] as int;
            match len {
                Some(l) => l == n && 0 < n <= MAX_DNS_PACKET,
                None => n == 0 || n > MAX_DNS_PACKET,
            }
        }),
{
    let n: usize = (prefix[0] as usize) * 256 + (prefix[1] as usize);
    if n == 0 || n > MAX_DNS_PACKET {
        None
    } else {
        Some(n)
    }
}

/// The two-byte big-endian prefix for a DNS-over-TCP message of `len` bytes
/// (the length taken modulo 2^16, as a `u16` cast takes it).
pub fn tcp_length_prefix(len: usize) -> (prefix: [u8; 2])
    ensures
        prefix[0] as int == (len as int % 65536) / 256,
        prefix[1] as int == len as int % 256,
{
    let high = (len >> 8usize) & 0xff;
    let low = len & 0xff;
    assert(((len >> 8usize) & 0xff) == (len % 65536) / 256) by (bit_vector);
    assert((len & 0xff) == len % 256) by (bit_vector);
    [high as u8, low as u8]
}

/// Whether a reply came from one of the upstream resolvers (`address:port`).
pub fn is_upstream_source(source: &str) -> (res: bool)
    ensures
        res == (source@ == "1.1.1.1:53"@ || source@ == "8.8.8.8:53"@),
{
    crate::text::str_eq(source, "1.1.1.1:53") || crate::text::str_eq(source, "8.8.8.8:53")
}

} // verus!

verus! {

/// How long a forwarded response may be served from the cache, in milliseconds.
pub const CACHE_TTL_MS: u64 = 30_000;

/// The cache size from which stale entries are pruned before an insertion.
pub const CACHE_PRUNE_AT: usize = 4096;

/// Milliseconds between `created` and `now` (none when the clock went back).
pub open spec fn elapsed(created: u64, now: u64) -> int {
    if now >= created {
        now - created
    } else {
        0
    }
}

pub open spec fn is_fresh(created: u64, now: u64) -> bool {
    elapsed(created, now) < CACHE_TTL_MS
}

pub struct CacheEntry {
    pub key: Vec<u8>,
    pub created: u64,
    pub response: Vec<u8>,
}

/// Upstream responses by query (the message without its two-byte id), with
/// the time each was stored.
pub struct ResponseCache {
    entries: Vec<CacheEntry>,
}

pub open spec fn has_key(es: Seq<CacheEntry>, k: Seq<u8>) -> bool {
    exists|i: int| 0 <= i < es.len() && (#[trigger] es[i]).key@ == k
}

pub open spec fn entries_map(es: Seq<CacheEntry>) -> Map<Seq<u8>, (u64, Seq<u8>)> {
    Map::new(
        |k: Seq<u8>| has_key(es, k),
        |k: Seq<u8>|
            {
                let i = choose|i: int| 0 <= i < es.len() && (#[trigger] es[i]).key@ == k;
                (es[i].created, es[i].response@)
            },
    )
}

pub open spec fn keys_distinct(es: Seq<CacheEntry>) -> bool {
    forall|i: int, j: int|
        0 <= i < es.len() && 0 <= j < es.len() && i != j ==> (#[trigger] es[i]).key@ != (
        #[trigger] es[j]).key@
}

proof fn lemma_entries_map_at(es: Seq<CacheEntry>, i: int)
    requires
        keys_distinct(es),
        0 <= i < es.len(),
    ensures
        entries_map(es).contains_key(es[i].key@),
        entries_map(es)[es[i].key@] == (es[i].created, es[i].response@),
{
    let k = es[i].key@;
    assert(has_key(es, k));
    let j = choose|j: int| 0 <= j < es.len() && (#[trigger] es[j]).key@ == k;
    assert(j == i);
}

impl View for ResponseCache {
    type V = Map<Seq<u8>, (u64, Seq<u8>)>;

    closed spec fn view(&self) -> Map<Seq<u8>, (u64, Seq<u8>)> {
        entries_map(self.entries@)
    }
}

impl ResponseCache {
    /// Keys are stored once, and every response holds at least its id.
    pub closed spec fn wf(&self) -> bool {
        &&& keys_distinct(self.entries@)
        &&& forall|i: int|
            0 <= i < self.entries@.len() ==> (#[trigger] self.entries@[i]).response@.len() >= 2
    }

    /// Every cached response holds at least the two id bytes.
    pub proof fn lemma_responses_hold_id(&self, k: Seq<u8>)
        requires
            self.wf(),
            self@.contains_key(k),
        ensures
            self@[k].1.len() >= 2,
    {
        let i = choose|i: int| 0 <= i < self.entries@.len() && (#[trigger] self.entries@[i]).key@ == k;
        lemma_entries_map_at(self.entries@, i);
    }

    pub fn new() -> (c: Self)
        ensures
            c.wf(),
            c@ == Map::<Seq<u8>, (u64, Seq<u8>)>::empty(),
    {
        let c = ResponseCache { entries: Vec::new() };
        assert(c@ =~= Map::<Seq<u8>, (u64, Seq<u8>)>::empty());
        c
    }

    pub fn len(&self) -> (n: usize)
        requires
            self.wf(),
        ensures
            n == self@.len(),
    {
        proof {
            self.lemma_len();
        }
        self.entries.len()
    }

    proof fn lemma_len(&self)
        requires
            self.wf(),
        ensures
            self@.len() == self.entries@.len(),
            self@.dom().finite(),
    {
        let es = self.entries@;
        let dom = self@.dom();
        let keys = es.map_values(|e: CacheEntry| e.key@);
        assert forall|k: Seq<u8>| dom.contains(k) <==> keys.contains(k) by {
            if dom.contains(k) {
                let i = choose|i: int| 0 <= i < es.len() && (#[trigger] es[i]).key@ == k;
                assert(keys[i] == k);
            }
            if keys.contains(k) {
                let i = choose|i: int| 0 <= i < keys.len() && #[trigger] keys[i] == k;
                assert(es[i].key@ == k);
            }
        }
        assert(dom =~= keys.to_set());
        assert forall|i: int, j: int|
            0 <= i < keys.len() && 0 <= j < keys.len() && i != j implies #[trigger] keys[i]
            != #[trigger] keys[j] by {
            assert(es[i].key@ != es[j].key@);
        }
        assert(keys.no_duplicates());
        keys.unique_seq_to_set();
    }

    fn find_index(&self, key: &Vec<u8>) -> (res: Option<usize>)
        requires
            self.wf(),
        ensures
            match res {
                Some(i) => i < self.entries@.len() && self.entries@[i as int].key@ == key@,
                None => !has_key(self.entries@, key@),
            },
    {
        let mut i: usize = 0;
        while i < self.entries.len()
            invariant
                i <= self.entries.len(),
                forall|j: int| 0 <= j < i ==> (#[trigger] self.entries@[j]).key@ != key@,
            decreases self.entries.len() - i,
        {
            if bytes_eq(&self.entries[i].key, key) {
                return Some(i);
            }
            i += 1;
        }
        None
    }

    /// The response stored for `key` while it is fresh at `now`; a stale entry is dropped.
    pub fn lookup(&mut self, key: &Vec<u8>, now: u64) -> (res: Option<Vec<u8>>)
        requires
            old(self).wf(),
        ensures
            final(self).wf(),
            match res {
                Some(r) => old(self)@.contains_key(key@) && is_fresh(old(self)@[key@].0, now) && r@
                    == old(self)@[key@].1 && final(self)@ == old(self)@,
                None => if old(self)@.contains_key(key@) {
                    !is_fresh(old(self)@[key@].0, now) && final(self)@ == old(self)@.remove(key@)
                } else {
                    final(self)@ == old(self)@
                },
            },
    {
        match self.find_index(key) {
            None => {
                assert(!old(self)@.contains_key(key@));
                None
            },
            Some(i) => {
                proof {
                    lemma_entries_map_at(self.entries@, i as int);
                }
                let created = self.entries[i].created;
                let age = if now >= created {
                    now - created
                } else {
                    0
                };
                if age < CACHE_TTL_MS {
                    Some(self.entries[i].response.clone())
                } else {
                    let ghost old_es = self.entries@;
                    let _removed = self.entries.remove(i);
                    proof {
                        let es = self.entries@;
                        assert(es =~= old_es.remove(i as int));
                        assert forall|a: int, b: int|
                            0 <= a < es.len() && 0 <= b < es.len() && a != b implies (
                            #[trigger] es[a]).key@ != (#[trigger] es[b]).key@ by {
                            let a2 = if a < i { a } else { a + 1 };
                            let b2 = if b < i { b } else { b + 1 };
                            assert(es[a] == old_es[a2]);
                            assert(es[b] == old_es[b2]);
                        }
                        assert forall|a: int| 0 <= a < es.len() implies (#[trigger] es[a]).response@.len() >= 2 by {
                            let a2 = if a < i { a } else { a + 1 };
                            assert(es[a] == old_es[a2]);
                        }
                        assert forall|k: Seq<u8>| #[trigger] entries_map(es).contains_key(k) == entries_map(old_es).remove(key@).contains_key(k) by {
                            if has_key(es, k) {
                                let a = choose|a: int| 0 <= a < es.len() && (#[trigger] es[a]).key@ == k;
                                let a2 = if a < i { a } else { a + 1 };
                                assert(es[a] == old_es[a2]);
                                assert(old_es[a2].key@ == k);
                            }
                            if has_key(old_es, k) && k != key@ {
                                let a = choose|a: int| 0 <= a < old_es.len() && (#[trigger] old_es[a]).key@ == k;
                                let a1 = if a < i { a } else { a - 1 };
                                assert(a != i);
                                assert(es[a1] == old_es[a]);
                            }
                        }
                        assert forall|k: Seq<u8>| #[trigger] entries_map(es).contains_key(k) implies entries_map(es)[k] == entries_map(old_es)[k] by {
                            let a = choose|a: int| 0 <= a < es.len() && (#[trigger] es[a]).key@ == k;
                            let a2 = if a < i { a } else { a + 1 };
                            assert(es[a] == old_es[a2]);
                            lemma_entries_map_at(es, a);
                            lemma_entries_map_at(old_es, a2);
                        }
                        assert(entries_map(es) =~= entries_map(old_es).remove(key@));
                    }
                    None
                }
            },
        }
    }
}

/// The entries of `m` that are fresh at `now`.
pub open spec fn pruned(m: Map<Seq<u8>, (u64, Seq<u8>)>, now: u64) -> Map<Seq<u8>, (u64, Seq<u8>)> {
    Map::new(|k: Seq<u8>| m.contains_key(k) && is_fresh(m[k].0, now), |k: Seq<u8>| m[k])
}

/// What the cache holds after `store`: at the pruning size, only fresh
/// entries are kept, then the new response replaces any earlier one.
pub open spec fn stored(m: Map<Seq<u8>, (u64, Seq<u8>)>, key: Seq<u8>, now: u64, response: Seq<u8>) -> Map<
    Seq<u8>,
    (u64, Seq<u8>),
> {
    let base = if m.len() >= CACHE_PRUNE_AT {
        pruned(m, now)
    } else {
        m
    };
    base.insert(key, (now, response))
}

impl ResponseCache {
    fn prune(&mut self, now: u64)
        requires
            old(self).wf(),
        ensures
            final(self).wf(),
            final(self)@ == pruned(old(self)@, now),
    {
        let ghost old_es = self.entries@;
        let mut kept: Vec<CacheEntry> = Vec::new();
        let mut i: usize = 0;
        while i < self.entries.len()
            invariant
                self.entries@ == old_es,
                keys_distinct(old_es),
                forall|a: int| 0 <= a < old_es.len() ==> (#[trigger] old_es[a]).response@.len() >= 2,
                i <= old_es.len(),
                forall|a: int| 0 <= a < kept@.len() ==> (#[trigger] kept@[a]).response@.len() >= 2,
                keys_distinct(kept@),
                forall|a: int|
                    0 <= a < kept@.len() ==> exists|b: int|
                        0 <= b < i && (#[trigger] kept@[a]).key@ == old_es[b].key@
                            && kept@[a].created == old_es[b].created && kept@[a].response@
                            == old_es[b].response@ && is_fresh(old_es[b].created, now),
                forall|b: int|
                    0 <= b < i && is_fresh(old_es[b].created, now) ==> has_key(
                        kept@,
                        (#[trigger] old_es[b]).key@,
                    ),
            decreases old_es.len() - i,
        {
            let created = self.entries[i].created;
            let age = if now >= created {
                now - created
            } else {
                0
            };
            if age < CACHE_TTL_MS {
                let e = CacheEntry {
                    key: self.entries[i].key.clone(),
                    created,
                    response: self.entries[i].response.clone(),
                };
                let ghost before = kept@;
                kept.push(e);
                proof {
                    assert(kept@[before.len() as int] == e);
                    assert forall|a: int, c: int|
                        0 <= a < kept@.len() && 0 <= c < kept@.len() && a != c implies (
                        #[trigger] kept@[a]).key@ != (#[trigger] kept@[c]).key@ by {
                        if a == before.len() {
                            assert(kept@[c] == before[c]);
                            let b = choose|b: int|
                                0 <= b < i && (#[trigger] before[c]).key@ == old_es[b].key@
                                    && before[c].created == old_es[b].created
                                    && before[c].response@ == old_es[b].response@ && is_fresh(
                                    old_es[b].created,
                                    now,
                                );
                            assert(old_es[b].key@ != old_es[i as int].key@);
                        } else if c == before.len() {
                            assert(kept@[a] == before[a]);
                            let b = choose|b: int|
                                0 <= b < i && (#[trigger] before[a]).key@ == old_es[b].key@
                                    && before[a].created == old_es[b].created
                                    && before[a].response@ == old_es[b].response@ && is_fresh(
                                    old_es[b].created,
                                    now,
                                );
                            assert(old_es[b].key@ != old_es[i as int].key@);
                        } else {
                            assert(kept@[a] == before[a]);
                            assert(kept@[c] == before[c]);
                        }
                    }
                    assert forall|a: int| 0 <= a < kept@.len() implies exists|b: int|
                        0 <= b < i + 1 && (#[trigger] kept@[a]).key@ == old_es[b].key@
                            && kept@[a].created == old_es[b].created && kept@[a].response@
                            == old_es[b].response@ && is_fresh(old_es[b].created, now) by {
                        if a == before.len() {
                            assert(kept@[a].key@ == old_es[i as int].key@);
                        } else {
                            assert(kept@[a] == before[a]);
                        }
                    }
                    assert forall|b: int|
                        0 <= b < i + 1 && is_fresh(old_es[b].created, now) implies has_key(
                        kept@,
                        (#[trigger] old_es[b]).key@,
                    ) by {
                        if b == i {
                            assert(kept@[before.len() as int].key@ == old_es[b].key@);
                        } else {
                            let a = choose|a: int| 0 <= a < before.len() && (#[trigger] before[a]).key@ == old_es[b].key@;
                            assert(kept@[a] == before[a]);
                        }
                    }
                }
            }
            i += 1;
        }
        let ghost m = entries_map(old_es);
        proof {
            assert forall|k: Seq<u8>| #[trigger] entries_map(kept@).contains_key(k) == pruned(m, now).contains_key(k) by {
                if has_key(kept@, k) {
                    let a = choose|a: int| 0 <= a < kept@.len() && (#[trigger] kept@[a]).key@ == k;
                    let b = choose|b: int|
                        0 <= b < old_es.len() && (#[trigger] kept@[a]).key@ == old_es[b].key@
                            && kept@[a].created == old_es[b].created && kept@[a].response@
                            == old_es[b].response@ && is_fresh(old_es[b].created, now);
                    lemma_entries_map_at(old_es, b);
                }
                if m.contains_key(k) && is_fresh(m[k].0, now) {
                    let b = choose|b: int| 0 <= b < old_es.len() && (#[trigger] old_es[b]).key@ == k;
                    lemma_entries_map_at(old_es, b);
                }
            }
            assert forall|k: Seq<u8>| #[trigger] entries_map(kept@).contains_key(k) implies entries_map(kept@)[k] == pruned(m, now)[k] by {
                let a = choose|a: int| 0 <= a < kept@.len() && (#[trigger] kept@[a]).key@ == k;
                let b = choose|b: int|
                    0 <= b < old_es.len() && (#[trigger] kept@[a]).key@ == old_es[b].key@
                        && kept@[a].created == old_es[b].created && kept@[a].response@
                        == old_es[b].response@ && is_fresh(old_es[b].created, now);
                lemma_entries_map_at(old_es, b);
                lemma_entries_map_at(kept@, a);
            }
            assert(entries_map(kept@) =~= pruned(m, now));
        }
        self.entries = kept;
    }

    /// Stores a forwarded response for `key` at time `now`.
    pub fn store(&mut self, key: Vec<u8>, now: u64, response: Vec<u8>)
        requires
            old(self).wf(),
            response@.len() >= 2,
        ensures
            final(self).wf(),
            final(self)@ == stored(old(self)@, key@, now, response@),
    {
        if self.len() >= CACHE_PRUNE_AT {
            self.prune(now);
        }
        let ghost base = self@;
        let ghost old_es = self.entries@;
        let ghost kv = key@;
        let ghost rv = response@;
        let entry = CacheEntry { key, created: now, response };
        match self.find_index(&entry.key) {
            Some(i) => {
                self.entries.set(i, entry);
                proof {
                    let es = self.entries@;
                    assert forall|a: int, c: int|
                        0 <= a < es.len() && 0 <= c < es.len() && a != c implies (
                        #[trigger] es[a]).key@ != (#[trigger] es[c]).key@ by {
                        if a != i && c != i {
                            assert(es[a] == old_es[a] && es[c] == old_es[c]);
                        } else if a == i {
                            assert(es[c] == old_es[c]);
                            assert(old_es[c].key@ != old_es[a].key@);
                        } else {
                            assert(es[a] == old_es[a]);
                            assert(old_es[c].key@ != old_es[a].key@);
                        }
                    }
                    assert forall|a: int| 0 <= a < es.len() implies (#[trigger] es[a]).response@.len() >= 2 by {
                        if a != i {
                            assert(es[a] == old_es[a]);
                        }
                    }
                    assert forall|k: Seq<u8>| #[trigger] entries_map(es).contains_key(k) == base.insert(kv, (now, rv)).contains_key(k) by {
                        if has_key(es, k) {
                            let a = choose|a: int| 0 <= a < es.len() && (#[trigger] es[a]).key@ == k;
                            if a != i {
                                assert(es[a] == old_es[a]);
                                lemma_entries_map_at(old_es, a);
                            }
                        }
                        if base.contains_key(k) {
                            let a = choose|a: int| 0 <= a < old_es.len() && (#[trigger] old_es[a]).key@ == k;
                            if a != i {
                                assert(es[a] == old_es[a]);
                            } else {
                                assert(es[a].key@ == kv);
                            }
                        }
                        assert(es[i as int].key@ == kv);
                    }
                    assert forall|k: Seq<u8>| #[trigger] entries_map(es).contains_key(k) implies entries_map(es)[k] == base.insert(kv, (now, rv))[k] by {
                        let a = choose|a: int| 0 <= a < es.len() && (#[trigger] es[a]).key@ == k;
                        lemma_entries_map_at(es, a);
                        if a != i {
                            assert(es[a] == old_es[a]);
                            lemma_entries_map_at(old_es, a);
                        }
                    }
                    assert(entries_map(es) =~= base.insert(kv, (now, rv)));
                }
            },
            None => {
                self.entries.push(entry);
                proof {
                    let es = self.entries@;
                    let n = old_es.len() as int;
                    assert(es[n] == entry);
                    assert forall|a: int, c: int|
                        0 <= a < es.len() && 0 <= c < es.len() && a != c implies (
                        #[trigger] es[a]).key@ != (#[trigger] es[c]).key@ by {
                        if a < n && c < n {
                            assert(es[a] == old_es[a] && es[c] == old_es[c]);
                        } else if a == n {
                            assert(es[c] == old_es[c]);
                        } else {
                            assert(es[a] == old_es[a]);
                        }
                    }
                    assert forall|a: int| 0 <= a < es.len() implies (#[trigger] es[a]).response@.len() >= 2 by {
                        if a < n {
                            assert(es[a] == old_es[a]);
                        }
                    }
                    assert forall|k: Seq<u8>| #[trigger] entries_map(es).contains_key(k) == base.insert(kv, (now, rv)).contains_key(k) by {
                        if has_key(es, k) {
                            let a = choose|a: int| 0 <= a < es.len() && (#[trigger] es[a]).key@ == k;
                            if a < n {
                                assert(es[a] == old_es[a]);
                                lemma_entries_map_at(old_es, a);
                            }
                        }
                        if base.contains_key(k) {
                            let a = choose|a: int| 0 <= a < old_es.len() && (#[trigger] old_es[a]).key@ == k;
                            assert(es[a] == old_es[a]);
                        }
                    }
                    assert forall|k: Seq<u8>| #[trigger] entries_map(es).contains_key(k) implies entries_map(es)[k] == base.insert(kv, (now, rv))[k] by {
                        let a = choose|a: int| 0 <= a < es.len() && (#[trigger] es[a]).key@ == k;
                        lemma_entries_map_at(es, a);
                        if a < n {
                            assert(es[a] == old_es[a]);
                            lemma_entries_map_at(old_es, a);
                        }
                    }
                    assert(entries_map(es) =~= base.insert(kv, (now, rv)));
                }
            },
        }
    }
}

/// Whether two byte strings are equal.
pub fn bytes_eq(a: &Vec<u8>, b: &Vec<u8>) -> (res: bool)
    ensures
        res == (a@ == b@),
{
    if a.len() != b.len() {
        return false;
    }
    let mut i: usize = 0;
    while i < a.len()
        invariant
            a.len() == b.len(),
            i <= a.len(),
            forall|j: int| 0 <= j < i ==> a@[j] == b@[j],
        decreases a.len() - i,
    {
        if a[i] != b[i] {
            return false;
        }
        i += 1;
    }
    assert(a@ =~= b@);
    true
}

} // verus!

verus! {

/// The cache key of a DNS message: everything after its two-byte id (the
/// whole message when it is shorter).
pub open spec fn spec_cache_key(packet: Seq<u8>) -> Seq<u8> {
    if packet.len() >= 2 {
        packet.subrange(2, packet.len() as int)
    } else {
        packet
    }
}

/// `response` with its id replaced by the id of `packet`.
pub open spec fn with_id_of(response: Seq<u8>, packet: Seq<u8>) -> Seq<u8> {
    packet.subrange(0, 2) + response.subrange(2, response.len() as int)
}

pub fn cache_key(packet: &[u8]) -> (key: Vec<u8>)
    ensures
        key@ == spec_cache_key(packet@),
{
    let start: usize = if packet.len() >= 2 {
        2
    } else {
        0
    };
    let mut key: Vec<u8> = Vec::new();
    let mut i = start;
    while i < packet.len()
        invariant
            start <= i <= packet.len(),
            key@ == packet@.subrange(start as int, i as int),
        decreases packet.len() - i,
    {
        key.push(packet[i]);
        assert(packet@.subrange(start as int, i + 1) =~= packet@.subrange(start as int, i as int).push(packet@[i as int]));
        i += 1;
    }
    assert(packet@.subrange(0, packet.len() as int) =~= packet@);
    key
}

/// Gives a response the id of the query it answers.
pub fn with_request_id(response: Vec<u8>, packet: &[u8]) -> (res: Vec<u8>)
    requires
        response@.len() >= 2,
        packet@.len() >= 2,
    ensures
        res@ == with_id_of(response@, packet@),
{
    let mut res = response;
    res.set(0, packet[0]);
    res.set(1, packet[1]);
    assert(res@ =~= with_id_of(response@, packet@));
    res
}

/// What the proxy does with a query.
pub enum Resolution {
    /// Answer with this `NXDOMAIN` reply: the name is blocked.
    Blocked(Vec<u8>),
    /// Answer with this cached response (already carrying the query's id).
    Cached(Vec<u8>),
    /// Ask the upstream resolvers.
    Forward,
}

/// Decides a query and names the activity record it leads to: a blocked
/// name is answered `NXDOMAIN` (recorded as blocked, by the sinkhole) and
/// leaves the cache alone; otherwise a fresh cached response is served
/// (recorded as allowed, from the cache), and failing that the query goes
/// upstream (recorded as allowed and forwarded once the reply is in; a stale
/// cache entry is dropped on the way). Only building the `NXDOMAIN` reply can
/// fail.
pub fn resolve_query(
    packet: &[u8],
    domain: &str,
    blocked: &DomainSet,
    cache: &mut ResponseCache,
    now: u64,
) -> (res: Result<(Resolution, ProxyEvent), String>)
    requires
        packet@.len() >= 2,
        blocked.wf(),
        old(cache).wf(),
    ensures
        final(cache).wf(),
        spec_domain_matches(domain@, blocked@) ==> final(cache)@ == old(cache)@ && match spec_blocked_response(
            packet@,
        ) {
            Ok(reply) => (res matches Ok((r, ev)) && (r matches Resolution::Blocked(b) && b@ == reply)
                && ev is Blocked),
            Err(e) => (res matches Err(m) && m@ == e),
        },
        !spec_domain_matches(domain@, blocked@) ==> (res matches Ok((r, ev)) && {
            let key = spec_cache_key(packet@);
            if old(cache)@.contains_key(key) && is_fresh(old(cache)@[key].0, now) {
                r matches Resolution::Cached(c) && c@ == with_id_of(old(cache)@[key].1, packet@)
                    && ev is CacheHit && final(cache)@ == old(cache)@
            } else if old(cache)@.contains_key(key) {
                r is Forward && ev is Forwarded && final(cache)@ == old(cache)@.remove(key)
            } else {
                r is Forward && ev is Forwarded && final(cache)@ == old(cache)@
            }
        }),
{
    if domain_matches(domain, blocked) {
        let reply = blocked_response(packet)?;
        return Ok((Resolution::Blocked(reply), ProxyEvent::Blocked));
    }
    let key = cache_key(packet);
    match cache.lookup(&key, now) {
        Some(cached) => {
            proof {
                old(cache).lemma_responses_hold_id(key@);
            }
            Ok((Resolution::Cached(with_request_id(cached, packet)), ProxyEvent::CacheHit))
        },
        None => Ok((Resolution::Forward, ProxyEvent::Forwarded)),
    }
}

/// Finishes a forwarded query: a response that holds an id gets the query's
/// id and is cached at `now`; it is what the client receives.
pub fn finish_forward(packet: &[u8], response: Vec<u8>, cache: &mut ResponseCache, now: u64) -> (res:
    Vec<u8>)
    requires
        packet@.len() >= 2,
        old(cache).wf(),
    ensures
        final(cache).wf(),
        response@.len() >= 2 ==> res@ == with_id_of(response@, packet@) && final(cache)@ == stored(
            old(cache)@,
            spec_cache_key(packet@),
            now,
            res@,
        ),
        response@.len() < 2 ==> res@ == response@ && final(cache)@ == old(cache)@,
{
    if response.len() >= 2 {
        let patched = with_request_id(response, packet);
        let key = cache_key(packet);
        cache.store(key, now, patched.clone());
        patched
    } else {
        response
    }
}

/// A query outcome recorded in the activity log.
pub enum ProxyEvent {
    Blocked,
    CacheHit,
    Forwarded,
}

impl ProxyEvent {
    pub open spec fn spec_fields(&self) -> (Seq<char>, Seq<char>, Seq<char>) {
        match self {
            ProxyEvent::Blocked => ("blocked"@, "sinkhole"@, "DNS query blocked"@),
            ProxyEvent::CacheHit => ("allowed"@, "cache"@, "DNS response served from cache"@),
            ProxyEvent::Forwarded => ("allowed"@, "forwarded"@, "DNS query forwarded"@),
        }
    }

    /// The kind, action and detail of the activity record.
    pub fn fields(&self) -> (res: (String, String, String))
        ensures
            (res.0@, res.1@, res.2@) == self.spec_fields(),
    {
        match self {
            ProxyEvent::Blocked => (
                crate::text::text("blocked"),
                crate::text::text("sinkhole"),
                crate::text::text("DNS query blocked"),
            ),
            ProxyEvent::CacheHit => (
                crate::text::text("allowed"),
                crate::text::text("cache"),
                crate::text::text("DNS response served from cache"),
            ),
            ProxyEvent::Forwarded => (
                crate::text::text("allowed"),
                crate::text::text("forwarded"),
                crate::text::text("DNS query forwarded"),
            ),
        }
    }
}

} // verus!

verus! {

/// A response stored at `t` is served for a repeated query until the time to
/// live has passed.
pub proof fn lemma_cache_serves_stored(
    m: Map<Seq<u8>, (u64, Seq<u8>)>,
    key: Seq<u8>,
    t: u64,
    response: Seq<u8>,
    later: u64,
)
    requires
        t <= later < t + CACHE_TTL_MS,
    ensures
        stored(m, key, t, response).contains_key(key),
        stored(m, key, t, response)[key] == (t, response),
        is_fresh(stored(m, key, t, response)[key].0, later),
{
}

} // verus!
