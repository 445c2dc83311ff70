//! Ranking of hypervisor servers.
//!
//! Every server starts at 100 points, loses one point per request it has
//! served, and gains 500 points when it served the same host within the
//! last 24 hours.  Servers are tried from the highest score down; equal
//! scores prefer more power, then the smaller id.

use vstd::prelude::*;
use crate::order::{lemma_insert_by_at, lemma_stable_sorted_step, lemma_text_lt_irreflexive, lemma_text_lt_transitive, stable_sort_is_ordered, stable_sort_is_permutation, stable_sorted_by, strict_weak_order};
use crate::router::{copy_server, ServerConfig};
use crate::text::{str_eq, str_lt, text_lt};

verus! {

/// Points every server starts with.
pub const BASE_SCORE: i64 = 100;
/// Points a server gains for a host it served recently.
pub const CACHE_AFFINITY_BOOST: i64 = 500;
/// How long a served host stays "recent", in nanoseconds (24 hours).
pub const CACHE_AFFINITY_TTL_NANOS: u64 = 86400000000000;

/// How many requests a server has served.
pub struct ServedCount {
    pub server_id: String,
    pub count: u64,
}

/// When a server last served a host, in nanoseconds of a monotonic clock.
pub struct Affinity {
    pub host: String,
    pub server_id: String,
    pub last: u64,
}

/// The state the ranking keeps between requests.
pub struct ServerRanker {
    served: Vec<ServedCount>,
    host_affinity: Vec<Affinity>,
}

/// Requests served per server id (a later entry for an id wins).
pub open spec fn served_map(s: Seq<ServedCount>) -> Map<Seq<char>, u64>
    decreases s.len(),
{
    if s.len() == 0 {
        Map::empty()
    } else {
        served_map(s.drop_last()).insert(s.last().server_id@, s.last().count)
    }
}

pub open spec fn affinity_key(a: Affinity) -> (Seq<char>, Seq<char>) {
    (a.host@, a.server_id@)
}

/// When each (host, server id) pair was last served.
pub open spec fn affinity_map(s: Seq<Affinity>) -> Map<(Seq<char>, Seq<char>), u64>
    decreases s.len(),
{
    if s.len() == 0 {
        Map::empty()
    } else {
        affinity_map(s.drop_last()).insert(affinity_key(s.last()), s.last().last)
    }
}

/// Whether a pair served at `last` is still recent at `now`; a clock
/// reading earlier than `last` counts as no time elapsed.
pub open spec fn is_recent(last: u64, now: u64) -> bool {
    (if now >= last {
        now - last
    } else {
        0
    }) < CACHE_AFFINITY_TTL_NANOS
}

/// The pairs still recent at `now`.
pub open spec fn recent_only(m: Map<(Seq<char>, Seq<char>), u64>, now: u64) -> Map<(Seq<char>, Seq<char>), u64> {
    Map::new(|k: (Seq<char>, Seq<char>)| m.dom().contains(k) && is_recent(m[k], now), |k: (Seq<char>, Seq<char>)| m[k])
}

/// A server's score: 100, less the requests it served (counted up to
/// `i64::MAX`), plus 500 when it served the host recently.
pub open spec fn score(served: Map<Seq<char>, u64>, affinity: Map<(Seq<char>, Seq<char>), u64>, host: Seq<char>, id: Seq<char>) -> int {
    let count: int = if served.dom().contains(id) {
        served[id] as int
    } else {
        0
    };
    let penalty: int = if count > i64::MAX {
        i64::MAX as int
    } else {
        count
    };
    BASE_SCORE - penalty + if affinity.dom().contains((host, id)) {
        CACHE_AFFINITY_BOOST as int
    } else {
        0
    }
}

/// `a` is tried before `b`: a higher score, then more power, then the
/// smaller id.
pub open spec fn ranked_before(
    served: Map<Seq<char>, u64>,
    affinity: Map<(Seq<char>, Seq<char>), u64>,
    host: Seq<char>,
) -> spec_fn(ServerConfig, ServerConfig) -> bool {
    |a: ServerConfig, b: ServerConfig|
        {
            let sa = score(served, affinity, host, a.id@);
            let sb = score(served, affinity, host, b.id@);
            sa > sb || (sa == sb && (a.power > b.power || (a.power == b.power && text_lt(a.id@, b.id@))))
        }
}

impl ServerRanker {
    /// Well-formed: at most one entry per (host, server id) pair.
    pub closed spec fn wf(&self) -> bool {
        forall|i: int, j: int|
            0 <= i < j < self.host_affinity@.len() ==> affinity_key(#[trigger] self.host_affinity@[i])
                != affinity_key(#[trigger] self.host_affinity@[j])
    }

    /// Requests served per server id.
    pub closed spec fn served(&self) -> Map<Seq<char>, u64> {
        served_map(self.served@)
    }

    /// When each (host, server id) pair was last served.
    pub closed spec fn affinity(&self) -> Map<(Seq<char>, Seq<char>), u64> {
        affinity_map(self.host_affinity@)
    }

    /// A ranker that has seen no request.
    pub fn new() -> (r: ServerRanker)
        ensures
            r.wf(),
            r.served() == Map::<Seq<char>, u64>::empty(),
            r.affinity() == Map::<(Seq<char>, Seq<char>), u64>::empty(),
    {
        ServerRanker { served: Vec::new(), host_affinity: Vec::new() }
    }

    /// How many requests a server has served.
    pub fn served_count(&self, server_id: &str) -> (n: u64)
        ensures
            n == (if self.served().dom().contains(server_id@) {
                self.served()[server_id@]
            } else {
                0
            }),
    {
        match self.find_served(server_id) {
            Some(j) => self.served[j].count,
            None => 0,
        }
    }

    fn find_served(&self, server_id: &str) -> (r: Option<usize>)
        ensures
            match r {
                Some(j) => j < self.served@.len() && self.served@[j as int].server_id@ == server_id@
                    && forall|i: int| j < i < self.served@.len() ==> #[trigger] self.served@[i].server_id@ != server_id@,
                None => forall|i: int| 0 <= i < self.served@.len() ==> #[trigger] self.served@[i].server_id@ != server_id@,
            },
            r is None <==> !self.served().dom().contains(server_id@),
            r matches Some(j) ==> self.served()[server_id@] == self.served@[j as int].count,
    {
        let mut p: usize = self.served.len();
        while p > 0
            invariant
                p <= self.served@.len(),
                forall|i: int| p <= i < self.served@.len() ==> #[trigger] self.served@[i].server_id@ != server_id@,
            decreases p,
        {
            if str_eq(self.served[p - 1].server_id.as_str(), server_id) {
                proof {
                    lemma_served_lookup(self.served@, server_id@, p as int);
                }
                return Some(p - 1);
            }
            p = p - 1;
        }
        proof {
            lemma_served_lookup(self.served@, server_id@, 0);
        }
        None
    }

    fn find_affinity(&self, host: &str, server_id: &str) -> (r: Option<usize>)
        requires
            self.wf(),
        ensures
            match r {
                Some(j) => j < self.host_affinity@.len() && affinity_key(self.host_affinity@[j as int]) == (
                host@,
                server_id@,
            ),
                None => forall|i: int| 0 <= i < self.host_affinity@.len() ==> affinity_key(
                    #[trigger] self.host_affinity@[i],
                ) != (host@, server_id@),
            },
            r is None <==> !self.affinity().dom().contains((host@, server_id@)),
    {
        let mut i: usize = 0;
        while i < self.host_affinity.len()
            invariant
                i <= self.host_affinity@.len(),
                forall|k: int| 0 <= k < i ==> affinity_key(#[trigger] self.host_affinity@[k]) != (host@, server_id@),
            decreases self.host_affinity@.len() - i,
        {
            if str_eq(self.host_affinity[i].host.as_str(), host) && str_eq(
                self.host_affinity[i].server_id.as_str(),
                server_id,
            ) {
                proof {
                    lemma_affinity_contains(self.host_affinity@, (host@, server_id@));
                }
                return Some(i);
            }
            i = i + 1;
        }
        proof {
            lemma_affinity_contains(self.host_affinity@, (host@, server_id@));
        }
        None
    }

    /// A server's score for a host.
    fn score_of(&self, host: &str, server: &ServerConfig) -> (s: i64)
        requires
            self.wf(),
        ensures
            s == score(self.served(), self.affinity(), host@, server.id@),
    {
        let count = self.served_count(server.id.as_str());
        let penalty: i64 = if count > 9223372036854775807u64 {
            9223372036854775807i64
        } else {
            count as i64
        };
        let boost: i64 = if self.find_affinity(host, server.id.as_str()).is_some() {
            CACHE_AFFINITY_BOOST
        } else {
            0
        };
        BASE_SCORE - penalty + boost
    }

    fn tried_before(&self, host: &str, a: &ServerConfig, b: &ServerConfig) -> (r: bool)
        requires
            self.wf(),
        ensures
            r == (ranked_before(self.served(), self.affinity(), host@))(*a, *b),
    {
        let sa = self.score_of(host, a);
        let sb = self.score_of(host, b);
        sa > sb || (sa == sb && (a.power > b.power || (a.power == b.power && str_lt(a.id.as_str(), b.id.as_str()))))
    }

    fn forget_stale(&mut self, now: u64)
        requires
            old(self).wf(),
        ensures
            final(self).wf(),
            final(self).affinity() == recent_only(old(self).affinity(), now),
            final(self).served@ == old(self).served@,
    {
        let mut kept: Vec<Affinity> = Vec::new();
        let mut rest: Vec<Affinity> = Vec::new();
        std::mem::swap(&mut rest, &mut self.host_affinity);
        let ghost orig = rest@;
        let total: usize = rest.len();
        let mut k: usize = 0;
        while rest.len() > 0
            invariant
                k + rest@.len() == orig.len(),
                orig.len() == total,
                rest@ == orig.subrange(k as int, orig.len() as int),
                forall|i: int, j: int| 0 <= i < j < orig.len() ==> affinity_key(#[trigger] orig[i]) != affinity_key(#[trigger] orig[j]),
                kept@ == recent_entries(orig.subrange(0, k as int), now),
            decreases rest@.len(),
        {
            let a = rest.remove(0);
            proof {
                assert(a == orig[k as int]);
                assert(orig.subrange(0, k + 1).drop_last() =~= orig.subrange(0, k as int));
            }
            let elapsed: u64 = if now >= a.last {
                now - a.last
            } else {
                0
            };
            if elapsed < CACHE_AFFINITY_TTL_NANOS {
                kept.push(a);
            }
            k = k + 1;
            proof {
                assert(rest@ =~= orig.subrange(k as int, orig.len() as int));
            }
        }
        proof {
            assert(orig.subrange(0, orig.len() as int) =~= orig);
            lemma_recent_entries(orig, now);
        }
        self.host_affinity = kept;
    }

    /// Forgets the pairs no longer recent at `now`, then orders the
    /// servers from the first to try to the last: by score, power and id,
    /// with equal servers in the order given.
    pub fn rank(&mut self, servers: &Vec<ServerConfig>, host: &str, now: u64) -> (ranked: Vec<ServerConfig>)
        requires
            old(self).wf(),
        ensures
            final(self).wf(),
            final(self).served() == old(self).served(),
            final(self).affinity() == recent_only(old(self).affinity(), now),
            ranked@ == stable_sorted_by(servers@, ranked_before(final(self).served(), final(self).affinity(), host@)),
    {
        self.forget_stale(now);
        let ghost before = ranked_before(self.served(), self.affinity(), host@);
        let mut out: Vec<ServerConfig> = Vec::new();
        let mut k: usize = 0;
        while k < servers.len()
            invariant
                self.wf(),
                before == ranked_before(self.served(), self.affinity(), host@),
                k <= servers@.len(),
                out@ == stable_sorted_by(servers@.subrange(0, k as int), before),
            decreases servers@.len() - k,
        {
            let s = copy_server(&servers[k]);
            proof {
                lemma_stable_sorted_step(servers@, k as int, before);
            }
            let ghost current = out@;
            let mut p: usize = out.len();
            while p > 0 && self.tried_before(host, &s, &out[p - 1])
                invariant
                    self.wf(),
                    before == ranked_before(self.served(), self.affinity(), host@),
                    p <= out@.len(),
                    out@ == current,
                    forall|j: int| p <= j < out@.len() ==> before(s, #[trigger] out@[j]),
                decreases p,
            {
                p = p - 1;
            }
            proof {
                lemma_insert_by_at(current, s, before, p as int);
            }
            out.insert(p, s);
            k = k + 1;
        }
        proof {
            assert(servers@.subrange(0, servers@.len() as int) =~= servers@);
        }
        out
    }

    /// Counts one more request served by the server and records that it
    /// served the host at `now`.
    pub fn record_request(&mut self, server_id: &str, host: &str, now: u64)
        requires
            old(self).wf(),
            !old(self).served().dom().contains(server_id@) || old(self).served()[server_id@] < u64::MAX,
        ensures
            final(self).wf(),
            final(self).served() == old(self).served().insert(
                server_id@,
                (if old(self).served().dom().contains(server_id@) {
                    old(self).served()[server_id@] + 1
                } else {
                    1
                }) as u64,
            ),
            final(self).affinity() == old(self).affinity().insert((host@, server_id@), now),
    {
        match self.find_served(server_id) {
            Some(j) => {
                let ghost s0 = self.served@;
                let n = self.served[j].count + 1;
                let entry = ServedCount { server_id: String::from_str(server_id), count: n };
                self.served.set(j, entry);
                proof {
                    lemma_served_update(s0, j as int, entry);
                }
            },
            None => {
                let ghost s0 = self.served@;
                self.served.push(ServedCount { server_id: String::from_str(server_id), count: 1 });
                proof {
                    assert(self.served@.drop_last() =~= s0);
                }
            },
        }
        match self.find_affinity(host, server_id) {
            Some(j) => {
                let ghost a0 = self.host_affinity@;
                let entry = Affinity { host: String::from_str(host), server_id: String::from_str(server_id), last: now };
                self.host_affinity.set(j, entry);
                proof {
                    lemma_affinity_update(a0, j as int, entry);
                    assert forall|i: int, m: int| 0 <= i < m < self.host_affinity@.len() implies affinity_key(
                        #[trigger] self.host_affinity@[i],
                    ) != affinity_key(#[trigger] self.host_affinity@[m]) by {
                        assert(affinity_key(self.host_affinity@[i]) == affinity_key(a0[i]));
                        assert(affinity_key(self.host_affinity@[m]) == affinity_key(a0[m]));
                    }
                }
            },
            None => {
                let ghost a0 = self.host_affinity@;
                let entry = Affinity { host: String::from_str(host), server_id: String::from_str(server_id), last: now };
                self.host_affinity.push(entry);
                proof {
                    assert(self.host_affinity@.drop_last() =~= a0);
                    assert forall|i: int, m: int| 0 <= i < m < self.host_affinity@.len() implies affinity_key(
                        #[trigger] self.host_affinity@[i],
                    ) != affinity_key(#[trigger] self.host_affinity@[m]) by {
                        if m < a0.len() {
                            assert(self.host_affinity@[i] == a0[i] && self.host_affinity@[m] == a0[m]);
                        } else {
                            assert(self.host_affinity@[i] == a0[i]);
                        }
                    }
                }
            },
        }
    }
}

/// The entries still recent at `now`, in order.
pub open spec fn recent_entries(s: Seq<Affinity>, now: u64) -> Seq<Affinity>
    decreases s.len(),
{
    if s.len() == 0 {
        s
    } else if is_recent(s.last().last, now) {
        recent_entries(s.drop_last(), now).push(s.last())
    } else {
        recent_entries(s.drop_last(), now)
    }
}

proof fn lemma_served_lookup(s: Seq<ServedCount>, id: Seq<char>, p: int)
    requires
        0 <= p <= s.len(),
        forall|i: int| p <= i < s.len() ==> #[trigger] s[i].server_id@ != id,
        p > 0 ==> s[p - 1].server_id@ == id,
        p == 0 ==> forall|i: int| 0 <= i < s.len() ==> #[trigger] s[i].server_id@ != id,
    ensures
        p > 0 ==> served_map(s).dom().contains(id) && served_map(s)[id] == s[p - 1].count,
        p == 0 ==> !served_map(s).dom().contains(id),
    decreases s.len(),
{
    if s.len() > 0 {
        if p == s.len() {
        } else {
            lemma_served_lookup(s.drop_last(), id, p);
        }
    }
}

proof fn lemma_served_update(s: Seq<ServedCount>, j: int, e: ServedCount)
    requires
        0 <= j < s.len(),
        s[j].server_id@ == e.server_id@,
        forall|i: int| j < i < s.len() ==> #[trigger] s[i].server_id@ != e.server_id@,
    ensures
        served_map(s.update(j, e)) == served_map(s).insert(e.server_id@, e.count),
    decreases s.len(),
{
    if j == s.len() - 1 {
        assert(s.update(j, e).drop_last() =~= s.drop_last());
        assert(served_map(s.update(j, e)) =~= served_map(s).insert(e.server_id@, e.count));
    } else {
        lemma_served_update(s.drop_last(), j, e);
        assert(s.update(j, e).drop_last() =~= s.drop_last().update(j, e));
        assert(served_map(s.update(j, e)) =~= served_map(s).insert(e.server_id@, e.count));
    }
}

proof fn lemma_affinity_contains(s: Seq<Affinity>, k: (Seq<char>, Seq<char>))
    ensures
        affinity_map(s).dom().contains(k) <==> exists|i: int| 0 <= i < s.len() && affinity_key(#[trigger] s[i]) == k,
    decreases s.len(),
{
    if s.len() > 0 {
        lemma_affinity_contains(s.drop_last(), k);
        if affinity_map(s.drop_last()).dom().contains(k) {
            let i = choose|i: int| 0 <= i < s.drop_last().len() && affinity_key(#[trigger] s.drop_last()[i]) == k;
            assert(s[i] == s.drop_last()[i]);
        }
        if exists|i: int| 0 <= i < s.len() && affinity_key(#[trigger] s[i]) == k {
            let i = choose|i: int| 0 <= i < s.len() && affinity_key(#[trigger] s[i]) == k;
            if i < s.len() - 1 {
                assert(s.drop_last()[i] == s[i]);
            }
        }
    }
}

proof fn lemma_affinity_value(s: Seq<Affinity>, i: int)
    requires
        0 <= i < s.len(),
        forall|a: int, b: int| 0 <= a < b < s.len() ==> affinity_key(#[trigger] s[a]) != affinity_key(#[trigger] s[b]),
    ensures
        affinity_map(s).dom().contains(affinity_key(s[i])),
        affinity_map(s)[affinity_key(s[i])] == s[i].last,
    decreases s.len(),
{
    if i < s.len() - 1 {
        lemma_affinity_value(s.drop_last(), i);
        assert(s.drop_last()[i] == s[i]);
        assert(affinity_key(s[i]) != affinity_key(s[s.len() - 1]));
    }
}

proof fn lemma_affinity_update(s: Seq<Affinity>, j: int, e: Affinity)
    requires
        0 <= j < s.len(),
        affinity_key(s[j]) == affinity_key(e),
        forall|a: int, b: int| 0 <= a < b < s.len() ==> affinity_key(#[trigger] s[a]) != affinity_key(#[trigger] s[b]),
    ensures
        affinity_map(s.update(j, e)) == affinity_map(s).insert(affinity_key(e), e.last),
    decreases s.len(),
{
    if j == s.len() - 1 {
        assert(s.update(j, e).drop_last() =~= s.drop_last());
        assert(affinity_map(s.update(j, e)) =~= affinity_map(s).insert(affinity_key(e), e.last));
    } else {
        let t = s.drop_last();
        assert forall|a: int, b: int| 0 <= a < b < t.len() implies affinity_key(#[trigger] t[a]) != affinity_key(#[trigger] t[b]) by {
            assert(t[a] == s[a] && t[b] == s[b]);
        }
        lemma_affinity_update(t, j, e);
        assert(s.update(j, e).drop_last() =~= t.update(j, e));
        assert(affinity_key(s[s.len() - 1]) != affinity_key(s[j]));
        assert(affinity_map(s.update(j, e)) =~= affinity_map(s).insert(affinity_key(e), e.last));
    }
}

proof fn lemma_recent_entries(s: Seq<Affinity>, now: u64)
    requires
        forall|a: int, b: int| 0 <= a < b < s.len() ==> affinity_key(#[trigger] s[a]) != affinity_key(#[trigger] s[b]),
    ensures
        affinity_map(recent_entries(s, now)) == recent_only(affinity_map(s), now),
        forall|a: int, b: int|
            0 <= a < b < recent_entries(s, now).len() ==> affinity_key(#[trigger] recent_entries(s, now)[a])
                != affinity_key(#[trigger] recent_entries(s, now)[b]),
        forall|a: int|
            0 <= a < recent_entries(s, now).len() ==> exists|i: int|
                0 <= i < s.len() && #[trigger] recent_entries(s, now)[a] == s[i],
    decreases s.len(),
{
    if s.len() > 0 {
        let t = s.drop_last();
        let last = s.last();
        assert forall|a: int, b: int| 0 <= a < b < t.len() implies affinity_key(#[trigger] t[a]) != affinity_key(#[trigger] t[b]) by {
            assert(t[a] == s[a] && t[b] == s[b]);
        }
        lemma_recent_entries(t, now);
        let rt = recent_entries(t, now);
        lemma_affinity_contains(t, affinity_key(last));
        assert(!affinity_map(t).dom().contains(affinity_key(last))) by {
            if affinity_map(t).dom().contains(affinity_key(last)) {
                let i = choose|i: int| 0 <= i < t.len() && affinity_key(#[trigger] t[i]) == affinity_key(last);
                assert(t[i] == s[i]);
            }
        }
        assert forall|a: int| 0 <= a < rt.len() implies affinity_key(#[trigger] rt[a]) != affinity_key(last) by {
            let i = choose|i: int| 0 <= i < t.len() && #[trigger] rt[a] == t[i];
            assert(t[i] == s[i]);
        }
        if is_recent(last.last, now) {
            let r = rt.push(last);
            assert(recent_entries(s, now) == r);
            assert(r.drop_last() =~= rt);
            assert forall|a: int, b: int| 0 <= a < b < r.len() implies affinity_key(#[trigger] r[a]) != affinity_key(#[trigger] r[b]) by {
                if b < rt.len() {
                    assert(r[a] == rt[a] && r[b] == rt[b]);
                } else {
                    assert(r[a] == rt[a]);
                }
            }
            assert forall|a: int| 0 <= a < r.len() implies exists|i: int| 0 <= i < s.len() && #[trigger] r[a] == s[i] by {
                if a < rt.len() {
                    let i = choose|i: int| 0 <= i < t.len() && #[trigger] rt[a] == t[i];
                    assert(s[i] == t[i]);
                } else {
                    assert(r[a] == s[s.len() - 1]);
                }
            }
            assert(affinity_map(r) =~= recent_only(affinity_map(s), now));
        } else {
            assert forall|a: int| 0 <= a < rt.len() implies exists|i: int| 0 <= i < s.len() && #[trigger] rt[a] == s[i] by {
                let i = choose|i: int| 0 <= i < t.len() && #[trigger] rt[a] == t[i];
                assert(s[i] == t[i]);
            }
            assert(affinity_map(rt) =~= recent_only(affinity_map(s), now));
        }
    }
}

/// Returns the servers from the first to try to the last (see
/// `ServerRanker::rank`).
pub fn rank_servers(ranker: &mut ServerRanker, servers: &Vec<ServerConfig>, host: &str, now: u64) -> (ranked: Vec<
    ServerConfig,
>)
    requires
        old(ranker).wf(),
    ensures
        final(ranker).wf(),
        final(ranker).served() == old(ranker).served(),
        final(ranker).affinity() == recent_only(old(ranker).affinity(), now),
        ranked@ == stable_sorted_by(servers@, ranked_before(final(ranker).served(), final(ranker).affinity(), host@)),
{
    ranker.rank(servers, host, now)
}

/// Records that a server served a host at `now` (see
/// `ServerRanker::record_request`).  A server whose count is already at
/// `u64::MAX` is left as it is.
pub fn record_server_request(ranker: &mut ServerRanker, server_id: &str, host: &str, now: u64) -> (recorded: bool)
    requires
        old(ranker).wf(),
    ensures
        final(ranker).wf(),
        recorded == (!old(ranker).served().dom().contains(server_id@) || old(ranker).served()[server_id@] < u64::MAX),
        recorded ==> final(ranker).served() == old(ranker).served().insert(
            server_id@,
            (if old(ranker).served().dom().contains(server_id@) {
                old(ranker).served()[server_id@] + 1
            } else {
                1
            }) as u64,
        ) && final(ranker).affinity() == old(ranker).affinity().insert((host@, server_id@), now),
        !recorded ==> final(ranker).served() == old(ranker).served() && final(ranker).affinity() == old(
            ranker,
        ).affinity(),
{
    if ranker.served_count(server_id) == u64::MAX {
        return false;
    }
    ranker.record_request(server_id, host, now);
    true
}

/// The ranking order is a strict weak order.
pub proof fn ranked_before_is_strict_weak(
    served: Map<Seq<char>, u64>,
    affinity: Map<(Seq<char>, Seq<char>), u64>,
    host: Seq<char>,
)
    ensures
        strict_weak_order(ranked_before(served, affinity, host)),
{
    let f = ranked_before(served, affinity, host);
    assert forall|a: ServerConfig| !#[trigger] f(a, a) by {
        lemma_text_lt_irreflexive(a.id@);
    }
    assert forall|a: ServerConfig, b: ServerConfig, c: ServerConfig| #[trigger] f(a, b) && #[trigger] f(b, c) implies f(a, c) by {
        if text_lt(a.id@, b.id@) && text_lt(b.id@, c.id@) {
            lemma_text_lt_transitive(a.id@, b.id@, c.id@);
        }
    }
    assert forall|a: ServerConfig, b: ServerConfig, c: ServerConfig| !#[trigger] f(a, b) && !#[trigger] f(b, c) implies !f(a, c) by {
        if !text_lt(b.id@, c.id@) && !text_lt(a.id@, b.id@) {
            crate::order::lemma_text_not_lt_transitive(c.id@, b.id@, a.id@);
        }
    }
}

/// Law: a ranking lists the servers it was given, each as often as it
/// was given, from the highest score down; equal scores put more power
/// first, then the smaller id.
pub proof fn ranking_is_best_first(
    servers: Seq<ServerConfig>,
    served: Map<Seq<char>, u64>,
    affinity: Map<(Seq<char>, Seq<char>), u64>,
    host: Seq<char>,
)
    ensures
        stable_sorted_by(servers, ranked_before(served, affinity, host)).to_multiset() == servers.to_multiset(),
        forall|i: int, j: int|
            0 <= i < j < stable_sorted_by(servers, ranked_before(served, affinity, host)).len() ==> {
                let a = #[trigger] stable_sorted_by(servers, ranked_before(served, affinity, host))[i];
                let b = #[trigger] stable_sorted_by(servers, ranked_before(served, affinity, host))[j];
                let sa = score(served, affinity, host, a.id@);
                let sb = score(served, affinity, host, b.id@);
                &&& sa >= sb
                &&& sa == sb ==> a.power >= b.power
                &&& sa == sb && a.power == b.power ==> !text_lt(b.id@, a.id@)
            },
{
    let f = ranked_before(served, affinity, host);
    ranked_before_is_strict_weak(served, affinity, host);
    stable_sort_is_ordered(servers, f);
    stable_sort_is_permutation(servers, f);
    let r = stable_sorted_by(servers, f);
    assert forall|i: int, j: int| 0 <= i < j < r.len() implies {
        let a = #[trigger] r[i];
        let b = #[trigger] r[j];
        let sa = score(served, affinity, host, a.id@);
        let sb = score(served, affinity, host, b.id@);
        &&& sa >= sb
        &&& sa == sb ==> a.power >= b.power
        &&& sa == sb && a.power == b.power ==> !text_lt(b.id@, a.id@)
    } by {
        assert(!f(r[j], r[i]));
    }
}

/// How many requests the server with this id has served (none recorded
/// counts as zero).
pub open spec fn requests_served(served: Map<Seq<char>, u64>, id: Seq<char>) -> nat {
    if served.dom().contains(id) {
        served[id] as nat
    } else {
        0
    }
}

/// Whether the server with this id served the host recently.
pub open spec fn served_recently(affinity: Map<(Seq<char>, Seq<char>), u64>, host: Seq<char>, id: Seq<char>) -> bool {
    affinity.dom().contains((host, id))
}

/// Law: of two servers that both, or neither, served the host recently,
/// the one that has served fewer requests is tried first (whatever their
/// power); counts from `i64::MAX` up weigh the same.
pub proof fn fewer_served_requests_are_tried_first(
    servers: Seq<ServerConfig>,
    served: Map<Seq<char>, u64>,
    affinity: Map<(Seq<char>, Seq<char>), u64>,
    host: Seq<char>,
)
    ensures
        forall|i: int, j: int|
            0 <= i < j < stable_sorted_by(servers, ranked_before(served, affinity, host)).len() ==> {
                let a = #[trigger] stable_sorted_by(servers, ranked_before(served, affinity, host))[i];
                let b = #[trigger] stable_sorted_by(servers, ranked_before(served, affinity, host))[j];
                !(served_recently(affinity, host, a.id@) == served_recently(affinity, host, b.id@)
                    && requests_served(served, b.id@) < requests_served(served, a.id@) && requests_served(
                    served,
                    b.id@,
                ) < i64::MAX)
            },
{
    let f = ranked_before(served, affinity, host);
    ranked_before_is_strict_weak(served, affinity, host);
    stable_sort_is_ordered(servers, f);
    let r = stable_sorted_by(servers, f);
    assert forall|i: int, j: int| 0 <= i < j < r.len() implies {
        let a = #[trigger] r[i];
        let b = #[trigger] r[j];
        !(served_recently(affinity, host, a.id@) == served_recently(affinity, host, b.id@)
            && requests_served(served, b.id@) < requests_served(served, a.id@) && requests_served(served, b.id@)
            < i64::MAX)
    } by {
        assert(!f(r[j], r[i]));
    }
}

/// Law: serving the host recently is worth exactly 500 requests.  A
/// server that served the host recently is tried before one that did not
/// when it has served fewer than 500 requests more; it is tried after it
/// when it has served more than 500 requests more (counts below
/// `i64::MAX`).
pub proof fn recent_host_is_worth_five_hundred_requests(
    servers: Seq<ServerConfig>,
    served: Map<Seq<char>, u64>,
    affinity: Map<(Seq<char>, Seq<char>), u64>,
    host: Seq<char>,
)
    ensures
        forall|i: int, j: int|
            0 <= i < j < stable_sorted_by(servers, ranked_before(served, affinity, host)).len() ==> {
                let a = #[trigger] stable_sorted_by(servers, ranked_before(served, affinity, host))[i];
                let b = #[trigger] stable_sorted_by(servers, ranked_before(served, affinity, host))[j];
                &&& !(served_recently(affinity, host, b.id@) && !served_recently(affinity, host, a.id@)
                    && requests_served(served, b.id@) < requests_served(served, a.id@) + 500 && requests_served(
                    served,
                    b.id@,
                ) <= i64::MAX)
                &&& !(served_recently(affinity, host, a.id@) && !served_recently(affinity, host, b.id@)
                    && requests_served(served, a.id@) > requests_served(served, b.id@) + 500 && requests_served(
                    served,
                    a.id@,
                ) <= i64::MAX)
            },
{
    let f = ranked_before(served, affinity, host);
    ranked_before_is_strict_weak(served, affinity, host);
    stable_sort_is_ordered(servers, f);
    let r = stable_sorted_by(servers, f);
    assert forall|i: int, j: int| 0 <= i < j < r.len() implies {
        let a = #[trigger] r[i];
        let b = #[trigger] r[j];
        &&& !(served_recently(affinity, host, b.id@) && !served_recently(affinity, host, a.id@)
            && requests_served(served, b.id@) < requests_served(served, a.id@) + 500 && requests_served(served, b.id@)
            <= i64::MAX)
        &&& !(served_recently(affinity, host, a.id@) && !served_recently(affinity, host, b.id@)
            && requests_served(served, a.id@) > requests_served(served, b.id@) + 500 && requests_served(served, a.id@)
            <= i64::MAX)
    } by {
        assert(!f(r[j], r[i]));
    }
}

/// Law: between servers in the same standing for the host (both or
/// neither served it recently) that have served as many requests, the
/// more powerful is tried first, and of equal power the smaller id.
pub proof fn equal_standing_prefers_power_then_id(
    servers: Seq<ServerConfig>,
    served: Map<Seq<char>, u64>,
    affinity: Map<(Seq<char>, Seq<char>), u64>,
    host: Seq<char>,
)
    ensures
        forall|i: int, j: int|
            0 <= i < j < stable_sorted_by(servers, ranked_before(served, affinity, host)).len() ==> {
                let a = #[trigger] stable_sorted_by(servers, ranked_before(served, affinity, host))[i];
                let b = #[trigger] stable_sorted_by(servers, ranked_before(served, affinity, host))[j];
                (served_recently(affinity, host, a.id@) == served_recently(affinity, host, b.id@)
                    && requests_served(served, a.id@) == requests_served(served, b.id@)) ==> a.power >= b.power && (
                a.power == b.power ==> !text_lt(b.id@, a.id@))
            },
{
    let f = ranked_before(served, affinity, host);
    ranked_before_is_strict_weak(served, affinity, host);
    stable_sort_is_ordered(servers, f);
    let r = stable_sorted_by(servers, f);
    assert forall|i: int, j: int| 0 <= i < j < r.len() implies {
        let a = #[trigger] r[i];
        let b = #[trigger] r[j];
        (served_recently(affinity, host, a.id@) == served_recently(affinity, host, b.id@) && requests_served(
            served,
            a.id@,
        ) == requests_served(served, b.id@)) ==> a.power >= b.power && (a.power == b.power ==> !text_lt(
            b.id@,
            a.id@,
        ))
    } by {
        assert(!f(r[j], r[i]));
    }
}

/// Law: a served host stays recent for 24 hours.  When the ranking
/// forgets stale pairs at `now`, a pair last served at `t` is kept, with
/// its time, exactly when `now` is less than 24 hours after `t` (a clock
/// reading before `t` counts as no time elapsed).
pub proof fn served_hosts_stay_recent_for_a_day(
    affinity: Map<(Seq<char>, Seq<char>), u64>,
    now: u64,
    pair: (Seq<char>, Seq<char>),
)
    ensures
        recent_only(affinity, now).dom().contains(pair) <==> (affinity.dom().contains(pair) && (now < affinity[pair]
            || now - affinity[pair] < 86_400_000_000_000)),
        recent_only(affinity, now).dom().contains(pair) ==> recent_only(affinity, now)[pair] == affinity[pair],
{
}

} // verus!
