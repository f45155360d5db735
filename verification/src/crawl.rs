//! Batch-crawl scheduling.
//!
//! The crawler's decisions are held here: which URL to dispatch next,
//! how many fetches may be in flight, and how long a fetch must wait to
//! keep the per-host gap.  The caller performs the fetches and sleeps
//! the waits; time enters as an argument.

use vstd::prelude::*;
use crate::chars::{to_chars, from_chars};
use crate::json::eq_chars;

verus! {

/// The most parallel fetches a batch may run, whatever it asks for.
pub open spec fn spec_concurrency_cap() -> int {
    32
}

/// The clamp of a requested concurrency: at least one, at most the cap.
pub open spec fn spec_clamp_concurrency(c: int) -> int {
    if c < 1 {
        1
    } else if c > 32 {
        32
    } else {
        c
    }
}

/// Per-host pacing: the planned dispatch time of each host's last
/// fetch.  A new fetch to a host is planned no earlier than the gap
/// after the host's previous one.
pub struct HostPacer {
    pub delay_ms: u64,
    pub entries: Vec<(String, u64)>,
}

/// The position of a host's entry.
pub open spec fn spec_pacer_find(entries: Seq<(String, u64)>, host: Seq<char>) -> Option<int>
    decreases entries.len(),
{
    if entries.len() == 0 {
        None
    } else if entries[0].0@ == host {
        Some(0)
    } else {
        match spec_pacer_find(entries.drop_first(), host) {
            Some(p) => Some(p + 1),
            None => None,
        }
    }
}

/// A found entry names the host.
pub proof fn lemma_pacer_find_hit(entries: Seq<(String, u64)>, host: Seq<char>)
    ensures
        spec_pacer_find(entries, host) matches Some(p) ==> 0 <= p < entries.len() && entries[p].0@
            == host,
    decreases entries.len(),
{
    if entries.len() > 0 && entries[0].0@ != host {
        lemma_pacer_find_hit(entries.drop_first(), host);
    }
}

/// If no entry names the host, the search yields nothing.
proof fn lemma_pacer_find_none(entries: Seq<(String, u64)>, host: Seq<char>)
    requires
        forall|i: int| 0 <= i < entries.len() ==> entries[i].0@ != host,
    ensures
        spec_pacer_find(entries, host) is None,
    decreases entries.len(),
{
    if entries.len() > 0 {
        lemma_pacer_find_none(entries.drop_first(), host);
    }
}

/// If entries before `k` miss the host and entry `k` names it, the
/// search finds `k`.
proof fn lemma_pacer_find_at(entries: Seq<(String, u64)>, host: Seq<char>, k: int)
    requires
        0 <= k < entries.len(),
        forall|i: int| 0 <= i < k ==> entries[i].0@ != host,
        entries[k].0@ == host,
    ensures
        spec_pacer_find(entries, host) == Some(k),
    decreases k,
{
    if k > 0 {
        lemma_pacer_find_at(entries.drop_first(), host, k - 1);
    }
}

impl HostPacer {
    /// A pacer with the given minimum gap and no history.
    pub fn new(delay_ms: u64) -> (r: HostPacer)
        ensures
            r.delay_ms == delay_ms,
            r.entries@.len() == 0,
    {
        HostPacer { delay_ms, entries: Vec::new() }
    }

    /// Reserve a dispatch slot for `host` at time `now`: the wait the
    /// caller must sleep, after which the fetch dispatches at
    /// `now + wait`.  The planned time is the later of `now` and the
    /// host's previous planned time plus the gap, and it replaces the
    /// host's entry — so two reservations for one host always sit at
    /// least the gap apart.
    pub fn reserve(&mut self, host: &Vec<char>, now: u64) -> (wait: u64)
        requires
            now + old(self).delay_ms <= u64::MAX,
        ensures
            final(self).delay_ms == old(self).delay_ms,
            spec_pacer_find(final(self).entries@, host@) is Some,
            spec_pacer_find(final(self).entries@, host@) matches Some(p)
                ==> final(self).entries@[p].1 == now + wait,
            match spec_pacer_find(old(self).entries@, host@) {
                Some(q) => {
                    &&& (old(self).entries@[q].1 + old(self).delay_ms > now && old(self).entries@[q].1
                        + old(self).delay_ms <= u64::MAX ==> now + wait == old(self).entries@[q].1
                        + old(self).delay_ms)
                    &&& (old(self).entries@[q].1 + old(self).delay_ms <= now ==> wait == 0)
                    &&& (old(self).entries@[q].1 + old(self).delay_ms > u64::MAX ==> now + wait
                        == u64::MAX)
                },
                None => wait == 0,
            },
    {
        let ghost es = self.entries@;
        let mut k: usize = 0;
        let n = self.entries.len();
        while k < n
            invariant
                k <= n,
                n == self.entries@.len(),
                es == self.entries@,
                self.delay_ms == old(self).delay_ms,
                forall|i: int| 0 <= i < k ==> es[i].0@ != host@,
            decreases n - k,
        {
            let hc = to_chars(self.entries[k].0.as_str());
            if eq_chars(&hc, host) {
                proof {
                    lemma_pacer_find_at(es, host@, k as int);
                }
                let last = self.entries[k].1;
                let target: u64 = if last > u64::MAX - self.delay_ms {
                    u64::MAX
                } else {
                    last + self.delay_ms
                };
                let wait: u64 = if target > now {
                    target - now
                } else {
                    0
                };
                let entry = self.entries.remove(k);
                self.entries.insert(k, (entry.0, now + wait));
                proof {
                    lemma_pacer_find_at(self.entries@, host@, k as int);
                }
                return wait;
            }
            k = k + 1;
        }
        proof {
            lemma_pacer_find_none(es, host@);
        }
        self.entries.push((from_chars(host), now));
        proof {
            lemma_pacer_find_at(self.entries@, host@, self.entries@.len() - 1);
        }
        0
    }
}

/// Two successive reservations for one host dispatch at least the gap
/// apart: the second planned time is no earlier than the first plus the
/// delay, whenever the second reservation is made at or after the first
/// planned time holds in the pacer.
pub proof fn lemma_per_host_gap(
    before: HostPacer,
    after: HostPacer,
    host: Seq<char>,
    now: u64,
    wait: u64,
    p: int,
    q: int,
)
    requires
        spec_pacer_find(before.entries@, host) == Some(q),
        0 <= q < before.entries@.len(),
        spec_pacer_find(after.entries@, host) == Some(p),
        0 <= p < after.entries@.len(),
        after.entries@[p].1 == now + wait,
        before.entries@[q].1 + before.delay_ms <= u64::MAX,
        before.entries@[q].1 + before.delay_ms > now ==> now + wait == before.entries@[q].1
            + before.delay_ms,
        before.entries@[q].1 + before.delay_ms <= now ==> wait == 0,
        now >= before.entries@[q].1,
    ensures
        after.entries@[p].1 - before.entries@[q].1 >= before.delay_ms,
{
}

/// The state of one batch: URLs not yet dispatched, fetches in flight,
/// and the concurrency bound.
pub struct CrawlPlanner {
    /// URLs not yet dispatched; the next one is first.
    pub pending: Vec<String>,
    pub next: usize,
    pub in_flight: usize,
    pub limit: usize,
    pub pacer: HostPacer,
}

impl CrawlPlanner {
    /// The planner is sound: the bound is the clamped request, never
    /// above the cap, and in-flight fetches never exceed it.
    pub open spec fn wf(self) -> bool {
        &&& 1 <= self.limit <= spec_concurrency_cap()
        &&& self.in_flight <= self.limit
        &&& self.next <= self.pending@.len()
    }

    /// A fresh batch over `urls` with the clamped concurrency.
    pub fn new(urls: Vec<String>, concurrency: usize, delay_ms: u64) -> (r: CrawlPlanner)
        ensures
            r.wf(),
            r.limit as int == spec_clamp_concurrency(concurrency as int),
            r.in_flight == 0,
            r.next == 0,
            r.pending@ == urls@,
            r.pacer.delay_ms == delay_ms,
    {
        let limit: usize = if concurrency < 1 {
            1
        } else if concurrency > 32 {
            32
        } else {
            concurrency
        };
        CrawlPlanner { pending: urls, next: 0, in_flight: 0, limit, pacer: HostPacer::new(delay_ms) }
    }

    /// The next URL to dispatch, when a slot is free and URLs remain;
    /// dispatching raises the in-flight count, which never passes the
    /// bound.
    pub fn start_next(&mut self) -> (r: Option<&String>)
        requires
            old(self).wf(),
        ensures
            final(self).wf(),
            final(self).limit == old(self).limit,
            final(self).pending@ == old(self).pending@,
            final(self).pacer == old(self).pacer,
            match r {
                Some(u) => {
                    &&& old(self).in_flight < old(self).limit
                    &&& old(self).next < old(self).pending@.len()
                    &&& u@ == old(self).pending@[old(self).next as int]@
                    &&& final(self).in_flight == old(self).in_flight + 1
                    &&& final(self).next == old(self).next + 1
                },
                None => {
                    &&& (old(self).in_flight >= old(self).limit || old(self).next >= old(
                        self,
                    ).pending@.len())
                    &&& final(self).in_flight == old(self).in_flight
                    &&& final(self).next == old(self).next
                },
            },
            final(self).in_flight <= spec_concurrency_cap(),
    {
        if self.in_flight < self.limit && self.next < self.pending.len() {
            let u = &self.pending[self.next];
            self.in_flight = self.in_flight + 1;
            self.next = self.next + 1;
            Some(u)
        } else {
            None
        }
    }

    /// A fetch finished: the in-flight count falls.
    pub fn finish(&mut self)
        requires
            old(self).wf(),
            old(self).in_flight > 0,
        ensures
            final(self).wf(),
            final(self).in_flight == old(self).in_flight - 1,
            final(self).limit == old(self).limit,
            final(self).pending@ == old(self).pending@,
            final(self).next == old(self).next,
            final(self).pacer == old(self).pacer,
    {
        self.in_flight = self.in_flight - 1;
    }

    /// Reserve the per-host slot for a dispatch at `now`.
    pub fn pace(&mut self, host: &Vec<char>, now: u64) -> (wait: u64)
        requires
            old(self).wf(),
            now + old(self).pacer.delay_ms <= u64::MAX,
        ensures
            final(self).wf(),
            final(self).in_flight == old(self).in_flight,
            final(self).limit == old(self).limit,
            final(self).pending@ == old(self).pending@,
            final(self).next == old(self).next,
            final(self).pacer.delay_ms == old(self).pacer.delay_ms,
            spec_pacer_find(final(self).pacer.entries@, host@) is Some,
            spec_pacer_find(final(self).pacer.entries@, host@) matches Some(p)
                ==> final(self).pacer.entries@[p].1 == now + wait,
            match spec_pacer_find(old(self).pacer.entries@, host@) {
                Some(q) => now >= old(self).pacer.entries@[q].1 ==> (now + wait) - old(
                    self,
                ).pacer.entries@[q].1 >= old(self).pacer.delay_ms,
                None => wait == 0,
            },
    {
        let w = self.pacer.reserve(host, now);
        w
    }
}

/// In-flight fetches never exceed the requested concurrency's clamp,
/// and never the cap of thirty-two.
pub proof fn lemma_concurrency_bound(p: CrawlPlanner)
    requires
        p.wf(),
    ensures
        p.in_flight <= p.limit,
        p.in_flight as int <= spec_concurrency_cap(),
{
}

} // verus!
