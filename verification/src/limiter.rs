use vstd::prelude::*;

verus! {

/// How often, in nanoseconds, stale hosts are looked for.
pub const CLEANUP_INTERVAL_NANOS: u64 = 30_000_000_000;

/// The most connections kept open to one host.
pub const MAX_CONNECTIONS_PER_HOST: usize = 5;

/// How many times a call is tried.
pub const MAX_RETRIES: u32 = 3;

/// The pause before the first retry, in milliseconds.
pub const INITIAL_RETRY_DELAY_MS: u64 = 100;

/// The connections open to one host, and when its entry was made (in nanoseconds).
pub struct HostStats {
    pub address: String,
    pub active_count: usize,
    pub last_cleanup: u64,
}

/// The time from `earlier` to `now`, zero when `earlier` is later.
pub open spec fn elapsed(now: u64, earlier: u64) -> int {
    if now >= earlier {
        now - earlier
    } else {
        0
    }
}

/// Whether cleaning up at `now` keeps the entry `h`: it has open connections, or it is
/// younger than two cleanup intervals.
pub open spec fn keeps(now: u64, interval: u64, h: HostStats) -> bool {
    h.active_count > 0 || elapsed(now, h.last_cleanup) < 2 * interval
}

/// Whether some entry is older than the cleanup interval at `now`.
pub open spec fn cleanup_due(hosts: Seq<HostStats>, now: u64, interval: u64) -> bool {
    exists|i: int| 0 <= i < hosts.len() && elapsed(now, #[trigger] hosts[i].last_cleanup) > interval
}

/// The index of the entry for `address`, or -1.
pub open spec fn host_index(hosts: Seq<HostStats>, address: Seq<char>) -> int
    decreases hosts.len(),
{
    if hosts.len() == 0 {
        -1
    } else if hosts.last().address@ == address {
        hosts.len() - 1
    } else {
        host_index(hosts.drop_last(), address)
    }
}

/// `host_index` is -1 or the index of an entry with that address, and -1 only when no
/// entry has it.
pub proof fn lemma_host_index(hosts: Seq<HostStats>, address: Seq<char>)
    ensures
        -1 <= host_index(hosts, address) < hosts.len(),
        host_index(hosts, address) >= 0 ==> hosts[host_index(hosts, address)].address@ == address,
        host_index(hosts, address) < 0 ==> forall|i: int| 0 <= i < hosts.len() ==> (#[trigger] hosts[i]).address@ != address,
    decreases hosts.len(),
{
    if hosts.len() > 0 && hosts.last().address@ != address {
        lemma_host_index(hosts.drop_last(), address);
        assert forall|i: int| 0 <= i < hosts.len() - 1 implies hosts[i] == hosts.drop_last()[i] by {}
    }
}

proof fn lemma_host_index_unique(hosts: Seq<HostStats>, address: Seq<char>, i: int)
    requires
        forall|a: int, b: int| 0 <= a < b < hosts.len() ==> hosts[a].address@ != hosts[b].address@,
        0 <= i < hosts.len(),
        hosts[i].address@ == address,
    ensures
        host_index(hosts, address) == i,
    decreases hosts.len(),
{
    if i < hosts.len() - 1 {
        lemma_host_index_unique(hosts.drop_last(), address, i);
    }
}

/// Changing the entry at `i` without changing its address leaves every host where it was.
pub proof fn lemma_host_index_update(hosts: Seq<HostStats>, i: int, h: HostStats, address: Seq<char>)
    requires
        0 <= i < hosts.len(),
        h.address@ == hosts[i].address@,
    ensures
        host_index(hosts.update(i, h), address) == host_index(hosts, address),
    decreases hosts.len(),
{
    let u = hosts.update(i, h);
    if i < hosts.len() - 1 {
        assert(u.last() == hosts.last());
        assert(u.drop_last() =~= hosts.drop_last().update(i, h));
        lemma_host_index_update(hosts.drop_last(), i, h, address);
    } else {
        assert(u.drop_last() =~= hosts.drop_last());
    }
}

/// The hosts after one more connection to `address` is counted; an unknown host is
/// left out.
pub open spec fn counted_up(hosts: Seq<HostStats>, address: Seq<char>) -> Seq<HostStats> {
    let i = host_index(hosts, address);
    if i >= 0 {
        hosts.update(i, HostStats { active_count: (hosts[i].active_count + 1) as usize, ..hosts[i] })
    } else {
        hosts
    }
}

/// The hosts after a connection to `address` is counted as closed, never below zero.
pub open spec fn counted_down(hosts: Seq<HostStats>, address: Seq<char>) -> Seq<HostStats> {
    let i = host_index(hosts, address);
    if i >= 0 {
        hosts.update(
            i,
            HostStats {
                active_count: (if hosts[i].active_count > 0 { hosts[i].active_count - 1 } else { 0 }) as usize,
                ..hosts[i]
            },
        )
    } else {
        hosts
    }
}

/// Keeping only some hosts keeps their addresses distinct.
proof fn lemma_filter_distinct(s: Seq<HostStats>, p: spec_fn(HostStats) -> bool)
    requires
        forall|a: int, b: int| 0 <= a < b < s.len() ==> s[a].address@ != s[b].address@,
    ensures
        forall|a: int, b: int| 0 <= a < b < s.filter(p).len() ==> s.filter(p)[a].address@ != s.filter(p)[b].address@,
        forall|a: int| 0 <= a < s.filter(p).len() ==> exists|j: int| 0 <= j < s.len() && s[j] == #[trigger] s.filter(p)[a],
    decreases s.len(),
{
    reveal(Seq::filter);
    if s.len() > 0 {
        let t = s.drop_last();
        let e = s.last();
        lemma_filter_distinct(t, p);
        assert forall|a: int| 0 <= a < t.filter(p).len() implies exists|j: int| 0 <= j < s.len() && s[j] == #[trigger] t.filter(p)[a] by {
            let j = choose|j: int| 0 <= j < t.len() && t[j] == t.filter(p)[a];
            assert(s[j] == t[j]);
        }
        if p(e) {
            assert(s.filter(p) == t.filter(p).push(e));
            assert forall|a: int| 0 <= a < t.filter(p).len() implies t.filter(p)[a].address@ != e.address@ by {
                let j = choose|j: int| 0 <= j < s.len() && s[j] == #[trigger] t.filter(p)[a];
                assert(j < s.len() - 1) by {
                    if j == s.len() - 1 {
                        let k = choose|k: int| 0 <= k < t.len() && t[k] == t.filter(p)[a];
                        assert(s[k] == t[k]);
                    }
                }
            }
            assert forall|a: int| 0 <= a < s.filter(p).len() implies exists|j: int| 0 <= j < s.len() && s[j] == #[trigger] s.filter(p)[a] by {
                if a == s.filter(p).len() - 1 {
                    assert(s[s.len() - 1] == s.filter(p)[a]);
                } else {
                    assert(s.filter(p)[a] == t.filter(p)[a]);
                }
            }
        } else {
            assert(s.filter(p) == t.filter(p));
        }
    }
}

/// What checking `address` at `now` does to the hosts `before`, with cleanup interval
/// `interval`: the stale hosts are dropped first when a cleanup is due, and an unknown
/// host gets an entry with no connections, made at `now`.
pub open spec fn hosts_after_check(before: Seq<HostStats>, interval: u64, address: Seq<char>, now: u64, after: Seq<HostStats>) -> bool {
    let kept = if cleanup_due(before, now, interval) {
        before.filter(|h: HostStats| keeps(now, interval, h))
    } else {
        before
    };
    if host_index(kept, address) >= 0 {
        after == kept
    } else {
        &&& after.len() == kept.len() + 1
        &&& after.drop_last() == kept
        &&& after.last().address@ == address
        &&& after.last().active_count == 0
        &&& after.last().last_cleanup == now
    }
}

#[verifier::external_type_specification]
#[verifier::external_body]
pub struct ExInstant(std::time::Instant);

/// The current moment of the machine's monotonic clock (`Instant::now`). Nothing is
/// stated of it: it is the machine's clock.
#[verifier::external_body]
fn clock_now() -> (r: std::time::Instant) {
    std::time::Instant::now()
}

/// The nanoseconds of the monotonic clock since `origin` (`Instant::elapsed`). Nothing
/// is stated of the value: it is the machine's clock.
#[verifier::external_body]
fn clock_nanos(origin: &std::time::Instant) -> (r: u64) {
    origin.elapsed().as_nanos() as u64
}

/// Limits the connections a client keeps open to each host.
pub struct ConnectionLimiter {
    entries: Vec<HostStats>,
    max_connections_per_host: usize,
    cleanup_interval: u64,
    origin: std::time::Instant,
}

impl ConnectionLimiter {
    /// The hosts known, in the order they were first seen.
    pub closed spec fn hosts(&self) -> Seq<HostStats> {
        self.entries@
    }

    /// The most connections allowed per host.
    pub closed spec fn max_per_host(&self) -> usize {
        self.max_connections_per_host
    }

    /// How often stale hosts are looked for, in nanoseconds.
    pub closed spec fn interval(&self) -> u64 {
        self.cleanup_interval
    }

    /// Whether no host is listed twice.
    pub open spec fn wf(&self) -> bool {
        forall|a: int, b: int| 0 <= a < b < self.hosts().len() ==> self.hosts()[a].address@ != self.hosts()[b].address@
    }

    /// The open connections to `address`, or `None` for an unknown host.
    pub open spec fn count(&self, address: Seq<char>) -> Option<usize> {
        let i = host_index(self.hosts(), address);
        if i >= 0 {
            Some(self.hosts()[i].active_count)
        } else {
            None
        }
    }

    /// A limiter allowing `max_connections_per_host` connections per host, looking for
    /// stale hosts every 30 seconds.
    pub fn new(max_connections_per_host: usize) -> (r: ConnectionLimiter)
        ensures
            r.wf(),
            r.hosts() == Seq::<HostStats>::empty(),
            r.max_per_host() == max_connections_per_host,
            r.interval() == CLEANUP_INTERVAL_NANOS,
    {
        ConnectionLimiter {
            entries: Vec::new(),
            max_connections_per_host,
            cleanup_interval: CLEANUP_INTERVAL_NANOS,
            origin: clock_now(),
        }
    }

    fn position(&self, address: &String) -> (r: Option<usize>)
        requires
            self.wf(),
        ensures
            r matches Some(i) ==> i as int == host_index(self.hosts(), address@) && i < self.hosts().len(),
            r is None ==> host_index(self.hosts(), address@) < 0,
    {
        let mut i: usize = 0;
        while i < self.entries.len()
            invariant
                self.wf(),
                i <= self.entries@.len(),
                forall|j: int| 0 <= j < i ==> (#[trigger] self.entries@[j]).address@ != address@,
            decreases self.entries@.len() - i,
        {
            if self.entries[i].address == *address {
                proof {
                    lemma_host_index_unique(self.entries@, address@, i as int);
                }
                return Some(i);
            }
            i = i + 1;
        }
        proof {
            lemma_host_index(self.entries@, address@);
            if host_index(self.entries@, address@) >= 0 {
                let k = host_index(self.entries@, address@);
                assert(self.entries@[k].address@ == address@);
            }
        }
        None
    }

    /// Whether a new connection to `address` may be opened at `now`. Stale hosts are
    /// dropped first when one is due, and an unknown host gets an entry.
    pub fn can_connect_at(&mut self, address: &str, now: u64) -> (r: bool)
        requires
            old(self).wf(),
        ensures
            final(self).wf(),
            final(self).max_per_host() == old(self).max_per_host(),
            final(self).interval() == old(self).interval(),
            final(self).hosts().len() <= old(self).hosts().len() + 1,
            hosts_after_check(old(self).hosts(), old(self).interval(), address@, now, final(self).hosts()),
            final(self).count(address@) is Some,
            r == (final(self).count(address@)->0 < final(self).max_per_host()),
    {
        let mut due = false;
        let mut i: usize = 0;
        while i < self.entries.len()
            invariant
                i <= self.entries@.len(),
                due == exists|j: int| 0 <= j < i && elapsed(now, #[trigger] self.entries@[j].last_cleanup) > self.cleanup_interval,
            decreases self.entries@.len() - i,
        {
            let last = self.entries[i].last_cleanup;
            let age: u64 = if now >= last { now - last } else { 0 };
            if age > self.cleanup_interval {
                due = true;
            }
            i = i + 1;
        }
        if due {
            self.cleanup_old_entries(now);
        }
        let key = address.to_owned();
        let key_string = key;
        match self.position(&key_string) {
            Some(k) => {
                proof {
                    lemma_host_index(self.entries@, address@);
                }
                self.entries[k].active_count < self.max_connections_per_host
            },
            None => {
                let ghost before = self.entries@;
                proof {
                    lemma_host_index(before, address@);
                }
                self.entries.push(HostStats { address: key_string, active_count: 0, last_cleanup: now });
                proof {
                    assert(self.entries@.drop_last() =~= before);
                    assert forall|a: int, b: int| 0 <= a < b < self.entries@.len() implies self.entries@[a].address@
                        != self.entries@[b].address@ by {
                        if b == before.len() {
                            assert(before[a].address@ != address@);
                        } else {
                            assert(self.entries@[a] == before[a]);
                            assert(self.entries@[b] == before[b]);
                        }
                    }
                    lemma_host_index_unique(self.entries@, address@, before.len() as int);
                }
                0 < self.max_connections_per_host
            },
        }
    }

    /// Whether a new connection to `address` may be opened now, the time being the
    /// nanoseconds of the monotonic clock since this limiter was made; see
    /// `can_connect_at`.
    pub fn can_connect(&mut self, address: &str) -> (r: bool)
        requires
            old(self).wf(),
        ensures
            final(self).wf(),
            final(self).max_per_host() == old(self).max_per_host(),
            final(self).interval() == old(self).interval(),
            exists|now: u64| hosts_after_check(old(self).hosts(), old(self).interval(), address@, now, final(self).hosts()),
            final(self).count(address@) is Some,
            r == (final(self).count(address@)->0 < final(self).max_per_host()),
    {
        let now = clock_nanos(&self.origin);
        self.can_connect_at(address, now)
    }

    /// Counts a connection opened to `address`, when the host is known.
    pub fn increment_count(&mut self, address: &str)
        requires
            old(self).wf(),
            old(self).count(address@) matches Some(n) ==> n < usize::MAX,
        ensures
            final(self).wf(),
            final(self).max_per_host() == old(self).max_per_host(),
            final(self).interval() == old(self).interval(),
            final(self).hosts() == counted_up(old(self).hosts(), address@),
    {
        let key = address.to_owned();
        match self.position(&key) {
            Some(k) => {
                let old_entry = &self.entries[k];
                let updated = HostStats {
                    address: old_entry.address.clone(),
                    active_count: old_entry.active_count + 1,
                    last_cleanup: old_entry.last_cleanup,
                };
                let ghost before = self.entries@;
                self.entries.set(k, updated);
                proof {
                    assert forall|a: int, b: int| 0 <= a < b < self.entries@.len() implies self.entries@[a].address@
                        != self.entries@[b].address@ by {
                        assert(before[a].address@ != before[b].address@);
                    }
                }
            },
            None => {},
        }
    }

    /// Counts a connection to `address` as closed, never below zero.
    pub fn decrement_count(&mut self, address: &str)
        requires
            old(self).wf(),
        ensures
            final(self).wf(),
            final(self).max_per_host() == old(self).max_per_host(),
            final(self).interval() == old(self).interval(),
            final(self).hosts() == counted_down(old(self).hosts(), address@),
    {
        let key = address.to_owned();
        match self.position(&key) {
            Some(k) => {
                let old_entry = &self.entries[k];
                let updated = HostStats {
                    address: old_entry.address.clone(),
                    active_count: old_entry.active_count.saturating_sub(1),
                    last_cleanup: old_entry.last_cleanup,
                };
                let ghost before = self.entries@;
                self.entries.set(k, updated);
                proof {
                    assert forall|a: int, b: int| 0 <= a < b < self.entries@.len() implies self.entries@[a].address@
                        != self.entries@[b].address@ by {
                        assert(before[a].address@ != before[b].address@);
                    }
                }
            },
            None => {},
        }
    }

    /// Drops the hosts with no open connection whose entry is at least two cleanup
    /// intervals old at `now`.
    pub fn cleanup_old_entries(&mut self, now: u64)
        requires
            old(self).wf(),
        ensures
            final(self).wf(),
            final(self).max_per_host() == old(self).max_per_host(),
            final(self).interval() == old(self).interval(),
            final(self).hosts() == old(self).hosts().filter(|h: HostStats| keeps(now, old(self).interval(), h)),
    {
        let interval = self.cleanup_interval;
        let mut kept: Vec<HostStats> = Vec::new();
        let mut i: usize = 0;
        let ghost pred = |h: HostStats| keeps(now, interval, h);
        while i < self.entries.len()
            invariant
                self.wf(),
                i <= self.entries@.len(),
                interval == self.cleanup_interval,
                pred == (|h: HostStats| keeps(now, interval, h)),
                kept@ == self.entries@.take(i as int).filter(pred),
            decreases self.entries@.len() - i,
        {
            proof {
                assert(self.entries@.take(i + 1) =~= self.entries@.take(i as int).push(self.entries@[i as int]));
                self.entries@.take(i as int).lemma_filter_push(self.entries@[i as int], pred);
            }
            let h = &self.entries[i];
            let age: u64 = if now >= h.last_cleanup { now - h.last_cleanup } else { 0 };
            if h.active_count > 0 || (age as u128) < 2 * (interval as u128) {
                kept.push(HostStats { address: h.address.clone(), active_count: h.active_count, last_cleanup: h.last_cleanup });
            }
            i = i + 1;
        }
        assert(self.entries@.take(i as int) =~= self.entries@);
        let ghost before = self.entries@;
        proof {
            assert(self.hosts() == before);
            assert forall|a: int, b: int| 0 <= a < b < before.len() implies before[a].address@ != before[b].address@ by {
                assert(self.hosts()[a] == before[a]);
                assert(self.hosts()[b] == before[b]);
            }
            lemma_filter_distinct(before, pred);
        }
        self.entries = kept;
    }
}

/// The pause before attempt `attempt` (counted from zero) of a call: none before the
/// first, then 100 ms doubling with each retry.
pub open spec fn retry_delay_ms(attempt: nat) -> nat
    decreases attempt,
{
    if attempt == 0 {
        0
    } else if attempt == 1 {
        INITIAL_RETRY_DELAY_MS as nat
    } else {
        2 * retry_delay_ms((attempt - 1) as nat)
    }
}

/// The pause before attempt `attempt` of a call, when it is tried at all: `None` once
/// the attempts are used up.
pub fn retry_delay(attempt: u32) -> (r: Option<u64>)
    ensures
        attempt >= MAX_RETRIES ==> r is None,
        attempt < MAX_RETRIES ==> r == Some(retry_delay_ms(attempt as nat) as u64),
{
    if attempt >= MAX_RETRIES {
        return None;
    }
    let mut delay: u64 = 0;
    let mut k: u32 = 0;
    while k < attempt
        invariant
            k <= attempt,
            attempt < MAX_RETRIES,
            delay as nat == retry_delay_ms(k as nat),
            delay <= 400,
        decreases attempt - k,
    {
        if k == 0 {
            delay = INITIAL_RETRY_DELAY_MS;
        } else {
            delay = delay * 2;
        }
        k = k + 1;
    }
    Some(delay)
}

} // verus!
