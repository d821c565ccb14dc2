//! The update cycle: which records to set after the prefix has been detected, and what
//! is remembered of the records that were set.

use vstd::prelude::*;

use crate::addr::Ipv6Addr;
use crate::config::HostEntry;
use crate::error::Error;
use crate::text::same_text;
use crate::util::{combine, suffix_from_addr};

verus! {

// What is known of the records.

/// Whether the entry at `i` is that of domain `k`.
spec fn is_entry(entries: Seq<(String, Ipv6Addr)>, i: int, k: Seq<char>) -> bool {
    0 <= i < entries.len() && entries[i].0@ == k
}

/// The addresses that the records of domains are known to hold.
pub struct Cache {
    entries: Vec<(String, Ipv6Addr)>,
}

impl View for Cache {
    type V = Map<Seq<char>, Ipv6Addr>;

    closed spec fn view(&self) -> Map<Seq<char>, Ipv6Addr> {
        Map::new(
            |k: Seq<char>| exists|i: int| is_entry(self.entries@, i, k),
            |k: Seq<char>| self.entries@[choose|i: int| is_entry(self.entries@, i, k)].1,
        )
    }
}

impl Cache {
    /// A domain has one entry at most.
    #[verifier::type_invariant]
    spec fn one_entry_each(self) -> bool {
        forall|i: int, j: int, k: Seq<char>|
            #[trigger] is_entry(self.entries@, i, k) && #[trigger] is_entry(self.entries@, j, k)
                ==> i == j
    }

    /// Nothing is known yet.
    pub fn new() -> (cache: Cache)
        ensures
            cache@ == Map::<Seq<char>, Ipv6Addr>::empty(),
    {
        let entries: Vec<(String, Ipv6Addr)> = Vec::new();
        let cache = Cache { entries };
        assert(cache@ =~= Map::<Seq<char>, Ipv6Addr>::empty());
        cache
    }

    /// The position of a domain's entry, or the number of entries.
    fn position(&self, domain: &str) -> (p: usize)
        ensures
            p <= self.entries@.len(),
            p < self.entries@.len() ==> is_entry(self.entries@, p as int, domain@),
            p == self.entries@.len() ==> forall|i: int| !is_entry(self.entries@, i, domain@),
    {
        let mut p: usize = 0;
        while p < self.entries.len()
            invariant
                p <= self.entries@.len(),
                forall|i: int| 0 <= i < p ==> !is_entry(self.entries@, i, domain@),
            decreases self.entries.len() - p,
        {
            if same_text(self.entries[p].0.as_str(), domain) {
                return p;
            }
            p += 1;
        }
        p
    }

    /// The address that a domain's record is known to hold.
    pub fn get(&self, domain: &str) -> (addr: Option<Ipv6Addr>)
        ensures
            match addr {
                Some(a) => self@.contains_key(domain@) && self@[domain@] == a,
                None => !self@.contains_key(domain@),
            },
    {
        proof {
            use_type_invariant(self);
        }
        let p = self.position(domain);
        if p < self.entries.len() {
            assert(is_entry(self.entries@, p as int, domain@));
            Some(self.entries[p].1)
        } else {
            None
        }
    }

    /// Remembers the address of a domain's record in place of any earlier one.
    pub fn insert(&mut self, domain: String, addr: Ipv6Addr)
        ensures
            final(self)@ == old(self)@.insert(domain@, addr),
    {
        proof {
            use_type_invariant(&*self);
        }
        let ghost before = self.entries@;
        let ghost known = self@;
        let p = self.position(domain.as_str());
        let mut entries: Vec<(String, Ipv6Addr)> = Vec::new();
        std::mem::swap(&mut entries, &mut self.entries);
        if p < entries.len() {
            entries.set(p, (domain, addr));
        } else {
            entries.push((domain, addr));
        }
        proof {
            let after = entries@;
            assert(after[p as int] == (domain, addr));
            assert forall|i: int, k: Seq<char>| is_entry(after, i, k) implies i == p && k == domain@
                || i != p && is_entry(before, i, k) && after[i] == before[i] by {}
            assert forall|i: int, j: int, k: Seq<char>| #[trigger]
                is_entry(after, i, k) && #[trigger] is_entry(after, j, k) implies i == j by {
                if i == p && j != p {
                    assert(is_entry(before, j, k));
                } else if i != p && j == p {
                    assert(is_entry(before, i, k));
                }
            }
            assert(is_entry(after, p as int, domain@));
            assert forall|i: int, k: Seq<char>| k != domain@ && is_entry(before, i, k) implies
                is_entry(after, i, k) && after[i] == before[i] by {}
        }
        self.entries = entries;
        proof {
            let k0 = domain@;
            assert forall|k: Seq<char>| self@.contains_key(k) <==> known.insert(
                k0,
                addr,
            ).contains_key(k) by {
                if k != k0 {
                    if known.contains_key(k) {
                        let i = choose|i: int| is_entry(before, i, k);
                        assert(is_entry(self.entries@, i, k));
                    }
                    if self@.contains_key(k) {
                        let i = choose|i: int| is_entry(self.entries@, i, k);
                        assert(is_entry(before, i, k));
                    }
                }
            }
            assert forall|k: Seq<char>| self@.contains_key(k) implies self@[k] == known.insert(
                k0,
                addr,
            )[k] by {
                let i = choose|i: int| is_entry(self.entries@, i, k);
                if k == k0 {
                    assert(is_entry(self.entries@, p as int, k));
                } else {
                    assert(is_entry(before, i, k));
                }
            }
            assert(self@ =~= known.insert(k0, addr));
        }
    }

    /// Takes what a query for a domain's record brought at startup. Only an address that
    /// was found is remembered.
    pub fn seed(&mut self, domain: &str, found: &Result<Option<Ipv6Addr>, Error>)
        ensures
            final(self)@ == (match *found {
                Ok(Some(addr)) => old(self)@.insert(domain@, addr),
                _ => old(self)@,
            }),
    {
        if let Ok(Some(addr)) = found {
            self.insert(domain.to_string(), *addr);
        }
    }
}

// The hosts of a cycle.

/// The static hosts followed by the discovered ones.
pub fn merge_hosts(fixed: &Vec<HostEntry>, discovered: &Vec<HostEntry>) -> (hosts: Vec<HostEntry>)
    ensures
        hosts@ == fixed@ + discovered@,
{
    let mut hosts: Vec<HostEntry> = Vec::new();
    let mut i: usize = 0;
    while i < fixed.len()
        invariant
            i <= fixed.len(),
            hosts@ == fixed@.take(i as int),
        decreases fixed.len() - i,
    {
        hosts.push(fixed[i].clone());
        i += 1;
    }
    assert(fixed@.take(i as int) =~= fixed@);
    let mut j: usize = 0;
    assert(hosts@ =~= fixed@ + discovered@.take(0));
    while j < discovered.len()
        invariant
            j <= discovered.len(),
            hosts@ == fixed@ + discovered@.take(j as int),
        decreases discovered.len() - j,
    {
        hosts.push(discovered[j].clone());
        j += 1;
        assert(hosts@ =~= fixed@ + discovered@.take(j as int));
    }
    assert(discovered@.take(j as int) =~= discovered@);
    hosts
}

/// Whether an earlier host has the same domain as the one at `i`. Then the later of the
/// two decides which address the record ends up with.
pub fn is_repeated(hosts: &Vec<HostEntry>, i: usize) -> (repeated: bool)
    requires
        i < hosts@.len(),
    ensures
        repeated == exists|j: int|
            0 <= j < i && (#[trigger] hosts@[j]).domain@ == hosts@[i as int].domain@,
{
    let mut j: usize = 0;
    while j < i
        invariant
            j <= i < hosts@.len(),
            forall|k: int|
                0 <= k < j ==> (#[trigger] hosts@[k]).domain@ != hosts@[i as int].domain@,
        decreases i - j,
    {
        if same_text(hosts[j].domain.as_str(), hosts[i].domain.as_str()) {
            return true;
        }
        j += 1;
    }
    false
}

// What a cycle does.

/// The address of a host under a prefix. Only the lower 64 bits of its suffix count.
pub open spec fn host_address(prefix: Ipv6Addr, host: HostEntry) -> Ipv6Addr {
    crate::util::combined(prefix, crate::util::suffix_of(host.suffix))
}

/// Whether a host's record is known to hold its address under a prefix.
pub open spec fn up_to_date(
    known: Map<Seq<char>, Ipv6Addr>,
    prefix: Ipv6Addr,
    host: HostEntry,
) -> bool {
    known.contains_key(host.domain@) && known[host.domain@] == host_address(prefix, host)
}

/// The state of a cycle: what is known of the records, which records were set (whether
/// that succeeded or not), and how many of these attempts failed.
pub struct Progress {
    pub known: Map<Seq<char>, Ipv6Addr>,
    pub sent: Seq<(Seq<char>, Ipv6Addr)>,
    pub failed: nat,
}

/// One host's turn: nothing if its record is up to date; otherwise its record is set,
/// which is remembered if it succeeds and counted if it fails.
pub open spec fn step(
    state: Progress,
    prefix: Ipv6Addr,
    host: HostEntry,
    succeeds: bool,
) -> Progress {
    let addr = host_address(prefix, host);
    if up_to_date(state.known, prefix, host) {
        state
    } else {
        Progress {
            known: if succeeds {
                state.known.insert(host.domain@, addr)
            } else {
                state.known
            },
            sent: state.sent.push((host.domain@, addr)),
            failed: if succeeds {
                state.failed
            } else {
                state.failed + 1
            },
        }
    }
}

/// A whole cycle: every host has its turn, in order. `outcomes` tells for each host
/// whether setting its record succeeds, should it be tried.
pub open spec fn run(
    prefix: Ipv6Addr,
    hosts: Seq<HostEntry>,
    known: Map<Seq<char>, Ipv6Addr>,
    outcomes: Seq<bool>,
) -> Progress
    decreases hosts.len(),
{
    if hosts.len() == 0 {
        Progress { known, sent: Seq::empty(), failed: 0 }
    } else {
        step(
            run(prefix, hosts.drop_last(), known, outcomes),
            prefix,
            hosts.last(),
            outcomes[hosts.len() - 1],
        )
    }
}

/// A record to set.
#[derive(Debug)]
pub struct Update {
    pub domain: String,
    pub addr: Ipv6Addr,
}

/// The updates as pairs of domain and address.
pub open spec fn update_views(updates: Seq<Update>) -> Seq<(Seq<char>, Ipv6Addr)> {
    updates.map_values(|u: Update| (u.domain@, u.addr))
}

/// A cycle under way. The hosts before `next` have had their turn.
pub struct UpdateCycle {
    pub prefix: Ipv6Addr,
    pub hosts: Vec<HostEntry>,
    pub next: usize,
    pub error_count: usize,
}

impl UpdateCycle {
    /// The prefix is bare, and no more attempts failed than hosts had their turn.
    pub open spec fn wf(&self) -> bool {
        crate::util::prefix_only(self.prefix) && self.error_count <= self.next
            <= self.hosts.len()
    }

    /// A cycle in which no host has had its turn.
    pub fn new(prefix: Ipv6Addr, hosts: Vec<HostEntry>) -> (cycle: UpdateCycle)
        requires
            crate::util::prefix_only(prefix),
        ensures
            cycle.wf(),
            cycle.prefix == prefix,
            cycle.hosts == hosts,
            cycle.next == 0,
            cycle.error_count == 0,
    {
        UpdateCycle { prefix, hosts, next: 0, error_count: 0 }
    }

    /// The address of the host at `i`.
    fn address(&self, i: usize) -> (addr: Ipv6Addr)
        requires
            self.wf(),
            i < self.hosts@.len(),
        ensures
            addr == host_address(self.prefix, self.hosts@[i as int]),
    {
        combine(&self.prefix, &suffix_from_addr(&self.hosts[i].suffix))
    }

    /// Passes over the hosts whose records are up to date, and gives the record of the
    /// next host to set, if there is one.
    pub fn next_update(&mut self, cache: &Cache) -> (update: Option<Update>)
        requires
            old(self).wf(),
        ensures
            final(self).wf(),
            final(self).prefix == old(self).prefix,
            final(self).hosts == old(self).hosts,
            final(self).error_count == old(self).error_count,
            old(self).next <= final(self).next,
            forall|i: int|
                old(self).next <= i < final(self).next ==> up_to_date(
                    cache@,
                    old(self).prefix,
                    #[trigger] old(self).hosts@[i],
                ),
            match update {
                Some(u) => {
                    let i = final(self).next as int;
                    let host = old(self).hosts@[i];
                    &&& i < old(self).hosts@.len()
                    &&& !up_to_date(cache@, old(self).prefix, host)
                    &&& u.domain@ == host.domain@
                    &&& u.addr == host_address(old(self).prefix, host)
                },
                None => final(self).next == old(self).hosts@.len(),
            },
    {
        while self.next < self.hosts.len()
            invariant
                self.wf(),
                self.prefix == old(self).prefix,
                self.hosts == old(self).hosts,
                self.error_count == old(self).error_count,
                old(self).next <= self.next,
                forall|i: int|
                    old(self).next <= i < self.next ==> up_to_date(
                        cache@,
                        old(self).prefix,
                        #[trigger] old(self).hosts@[i],
                    ),
            decreases self.hosts@.len() - self.next,
        {
            let addr = self.address(self.next);
            let current = match cache.get(self.hosts[self.next].domain.as_str()) {
                Some(found) => found == addr,
                None => false,
            };
            if !current {
                return Some(Update { domain: self.hosts[self.next].domain.clone(), addr });
            }
            self.next = self.next + 1;
        }
        None
    }

    /// Takes the outcome of setting the record of the host at `next`. Success is
    /// remembered; a failure is counted, and the next host has its turn all the same.
    pub fn finish_update(&mut self, cache: &mut Cache, succeeded: bool)
        requires
            old(self).wf(),
            old(self).next < old(self).hosts.len(),
        ensures
            final(self).wf(),
            final(self).prefix == old(self).prefix,
            final(self).hosts == old(self).hosts,
            final(self).next == old(self).next + 1,
            final(self).error_count == old(self).error_count + if succeeded {
                0int
            } else {
                1
            },
            ({
                let host = old(self).hosts@[old(self).next as int];
                final(cache)@ == if succeeded {
                    old(cache)@.insert(host.domain@, host_address(old(self).prefix, host))
                } else {
                    old(cache)@
                }
            }),
    {
        let addr = self.address(self.next);
        if succeeded {
            cache.insert(self.hosts[self.next].domain.clone(), addr);
        } else {
            self.error_count = self.error_count + 1;
        }
        self.next = self.next + 1;
    }
}

/// What a cycle did.
#[derive(Debug)]
pub struct CycleReport {
    pub sent: Vec<Update>,
    pub error_count: usize,
}

/// Turns in which nothing is to be done change nothing.
proof fn lemma_run_skips(
    prefix: Ipv6Addr,
    hosts: Seq<HostEntry>,
    known: Map<Seq<char>, Ipv6Addr>,
    outcomes: Seq<bool>,
    from: int,
    to: int,
)
    requires
        0 <= from <= to <= hosts.len(),
        forall|i: int|
            from <= i < to ==> up_to_date(
                run(prefix, hosts.take(from), known, outcomes).known,
                prefix,
                #[trigger] hosts[i],
            ),
    ensures
        run(prefix, hosts.take(to), known, outcomes) == run(
            prefix,
            hosts.take(from),
            known,
            outcomes,
        ),
    decreases to - from,
{
    if from < to {
        lemma_run_skips(prefix, hosts, known, outcomes, from, to - 1);
        assert(hosts.take(to).drop_last() =~= hosts.take(to - 1));
        assert(hosts.take(to).last() == hosts[to - 1]);
    }
}

/// Runs a cycle with the given outcomes: `outcomes` tells for each host, static ones
/// first, whether setting its record succeeds. Without a prefix nothing happens.
pub fn run_update_cycle(
    detected: &Result<Ipv6Addr, Error>,
    fixed: &Vec<HostEntry>,
    discovered: &Vec<HostEntry>,
    cache: &mut Cache,
    outcomes: &Vec<bool>,
) -> (report: CycleReport)
    requires
        *detected matches Ok(p) ==> crate::util::prefix_only(p),
        outcomes@.len() == fixed@.len() + discovered@.len(),
    ensures
        match *detected {
            Ok(prefix) => {
                let end = run(prefix, fixed@ + discovered@, old(cache)@, outcomes@);
                &&& final(cache)@ == end.known
                &&& update_views(report.sent@) == end.sent
                &&& report.error_count == end.failed
            },
            Err(_) => final(cache)@ == old(cache)@ && report.sent@.len() == 0
                && report.error_count == 0,
        },
{
    let mut sent: Vec<Update> = Vec::new();
    let prefix = match detected {
        Ok(prefix) => *prefix,
        Err(_) => {
            return CycleReport { sent, error_count: 0 };
        },
    };
    let hosts = merge_hosts(fixed, discovered);
    let ghost all = hosts@;
    let ghost known = cache@;
    let mut cycle = UpdateCycle::new(prefix, hosts);
    assert(update_views(sent@) =~= Seq::empty());
    loop
        invariant
            cycle.wf(),
            cycle.prefix == prefix,
            cycle.hosts@ == all,
            outcomes@.len() == all.len(),
            ({
                let now = run(prefix, all.take(cycle.next as int), known, outcomes@);
                &&& cache@ == now.known
                &&& update_views(sent@) == now.sent
                &&& cycle.error_count == now.failed
            }),
        ensures
            ({
                let end = run(prefix, all, known, outcomes@);
                &&& cache@ == end.known
                &&& update_views(sent@) == end.sent
                &&& cycle.error_count == end.failed
            }),
        decreases all.len() - cycle.next,
    {
        let ghost from = cycle.next as int;
        match cycle.next_update(cache) {
            Some(update) => {
                let ghost at = cycle.next as int;
                let ghost before = sent@;
                proof {
                    lemma_run_skips(prefix, all, known, outcomes@, from, at);
                    assert(all.take(at + 1).drop_last() =~= all.take(at));
                    assert(all.take(at + 1).last() == all[at]);
                }
                let succeeded = outcomes[cycle.next];
                sent.push(update);
                assert(update_views(sent@) =~= update_views(before).push(
                    (update.domain@, update.addr),
                ));
                cycle.finish_update(cache, succeeded);
            },
            None => {
                proof {
                    lemma_run_skips(prefix, all, known, outcomes@, from, all.len() as int);
                    assert(all.take(all.len() as int) =~= all);
                }
                break ;
            },
        }
    }
    CycleReport { sent, error_count: cycle.error_count }
}

// Laws of the cycle.

/// Two hosts of the same domain never ask for different addresses.
pub open spec fn consistent(hosts: Seq<HostEntry>) -> bool {
    forall|i: int, j: int|
        0 <= i < hosts.len() && 0 <= j < hosts.len() && (#[trigger] hosts[i]).domain@ == (
        #[trigger] hosts[j]).domain@ ==> crate::util::suffix_of(hosts[i].suffix)
            == crate::util::suffix_of(hosts[j].suffix)
}

/// No two hosts have the same domain.
pub open spec fn distinct_domains(hosts: Seq<HostEntry>) -> bool {
    forall|i: int, j: int|
        0 <= i < j < hosts.len() ==> (#[trigger] hosts[i]).domain@ != (#[trigger] hosts[j]).domain@
}

/// The hosts whose records are not known to be up to date, with their addresses.
pub open spec fn stale(
    prefix: Ipv6Addr,
    hosts: Seq<HostEntry>,
    known: Map<Seq<char>, Ipv6Addr>,
) -> Seq<(Seq<char>, Ipv6Addr)>
    decreases hosts.len(),
{
    if hosts.len() == 0 {
        Seq::empty()
    } else {
        let earlier = stale(prefix, hosts.drop_last(), known);
        let host = hosts.last();
        if up_to_date(known, prefix, host) {
            earlier
        } else {
            earlier.push((host.domain@, host_address(prefix, host)))
        }
    }
}

/// A cycle says nothing new about domains that are not among its hosts.
pub proof fn law_other_domains_untouched(
    prefix: Ipv6Addr,
    hosts: Seq<HostEntry>,
    known: Map<Seq<char>, Ipv6Addr>,
    outcomes: Seq<bool>,
    domain: Seq<char>,
)
    requires
        forall|i: int| 0 <= i < hosts.len() ==> (#[trigger] hosts[i]).domain@ != domain,
    ensures
        ({
            let end = run(prefix, hosts, known, outcomes).known;
            &&& end.contains_key(domain) == known.contains_key(domain)
            &&& known.contains_key(domain) ==> end[domain] == known[domain]
        }),
    decreases hosts.len(),
{
    if hosts.len() > 0 {
        let earlier = hosts.drop_last();
        assert forall|i: int| 0 <= i < earlier.len() implies (#[trigger] earlier[i]).domain@
            != domain by {
            assert(earlier[i] == hosts[i]);
        }
        law_other_domains_untouched(prefix, earlier, known, outcomes, domain);
        assert(hosts.last() == hosts[hosts.len() - 1]);
    }
}

/// A cycle forgets no domain: a host that is gone, such as a container that has stopped,
/// leaves its record behind.
pub proof fn law_nothing_is_forgotten(
    prefix: Ipv6Addr,
    hosts: Seq<HostEntry>,
    known: Map<Seq<char>, Ipv6Addr>,
    outcomes: Seq<bool>,
)
    ensures
        known.dom().subset_of(run(prefix, hosts, known, outcomes).known.dom()),
    decreases hosts.len(),
{
    if hosts.len() > 0 {
        law_nothing_is_forgotten(prefix, hosts.drop_last(), known, outcomes);
    }
}

/// Of a configured suffix only the lower 64 bits count.
pub proof fn law_only_lower_bits_count(prefix: Ipv6Addr, a: HostEntry, b: HostEntry)
    requires
        crate::util::suffix_of(a.suffix) == crate::util::suffix_of(b.suffix),
    ensures
        host_address(prefix, a) == host_address(prefix, b),
{
}

/// A cycle in which every record is up to date sets no record and changes nothing.
pub proof fn law_nothing_stale_nothing_sent(
    prefix: Ipv6Addr,
    hosts: Seq<HostEntry>,
    known: Map<Seq<char>, Ipv6Addr>,
    outcomes: Seq<bool>,
)
    requires
        forall|i: int| 0 <= i < hosts.len() ==> up_to_date(known, prefix, #[trigger] hosts[i]),
    ensures
        ({
            let end = run(prefix, hosts, known, outcomes);
            end.sent.len() == 0 && end.failed == 0 && end.known == known
        }),
{
    assert(hosts.take(0) =~= Seq::empty());
    assert(run(prefix, hosts.take(0), known, outcomes).known == known);
    lemma_run_skips(prefix, hosts, known, outcomes, 0, hosts.len() as int);
    assert(hosts.take(hosts.len() as int) =~= hosts);
}

/// A later turn never takes back a failure.
proof fn lemma_failures_add_up(
    prefix: Ipv6Addr,
    hosts: Seq<HostEntry>,
    known: Map<Seq<char>, Ipv6Addr>,
    outcomes: Seq<bool>,
)
    requires
        hosts.len() > 0,
        run(prefix, hosts, known, outcomes).failed == 0,
    ensures
        run(prefix, hosts.drop_last(), known, outcomes).failed == 0,
{
}

/// After a cycle in which no attempt fails, every record is up to date, unless hosts of
/// one domain ask for different addresses.
pub proof fn law_success_brings_up_to_date(
    prefix: Ipv6Addr,
    hosts: Seq<HostEntry>,
    known: Map<Seq<char>, Ipv6Addr>,
    outcomes: Seq<bool>,
)
    requires
        consistent(hosts),
        run(prefix, hosts, known, outcomes).failed == 0,
    ensures
        forall|i: int|
            0 <= i < hosts.len() ==> up_to_date(
                run(prefix, hosts, known, outcomes).known,
                prefix,
                #[trigger] hosts[i],
            ),
    decreases hosts.len(),
{
    if hosts.len() > 0 {
        let earlier = hosts.drop_last();
        let last = hosts.last();
        let n = hosts.len() - 1;
        assert forall|i: int, j: int|
            0 <= i < earlier.len() && 0 <= j < earlier.len() && (#[trigger] earlier[i]).domain@ == (
            #[trigger] earlier[j]).domain@ implies crate::util::suffix_of(earlier[i].suffix)
            == crate::util::suffix_of(earlier[j].suffix) by {
            assert(earlier[i] == hosts[i] && earlier[j] == hosts[j]);
        }
        lemma_failures_add_up(prefix, hosts, known, outcomes);
        law_success_brings_up_to_date(prefix, earlier, known, outcomes);
        let before = run(prefix, earlier, known, outcomes).known;
        let end = run(prefix, hosts, known, outcomes).known;
        assert forall|i: int| 0 <= i < hosts.len() implies up_to_date(
            end,
            prefix,
            #[trigger] hosts[i],
        ) by {
            if i < n {
                assert(earlier[i] == hosts[i]);
                assert(up_to_date(before, prefix, earlier[i]));
                if hosts[i].domain@ == last.domain@ {
                    assert(hosts[n] == last);
                    assert(host_address(prefix, hosts[i]) == host_address(prefix, last));
                }
            }
        }
    }
}

/// Cycles are idempotent: after one in which no attempt fails, another one with the
/// same prefix and hosts sets no record.
pub proof fn law_second_cycle_sends_nothing(
    prefix: Ipv6Addr,
    hosts: Seq<HostEntry>,
    known: Map<Seq<char>, Ipv6Addr>,
    outcomes: Seq<bool>,
    later_outcomes: Seq<bool>,
)
    requires
        consistent(hosts),
        run(prefix, hosts, known, outcomes).failed == 0,
    ensures
        ({
            let first = run(prefix, hosts, known, outcomes);
            let second = run(prefix, hosts, first.known, later_outcomes);
            second.sent.len() == 0 && second.known == first.known
        }),
{
    law_success_brings_up_to_date(prefix, hosts, known, outcomes);
    law_nothing_stale_nothing_sent(
        prefix,
        hosts,
        run(prefix, hosts, known, outcomes).known,
        later_outcomes,
    );
}

/// A host whose attempt succeeds is up to date after the cycle whatever becomes of the
/// other hosts, unless a later host has the same domain: of several hosts of one domain
/// the last one wins, and a failure stops nobody else.
pub proof fn law_last_success_wins(
    prefix: Ipv6Addr,
    hosts: Seq<HostEntry>,
    known: Map<Seq<char>, Ipv6Addr>,
    outcomes: Seq<bool>,
    i: int,
)
    requires
        0 <= i < hosts.len(),
        outcomes[i],
        forall|j: int| i < j < hosts.len() ==> (#[trigger] hosts[j]).domain@ != hosts[i].domain@,
    ensures
        up_to_date(run(prefix, hosts, known, outcomes).known, prefix, hosts[i]),
    decreases hosts.len(),
{
    if i < hosts.len() - 1 {
        let earlier = hosts.drop_last();
        assert(earlier[i] == hosts[i]);
        assert forall|j: int| i < j < earlier.len() implies (#[trigger] earlier[j]).domain@
            != earlier[i].domain@ by {
            assert(earlier[j] == hosts[j]);
        }
        law_last_success_wins(prefix, earlier, known, outcomes, i);
        assert(hosts.last() == hosts[hosts.len() - 1]);
    }
}

/// With distinct domains, a cycle sets exactly the records that were stale before it.
pub proof fn law_sends_what_is_stale(
    prefix: Ipv6Addr,
    hosts: Seq<HostEntry>,
    known: Map<Seq<char>, Ipv6Addr>,
    outcomes: Seq<bool>,
)
    requires
        distinct_domains(hosts),
    ensures
        run(prefix, hosts, known, outcomes).sent == stale(prefix, hosts, known),
    decreases hosts.len(),
{
    if hosts.len() > 0 {
        let earlier = hosts.drop_last();
        let last = hosts.last();
        let n = hosts.len() - 1;
        assert(last == hosts[n]);
        assert forall|i: int, j: int| 0 <= i < j < earlier.len() implies (
        #[trigger] earlier[i]).domain@ != (#[trigger] earlier[j]).domain@ by {
            assert(earlier[i] == hosts[i] && earlier[j] == hosts[j]);
        }
        law_sends_what_is_stale(prefix, earlier, known, outcomes);
        assert forall|i: int| 0 <= i < earlier.len() implies (#[trigger] earlier[i]).domain@
            != last.domain@ by {
            assert(earlier[i] == hosts[i]);
        }
        law_other_domains_untouched(prefix, earlier, known, outcomes, last.domain@);
    }
}

/// The first host of its domain has its record set if that is stale before the cycle.
pub proof fn law_stale_record_is_set(
    prefix: Ipv6Addr,
    hosts: Seq<HostEntry>,
    known: Map<Seq<char>, Ipv6Addr>,
    outcomes: Seq<bool>,
    i: int,
)
    requires
        0 <= i < hosts.len(),
        !up_to_date(known, prefix, hosts[i]),
        forall|j: int| 0 <= j < i ==> (#[trigger] hosts[j]).domain@ != hosts[i].domain@,
    ensures
        run(prefix, hosts, known, outcomes).sent.contains(
            (hosts[i].domain@, host_address(prefix, hosts[i])),
        ),
    decreases hosts.len(),
{
    let earlier = hosts.drop_last();
    let n = hosts.len() - 1;
    let item = (hosts[i].domain@, host_address(prefix, hosts[i]));
    let before = run(prefix, earlier, known, outcomes).sent;
    let all = run(prefix, hosts, known, outcomes).sent;
    assert(hosts.last() == hosts[n]);
    if i == n {
        assert forall|j: int| 0 <= j < earlier.len() implies (#[trigger] earlier[j]).domain@
            != hosts[i].domain@ by {
            assert(earlier[j] == hosts[j]);
        }
        law_other_domains_untouched(prefix, earlier, known, outcomes, hosts[i].domain@);
        assert(all.last() == item);
    } else {
        assert(earlier[i] == hosts[i]);
        assert forall|j: int| 0 <= j < i implies (#[trigger] earlier[j]).domain@
            != earlier[i].domain@ by {
            assert(earlier[j] == hosts[j]);
        }
        law_stale_record_is_set(prefix, earlier, known, outcomes, i);
        let k = choose|k: int| 0 <= k < before.len() && before[k] == item;
        assert(all[k] == item);
    }
}

/// When the prefix rotates, every record that was up to date is set to the host's new
/// address.
pub proof fn law_rotation_sets_every_record(
    old_prefix: Ipv6Addr,
    new_prefix: Ipv6Addr,
    hosts: Seq<HostEntry>,
    known: Map<Seq<char>, Ipv6Addr>,
    outcomes: Seq<bool>,
    i: int,
)
    requires
        crate::util::prefix_only(old_prefix),
        crate::util::prefix_only(new_prefix),
        old_prefix != new_prefix,
        forall|j: int| 0 <= j < hosts.len() ==> up_to_date(known, old_prefix, #[trigger] hosts[j]),
        0 <= i < hosts.len(),
    ensures
        run(new_prefix, hosts, known, outcomes).sent.contains(
            (hosts[i].domain@, host_address(new_prefix, hosts[i])),
        ),
{
    let first = lemma_first_of_domain(hosts, i);
    let mine = crate::util::suffix_of(hosts[i].suffix);
    let theirs = crate::util::suffix_of(hosts[first].suffix);
    assert(up_to_date(known, old_prefix, hosts[i]));
    assert(up_to_date(known, old_prefix, hosts[first]));
    crate::util::law_suffixes_stay_apart(old_prefix, mine, theirs);
    crate::util::law_rotation_keeps_suffix(old_prefix, new_prefix, theirs);
    law_stale_record_is_set(new_prefix, hosts, known, outcomes, first);
}

/// The first host that has the domain of the one at `i`.
proof fn lemma_first_of_domain(hosts: Seq<HostEntry>, i: int) -> (first: int)
    requires
        0 <= i < hosts.len(),
    ensures
        0 <= first <= i,
        hosts[first].domain@ == hosts[i].domain@,
        forall|j: int| 0 <= j < first ==> (#[trigger] hosts[j]).domain@ != hosts[first].domain@,
    decreases i,
{
    if exists|j: int| 0 <= j < i && (#[trigger] hosts[j]).domain@ == hosts[i].domain@ {
        let j = choose|j: int| 0 <= j < i && (#[trigger] hosts[j]).domain@ == hosts[i].domain@;
        lemma_first_of_domain(hosts, j)
    } else {
        i
    }
}

/// A failed attempt is made again: a host whose domain no other host has, and whose
/// attempt fails, is still stale after the cycle, so the next cycle tries it again.
pub proof fn law_failure_is_retried(
    prefix: Ipv6Addr,
    hosts: Seq<HostEntry>,
    known: Map<Seq<char>, Ipv6Addr>,
    outcomes: Seq<bool>,
    later_outcomes: Seq<bool>,
    i: int,
)
    requires
        0 <= i < hosts.len(),
        forall|j: int|
            0 <= j < hosts.len() && j != i ==> (#[trigger] hosts[j]).domain@ != hosts[i].domain@,
        !up_to_date(known, prefix, hosts[i]),
        !outcomes[i],
    ensures
        ({
            let first = run(prefix, hosts, known, outcomes);
            let second = run(prefix, hosts, first.known, later_outcomes);
            &&& !up_to_date(first.known, prefix, hosts[i])
            &&& second.sent.contains((hosts[i].domain@, host_address(prefix, hosts[i])))
        }),
{
    let first = run(prefix, hosts, known, outcomes).known;
    lemma_failure_changes_nothing(prefix, hosts, known, outcomes, i);
    law_stale_record_is_set(prefix, hosts, first, later_outcomes, i);
}

/// A failed attempt leaves what is known of the host's domain as it was.
proof fn lemma_failure_changes_nothing(
    prefix: Ipv6Addr,
    hosts: Seq<HostEntry>,
    known: Map<Seq<char>, Ipv6Addr>,
    outcomes: Seq<bool>,
    i: int,
)
    requires
        0 <= i < hosts.len(),
        forall|j: int|
            0 <= j < hosts.len() && j != i ==> (#[trigger] hosts[j]).domain@ != hosts[i].domain@,
        !up_to_date(known, prefix, hosts[i]),
        !outcomes[i],
    ensures
        !up_to_date(run(prefix, hosts, known, outcomes).known, prefix, hosts[i]),
    decreases hosts.len(),
{
    let earlier = hosts.drop_last();
    let n = hosts.len() - 1;
    assert(hosts.last() == hosts[n]);
    assert forall|j: int| 0 <= j < earlier.len() && j != i implies (#[trigger] earlier[j]).domain@
        != hosts[i].domain@ by {
        assert(earlier[j] == hosts[j]);
    }
    if i == n {
        law_other_domains_untouched(prefix, earlier, known, outcomes, hosts[i].domain@);
    } else {
        assert(earlier[i] == hosts[i]);
        lemma_failure_changes_nothing(prefix, earlier, known, outcomes, i);
    }
}

/// Every record that is set belongs to a host, holds the prefix and the host's own
/// suffix, and no more attempts fail than are made.
pub proof fn law_sent_addresses_combine(
    prefix: Ipv6Addr,
    hosts: Seq<HostEntry>,
    known: Map<Seq<char>, Ipv6Addr>,
    outcomes: Seq<bool>,
)
    requires
        crate::util::prefix_only(prefix),
    ensures
        ({
            let end = run(prefix, hosts, known, outcomes);
            &&& end.failed <= end.sent.len() <= hosts.len()
            &&& forall|k: int| #![trigger end.sent[k]]
                0 <= k < end.sent.len() ==> {
                    &&& crate::util::prefix_of(end.sent[k].1) == prefix
                    &&& exists|i: int|
                        0 <= i < hosts.len() && end.sent[k].0 == (#[trigger] hosts[i]).domain@
                            && crate::util::suffix_of(end.sent[k].1) == crate::util::suffix_of(
                            hosts[i].suffix,
                        )
                }
        }),
    decreases hosts.len(),
{
    if hosts.len() > 0 {
        let earlier = hosts.drop_last();
        let n = hosts.len() - 1;
        law_sent_addresses_combine(prefix, earlier, known, outcomes);
        let before = run(prefix, earlier, known, outcomes);
        let end = run(prefix, hosts, known, outcomes);
        crate::util::law_combine_keeps_halves(prefix, crate::util::suffix_of(hosts[n].suffix));
        assert forall|k: int| #![trigger end.sent[k]] 0 <= k < end.sent.len() implies {
            &&& crate::util::prefix_of(end.sent[k].1) == prefix
            &&& exists|i: int|
                0 <= i < hosts.len() && end.sent[k].0 == (#[trigger] hosts[i]).domain@
                    && crate::util::suffix_of(end.sent[k].1) == crate::util::suffix_of(
                    hosts[i].suffix,
                )
        } by {
            if k < before.sent.len() {
                assert(end.sent[k] == before.sent[k]);
                let i = choose|i: int|
                    0 <= i < earlier.len() && before.sent[k].0 == (#[trigger] earlier[i]).domain@
                        && crate::util::suffix_of(before.sent[k].1) == crate::util::suffix_of(
                        earlier[i].suffix,
                    );
                assert(hosts[i] == earlier[i]);
            } else {
                assert(hosts[n] == hosts.last());
            }
        }
    }
}

/// The address of a host has the first four segments of the prefix and the last four of the
/// host's suffix.
pub proof fn law_host_address(prefix: Ipv6Addr, host: HostEntry, i: int)
    requires
        0 <= i < 8,
    ensures
        host_address(prefix, host).segments@[i] == if i < 4 {
            prefix.segments@[i]
        } else {
            host.suffix.segments@[i]
        },
{
}

/// A cycle over one host: a record that is known to hold the host's address is left alone;
/// otherwise it is set to that address, which is remembered if it succeeds and counted once
/// if it fails.
pub proof fn law_cycle_of_one(
    prefix: Ipv6Addr,
    host: HostEntry,
    known: Map<Seq<char>, Ipv6Addr>,
    succeeds: bool,
)
    ensures
        ({
            let addr = crate::util::combined(prefix, host.suffix);
            let end = run(prefix, seq![host], known, seq![succeeds]);
            if known.contains_key(host.domain@) && known[host.domain@] == addr {
                end.known == known && end.sent.len() == 0 && end.failed == 0
            } else {
                &&& end.sent == seq![(host.domain@, addr)]
                &&& succeeds ==> end.known == known.insert(host.domain@, addr) && end.failed == 0
                &&& !succeeds ==> end.known == known && end.failed == 1
            }
        }),
{
    let hosts = seq![host];
    assert(hosts.drop_last() =~= Seq::<HostEntry>::empty());
    let start = run(prefix, hosts.drop_last(), known, seq![succeeds]);
    assert(start.known == known && start.sent =~= Seq::empty() && start.failed == 0);
    assert(hosts.last() == host);
    let addr = crate::util::combined(prefix, host.suffix);
    assert(host_address(prefix, host).segments@ =~= addr.segments@);
    crate::addr::lemma_same_segments(host_address(prefix, host), addr);
    let end = run(prefix, hosts, known, seq![succeeds]);
    assert(end == step(start, prefix, host, succeeds));
    if !up_to_date(known, prefix, host) {
        assert(end.sent =~= seq![(host.domain@, addr)]);
    }
}

/// A cycle over no hosts does nothing, and one over some hosts and then others is one over
/// the first and then, with what is known by then, one over the others: the records that are
/// set follow each other, and the failures add up.
pub proof fn law_cycles_add_up(
    prefix: Ipv6Addr,
    a: Seq<HostEntry>,
    b: Seq<HostEntry>,
    known: Map<Seq<char>, Ipv6Addr>,
    outcomes_a: Seq<bool>,
    outcomes_b: Seq<bool>,
)
    requires
        a.len() == outcomes_a.len(),
        b.len() == outcomes_b.len(),
    ensures
        ({
            let first = run(prefix, a, known, outcomes_a);
            let second = run(prefix, b, first.known, outcomes_b);
            let whole = run(prefix, a + b, known, outcomes_a + outcomes_b);
            &&& whole.known == second.known
            &&& whole.sent == first.sent + second.sent
            &&& whole.failed == first.failed + second.failed
        }),
        ({
            let none = run(prefix, Seq::empty(), known, Seq::empty());
            none.known == known && none.sent.len() == 0 && none.failed == 0
        }),
    decreases b.len(),
{
    let outcomes = outcomes_a + outcomes_b;
    let first = run(prefix, a, known, outcomes_a);
    if b.len() == 0 {
        assert(a + b =~= a);
        assert(outcomes =~= outcomes_a);
        assert(first.sent + run(prefix, b, first.known, outcomes_b).sent =~= first.sent);
    } else {
        let shorter = outcomes_b.drop_last();
        law_cycles_add_up(prefix, a, b.drop_last(), known, outcomes_a, shorter);
        assert((a + b).drop_last() =~= a + b.drop_last());
        assert((a + b).last() == b.last());
        lemma_later_outcomes_do_not_matter(
            prefix,
            b.drop_last(),
            first.known,
            outcomes_b,
            shorter,
        );
        lemma_later_outcomes_do_not_matter(
            prefix,
            a + b.drop_last(),
            known,
            outcomes,
            outcomes_a + shorter,
        );
        let whole = run(prefix, a + b, known, outcomes);
        let second = run(prefix, b, first.known, outcomes_b);
        assert(outcomes[(a + b).len() - 1] == outcomes_b[b.len() - 1]);
        assert(whole.sent =~= first.sent + second.sent);
    }
}

/// What a cycle does depends on the outcomes of its own hosts only.
proof fn lemma_later_outcomes_do_not_matter(
    prefix: Ipv6Addr,
    hosts: Seq<HostEntry>,
    known: Map<Seq<char>, Ipv6Addr>,
    outcomes: Seq<bool>,
    others: Seq<bool>,
)
    requires
        forall|i: int| 0 <= i < hosts.len() ==> outcomes[i] == #[trigger] others[i],
    ensures
        run(prefix, hosts, known, outcomes) == run(prefix, hosts, known, others),
    decreases hosts.len(),
{
    if hosts.len() > 0 {
        lemma_later_outcomes_do_not_matter(prefix, hosts.drop_last(), known, outcomes, others);
        assert(outcomes[hosts.len() - 1] == others[hosts.len() - 1]);
    }
}

/// When a record is up to date: it is known, and what is known is the prefix with the host's
/// own last four segments.
pub proof fn law_up_to_date(known: Map<Seq<char>, Ipv6Addr>, prefix: Ipv6Addr, host: HostEntry)
    ensures
        up_to_date(known, prefix, host) <==> known.contains_key(host.domain@) && forall|i: int|
            0 <= i < 8 ==> #[trigger] known[host.domain@].segments@[i] == if i < 4 {
                prefix.segments@[i]
            } else {
                host.suffix.segments@[i]
            },
{
    let addr = host_address(prefix, host);
    let held = known[host.domain@];
    if forall|i: int|
        0 <= i < 8 ==> #[trigger] held.segments@[i] == if i < 4 {
            prefix.segments@[i]
        } else {
            host.suffix.segments@[i]
        } {
        assert(held.segments@ =~= addr.segments@);
        crate::addr::lemma_same_segments(held, addr);
    }
}

/// The updates that were made are shown in full and in order.
pub proof fn law_update_views(updates: Seq<Update>)
    ensures
        update_views(updates).len() == updates.len(),
        forall|i: int|
            0 <= i < updates.len() ==> #[trigger] update_views(updates)[i] == (
                updates[i].domain@,
                updates[i].addr,
            ),
{
}

} // verus!
