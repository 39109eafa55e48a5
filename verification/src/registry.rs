use vstd::prelude::*;

use crate::persist::{dec_registry, enc_registry, parse_registry_json, registry_json_of};
use crate::text::str_eq;
use crate::types::{views_of, Service, ServiceV};
use crate::{port_in_range, PORT_RANGE_END, PORT_RANGE_START};

verus! {

/// No two services in the sequence share a domain.
pub open spec fn seq_unique_domains(ss: Seq<ServiceV>) -> bool {
    forall|i: int, j: int| 0 <= i < j < ss.len() ==> ss[i].domain != ss[j].domain
}

/// The largest port among the services, zero when there are none.
pub open spec fn max_port_of(ss: Seq<ServiceV>) -> int
    decreases ss.len(),
{
    if ss.len() == 0 {
        0
    } else {
        let m = max_port_of(ss.drop_last());
        if ss.last().port > m {
            ss.last().port as int
        } else {
            m
        }
    }
}

/// The cursor a reloaded registry starts with: one past the largest
/// persisted port while that stays in range, else the start of the range,
/// so a restart never hands out a port still in use.
pub open spec fn next_port_after(ss: Seq<ServiceV>) -> u16 {
    if ss.len() == 0 {
        PORT_RANGE_START
    } else {
        let m = max_port_of(ss);
        if PORT_RANGE_START <= m < PORT_RANGE_END {
            (m + 1) as u16
        } else {
            PORT_RANGE_START
        }
    }
}

/// Unique keys: however a well-formed registry was built, its service
/// sequence never holds one domain twice, so a listing has no duplicates.
pub proof fn lemma_unique_keys(r: RegistryV)
    requires
        r.wf(),
    ensures
        forall|i: int, j: int|
            0 <= i < j < r.services.len() ==> r.services[i].domain != r.services[j].domain,
{
}

/// After a reload whose largest port sits inside the range, the first
/// allocated port is strictly above every persisted port.
pub proof fn lemma_load_port_progress(ss: Seq<ServiceV>)
    requires
        ss.len() > 0,
        PORT_RANGE_START <= max_port_of(ss) < PORT_RANGE_END,
    ensures
        spec_alloc(RegistryV { services: ss, next_port: next_port_after(ss) }).1 > max_port_of(
            ss,
        ),
{
}

/// After a reload whose largest port is the end of the range, the cursor
/// wraps to the start of the range.
pub proof fn lemma_load_port_wrap(ss: Seq<ServiceV>)
    requires
        ss.len() > 0,
        max_port_of(ss) == PORT_RANGE_END,
    ensures
        next_port_after(ss) == PORT_RANGE_START,
{
}

/// Why a registration was refused.
#[derive(Clone, Copy, Debug, PartialEq, Eq, Structural)]
pub enum RegistryError {
    /// The domain is already registered.
    Conflict,
}

/// The mathematical content of a `Registry`: the registered services, in
/// registration order, and the allocator cursor.
pub struct RegistryV {
    pub services: Seq<ServiceV>,
    pub next_port: u16,
}

impl RegistryV {
    /// No two entries share a domain.
    pub open spec fn unique_domains(self) -> bool {
        seq_unique_domains(self.services)
    }

    /// Well-formed: unique keys, cursor in the reserved range.
    pub open spec fn wf(self) -> bool {
        &&& self.unique_domains()
        &&& port_in_range(self.next_port)
    }

    /// Whether some entry has the given domain.
    pub open spec fn has_domain(self, d: Seq<char>) -> bool {
        exists|i: int| 0 <= i < self.services.len() && self.services[i].domain == d
    }

    /// The index of the entry with the given domain.
    pub open spec fn index_of(self, d: Seq<char>) -> int {
        choose|i: int| 0 <= i < self.services.len() && self.services[i].domain == d
    }

    /// The entry with the given domain, if any.
    pub open spec fn lookup(self, d: Seq<char>) -> Option<ServiceV> {
        if self.has_domain(d) {
            Some(self.services[self.index_of(d)])
        } else {
            None
        }
    }

    /// The set of registered domains.
    pub open spec fn domains(self) -> Set<Seq<char>> {
        Set::new(|d: Seq<char>| self.has_domain(d))
    }
}

/// The cursor after one allocation: one step forward, wrapping at the end
/// of the range back to its start.
pub open spec fn wrap_succ(p: u16) -> u16 {
    if p >= PORT_RANGE_END {
        PORT_RANGE_START
    } else {
        (p + 1) as u16
    }
}

/// A fresh registry: empty, cursor at the start of the range.
pub open spec fn spec_new_registry() -> RegistryV {
    RegistryV { services: Seq::empty(), next_port: PORT_RANGE_START }
}

/// One allocation step: the registry afterwards and the port handed out.
pub open spec fn spec_alloc(r: RegistryV) -> (RegistryV, u16) {
    (RegistryV { services: r.services, next_port: wrap_succ(r.next_port) }, r.next_port)
}

/// Every port the allocator hands out lies in the reserved range, and the
/// cursor stays there.
pub proof fn lemma_allocator_in_range(r: RegistryV)
    requires
        r.wf(),
    ensures
        port_in_range(spec_alloc(r).1),
        spec_alloc(r).0.wf(),
{
}

/// Two consecutive allocations never hand out the same port.
pub proof fn lemma_allocator_progress(r: RegistryV)
    requires
        r.wf(),
    ensures
        spec_alloc(r).1 != spec_alloc(spec_alloc(r).0).1,
{
}

/// The candidate a scan that starts at `s` probes in its `k`-th step:
/// `k` wrapping cursor steps on from `s`.
pub open spec fn candidate(s: u16, k: int) -> u16
    decreases k,
{
    if k <= 0 {
        s
    } else {
        wrap_succ(candidate(s, k - 1))
    }
}

/// Every candidate of a scan that starts inside the range stays inside it.
pub proof fn lemma_candidate_in_range(s: u16, k: int)
    requires
        port_in_range(s),
        k >= 0,
    ensures
        port_in_range(candidate(s, k)),
    decreases k,
{
    if k > 0 {
        lemma_candidate_in_range(s, k - 1);
    }
}

/// The shape of a finished scan's probe outcomes: every candidate before
/// the last was refused, and the scan stops at the first acceptance or
/// after the full cycle of candidates.
pub open spec fn scan_complete(outs: Seq<bool>) -> bool {
    &&& 1 <= outs.len() <= 1001
    &&& forall|k: int| 0 <= k < outs.len() - 1 ==> !outs[k]
    &&& (outs[outs.len() - 1] || outs.len() == 1001)
}

/// The port a finished scan hands out: the last candidate probed — the
/// first one the probe accepted, or after a fruitless full cycle the
/// current candidate anyway, so the allocator stays total and the caller
/// observes the bind failure at its child instead.
pub open spec fn scanned_port(s: u16, outs: Seq<bool>) -> u16 {
    candidate(s, outs.len() - 1)
}

/// Whatever a scan's probe answered, the port it hands out lies in the
/// reserved range.
pub proof fn lemma_scan_in_range(s: u16, outs: Seq<bool>)
    requires
        port_in_range(s),
        scan_complete(outs),
    ensures
        port_in_range(scanned_port(s, outs)),
{
    lemma_candidate_in_range(s, outs.len() - 1);
}

/// The candidates of a scan, indexed from the start of the range: each
/// step moves one on, wrapping past the end of the range.
proof fn lemma_candidate_index(s: u16, k: int)
    requires
        port_in_range(s),
        k >= 0,
    ensures
        port_in_range(candidate(s, k)),
        candidate(s, k) - PORT_RANGE_START == (s - PORT_RANGE_START + k) % 1001,
    decreases k,
{
    let d = s - PORT_RANGE_START;
    if k == 0 {
        assert(d % 1001 == d) by (nonlinear_arith)
            requires
                0 <= d < 1001,
        ;
    } else {
        lemma_candidate_index(s, k - 1);
        let c = candidate(s, k - 1);
        let e = c - PORT_RANGE_START;
        if c >= PORT_RANGE_END {
            assert((d + k) % 1001 == 0) by (nonlinear_arith)
                requires
                    (d + k - 1) % 1001 == 1000,
                    d + k >= 1,
            ;
        } else {
            assert((d + k) % 1001 == e + 1) by (nonlinear_arith)
                requires
                    (d + k - 1) % 1001 == e,
                    0 <= e < 1000,
                    d + k >= 1,
            ;
        }
    }
}

/// Starting a scan one cursor step on shifts every candidate by one.
proof fn lemma_candidate_shift(s: u16, k: int)
    requires
        port_in_range(s),
        k >= 0,
    ensures
        candidate(wrap_succ(s), k) == candidate(s, k + 1),
    decreases k,
{
    if k == 0 {
        assert(candidate(s, 0) == s);
        assert(candidate(s, 1) == wrap_succ(candidate(s, 0)));
    } else {
        lemma_candidate_shift(s, k - 1);
        assert(candidate(wrap_succ(s), k) == wrap_succ(candidate(wrap_succ(s), k - 1)));
        assert(candidate(s, k + 1) == wrap_succ(candidate(s, k)));
    }
}

/// Allocator progress for the scanning allocator: a scan that starts
/// where the previous allocation left the cursor, and accepts a candidate
/// before wrapping through the whole range, never hands out the previous
/// port again.
pub proof fn lemma_scan_progress(p: u16, outs: Seq<bool>)
    requires
        port_in_range(p),
        scan_complete(outs),
        outs.len() < 1001,
    ensures
        scanned_port(wrap_succ(p), outs) != p,
{
    let j = outs.len() - 1;
    lemma_candidate_shift(p, j);
    lemma_candidate_index(p, j + 1);
    let d = p - PORT_RANGE_START;
    let m = j + 1;
    if scanned_port(wrap_succ(p), outs) == p {
        assert((d + m) % 1001 == d);
        vstd::arithmetic::div_mod::lemma_fundamental_div_mod(d + m, 1001);
        let q = (d + m) / 1001;
        assert(m == 1001 * q);
        assert(false) by (nonlinear_arith)
            requires
                m == 1001 * q,
                1 <= m <= 1000,
        ;
    }
}

/// The keeps of a filter are entries of the original sequence, and a
/// sequence with unique domains keeps them unique through any filter.
pub proof fn lemma_filter_unique_domains(s: Seq<ServiceV>, p: spec_fn(ServiceV) -> bool)
    requires
        forall|i: int, j: int| 0 <= i < j < s.len() ==> s[i].domain != s[j].domain,
    ensures
        forall|k: int|
            0 <= k < s.filter(p).len() ==> s.contains(#[trigger] s.filter(p)[k]),
        forall|i: int, j: int|
            0 <= i < j < s.filter(p).len() ==> s.filter(p)[i].domain != s.filter(p)[j].domain,
    decreases s.len(),
{
    reveal(Seq::filter);
    if s.len() > 0 {
        let head = s.drop_last();
        let last = s.last();
        assert(forall|i: int, j: int|
            0 <= i < j < head.len() ==> head[i].domain != head[j].domain);
        lemma_filter_unique_domains(head, p);
        let sub = head.filter(p);
        assert forall|k: int| 0 <= k < sub.len() implies s.contains(sub[k]) by {
            assert(head.contains(sub[k]));
            let i = choose|i: int| 0 <= i < head.len() && head[i] == sub[k];
            assert(s[i] == sub[k]);
        }
        if p(last) {
            let out = sub.push(last);
            assert(s[s.len() - 1] == last);
            assert forall|i: int, j: int|
                0 <= i < j < out.len() implies out[i].domain != out[j].domain by {
                if j == out.len() - 1 {
                    assert(head.contains(out[i]));
                    let k = choose|k: int| 0 <= k < head.len() && head[k] == out[i];
                    assert(s[k] == out[i]);
                    assert(s[k].domain != s[s.len() - 1].domain);
                }
            }
            assert forall|k: int| 0 <= k < out.len() implies s.contains(out[k]) by {
                if k == out.len() - 1 {
                    assert(s[s.len() - 1] == out[k]);
                }
            }
        }
    }
}

/// Appending one element to a sequence filters to the old filter, with the
/// element kept exactly when it passes.
pub proof fn lemma_filter_push<A>(s: Seq<A>, p: spec_fn(A) -> bool, x: A)
    ensures
        s.push(x).filter(p) == if p(x) {
            s.filter(p).push(x)
        } else {
            s.filter(p)
        },
{
    reveal(Seq::filter);
    assert(s.push(x).drop_last() =~= s);
    assert(s.push(x).last() == x);
}

/// Whether two services in the vector share a domain.
fn has_duplicate_domains(list: &Vec<Service>) -> (r: bool)
    ensures
        r == !seq_unique_domains(views_of(list@)),
{
    let n = list.len();
    let mut i: usize = 0;
    while i < n
        invariant
            i <= n,
            n == list@.len(),
            forall|a: int, b: int|
                0 <= a < b < n && a < i ==> views_of(list@)[a].domain != views_of(
                    list@,
                )[b].domain,
        decreases n - i,
    {
        let mut j: usize = i + 1;
        while j < n
            invariant
                i < n,
                i + 1 <= j <= n,
                n == list@.len(),
                forall|a: int, b: int|
                    0 <= a < b < n && a < i ==> views_of(list@)[a].domain != views_of(
                        list@,
                    )[b].domain,
                forall|b: int|
                    i < b < j ==> views_of(list@)[i as int].domain != views_of(list@)[b].domain,
            decreases n - j,
        {
            if str_eq(list[i].domain.as_str(), list[j].domain.as_str()) {
                proof {
                    assert(views_of(list@)[i as int].domain == views_of(list@)[j as int].domain);
                }
                return true;
            }
            j += 1;
        }
        i += 1;
    }
    false
}

/// Whether the vector contains the given PID.
fn pids_contain(pids: &Vec<u32>, pid: u32) -> (r: bool)
    ensures
        r == pids@.contains(pid),
{
    let n = pids.len();
    let mut i: usize = 0;
    while i < n
        invariant
            i <= n,
            n == pids@.len(),
            forall|j: int| 0 <= j < i ==> pids@[j] != pid,
        decreases n - i,
    {
        if pids[i] == pid {
            return true;
        }
        i += 1;
    }
    false
}

/// The services a cleanup keeps: those whose PID the caller found alive.
pub open spec fn alive_pred(alive: Seq<u32>) -> spec_fn(ServiceV) -> bool {
    |s: ServiceV| alive.contains(s.pid)
}

/// Registry of services: the domain map and the port-allocation cursor.
pub struct Registry {
    services: Vec<Service>,
    next_port: u16,
}

impl View for Registry {
    type V = RegistryV;

    closed spec fn view(&self) -> RegistryV {
        RegistryV { services: views_of(self.services@), next_port: self.next_port }
    }
}

impl Registry {
    /// A fresh registry: no services, cursor at the start of the range.
    pub fn new() -> (r: Self)
        ensures
            r@ == spec_new_registry(),
            r@.wf(),
    {
        let r = Registry { services: Vec::new(), next_port: PORT_RANGE_START };
        proof {
            assert(r@.services =~= spec_new_registry().services);
        }
        r
    }

    /// The index of the entry with the given domain, if any.
    fn find_index(&self, domain: &str) -> (r: Option<usize>)
        ensures
            match r {
                Some(i) => i < self@.services.len() && self@.services[i as int].domain == domain@,
                None => !self@.has_domain(domain@),
            },
    {
        let n = self.services.len();
        let mut i: usize = 0;
        while i < n
            invariant
                i <= n,
                n == self.services@.len(),
                forall|j: int| 0 <= j < i ==> self@.services[j].domain != domain@,
            decreases n - i,
        {
            if str_eq(self.services[i].domain.as_str(), domain) {
                return Some(i);
            }
            i += 1;
        }
        None
    }

    /// Hands out the port under the cursor and advances the cursor by one,
    /// wrapping at the end of the reserved range. Never touches the services.
    pub fn get_port(&mut self) -> (port: u16)
        requires
            old(self)@.wf(),
        ensures
            final(self)@.wf(),
            (final(self)@, port) == spec_alloc(old(self)@),
            port_in_range(port),
    {
        let port = self.next_port;
        if port >= PORT_RANGE_END {
            self.next_port = PORT_RANGE_START;
        } else {
            self.next_port = port + 1;
        }
        proof {
            assert(self@.services == old(self)@.services);
            assert forall|i: int, j: int|
                0 <= i < j < self@.services.len() implies self@.services[i].domain
                != self@.services[j].domain by {
                assert(old(self)@.services[i].domain != old(self)@.services[j].domain);
            }
        }
        port
    }

    /// Hands out the first port in cyclic scan order that the caller's
    /// probe accepts, one probe per candidate, starting at the cursor;
    /// after a fruitless full cycle it hands out the current candidate
    /// anyway. The probe outcomes come back as a ghost sequence, each tied
    /// to the candidate it answered for, so the choice is fixed.
    pub fn get_port_scanned<F: Fn(u16) -> bool>(&mut self, probe: F) -> (r: (u16, Ghost<
        Seq<bool>,
    >))
        requires
            old(self)@.wf(),
            forall|p: u16| #[trigger] call_requires(probe, (p,)),
        ensures
            final(self)@.wf(),
            final(self)@.services == old(self)@.services,
            scan_complete(r.1@),
            forall|k: int|
                0 <= k < r.1@.len() ==> call_ensures(
                    probe,
                    (candidate(old(self)@.next_port, k),),
                    r.1@[k],
                ),
            r.0 == scanned_port(old(self)@.next_port, r.1@),
            port_in_range(r.0),
            final(self)@.next_port == wrap_succ(r.0),
    {
        let ghost pre = self@;
        let ghost start = self@.next_port;
        let mut outs: Ghost<Seq<bool>> = Ghost(Seq::empty());
        let mut count: u32 = 0;
        loop
            invariant
                pre == old(self)@,
                self@.wf(),
                pre.wf(),
                self@.services == pre.services,
                start == pre.next_port,
                count <= 1000,
                outs@.len() == count,
                self@.next_port == candidate(start, count as int),
                forall|k: int| 0 <= k < count ==> !outs@[k],
                forall|k: int|
                    0 <= k < count ==> call_ensures(probe, (candidate(start, k),), outs@[k]),
                forall|p: u16| #[trigger] call_requires(probe, (p,)),
            decreases 1001 - count,
        {
            let port = self.get_port();
            let ok = probe(port);
            proof {
                assert(port == candidate(start, count as int));
                assert(candidate(start, count + 1 as int) == wrap_succ(port));
            }
            outs = Ghost(outs@.push(ok));
            if ok || count == 1000 {
                return (port, outs);
            }
            count = count + 1;
        }
    }

    /// Registers a service. Refuses a domain that is already present; the
    /// registry never silently overwrites.
    pub fn register(&mut self, service: Service) -> (r: Result<(), RegistryError>)
        requires
            old(self)@.wf(),
        ensures
            final(self)@.wf(),
            final(self)@.next_port == old(self)@.next_port,
            match r {
                Ok(()) => !old(self)@.has_domain(service@.domain) && final(self)@.services
                    == old(self)@.services.push(service@),
                Err(e) => e == RegistryError::Conflict && old(self)@.has_domain(service@.domain)
                    && final(self)@ == old(self)@,
            },
    {
        let ghost pre = self@;
        let ghost sv = service@;
        match self.find_index(service.domain.as_str()) {
            Some(_) => Err(RegistryError::Conflict),
            None => {
                self.services.push(service);
                proof {
                    assert(self@.services =~= pre.services.push(sv));
                    assert forall|i: int, j: int|
                        0 <= i < j < self@.services.len() implies self@.services[i].domain
                        != self@.services[j].domain by {
                        if j == self@.services.len() - 1 {
                            assert(pre.services[i].domain != sv.domain);
                        }
                    }
                }
                Ok(())
            },
        }
    }

    /// Removes the entry with the given domain, returning it; `None` when
    /// the domain is not registered.
    pub fn unregister(&mut self, domain: &str) -> (r: Option<Service>)
        requires
            old(self)@.wf(),
        ensures
            final(self)@.wf(),
            final(self)@.next_port == old(self)@.next_port,
            match r {
                Some(s) => old(self)@.has_domain(domain@) && s@ == old(self)@.services[old(
                    self,
                )@.index_of(domain@)] && final(self)@.services == old(self)@.services.remove(
                    old(self)@.index_of(domain@),
                ),
                None => !old(self)@.has_domain(domain@) && final(self)@ == old(self)@,
            },
    {
        let ghost pre = self@;
        match self.find_index(domain) {
            None => None,
            Some(i) => {
                let s = self.services.remove(i);
                proof {
                    assert(pre.has_domain(domain@));
                    let k = pre.index_of(domain@);
                    assert(0 <= k < pre.services.len() && pre.services[k].domain == domain@);
                    assert(k == i as int);
                    assert(self@.services =~= pre.services.remove(i as int));
                    assert forall|a: int, b: int|
                        0 <= a < b < self@.services.len() implies self@.services[a].domain
                        != self@.services[b].domain by {
                        let a0 = if a < i { a } else { a + 1 };
                        let b0 = if b < i { b } else { b + 1 };
                        assert(pre.services[a0].domain != pre.services[b0].domain);
                    }
                }
                Some(s)
            },
        }
    }

    /// Looks a domain up, read-only.
    pub fn get(&self, domain: &str) -> (r: Option<&Service>)
        requires
            self@.wf(),
        ensures
            match r {
                Some(s) => self@.lookup(domain@) == Some(s@),
                None => self@.lookup(domain@) is None,
            },
    {
        match self.find_index(domain) {
            None => None,
            Some(i) => {
                let s = &self.services[i];
                proof {
                    let k = self@.index_of(domain@);
                    assert(0 <= k < self@.services.len() && self@.services[k].domain == domain@);
                    assert(k == i as int);
                }
                Some(s)
            },
        }
    }

    /// A snapshot of all services, in registration order.
    pub fn list(&self) -> (r: Vec<Service>)
        ensures
            views_of(r@) == self@.services,
    {
        let n = self.services.len();
        let mut out: Vec<Service> = Vec::new();
        let mut i: usize = 0;
        while i < n
            invariant
                i <= n,
                n == self.services@.len(),
                views_of(out@) == views_of(self.services@).subrange(0, i as int),
            decreases n - i,
        {
            let c = self.services[i].clone();
            let ghost cv = c@;
            let ghost pre_out = out@;
            out.push(c);
            proof {
                let svs = views_of(self.services@);
                assert(cv == svs[i as int]);
                assert(views_of(pre_out).len() == pre_out.len());
                assert(out@.len() == i + 1);
                assert forall|k: int| 0 <= k < i + 1 implies views_of(out@)[k] == svs.subrange(
                    0,
                    i + 1 as int,
                )[k] by {
                    if k < i {
                        assert(out@[k] == pre_out[k]);
                        assert(views_of(out@)[k] == pre_out[k]@);
                        assert(views_of(pre_out)[k] == pre_out[k]@);
                        assert(views_of(pre_out)[k] == svs.subrange(0, i as int)[k]);
                    } else {
                        assert(out@[k]@ == cv);
                    }
                }
                assert(views_of(out@) =~= svs.subrange(0, i + 1 as int));
            }
            i += 1;
        }
        proof {
            assert(views_of(out@) =~= self@.services);
        }
        out
    }

    /// Removes every service whose PID is not among `alive`; keeps every
    /// service whose PID is. `alive` is the set of PIDs the caller's
    /// liveness probe found alive.
    pub fn cleanup_dead(&mut self, alive: &Vec<u32>) -> (removed: bool)
        requires
            old(self)@.wf(),
        ensures
            final(self)@.wf(),
            final(self)@.next_port == old(self)@.next_port,
            final(self)@.services == old(self)@.services.filter(alive_pred(alive@)),
            forall|k: int|
                0 <= k < final(self)@.services.len() ==> alive@.contains(
                    #[trigger] final(self)@.services[k].pid,
                ),
            forall|k: int|
                0 <= k < old(self)@.services.len() && alive@.contains(
                    #[trigger] old(self)@.services[k].pid,
                ) ==> final(self)@.services.contains(old(self)@.services[k]),
            removed == (final(self)@.services.len() != old(self)@.services.len()),
    {
        let ghost pre = self@;
        let ghost p = alive_pred(alive@);
        let n = self.services.len();
        let mut out: Vec<Service> = Vec::new();
        let mut i: usize = 0;
        while i < n
            invariant
                i <= n,
                n == self.services@.len(),
                views_of(out@) == views_of(self.services@).subrange(0, i as int).filter(p),
                p == alive_pred(alive@),
            decreases n - i,
        {
            let keep = pids_contain(alive, self.services[i].pid);
            proof {
                let prefix = views_of(self.services@).subrange(0, i as int);
                assert(views_of(self.services@).subrange(0, i + 1 as int) =~= prefix.push(
                    views_of(self.services@)[i as int],
                ));
                lemma_filter_push(prefix, p, views_of(self.services@)[i as int]);
            }
            if keep {
                out.push(self.services[i].clone());
                proof {
                    let prefix = views_of(self.services@).subrange(0, i as int);
                    assert(views_of(out@) =~= prefix.filter(p).push(
                        views_of(self.services@)[i as int],
                    ));
                }
            }
            i += 1;
        }
        proof {
            assert(views_of(self.services@).subrange(0, n as int) =~= views_of(self.services@));
        }
        let removed = out.len() != self.services.len();
        self.services = out;
        proof {
            lemma_filter_unique_domains(pre.services, p);
            broadcast use Seq::lemma_filter_pred, Seq::lemma_filter_contains, Seq::lemma_filter_len;
        }
        removed
    }

    /// The persisted JSON document for this registry.
    pub fn to_json(&self) -> (r: String)
        ensures
            r@ == enc_registry(self@.services),
    {
        registry_json_of(&self.services)
    }

    /// Rebuilds a registry from its persisted document. Refuses anything
    /// but the canonical form, and a document whose keys collide; the
    /// cursor restarts one past the largest persisted port, wrapping back
    /// to the start of the range when that would leave it.
    pub fn from_json(s: &str) -> (r: Option<Registry>)
        ensures
            match r {
                Some(reg) => {
                    &&& reg@.wf()
                    &&& dec_registry(s@) == Some(reg@.services)
                    &&& reg@.next_port == next_port_after(reg@.services)
                },
                None => dec_registry(s@) is None || (dec_registry(s@) matches Some(ss)
                    && !seq_unique_domains(ss)),
            },
    {
        let list = match parse_registry_json(s) {
            None => {
                return None;
            },
            Some(l) => l,
        };
        if has_duplicate_domains(&list) {
            return None;
        }
        let n = list.len();
        let mut maxp: u16 = 0;
        let mut k: usize = 0;
        proof {
            assert(views_of(list@).subrange(0, 0) =~= Seq::<ServiceV>::empty());
        }
        while k < n
            invariant
                k <= n,
                n == list@.len(),
                maxp as int == max_port_of(views_of(list@).subrange(0, k as int)),
            decreases n - k,
        {
            proof {
                let svs = views_of(list@);
                assert(svs.subrange(0, k + 1 as int).drop_last() =~= svs.subrange(0, k as int));
                assert(svs.subrange(0, k + 1 as int).last() == svs[k as int]);
            }
            if list[k].port > maxp {
                maxp = list[k].port;
            }
            k += 1;
        }
        proof {
            assert(views_of(list@).subrange(0, n as int) =~= views_of(list@));
        }
        let next: u16 = if n == 0 {
            PORT_RANGE_START
        } else if PORT_RANGE_START <= maxp && maxp < PORT_RANGE_END {
            maxp + 1
        } else {
            PORT_RANGE_START
        };
        Some(Registry { services: list, next_port: next })
    }
}

} // verus!
