use vstd::prelude::*;
use vstd::string::StrSliceExecFns;
use vstd::string::StringExecFns;

use crate::registry::{Registry, RegistryV};
use crate::types::ServiceV;

verus! {

/// The routing key inside a `Host` header: everything before the first
/// colon, so an optional `:port` suffix is ignored.
pub open spec fn host_of(h: Seq<char>) -> Seq<char>
    decreases h.len(),
{
    if h.len() == 0 {
        Seq::empty()
    } else if h[0] == ':' {
        Seq::empty()
    } else {
        seq![h[0]] + host_of(h.skip(1))
    }
}

/// Strips the `:port` suffix, if any, from a `Host` header.
pub fn strip_port(host: &str) -> (r: String)
    ensures
        r@ == host_of(host@),
{
    let n = host.unicode_len();
    let mut out = String::new();
    let mut i: usize = 0;
    proof {
        assert(host@.skip(0) =~= host@);
        assert(Seq::<char>::empty() + host_of(host@) =~= host_of(host@));
    }
    while i < n
        invariant
            i <= n,
            n == host@.len(),
            host_of(host@) == out@ + host_of(host@.skip(i as int)),
            forall|k: int| 0 <= k < i ==> host@[k] != ':',
        decreases n - i,
    {
        let c = host.get_char(i);
        proof {
            assert(host@.skip(i as int)[0] == host@[i as int]);
        }
        if c == ':' {
            proof {
                assert(host_of(host@.skip(i as int)) =~= Seq::<char>::empty());
                assert(out@ + Seq::<char>::empty() =~= out@);
            }
            return out;
        }
        out.push(c);
        proof {
            assert(host@.skip(i as int).skip(1) =~= host@.skip(i + 1 as int));
            assert(host_of(host@.skip(i as int)) =~= seq![c] + host_of(host@.skip(i + 1 as int)));
            assert(host_of(host@) =~= out@ + host_of(host@.skip(i + 1 as int)));
        }
        i += 1;
    }
    proof {
        assert(host@.skip(n as int).len() == 0);
        assert(host_of(host@.skip(n as int)) =~= Seq::<char>::empty());
        assert(out@ + Seq::<char>::empty() =~= out@);
    }
    out
}

/// Routes a request: the loopback port of the service registered under the
/// `Host` header's domain, or nothing when the domain is unknown.
pub fn route_port(reg: &Registry, host: &str) -> (r: Option<u16>)
    requires
        reg@.wf(),
    ensures
        match r {
            Some(p) => reg@.lookup(host_of(host@)) matches Some(v) && v.port == p,
            None => reg@.lookup(host_of(host@)) is None,
        },
{
    let key = strip_port(host);
    match reg.get(key.as_str()) {
        Some(svc) => Some(svc.port),
        None => None,
    }
}

/// The text joined into the not-found page: the registered domains, in
/// registration order, comma separated; `(none)` when there are none.
pub open spec fn domains_joined(ss: Seq<ServiceV>) -> Seq<char>
    decreases ss.len(),
{
    if ss.len() == 0 {
        "(none)"@
    } else if ss.len() == 1 {
        ss[0].domain
    } else {
        ss[0].domain + ", "@ + domains_joined(ss.skip(1))
    }
}

/// Joining one more domain appends it, after a separator unless it is the
/// first.
proof fn lemma_domains_joined_push(ss: Seq<ServiceV>, x: ServiceV)
    ensures
        domains_joined(ss.push(x)) == if ss.len() == 0 {
            x.domain
        } else {
            domains_joined(ss) + ", "@ + x.domain
        },
    decreases ss.len(),
{
    let w = ss.push(x);
    if ss.len() == 0 {
        assert(w.len() == 1);
        assert(w[0] == x);
    } else if ss.len() == 1 {
        assert(w[0] == ss[0]);
        assert(w.skip(1) =~= seq![x]);
        assert(domains_joined(seq![x]) == x.domain);
    } else {
        assert(w[0] == ss[0]);
        assert(w.skip(1) =~= ss.skip(1).push(x));
        lemma_domains_joined_push(ss.skip(1), x);
        assert(domains_joined(w) =~= ss[0].domain + ", "@ + domains_joined(ss.skip(1)) + ", "@
            + x.domain);
        assert(domains_joined(ss) + ", "@ + x.domain =~= ss[0].domain + ", "@ + domains_joined(
            ss.skip(1),
        ) + ", "@ + x.domain);
    }
}

/// The body of the not-found page: it names every registered domain, so
/// the error page doubles as discovery.
pub open spec fn spec_not_found_body(ss: Seq<ServiceV>) -> Seq<char> {
    "No service registered for this host. Registered domains: "@ + domains_joined(ss)
}

/// Builds the not-found page body for the current registry.
pub fn not_found_body(reg: &Registry) -> (r: String)
    ensures
        r@ == spec_not_found_body(reg@.services),
{
    let list = reg.list();
    let n = list.len();
    let mut out = String::from_str("No service registered for this host. Registered domains: ");
    if n == 0 {
        out.append("(none)");
        proof {
            assert(out@ =~= spec_not_found_body(reg@.services));
        }
        return out;
    }
    let mut i: usize = 0;
    while i < n
        invariant
            i <= n,
            n == list@.len(),
            n >= 1,
            crate::types::views_of(list@) == reg@.services,
            i == 0 ==> out@ == "No service registered for this host. Registered domains: "@,
            i >= 1 ==> out@ == "No service registered for this host. Registered domains: "@
                + domains_joined(reg@.services.subrange(0, i as int)),
        decreases n - i,
    {
        if i > 0 {
            out.append(", ");
        }
        append_str(&mut out, list[i].domain.as_str());
        proof {
            let svs = reg@.services;
            assert(crate::types::views_of(list@)[i as int] == list@[i as int]@);
            let prefix = svs.subrange(0, i as int);
            assert(svs.subrange(0, i + 1 as int) =~= prefix.push(svs[i as int]));
            lemma_domains_joined_push(prefix, svs[i as int]);
            assert(out@ =~= "No service registered for this host. Registered domains: "@
                + domains_joined(svs.subrange(0, i + 1 as int)));
        }
        i += 1;
    }
    proof {
        assert(reg@.services.subrange(0, n as int) =~= reg@.services);
    }
    out
}

/// Appends a borrowed string.
fn append_str(out: &mut String, s: &str)
    ensures
        final(out)@ == old(out)@ + s@,
{
    out.append(s);
}

} // verus!
