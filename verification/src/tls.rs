use vstd::prelude::*;
use vstd::string::StringExecFns;

use crate::registry::{Registry, RegistryV};

verus! {

/// The names the TLS leaf must cover: `localhost` plus every registered
/// domain.
pub open spec fn san_set(r: RegistryV) -> Set<Seq<char>> {
    r.domains().insert("localhost"@)
}

/// The SAN list for a fresh leaf: `localhost` first, then the registered
/// domains in registration order. As a set it is exactly `san_set`, so a
/// leaf minted from it converges with the registry.
pub fn san_domains(reg: &Registry) -> (r: Vec<String>)
    ensures
        r@.len() == reg@.services.len() + 1,
        r@.map_values(|s: String| s@).to_set() == san_set(reg@),
        r@[0]@ == "localhost"@,
        forall|k: int| 0 <= k < reg@.services.len() ==> r@[k + 1]@ == reg@.services[k].domain,
{
    let list = reg.list();
    let n = list.len();
    let mut out: Vec<String> = Vec::new();
    out.push(String::from_str("localhost"));
    let mut i: usize = 0;
    while i < n
        invariant
            i <= n,
            n == list@.len(),
            crate::types::views_of(list@) == reg@.services,
            out@.len() == i + 1,
            out@[0]@ == "localhost"@,
            forall|k: int| 0 <= k < i ==> out@[k + 1]@ == reg@.services[k].domain,
        decreases n - i,
    {
        out.push(list[i].domain.clone());
        proof {
            assert(crate::types::views_of(list@)[i as int] == list@[i as int]@);
        }
        i += 1;
    }
    proof {
        let names = out@.map_values(|s: String| s@);
        assert forall|d: Seq<char>| names.to_set().contains(d) implies san_set(
            reg@,
        ).contains(d) by {
            let k = choose|k: int| 0 <= k < names.len() && names[k] == d;
            if k == 0 {
                assert(d == "localhost"@);
            } else {
                assert(out@[k]@ == reg@.services[k - 1].domain);
                assert(reg@.has_domain(d));
            }
        }
        assert forall|d: Seq<char>| san_set(reg@).contains(d) implies names.to_set().contains(
            d,
        ) by {
            if d == "localhost"@ {
                assert(names[0] == d);
                assert(names.contains(d));
            } else {
                assert(reg@.has_domain(d));
                let k = choose|k: int|
                    0 <= k < reg@.services.len() && reg@.services[k].domain == d;
                assert(names[k + 1] == d);
                assert(names.contains(d));
            }
        }
        assert(out@.map_values(|s: String| s@).to_set() =~= san_set(reg@));
    }
    out
}

} // verus!
