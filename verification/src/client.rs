use vstd::prelude::*;
use vstd::string::StringExecFns;

use crate::text::{dec_digits, str_contains_char, u64_to_string};

verus! {

/// The human-readable rendering of a duration of `secs` seconds: seconds
/// below a minute, then minutes and seconds, then hours and minutes, then
/// days and hours.
pub open spec fn spec_format_duration(secs: u64) -> Seq<char> {
    if secs < 60 {
        dec_digits(secs as nat) + "s"@
    } else if secs < 3600 {
        dec_digits((secs / 60) as nat) + "m "@ + dec_digits((secs % 60) as nat) + "s"@
    } else if secs < 86400 {
        dec_digits((secs / 3600) as nat) + "h "@ + dec_digits(((secs % 3600) / 60) as nat) + "m"@
    } else {
        dec_digits((secs / 86400) as nat) + "d "@ + dec_digits(((secs % 86400) / 3600) as nat)
            + "h"@
    }
}

/// Renders a duration of `secs` seconds for people.
pub fn format_duration(secs: u64) -> (r: String)
    ensures
        r@ == spec_format_duration(secs),
{
    if secs < 60 {
        let mut s = u64_to_string(secs);
        s.append("s");
        s
    } else if secs < 3600 {
        let mut s = u64_to_string(secs / 60);
        s.append("m ");
        let t = u64_to_string(secs % 60);
        s.append(t.as_str());
        s.append("s");
        s
    } else if secs < 86400 {
        let mut s = u64_to_string(secs / 3600);
        s.append("h ");
        let t = u64_to_string((secs % 3600) / 60);
        s.append(t.as_str());
        s.append("m");
        s
    } else {
        let mut s = u64_to_string(secs / 86400);
        s.append("d ");
        let t = u64_to_string((secs % 86400) / 3600);
        s.append(t.as_str());
        s.append("h");
        s
    }
}

/// A bare name (no dot) becomes a `.localhost` domain; anything already
/// dotted is kept as it is.
pub open spec fn spec_normalize_domain(s: Seq<char>) -> Seq<char> {
    if s.contains('.') {
        s
    } else {
        s + ".localhost"@
    }
}

/// Normalizes a domain argument: `api` becomes `api.localhost`, while
/// `web.example.com` stays itself.
pub fn normalize_domain(domain: &str) -> (r: String)
    ensures
        r@ == spec_normalize_domain(domain@),
{
    if str_contains_char(domain, '.') {
        String::from_str(domain)
    } else {
        let mut s = String::from_str(domain);
        s.append(".localhost");
        s
    }
}

} // verus!
