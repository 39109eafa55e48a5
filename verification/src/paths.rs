use vstd::prelude::*;
use vstd::string::StringExecFns;

use crate::text::{lemma_ends_with_append, seq_ends_with};

verus! {

/// Relies on dirs::home_dir: the current user's home directory, if the
/// platform reports one. The result depends on the environment, so nothing
/// more is assumed of it.
#[verifier::external_body]
fn home_dir_string() -> (r: Option<String>) {
    dirs::home_dir().map(|p| p.to_string_lossy().into_owned())
}

/// The state directory under a given home directory: exactly the home
/// joined with `/.unport`.
pub fn state_dir_of(home: &str) -> (r: String)
    ensures
        r@ == home@ + "/.unport"@,
{
    let mut d = String::from_str(home);
    d.append("/.unport");
    d
}

/// A file under a given state directory: exactly the directory joined
/// with the (slash-led) file name.
pub fn state_file_of(dir: &str, name: &str) -> (r: String)
    ensures
        r@ == dir@ + name@,
{
    let mut p = String::from_str(dir);
    p.append(name);
    p
}

/// The per-user state directory: whatever home directory the platform
/// reported, joined with `/.unport` by `state_dir_of`. `None` when the
/// platform reports none; the home itself is environmental, so only the
/// joined suffix can be promised here.
pub fn unport_dir() -> (r: Option<String>)
    ensures
        r matches Some(d) ==> seq_ends_with(d@, "/.unport"@),
{
    match home_dir_string() {
        None => None,
        Some(h) => {
            let d = state_dir_of(h.as_str());
            proof {
                assert(d@.subrange(d@.len() - "/.unport"@.len(), d@.len() as int)
                    =~= "/.unport"@);
            }
            Some(d)
        },
    }
}

/// The rendezvous socket path: the state directory joined with
/// `/unport.sock`.
pub fn socket_path() -> (r: Option<String>)
    ensures
        r matches Some(p) ==> seq_ends_with(p@, "/.unport/unport.sock"@),
{
    proof {
        reveal_strlit("/.unport");
        reveal_strlit("/unport.sock");
        reveal_strlit("/.unport/unport.sock");
        assert("/.unport/unport.sock"@ =~= "/.unport"@ + "/unport.sock"@);
    }
    join_state_file("/unport.sock", Ghost("/.unport/unport.sock"@))
}

/// The PID file path: the state directory joined with `/unport.pid`.
pub fn pid_path() -> (r: Option<String>)
    ensures
        r matches Some(p) ==> seq_ends_with(p@, "/.unport/unport.pid"@),
{
    proof {
        reveal_strlit("/.unport");
        reveal_strlit("/unport.pid");
        reveal_strlit("/.unport/unport.pid");
        assert("/.unport/unport.pid"@ =~= "/.unport"@ + "/unport.pid"@);
    }
    join_state_file("/unport.pid", Ghost("/.unport/unport.pid"@))
}

/// The persisted registry path: the state directory joined with
/// `/registry.json`.
pub fn registry_path() -> (r: Option<String>)
    ensures
        r matches Some(p) ==> seq_ends_with(p@, "/.unport/registry.json"@),
{
    proof {
        reveal_strlit("/.unport");
        reveal_strlit("/registry.json");
        reveal_strlit("/.unport/registry.json");
        assert("/.unport/registry.json"@ =~= "/.unport"@ + "/registry.json"@);
    }
    join_state_file("/registry.json", Ghost("/.unport/registry.json"@))
}

/// Joins a file name onto the state directory by `state_file_of`; `full`
/// names the expected suffix of the result, `"/.unport"` followed by the
/// file name.
fn join_state_file(name: &str, Ghost(full): Ghost<Seq<char>>) -> (r: Option<String>)
    requires
        full == "/.unport"@ + name@,
    ensures
        r matches Some(p) ==> seq_ends_with(p@, full),
{
    match unport_dir() {
        None => None,
        Some(d) => {
            let p = state_file_of(d.as_str(), name);
            proof {
                lemma_ends_with_append(d@, "/.unport"@, name@);
            }
            Some(p)
        },
    }
}

} // verus!
