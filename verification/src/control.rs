use vstd::prelude::*;
use vstd::string::StringExecFns;

use crate::registry::{candidate, scan_complete, scanned_port, wrap_succ, Registry, RegistryV};
use crate::types::{Request, ReqV, RespV, Response, Service, ServiceV};
use crate::wire::{
    dec_request, enc_resp, encode_response, lemma_response_single_line, parse_request,
};

verus! {

/// What the daemon must do after answering a request, besides writing the
/// response line.
#[derive(Clone, Copy, Debug, PartialEq, Eq, Structural)]
pub struct Effects {
    /// The registry changed and must be persisted.
    pub persist: bool,
    /// Deliver the termination signal to this PID.
    pub kill_pid: Option<u32>,
    /// The domain set changed while HTTPS is active: rebuild the TLS leaf
    /// and swap it into the live acceptor.
    pub regen_tls: bool,
    /// Exit the daemon.
    pub shutdown: bool,
}

/// No outside work to do.
pub open spec fn no_effects() -> Effects {
    Effects { persist: false, kill_pid: None, regen_tls: false, shutdown: false }
}

/// The whole control plane as one step: what each request does to the
/// registry, what it answers, and what the daemon must do afterwards.
/// `outs` is the port scan's probe-outcome sequence; only `GetPort` reads
/// it, and the answered port is the scan's choice over those outcomes.
pub open spec fn spec_handle(q: ReqV, r: RegistryV, https: bool, outs: Seq<bool>) -> (
    RegistryV,
    RespV,
    Effects,
) {
    match q {
        ReqV::Register { domain, port, pid, directory } => {
            if r.has_domain(domain) {
                (
                    r,
                    RespV::Error("Domain '"@ + domain + "' already registered"@),
                    no_effects(),
                )
            } else {
                (
                    RegistryV {
                        services: r.services.push(ServiceV { domain, port, pid, directory }),
                        next_port: r.next_port,
                    },
                    RespV::Okay(Some("Registered "@ + domain)),
                    Effects { persist: true, kill_pid: None, regen_tls: https, shutdown: false },
                )
            }
        },
        ReqV::Unregister { domain } => {
            if r.has_domain(domain) {
                (
                    RegistryV {
                        services: r.services.remove(r.index_of(domain)),
                        next_port: r.next_port,
                    },
                    RespV::Okay(Some("Unregistered "@ + domain)),
                    Effects { persist: true, kill_pid: None, regen_tls: false, shutdown: false },
                )
            } else {
                (r, RespV::Error("Domain '"@ + domain + "' not found"@), no_effects())
            }
        },
        ReqV::GetPort => {
            (
                RegistryV {
                    services: r.services,
                    next_port: wrap_succ(scanned_port(r.next_port, outs)),
                },
                RespV::Port(scanned_port(r.next_port, outs)),
                no_effects(),
            )
        },
        ReqV::List => (r, RespV::Services(r.services), no_effects()),
        ReqV::Stop { domain } => {
            if r.has_domain(domain) {
                (
                    RegistryV {
                        services: r.services.remove(r.index_of(domain)),
                        next_port: r.next_port,
                    },
                    RespV::Okay(Some("Stopped "@ + domain)),
                    Effects {
                        persist: true,
                        kill_pid: Some(r.services[r.index_of(domain)].pid),
                        regen_tls: false,
                        shutdown: false,
                    },
                )
            } else {
                (r, RespV::Error("Domain '"@ + domain + "' not found"@), no_effects())
            }
        },
        ReqV::Shutdown => (
            r,
            RespV::Okay(None),
            Effects { persist: false, kill_pid: None, regen_tls: false, shutdown: true },
        ),
        ReqV::HttpsStatus => (r, RespV::HttpsEnabled(https), no_effects()),
    }
}

/// Handles one request against the registry: exactly one response, and the
/// outside work left for the caller, as `spec_handle` says. `probe` is the
/// port allocator's bindability test; `GetPort` drives it through the
/// scan, and the recorded outcomes come back as the third result.
pub fn handle_request<F: Fn(u16) -> bool>(
    reg: &mut Registry,
    req: Request,
    https: bool,
    probe: F,
) -> (r: (Response, Effects, Ghost<Seq<bool>>))
    requires
        old(reg)@.wf(),
        forall|p: u16| #[trigger] call_requires(probe, (p,)),
    ensures
        final(reg)@.wf(),
        (final(reg)@, r.0@, r.1) == spec_handle(req@, old(reg)@, https, r.2@),
        req@ is GetPort ==> scan_complete(r.2@) && (forall|k: int|
            0 <= k < r.2@.len() ==> call_ensures(
                probe,
                (candidate(old(reg)@.next_port, k),),
                r.2@[k],
            )),
        !(req@ is GetPort) ==> r.2@ == Seq::<bool>::empty(),
{
    match req {
        Request::Register { domain, port, pid, directory } => {
            let svc = Service { domain: domain.clone(), port, pid, directory };
            match reg.register(svc) {
                Ok(()) => {
                    let mut msg = String::from_str("Registered ");
                    msg.append(domain.as_str());
                    (
                        Response::Okay(Some(msg)),
                        Effects {
                            persist: true,
                            kill_pid: None,
                            regen_tls: https,
                            shutdown: false,
                        },
                        Ghost(Seq::empty()),
                    )
                },
                Err(_) => {
                    let mut msg = String::from_str("Domain '");
                    msg.append(domain.as_str());
                    msg.append("' already registered");
                    (Response::Error(msg), no_effects_exec(), Ghost(Seq::empty()))
                },
            }
        },
        Request::Unregister { domain } => {
            match reg.unregister(domain.as_str()) {
                Some(_) => {
                    let mut msg = String::from_str("Unregistered ");
                    msg.append(domain.as_str());
                    (
                        Response::Okay(Some(msg)),
                        Effects {
                            persist: true,
                            kill_pid: None,
                            regen_tls: false,
                            shutdown: false,
                        },
                        Ghost(Seq::empty()),
                    )
                },
                None => {
                    let mut msg = String::from_str("Domain '");
                    msg.append(domain.as_str());
                    msg.append("' not found");
                    (Response::Error(msg), no_effects_exec(), Ghost(Seq::empty()))
                },
            }
        },
        Request::GetPort => {
            let (port, outs) = reg.get_port_scanned(probe);
            (Response::Port(port), no_effects_exec(), outs)
        },
        Request::List => (Response::Services(reg.list()), no_effects_exec(), Ghost(Seq::empty())),
        Request::Stop { domain } => {
            match reg.unregister(domain.as_str()) {
                Some(svc) => {
                    let mut msg = String::from_str("Stopped ");
                    msg.append(domain.as_str());
                    (
                        Response::Okay(Some(msg)),
                        Effects {
                            persist: true,
                            kill_pid: Some(svc.pid),
                            regen_tls: false,
                            shutdown: false,
                        },
                        Ghost(Seq::empty()),
                    )
                },
                None => {
                    let mut msg = String::from_str("Domain '");
                    msg.append(domain.as_str());
                    msg.append("' not found");
                    (Response::Error(msg), no_effects_exec(), Ghost(Seq::empty()))
                },
            }
        },
        Request::Shutdown => (
            Response::Okay(None),
            Effects { persist: false, kill_pid: None, regen_tls: false, shutdown: true },
            Ghost(Seq::empty()),
        ),
        Request::HttpsStatus => (
            Response::HttpsEnabled(https),
            no_effects_exec(),
            Ghost(Seq::empty()),
        ),
    }
}

/// No outside work to do.
fn no_effects_exec() -> (r: Effects)
    ensures
        r == no_effects(),
{
    Effects { persist: false, kill_pid: None, regen_tls: false, shutdown: false }
}

/// One line of the control plane, whole: a line that parses as a request
/// is answered by exactly one response line — the encoded response with a
/// final newline and none before it — while a line that does not parse
/// gets no response and leaves the registry untouched.
pub fn handle_line<F: Fn(u16) -> bool>(
    reg: &mut Registry,
    line: &str,
    https: bool,
    probe: F,
) -> (r: (Option<(String, Effects)>, Ghost<Seq<bool>>))
    requires
        old(reg)@.wf(),
        forall|p: u16| #[trigger] call_requires(probe, (p,)),
    ensures
        final(reg)@.wf(),
        match r.0 {
            Some(p) => dec_request(line@) matches Some(q) && ({
                let step = spec_handle(q, old(reg)@, https, r.1@);
                &&& final(reg)@ == step.0
                &&& p.1 == step.2
                &&& p.0@ == enc_resp(step.1) + seq!['\n']
                &&& p.0@.len() >= 1
                &&& p.0@[p.0@.len() - 1] == '\n'
                &&& (forall|i: int| 0 <= i < p.0@.len() - 1 ==> p.0@[i] != '\n')
                &&& (q is GetPort ==> scan_complete(r.1@) && (forall|k: int|
                    0 <= k < r.1@.len() ==> call_ensures(
                        probe,
                        (candidate(old(reg)@.next_port, k),),
                        r.1@[k],
                    )))
                &&& (!(q is GetPort) ==> r.1@ == Seq::<bool>::empty())
            }),
            None => dec_request(line@) is None && final(reg)@ == old(reg)@,
        },
{
    match parse_request(line) {
        None => (None, Ghost(Seq::empty())),
        Some(req) => {
            let (resp, eff, outs) = handle_request(reg, req, https, probe);
            proof {
                lemma_response_single_line(resp@);
            }
            let mut out = encode_response(&resp);
            out.push('\n');
            (Some((out, eff)), outs)
        },
    }
}

} // verus!
