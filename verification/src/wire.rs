use vstd::prelude::*;
use vstd::string::StringExecFns;

use crate::json::{
    append_quoted, dec_num, dec_string, esc, expect_lit, lemma_dec_num, lemma_dec_string,
    lemma_esc_no_newline, lemma_expect_prefix, lemma_tail_not_lit, parse_string_at, parse_u32_at,
    quoted, spec_expect,
};
use crate::text::{
    chars_of, dec_digits, is_digit_char, lemma_dec_digits_are_digits, str_eq, u64_to_string,
};
use crate::types::{views_of, ReqV, Request, RespV, Response, Service, ServiceV};

verus! {

// ---------------------------------------------------------------------------
// The service object: the one JSON shape shared by the persisted registry,
// the Register request payload and the Services response.
// ---------------------------------------------------------------------------

/// A service as one JSON object, fields in declared order.
pub open spec fn enc_service(v: ServiceV) -> Seq<char> {
    "{\"domain\":"@ + quoted(v.domain) + ",\"port\":"@ + dec_digits(v.port as nat) + ",\"pid\":"@
        + dec_digits(v.pid as nat) + ",\"directory\":"@ + quoted(v.directory) + "}"@
}

/// Reads one service object from the front of `s`.
pub open spec fn dec_service(s: Seq<char>) -> Option<(ServiceV, Seq<char>)> {
    match spec_expect(s, "{\"domain\":"@) {
        None => None,
        Some(s1) => match dec_string(s1) {
            None => None,
            Some((domain, s2)) => match spec_expect(s2, ",\"port\":"@) {
                None => None,
                Some(s3) => match dec_num(s3) {
                    None => None,
                    Some((port, s4)) => if port > u16::MAX as nat {
                        None
                    } else {
                        match spec_expect(s4, ",\"pid\":"@) {
                            None => None,
                            Some(s5) => match dec_num(s5) {
                                None => None,
                                Some((pid, s6)) => match spec_expect(s6, ",\"directory\":"@) {
                                    None => None,
                                    Some(s7) => match dec_string(s7) {
                                        None => None,
                                        Some((directory, s8)) => match spec_expect(s8, "}"@) {
                                            None => None,
                                            Some(s9) => Some(
                                                (
                                                    ServiceV {
                                                        domain,
                                                        port: port as u16,
                                                        pid: pid as u32,
                                                        directory,
                                                    },
                                                    s9,
                                                ),
                                            ),
                                        },
                                    },
                                },
                            },
                        }
                    },
                },
            },
        },
    }
}

/// Reading a written service object gives back the service, whatever
/// follows it.
pub proof fn lemma_dec_service(v: ServiceV, rest: Seq<char>)
    ensures
        dec_service(enc_service(v) + rest) == Some((v, rest)),
{
    let s = enc_service(v) + rest;
    let r8 = "}"@ + rest;
    let r7 = quoted(v.directory) + r8;
    let r6 = ",\"directory\":"@ + r7;
    let r5 = dec_digits(v.pid as nat) + r6;
    let r4 = ",\"pid\":"@ + r5;
    let r3 = dec_digits(v.port as nat) + r4;
    let r2 = ",\"port\":"@ + r3;
    let r1 = quoted(v.domain) + r2;
    assert(s =~= "{\"domain\":"@ + r1);
    lemma_expect_prefix("{\"domain\":"@, r1);
    lemma_dec_string(v.domain, r2);
    lemma_expect_prefix(",\"port\":"@, r3);
    reveal_strlit(",\"pid\":");
    assert(r4[0] == ',');
    assert(!is_digit_char(','));
    lemma_dec_num(v.port as nat, r4);
    assert(!(v.port as nat > u16::MAX as nat));
    lemma_expect_prefix(",\"pid\":"@, r5);
    reveal_strlit(",\"directory\":");
    assert(r6[0] == ',');
    lemma_dec_num(v.pid as nat, r6);
    lemma_expect_prefix(",\"directory\":"@, r7);
    lemma_dec_string(v.directory, r8);
    lemma_expect_prefix("}"@, rest);
    assert((v.port as nat) as u16 == v.port);
    assert((v.pid as nat) as u32 == v.pid);
}

/// Appends the JSON object form of a service given by its fields to `out`.
pub fn append_service_parts(out: &mut String, domain: &str, port: u16, pid: u32, directory: &str)
    ensures
        final(out)@ == old(out)@ + enc_service(
            ServiceV { domain: domain@, port, pid, directory: directory@ },
        ),
{
    let ghost base = old(out)@;
    out.append("{\"domain\":");
    append_quoted(out, domain);
    out.append(",\"port\":");
    let p = u64_to_string(port as u64);
    out.append(p.as_str());
    out.append(",\"pid\":");
    let d = u64_to_string(pid as u64);
    out.append(d.as_str());
    out.append(",\"directory\":");
    append_quoted(out, directory);
    out.append("}");
    proof {
        assert(out@ =~= base + enc_service(
            ServiceV { domain: domain@, port, pid, directory: directory@ },
        ));
    }
}

/// Appends the JSON object form of `s` to `out`.
pub fn append_service(out: &mut String, s: &Service)
    ensures
        final(out)@ == old(out)@ + enc_service(s@),
{
    append_service_parts(out, s.domain.as_str(), s.port, s.pid, s.directory.as_str());
}

/// Reads one service object starting at `i`.
pub fn parse_service_at(s: &Vec<char>, i: usize) -> (r: Option<(Service, usize)>)
    requires
        i <= s@.len(),
    ensures
        match r {
            Some(p) => i < p.1 <= s@.len() && dec_service(s@.skip(i as int)) == Some(
                (p.0@, s@.skip(p.1 as int)),
            ),
            None => dec_service(s@.skip(i as int)) is None,
        },
{
    let j1 = match expect_lit(s, i, "{\"domain\":") {
        None => {
            return None;
        },
        Some(j) => j,
    };
    let (domain, j2) = match parse_string_at(s, j1) {
        None => {
            return None;
        },
        Some(p) => p,
    };
    let j3 = match expect_lit(s, j2, ",\"port\":") {
        None => {
            return None;
        },
        Some(j) => j,
    };
    let (port32, j4) = match parse_u32_at(s, j3) {
        None => {
            return None;
        },
        Some(p) => p,
    };
    if port32 > 65535 {
        return None;
    }
    let j5 = match expect_lit(s, j4, ",\"pid\":") {
        None => {
            return None;
        },
        Some(j) => j,
    };
    let (pid, j6) = match parse_u32_at(s, j5) {
        None => {
            return None;
        },
        Some(p) => p,
    };
    let j7 = match expect_lit(s, j6, ",\"directory\":") {
        None => {
            return None;
        },
        Some(j) => j,
    };
    let (directory, j8) = match parse_string_at(s, j7) {
        None => {
            return None;
        },
        Some(p) => p,
    };
    let j9 = match expect_lit(s, j8, "}") {
        None => {
            return None;
        },
        Some(j) => j,
    };
    let svc = Service { domain, port: port32 as u16, pid, directory };
    Some((svc, j9))
}

// ---------------------------------------------------------------------------
// Requests: one JSON value per line, a string for a bare command, an object
// with a single tag key for a command with a payload.
// ---------------------------------------------------------------------------

/// A request as one line of the wire protocol, canonical form.
pub open spec fn enc_req(q: ReqV) -> Seq<char> {
    match q {
        ReqV::Register { domain, port, pid, directory } => "{\"Register\":"@ + enc_service(
            ServiceV { domain, port, pid, directory },
        ) + "}"@,
        ReqV::Unregister { domain } => "{\"Unregister\":{\"domain\":"@ + quoted(domain) + "}}"@,
        ReqV::GetPort => "\"GetPort\""@,
        ReqV::List => "\"List\""@,
        ReqV::Stop { domain } => "{\"Stop\":{\"domain\":"@ + quoted(domain) + "}}"@,
        ReqV::Shutdown => "\"Shutdown\""@,
        ReqV::HttpsStatus => "\"HttpsStatus\""@,
    }
}

/// Reads a whole request line. The line must carry exactly one request and
/// nothing after it.
pub open spec fn dec_request(s: Seq<char>) -> Option<ReqV> {
    if s == "\"GetPort\""@ {
        Some(ReqV::GetPort)
    } else if s == "\"List\""@ {
        Some(ReqV::List)
    } else if s == "\"Shutdown\""@ {
        Some(ReqV::Shutdown)
    } else if s == "\"HttpsStatus\""@ {
        Some(ReqV::HttpsStatus)
    } else {
        match spec_expect(s, "{\"Register\":"@) {
            Some(s1) => match dec_service(s1) {
                Some((v, r)) => if r == "}"@ {
                    Some(
                        ReqV::Register {
                            domain: v.domain,
                            port: v.port,
                            pid: v.pid,
                            directory: v.directory,
                        },
                    )
                } else {
                    None
                },
                None => None,
            },
            None => match spec_expect(s, "{\"Unregister\":{\"domain\":"@) {
                Some(s1) => match dec_string(s1) {
                    Some((d, r)) => if r == "}}"@ {
                        Some(ReqV::Unregister { domain: d })
                    } else {
                        None
                    },
                    None => None,
                },
                None => match spec_expect(s, "{\"Stop\":{\"domain\":"@) {
                    Some(s1) => match dec_string(s1) {
                        Some((d, r)) => if r == "}}"@ {
                            Some(ReqV::Stop { domain: d })
                        } else {
                            None
                        },
                        None => None,
                    },
                    None => None,
                },
            },
        }
    }
}

/// Reading a written request line gives back the request: every
/// well-formed request is understood, and understood as itself.
pub proof fn lemma_dec_request(q: ReqV)
    ensures
        dec_request(enc_req(q)) == Some(q),
{
    reveal_strlit("\"GetPort\"");
    reveal_strlit("\"List\"");
    reveal_strlit("\"Shutdown\"");
    reveal_strlit("\"HttpsStatus\"");
    reveal_strlit("{\"Register\":");
    reveal_strlit("{\"Unregister\":{\"domain\":");
    reveal_strlit("{\"Stop\":{\"domain\":");
    reveal_strlit("}");
    reveal_strlit("}}");
    let s = enc_req(q);
    match q {
        ReqV::Register { domain, port, pid, directory } => {
            let v = ServiceV { domain, port, pid, directory };
            assert(s[0] == '{');
            let body = enc_service(v) + "}"@;
            assert(s =~= "{\"Register\":"@ + body);
            lemma_expect_prefix("{\"Register\":"@, body);
            lemma_dec_service(v, "}"@);
        },
        ReqV::Unregister { domain } => {
            assert(s[0] == '{');
            assert(s[2] == 'U');
            let body = quoted(domain) + "}}"@;
            assert(s =~= "{\"Unregister\":{\"domain\":"@ + body);
            assert(spec_expect(s, "{\"Register\":"@) is None) by {
                if spec_expect(s, "{\"Register\":"@) is Some {
                    assert(s.subrange(0, 12)[2] == s[2]);
                }
            }
            lemma_expect_prefix("{\"Unregister\":{\"domain\":"@, body);
            lemma_dec_string(domain, "}}"@);
        },
        ReqV::Stop { domain } => {
            assert(s[0] == '{');
            assert(s[2] == 'S');
            let body = quoted(domain) + "}}"@;
            assert(s =~= "{\"Stop\":{\"domain\":"@ + body);
            assert(spec_expect(s, "{\"Register\":"@) is None) by {
                if spec_expect(s, "{\"Register\":"@) is Some {
                    assert(s.subrange(0, 12)[2] == s[2]);
                }
            }
            assert(spec_expect(s, "{\"Unregister\":{\"domain\":"@) is None) by {
                if spec_expect(s, "{\"Unregister\":{\"domain\":"@) is Some {
                    assert(s.subrange(0, 24)[2] == s[2]);
                }
            }
            lemma_expect_prefix("{\"Stop\":{\"domain\":"@, body);
            lemma_dec_string(domain, "}}"@);
        },
        _ => {
        },
    }
}

// ---------------------------------------------------------------------------
// Responses.
// ---------------------------------------------------------------------------

/// The bodies of a services array, comma separated.
pub open spec fn enc_service_list(ss: Seq<ServiceV>) -> Seq<char>
    decreases ss.len(),
{
    if ss.len() == 0 {
        Seq::empty()
    } else if ss.len() == 1 {
        enc_service(ss[0])
    } else {
        enc_service(ss[0]) + ","@ + enc_service_list(ss.skip(1))
    }
}

/// Extending a services array appends one more object, with a comma before
/// it unless it is the first.
pub proof fn lemma_enc_service_list_push(ss: Seq<ServiceV>, x: ServiceV)
    ensures
        enc_service_list(ss.push(x)) == if ss.len() == 0 {
            enc_service(x)
        } else {
            enc_service_list(ss) + ","@ + enc_service_list(seq![x])
        },
    decreases ss.len(),
{
    let w = ss.push(x);
    if ss.len() == 0 {
        assert(w.len() == 1);
        assert(w[0] == x);
        assert(enc_service_list(seq![x]) == enc_service(x));
    } else if ss.len() == 1 {
        assert(w.len() == 2);
        assert(w[0] == ss[0]);
        assert(w.skip(1) =~= seq![x]);
        assert(enc_service_list(seq![x]) == enc_service(x));
        assert(enc_service_list(ss) == enc_service(ss[0]));
    } else {
        assert(w[0] == ss[0]);
        assert(w.skip(1) =~= ss.skip(1).push(x));
        lemma_enc_service_list_push(ss.skip(1), x);
        assert(enc_service_list(w) =~= enc_service(ss[0]) + ","@ + enc_service_list(ss.skip(1))
            + ","@ + enc_service_list(seq![x]));
        assert(enc_service_list(ss) + ","@ + enc_service_list(seq![x]) =~= enc_service(ss[0])
            + ","@ + enc_service_list(ss.skip(1)) + ","@ + enc_service_list(seq![x]));
    }
}

/// A response as one line of the wire protocol, canonical form.
pub open spec fn enc_resp(v: RespV) -> Seq<char> {
    match v {
        RespV::Okay(m) => match m {
            Some(t) => "{\"Ok\":"@ + quoted(t) + "}"@,
            None => "{\"Ok\":null}"@,
        },
        RespV::Port(p) => "{\"Port\":"@ + dec_digits(p as nat) + "}"@,
        RespV::Services(ss) => "{\"Services\":["@ + enc_service_list(ss) + "]}"@,
        RespV::Error(m) => "{\"Error\":"@ + quoted(m) + "}"@,
        RespV::HttpsEnabled(b) => if b {
            "{\"HttpsEnabled\":true}"@
        } else {
            "{\"HttpsEnabled\":false}"@
        },
    }
}

/// Reads one or more service objects, comma separated. The fuel only
/// bounds the recursion; one unit per object is enough.
pub open spec fn dec_service_items(s: Seq<char>, fuel: nat) -> Option<(Seq<ServiceV>, Seq<char>)>
    decreases fuel,
{
    if fuel == 0 {
        None
    } else {
        match dec_service(s) {
            None => None,
            Some((v, s1)) => match spec_expect(s1, ","@) {
                Some(s2) => match dec_service_items(s2, (fuel - 1) as nat) {
                    Some((tail, r)) => Some((seq![v] + tail, r)),
                    None => None,
                },
                None => Some((seq![v], s1)),
            },
        }
    }
}

/// Reads a whole response line.
pub open spec fn dec_response(s: Seq<char>) -> Option<RespV> {
    if s == "{\"Ok\":null}"@ {
        Some(RespV::Okay(None))
    } else if s == "{\"HttpsEnabled\":true}"@ {
        Some(RespV::HttpsEnabled(true))
    } else if s == "{\"HttpsEnabled\":false}"@ {
        Some(RespV::HttpsEnabled(false))
    } else {
        match spec_expect(s, "{\"Ok\":"@) {
            Some(s1) => match dec_string(s1) {
                Some((m, r)) => if r == "}"@ {
                    Some(RespV::Okay(Some(m)))
                } else {
                    None
                },
                None => None,
            },
            None => match spec_expect(s, "{\"Port\":"@) {
                Some(s1) => match dec_num(s1) {
                    Some((p, r)) => if p <= u16::MAX as nat && r == "}"@ {
                        Some(RespV::Port(p as u16))
                    } else {
                        None
                    },
                    None => None,
                },
                None => match spec_expect(s, "{\"Error\":"@) {
                    Some(s1) => match dec_string(s1) {
                        Some((m, r)) => if r == "}"@ {
                            Some(RespV::Error(m))
                        } else {
                            None
                        },
                        None => None,
                    },
                    None => match spec_expect(s, "{\"Services\":["@) {
                        Some(s1) => if s1 == "]}"@ {
                            Some(RespV::Services(Seq::empty()))
                        } else {
                            match dec_service_items(s1, s1.len() as nat) {
                                Some((ss, r)) => if r == "]}"@ {
                                    Some(RespV::Services(ss))
                                } else {
                                    None
                                },
                                None => None,
                            }
                        },
                        None => None,
                    },
                },
            },
        }
    }
}

/// A written services array body is at least as long as its item count,
/// so its own length is always enough fuel.
proof fn lemma_enc_service_list_len(ss: Seq<ServiceV>)
    ensures
        enc_service_list(ss).len() >= ss.len(),
        ss.len() >= 1 ==> enc_service_list(ss).len() >= 10,
    decreases ss.len(),
{
    reveal_strlit("{\"domain\":");
    reveal_strlit(",");
    if ss.len() > 1 {
        lemma_enc_service_list_len(ss.skip(1));
    }
}

/// Reading written service objects gives them back, whatever
/// non-separator text follows, at any sufficient fuel.
proof fn lemma_dec_service_items(ss: Seq<ServiceV>, rest: Seq<char>, fuel: nat)
    requires
        ss.len() >= 1,
        fuel >= ss.len(),
        spec_expect(rest, ","@) is None,
    ensures
        dec_service_items(enc_service_list(ss) + rest, fuel) == Some((ss, rest)),
    decreases ss.len(),
{
    let s = enc_service_list(ss) + rest;
    let v = ss[0];
    if ss.len() == 1 {
        lemma_dec_service(v, rest);
        assert(seq![v] =~= ss);
    } else {
        let r2 = enc_service_list(ss.skip(1)) + rest;
        let r1 = ","@ + r2;
        assert(s =~= enc_service(v) + r1);
        lemma_dec_service(v, r1);
        lemma_expect_prefix(","@, r2);
        lemma_dec_service_items(ss.skip(1), rest, (fuel - 1) as nat);
        assert(seq![v] + ss.skip(1) =~= ss);
    }
}

/// Reading a written response line gives back the response: the encoding
/// is unambiguous.
pub proof fn lemma_dec_response(v: RespV)
    ensures
        dec_response(enc_resp(v)) == Some(v),
{
    reveal_strlit("{\"Ok\":null}");
    reveal_strlit("{\"HttpsEnabled\":true}");
    reveal_strlit("{\"HttpsEnabled\":false}");
    reveal_strlit("{\"Ok\":");
    reveal_strlit("{\"Port\":");
    reveal_strlit("{\"Error\":");
    reveal_strlit("{\"Services\":[");
    reveal_strlit("]}");
    reveal_strlit("}");
    reveal_strlit(",");
    let s = enc_resp(v);
    match v {
        RespV::Okay(m) => match m {
            None => {
            },
            Some(t) => {
                let body = quoted(t) + "}"@;
                assert(s =~= "{\"Ok\":"@ + body);
                assert(s[6] == '"');
                assert(s != "{\"Ok\":null}"@);
                assert(s[2] == 'O');
                assert(s != "{\"HttpsEnabled\":true}"@);
                assert(s != "{\"HttpsEnabled\":false}"@);
                lemma_expect_prefix("{\"Ok\":"@, body);
                lemma_dec_string(t, "}"@);
            },
        },
        RespV::Port(p) => {
            let body = dec_digits(p as nat) + "}"@;
            assert(s =~= "{\"Port\":"@ + body);
            crate::text::lemma_dec_digits_are_digits(p as nat);
            assert(s[2] == 'P');
            assert(s != "{\"Ok\":null}"@);
            assert(s != "{\"HttpsEnabled\":true}"@);
            assert(s != "{\"HttpsEnabled\":false}"@);
            assert(spec_expect(s, "{\"Ok\":"@) is None) by {
                if spec_expect(s, "{\"Ok\":"@) is Some {
                    assert(s.subrange(0, 6)[2] == s[2]);
                }
            }
            lemma_expect_prefix("{\"Port\":"@, body);
            assert(body[dec_digits(p as nat).len() as int] == '}');
            assert("}"@[0] == '}');
            lemma_dec_num(p as nat, "}"@);
        },
        RespV::Services(ss) => {
            let body = enc_service_list(ss) + "]}"@;
            assert(s =~= "{\"Services\":["@ + body);
            assert(s[2] == 'S');
            assert(s != "{\"Ok\":null}"@);
            assert(s != "{\"HttpsEnabled\":true}"@);
            assert(s != "{\"HttpsEnabled\":false}"@);
            assert(spec_expect(s, "{\"Ok\":"@) is None) by {
                if spec_expect(s, "{\"Ok\":"@) is Some {
                    assert(s.subrange(0, 6)[2] == s[2]);
                }
            }
            assert(spec_expect(s, "{\"Port\":"@) is None) by {
                if spec_expect(s, "{\"Port\":"@) is Some {
                    assert(s.subrange(0, 8)[2] == s[2]);
                }
            }
            assert(spec_expect(s, "{\"Error\":"@) is None) by {
                if spec_expect(s, "{\"Error\":"@) is Some {
                    assert(s.subrange(0, 9)[2] == s[2]);
                }
            }
            lemma_expect_prefix("{\"Services\":["@, body);
            if ss.len() == 0 {
                assert(enc_service_list(ss) =~= Seq::<char>::empty());
                assert(body =~= "]}"@);
                assert(ss =~= Seq::<ServiceV>::empty());
            } else {
                lemma_enc_service_list_len(ss);
                assert(body.len() > 2);
                assert(body != "]}"@);
                assert(spec_expect("]}"@, ","@) is None) by {
                    if spec_expect("]}"@, ","@) is Some {
                        assert("]}"@.subrange(0, 1)[0] == "]}"@[0]);
                    }
                }
                lemma_dec_service_items(ss, "]}"@, body.len() as nat);
            }
        },
        RespV::Error(t) => {
            let body = quoted(t) + "}"@;
            assert(s =~= "{\"Error\":"@ + body);
            assert(s[2] == 'E');
            assert(s != "{\"Ok\":null}"@);
            assert(s != "{\"HttpsEnabled\":true}"@);
            assert(s != "{\"HttpsEnabled\":false}"@);
            assert(spec_expect(s, "{\"Ok\":"@) is None) by {
                if spec_expect(s, "{\"Ok\":"@) is Some {
                    assert(s.subrange(0, 6)[2] == s[2]);
                }
            }
            assert(spec_expect(s, "{\"Port\":"@) is None) by {
                if spec_expect(s, "{\"Port\":"@) is Some {
                    assert(s.subrange(0, 8)[2] == s[2]);
                }
            }
            lemma_expect_prefix("{\"Error\":"@, body);
            lemma_dec_string(t, "}"@);
        },
        RespV::HttpsEnabled(b) => {
            if b {
                assert(s != "{\"Ok\":null}"@);
            } else {
                assert(s != "{\"Ok\":null}"@);
                assert(s != "{\"HttpsEnabled\":true}"@);
            }
        },
    }
}

/// Reads one or more comma-separated service objects starting at `i`,
/// mirroring `dec_service_items` with any fuel that covers the rest of the
/// line.
fn parse_service_items_at(v: &Vec<char>, i: usize, Ghost(fuel): Ghost<nat>) -> (r: Option<
    (Vec<Service>, usize),
>)
    requires
        i <= v@.len(),
        fuel >= v@.len() - i,
    ensures
        match r {
            Some(p) => i < p.1 <= v@.len() && dec_service_items(v@.skip(i as int), fuel) == Some(
                (views_of(p.0@), v@.skip(p.1 as int)),
            ),
            None => dec_service_items(v@.skip(i as int), fuel) is None,
        },
    decreases v@.len() - i,
{
    proof {
        reveal_strlit(",");
        reveal_strlit("{\"domain\":");
    }
    let (svc, j1) = match parse_service_at(v, i) {
        None => {
            return None;
        },
        Some(p) => p,
    };
    match expect_lit(v, j1, ",") {
        None => {
            let ghost sv = svc@;
            let mut list: Vec<Service> = Vec::new();
            list.push(svc);
            proof {
                assert(views_of(list@) =~= seq![sv]);
            }
            Some((list, j1))
        },
        Some(j2) => {
            match parse_service_items_at(v, j2, Ghost((fuel - 1) as nat)) {
                None => None,
                Some((tail, j3)) => {
                    let ghost sv = svc@;
                    let ghost tailv = views_of(tail@);
                    let mut list = tail;
                    list.insert(0, svc);
                    proof {
                        assert(views_of(list@) =~= seq![sv] + tailv);
                    }
                    Some((list, j3))
                },
            }
        },
    }
}

/// Reads one response line (with no trailing newline). Understands exactly
/// the canonical response forms; anything else is refused.
pub fn parse_response(line: &str) -> (r: Option<Response>)
    ensures
        match r {
            Some(p) => dec_response(line@) == Some(p@),
            None => dec_response(line@) is None,
        },
{
    if str_eq(line, "{\"Ok\":null}") {
        return Some(Response::Okay(None));
    }
    if str_eq(line, "{\"HttpsEnabled\":true}") {
        return Some(Response::HttpsEnabled(true));
    }
    if str_eq(line, "{\"HttpsEnabled\":false}") {
        return Some(Response::HttpsEnabled(false));
    }
    let v = chars_of(line);
    let n = v.len();
    proof {
        assert(v@.skip(0) =~= line@);
    }
    match expect_lit(&v, 0, "{\"Ok\":") {
        Some(j) => {
            match parse_string_at(&v, j) {
                None => None,
                Some((m, j2)) => {
                    match expect_lit(&v, j2, "}") {
                        None => {
                            proof {
                                lemma_tail_not_lit(v@, j2 as int, "}"@);
                            }
                            None
                        },
                        Some(j3) => {
                            if j3 == n {
                                proof {
                                    reveal_strlit("}");
                                    assert(v@.skip(j2 as int) =~= "}"@);
                                }
                                Some(Response::Okay(Some(m)))
                            } else {
                                proof {
                                    reveal_strlit("}");
                                    assert(v@.skip(j2 as int).len() > 1);
                                }
                                None
                            }
                        },
                    }
                },
            }
        },
        None => {
            match expect_lit(&v, 0, "{\"Port\":") {
                Some(j) => {
                    match parse_u32_at(&v, j) {
                        None => None,
                        Some((p32, j2)) => {
                            if p32 > 65535 {
                                return None;
                            }
                            match expect_lit(&v, j2, "}") {
                                None => {
                                    proof {
                                        lemma_tail_not_lit(v@, j2 as int, "}"@);
                                    }
                                    None
                                },
                                Some(j3) => {
                                    if j3 == n {
                                        proof {
                                            reveal_strlit("}");
                                            assert(v@.skip(j2 as int) =~= "}"@);
                                        }
                                        Some(Response::Port(p32 as u16))
                                    } else {
                                        proof {
                                            reveal_strlit("}");
                                            assert(v@.skip(j2 as int).len() > 1);
                                        }
                                        None
                                    }
                                },
                            }
                        },
                    }
                },
                None => {
                    match expect_lit(&v, 0, "{\"Error\":") {
                        Some(j) => {
                            match parse_string_at(&v, j) {
                                None => None,
                                Some((m, j2)) => {
                                    match expect_lit(&v, j2, "}") {
                                        None => {
                                            proof {
                                                lemma_tail_not_lit(v@, j2 as int, "}"@);
                                            }
                                            None
                                        },
                                        Some(j3) => {
                                            if j3 == n {
                                                proof {
                                                    reveal_strlit("}");
                                                    assert(v@.skip(j2 as int) =~= "}"@);
                                                }
                                                Some(Response::Error(m))
                                            } else {
                                                proof {
                                                    reveal_strlit("}");
                                                    assert(v@.skip(j2 as int).len() > 1);
                                                }
                                                None
                                            }
                                        },
                                    }
                                },
                            }
                        },
                        None => {
                            match expect_lit(&v, 0, "{\"Services\":[") {
                                None => None,
                                Some(j) => {
                                    if let Some(j2) = expect_lit(&v, j, "]}") {
                                        if j2 == n {
                                            proof {
                                                reveal_strlit("]}");
                                                assert(v@.skip(j as int) =~= "]}"@);
                                                assert(views_of(Seq::<Service>::empty())
                                                    =~= Seq::<ServiceV>::empty());
                                            }
                                            return Some(Response::Services(Vec::new()));
                                        }
                                        proof {
                                            reveal_strlit("]}");
                                            assert(v@.skip(j as int).len() > 2);
                                        }
                                    } else {
                                        proof {
                                            lemma_tail_not_lit(v@, j as int, "]}"@);
                                        }
                                    }
                                    proof {
                                        assert(v@.skip(j as int).len() == n - j);
                                    }
                                    match parse_service_items_at(&v, j, Ghost((n - j) as nat)) {
                                        None => None,
                                        Some((list, j2)) => {
                                            match expect_lit(&v, j2, "]}") {
                                                None => {
                                                    proof {
                                                        lemma_tail_not_lit(v@, j2 as int, "]}"@);
                                                    }
                                                    None
                                                },
                                                Some(j3) => {
                                                    if j3 == n {
                                                        proof {
                                                            reveal_strlit("]}");
                                                            assert(v@.skip(j2 as int) =~= "]}"@);
                                                        }
                                                        Some(Response::Services(list))
                                                    } else {
                                                        proof {
                                                            reveal_strlit("]}");
                                                            assert(v@.skip(j2 as int).len() > 2);
                                                        }
                                                        None
                                                    }
                                                },
                                            }
                                        },
                                    }
                                },
                            }
                        },
                    }
                },
            }
        },
    }
}

// ---------------------------------------------------------------------------
// Framing: an encoded response never contains a newline, so writing one
// line per response keeps the wire in frame.
// ---------------------------------------------------------------------------

/// No newline anywhere in `s`.
pub open spec fn line_clean(s: Seq<char>) -> bool {
    forall|i: int| 0 <= i < s.len() ==> s[i] != '\n'
}

/// Cleanliness is kept by concatenation.
pub proof fn lemma_clean_add(a: Seq<char>, b: Seq<char>)
    requires
        line_clean(a),
        line_clean(b),
    ensures
        line_clean(a + b),
{
    assert forall|i: int| 0 <= i < (a + b).len() implies (a + b)[i] != '\n' by {
        if i < a.len() {
            assert((a + b)[i] == a[i]);
        } else {
            assert((a + b)[i] == b[i - a.len()]);
        }
    }
}

/// A quoted string is clean: the escaper never lets a newline through.
pub proof fn lemma_quoted_clean(v: Seq<char>)
    ensures
        line_clean(quoted(v)),
{
    lemma_esc_no_newline(v);
    assert(line_clean(seq!['"']));
    lemma_clean_add(seq!['"'], esc(v));
    lemma_clean_add(seq!['"'] + esc(v), seq!['"']);
}

/// Decimal digits are clean.
pub proof fn lemma_digits_clean(n: nat)
    ensures
        line_clean(dec_digits(n)),
{
    lemma_dec_digits_are_digits(n);
    assert forall|i: int| 0 <= i < dec_digits(n).len() implies dec_digits(n)[i] != '\n' by {
        assert(is_digit_char(dec_digits(n)[i]));
    }
}

/// A written service object is clean.
pub proof fn lemma_enc_service_clean(v: ServiceV)
    ensures
        line_clean(enc_service(v)),
{
    reveal_strlit("{\"domain\":");
    reveal_strlit(",\"port\":");
    reveal_strlit(",\"pid\":");
    reveal_strlit(",\"directory\":");
    reveal_strlit("}");
    assert(line_clean("{\"domain\":"@));
    assert(line_clean(",\"port\":"@));
    assert(line_clean(",\"pid\":"@));
    assert(line_clean(",\"directory\":"@));
    assert(line_clean("}"@));
    lemma_quoted_clean(v.domain);
    lemma_quoted_clean(v.directory);
    lemma_digits_clean(v.port as nat);
    lemma_digits_clean(v.pid as nat);
    lemma_clean_add("{\"domain\":"@, quoted(v.domain));
    lemma_clean_add("{\"domain\":"@ + quoted(v.domain), ",\"port\":"@);
    lemma_clean_add(
        "{\"domain\":"@ + quoted(v.domain) + ",\"port\":"@,
        dec_digits(v.port as nat),
    );
    lemma_clean_add(
        "{\"domain\":"@ + quoted(v.domain) + ",\"port\":"@ + dec_digits(v.port as nat),
        ",\"pid\":"@,
    );
    lemma_clean_add(
        "{\"domain\":"@ + quoted(v.domain) + ",\"port\":"@ + dec_digits(v.port as nat)
            + ",\"pid\":"@,
        dec_digits(v.pid as nat),
    );
    lemma_clean_add(
        "{\"domain\":"@ + quoted(v.domain) + ",\"port\":"@ + dec_digits(v.port as nat)
            + ",\"pid\":"@ + dec_digits(v.pid as nat),
        ",\"directory\":"@,
    );
    lemma_clean_add(
        "{\"domain\":"@ + quoted(v.domain) + ",\"port\":"@ + dec_digits(v.port as nat)
            + ",\"pid\":"@ + dec_digits(v.pid as nat) + ",\"directory\":"@,
        quoted(v.directory),
    );
    lemma_clean_add(
        "{\"domain\":"@ + quoted(v.domain) + ",\"port\":"@ + dec_digits(v.port as nat)
            + ",\"pid\":"@ + dec_digits(v.pid as nat) + ",\"directory\":"@ + quoted(v.directory),
        "}"@,
    );
}

/// A written services array body is clean.
pub proof fn lemma_enc_service_list_clean(ss: Seq<ServiceV>)
    ensures
        line_clean(enc_service_list(ss)),
    decreases ss.len(),
{
    reveal_strlit(",");
    if ss.len() == 0 {
    } else if ss.len() == 1 {
        lemma_enc_service_clean(ss[0]);
    } else {
        lemma_enc_service_clean(ss[0]);
        lemma_enc_service_list_clean(ss.skip(1));
        assert(line_clean(","@));
        lemma_clean_add(enc_service(ss[0]), ","@);
        lemma_clean_add(enc_service(ss[0]) + ","@, enc_service_list(ss.skip(1)));
    }
}

/// Every response goes out as exactly one line: its encoding never holds a
/// newline, whatever the registry holds and whatever the messages say.
pub proof fn lemma_response_single_line(v: RespV)
    ensures
        line_clean(enc_resp(v)),
{
    reveal_strlit("{\"Ok\":");
    reveal_strlit("{\"Ok\":null}");
    reveal_strlit("{\"Port\":");
    reveal_strlit("{\"Services\":[");
    reveal_strlit("]}");
    reveal_strlit("{\"Error\":");
    reveal_strlit("{\"HttpsEnabled\":true}");
    reveal_strlit("{\"HttpsEnabled\":false}");
    reveal_strlit("}");
    match v {
        RespV::Okay(m) => match m {
            Some(t) => {
                lemma_quoted_clean(t);
                lemma_clean_add("{\"Ok\":"@, quoted(t));
                lemma_clean_add("{\"Ok\":"@ + quoted(t), "}"@);
            },
            None => {
                assert(line_clean("{\"Ok\":null}"@));
            },
        },
        RespV::Port(p) => {
            lemma_digits_clean(p as nat);
            lemma_clean_add("{\"Port\":"@, dec_digits(p as nat));
            lemma_clean_add("{\"Port\":"@ + dec_digits(p as nat), "}"@);
        },
        RespV::Services(ss) => {
            lemma_enc_service_list_clean(ss);
            lemma_clean_add("{\"Services\":["@, enc_service_list(ss));
            lemma_clean_add("{\"Services\":["@ + enc_service_list(ss), "]}"@);
        },
        RespV::Error(m) => {
            lemma_quoted_clean(m);
            lemma_clean_add("{\"Error\":"@, quoted(m));
            lemma_clean_add("{\"Error\":"@ + quoted(m), "}"@);
        },
        RespV::HttpsEnabled(b) => {
            assert(line_clean("{\"HttpsEnabled\":true}"@));
            assert(line_clean("{\"HttpsEnabled\":false}"@));
        },
    }
}

// ---------------------------------------------------------------------------
// Executable writers and the request reader.
// ---------------------------------------------------------------------------

/// Writes a request as its canonical line (without the newline).
pub fn encode_request(q: &Request) -> (r: String)
    ensures
        r@ == enc_req(q@),
{
    match q {
        Request::Register { domain, port, pid, directory } => {
            let mut out = String::from_str("{\"Register\":");
            append_service_parts(&mut out, domain.as_str(), *port, *pid, directory.as_str());
            out.append("}");
            proof {
                assert(out@ =~= enc_req(q@));
            }
            out
        },
        Request::Unregister { domain } => {
            let mut out = String::from_str("{\"Unregister\":{\"domain\":");
            append_quoted(&mut out, domain.as_str());
            out.append("}}");
            proof {
                assert(out@ =~= enc_req(q@));
            }
            out
        },
        Request::Stop { domain } => {
            let mut out = String::from_str("{\"Stop\":{\"domain\":");
            append_quoted(&mut out, domain.as_str());
            out.append("}}");
            proof {
                assert(out@ =~= enc_req(q@));
            }
            out
        },
        Request::GetPort => String::from_str("\"GetPort\""),
        Request::List => String::from_str("\"List\""),
        Request::Shutdown => String::from_str("\"Shutdown\""),
        Request::HttpsStatus => String::from_str("\"HttpsStatus\""),
    }
}

/// Writes a response as its canonical line (without the newline).
pub fn encode_response(resp: &Response) -> (r: String)
    ensures
        r@ == enc_resp(resp@),
{
    match resp {
        Response::Okay(m) => match m {
            None => String::from_str("{\"Ok\":null}"),
            Some(t) => {
                let mut out = String::from_str("{\"Ok\":");
                append_quoted(&mut out, t.as_str());
                out.append("}");
                proof {
                    assert(out@ =~= enc_resp(resp@));
                }
                out
            },
        },
        Response::Port(p) => {
            let mut out = String::from_str("{\"Port\":");
            let d = u64_to_string(*p as u64);
            out.append(d.as_str());
            out.append("}");
            proof {
                assert(out@ =~= enc_resp(resp@));
            }
            out
        },
        Response::Error(t) => {
            let mut out = String::from_str("{\"Error\":");
            append_quoted(&mut out, t.as_str());
            out.append("}");
            proof {
                assert(out@ =~= enc_resp(resp@));
            }
            out
        },
        Response::HttpsEnabled(b) => {
            if *b {
                String::from_str("{\"HttpsEnabled\":true}")
            } else {
                String::from_str("{\"HttpsEnabled\":false}")
            }
        },
        Response::Services(v) => {
            let mut out = String::from_str("{\"Services\":[");
            proof {
                assert(views_of(v@).subrange(0, 0) =~= Seq::<ServiceV>::empty());
                assert(out@ =~= "{\"Services\":["@ + enc_service_list(
                    views_of(v@).subrange(0, 0),
                ));
            }
            let n = v.len();
            let mut i: usize = 0;
            while i < n
                invariant
                    i <= n,
                    n == v@.len(),
                    out@ == "{\"Services\":["@ + enc_service_list(
                        views_of(v@).subrange(0, i as int),
                    ),
                decreases n - i,
            {
                if i > 0 {
                    out.append(",");
                }
                append_service(&mut out, &v[i]);
                proof {
                    let svs = views_of(v@);
                    let prefix = svs.subrange(0, i as int);
                    assert(svs.subrange(0, i + 1 as int) =~= prefix.push(svs[i as int]));
                    lemma_enc_service_list_push(prefix, svs[i as int]);
                    assert(enc_service_list(seq![svs[i as int]]) == enc_service(svs[i as int]));
                    assert(out@ =~= "{\"Services\":["@ + enc_service_list(
                        svs.subrange(0, i + 1 as int),
                    ));
                }
                i += 1;
            }
            out.append("]}");
            proof {
                assert(views_of(v@).subrange(0, n as int) =~= views_of(v@));
                assert(out@ =~= enc_resp(resp@));
            }
            out
        },
    }
}

/// Reads one request line (with no trailing newline). Understands exactly
/// the canonical request forms; anything else is refused.
pub fn parse_request(line: &str) -> (r: Option<Request>)
    ensures
        match r {
            Some(q) => dec_request(line@) == Some(q@),
            None => dec_request(line@) is None,
        },
{
    if str_eq(line, "\"GetPort\"") {
        return Some(Request::GetPort);
    }
    if str_eq(line, "\"List\"") {
        return Some(Request::List);
    }
    if str_eq(line, "\"Shutdown\"") {
        return Some(Request::Shutdown);
    }
    if str_eq(line, "\"HttpsStatus\"") {
        return Some(Request::HttpsStatus);
    }
    let v = chars_of(line);
    let n = v.len();
    match expect_lit(&v, 0, "{\"Register\":") {
        Some(j) => {
            proof {
                assert(v@.skip(0) =~= line@);
            }
            match parse_service_at(&v, j) {
                None => None,
                Some((svc, j2)) => {
                    match expect_lit(&v, j2, "}") {
                        None => {
                            proof {
                                lemma_tail_not_lit(v@, j2 as int, "}"@);
                            }
                            None
                        },
                        Some(j3) => {
                            if j3 == n {
                                proof {
                                    reveal_strlit("}");
                                    assert(v@.skip(j2 as int) =~= "}"@);
                                }
                                Some(
                                    Request::Register {
                                        domain: svc.domain,
                                        port: svc.port,
                                        pid: svc.pid,
                                        directory: svc.directory,
                                    },
                                )
                            } else {
                                proof {
                                    reveal_strlit("}");
                                    assert(v@.skip(j2 as int).len() > 1);
                                }
                                None
                            }
                        },
                    }
                },
            }
        },
        None => {
            proof {
                assert(v@.skip(0) =~= line@);
            }
            match expect_lit(&v, 0, "{\"Unregister\":{\"domain\":") {
                Some(j) => {
                    match parse_string_at(&v, j) {
                        None => None,
                        Some((d, j2)) => {
                            match expect_lit(&v, j2, "}}") {
                                None => {
                                    proof {
                                        lemma_tail_not_lit(v@, j2 as int, "}}"@);
                                    }
                                    None
                                },
                                Some(j3) => {
                                    if j3 == n {
                                        proof {
                                            reveal_strlit("}}");
                                            assert(v@.skip(j2 as int) =~= "}}"@);
                                        }
                                        Some(Request::Unregister { domain: d })
                                    } else {
                                        proof {
                                            reveal_strlit("}}");
                                            assert(v@.skip(j2 as int).len() > 2);
                                        }
                                        None
                                    }
                                },
                            }
                        },
                    }
                },
                None => {
                    match expect_lit(&v, 0, "{\"Stop\":{\"domain\":") {
                        None => None,
                        Some(j) => {
                            match parse_string_at(&v, j) {
                                None => None,
                                Some((d, j2)) => {
                                    match expect_lit(&v, j2, "}}") {
                                        None => {
                                            proof {
                                                lemma_tail_not_lit(v@, j2 as int, "}}"@);
                                            }
                                            None
                                        },
                                        Some(j3) => {
                                            if j3 == n {
                                                proof {
                                                    reveal_strlit("}}");
                                                    assert(v@.skip(j2 as int) =~= "}}"@);
                                                }
                                                Some(Request::Stop { domain: d })
                                            } else {
                                                proof {
                                                    reveal_strlit("}}");
                                                    assert(v@.skip(j2 as int).len() > 2);
                                                }
                                                None
                                            }
                                        },
                                    }
                                },
                            }
                        },
                    }
                },
            }
        },
    }
}

} // verus!
