use unport::control::{handle_line, handle_request};
use unport::proxy::{not_found_body, route_port, strip_port};
use unport::registry::Registry;
use unport::tls::san_domains;
use unport::types::{Request, Response, Service};
use unport::wire::{encode_request, encode_response, parse_request, parse_response};

fn svc(domain: &str, port: u16, pid: u32, directory: &str) -> Service {
    Service { domain: domain.to_string(), port, pid, directory: directory.to_string() }
}

#[test]
fn test_request_lines_are_canonical() {
    let line = encode_request(&Request::Register {
        domain: "api.localhost".to_string(),
        port: 4000,
        pid: 12,
        directory: "/tmp".to_string(),
    });
    assert_eq!(
        line,
        "{\"Register\":{\"domain\":\"api.localhost\",\"port\":4000,\"pid\":12,\"directory\":\"/tmp\"}}"
    );
    assert_eq!(encode_request(&Request::GetPort), "\"GetPort\"");
    assert_eq!(encode_request(&Request::List), "\"List\"");
    assert_eq!(encode_request(&Request::Shutdown), "\"Shutdown\"");
    assert_eq!(encode_request(&Request::HttpsStatus), "\"HttpsStatus\"");
    assert_eq!(
        encode_request(&Request::Unregister { domain: "a.localhost".to_string() }),
        "{\"Unregister\":{\"domain\":\"a.localhost\"}}"
    );
    assert_eq!(
        encode_request(&Request::Stop { domain: "a.localhost".to_string() }),
        "{\"Stop\":{\"domain\":\"a.localhost\"}}"
    );
}

#[test]
fn test_request_round_trip() {
    let requests = vec![
        Request::Register {
            domain: "api.localhost".to_string(),
            port: 4000,
            pid: 12345,
            directory: "/test/api".to_string(),
        },
        Request::Unregister { domain: "api.localhost".to_string() },
        Request::GetPort,
        Request::List,
        Request::Stop { domain: "web.localhost".to_string() },
        Request::Shutdown,
        Request::HttpsStatus,
    ];
    for q in requests {
        let line = encode_request(&q);
        let back = parse_request(line.as_str()).expect("canonical line must parse");
        assert_eq!(encode_request(&back), line);
    }
}

#[test]
fn test_request_round_trip_with_escapes() {
    let q = Request::Register {
        domain: "api.localhost".to_string(),
        port: 4000,
        pid: 1,
        directory: "/tmp/\"quoted\\path\"\nline".to_string(),
    };
    let line = encode_request(&q);
    // The encoding stays on one line even with a newline inside the value.
    assert!(!line.contains('\n'));
    let back = parse_request(line.as_str()).unwrap();
    match back {
        Request::Register { directory, .. } => {
            assert_eq!(directory, "/tmp/\"quoted\\path\"\nline");
        }
        _ => panic!("wrong variant"),
    }
}

#[test]
fn test_malformed_requests_are_refused() {
    assert!(parse_request("").is_none());
    assert!(parse_request("GetPort").is_none());
    assert!(parse_request("\"NoSuchCommand\"").is_none());
    assert!(parse_request("{\"Register\":{}}").is_none());
    assert!(parse_request("{\"Register\":{\"domain\":\"a\",\"port\":4000,\"pid\":1,\"directory\":\"/x\"}} ").is_none());
    assert!(parse_request("{\"Unregister\":{\"domain\":\"a\"}").is_none());
}

#[test]
fn test_register_with_overlarge_port_is_refused() {
    // 70000 does not fit a 16-bit port.
    let line = "{\"Register\":{\"domain\":\"a\",\"port\":70000,\"pid\":1,\"directory\":\"/x\"}}";
    assert!(parse_request(line).is_none());
    // The largest representable port still parses.
    let line = "{\"Register\":{\"domain\":\"a\",\"port\":65535,\"pid\":1,\"directory\":\"/x\"}}";
    assert!(parse_request(line).is_some());
}

#[test]
fn test_responses_are_single_lines() {
    let mut reg = Registry::new();
    reg.register(svc("a.localhost", 4000, 1, "/a\nb")).unwrap();
    let responses = vec![
        Response::Okay(None),
        Response::Okay(Some("Registered a.localhost".to_string())),
        Response::Port(4000),
        Response::Services(reg.list()),
        Response::Error("Domain 'x\ny' not found".to_string()),
        Response::HttpsEnabled(true),
    ];
    for r in responses {
        let line = encode_response(&r);
        assert!(!line.contains('\n'), "one response must stay one line: {line}");
    }
}

#[test]
fn test_response_encodings_are_canonical() {
    assert_eq!(encode_response(&Response::Okay(None)), "{\"Ok\":null}");
    assert_eq!(
        encode_response(&Response::Okay(Some("Registered a".to_string()))),
        "{\"Ok\":\"Registered a\"}"
    );
    assert_eq!(encode_response(&Response::Port(4000)), "{\"Port\":4000}");
    assert_eq!(encode_response(&Response::Error("boom".to_string())), "{\"Error\":\"boom\"}");
    assert_eq!(encode_response(&Response::HttpsEnabled(false)), "{\"HttpsEnabled\":false}");
    assert_eq!(encode_response(&Response::Services(Vec::new())), "{\"Services\":[]}");
    let one = vec![svc("a.localhost", 4000, 1, "/a")];
    assert_eq!(
        encode_response(&Response::Services(one)),
        "{\"Services\":[{\"domain\":\"a.localhost\",\"port\":4000,\"pid\":1,\"directory\":\"/a\"}]}"
    );
}

#[test]
fn test_response_round_trip() {
    let responses = vec![
        Response::Okay(None),
        Response::Okay(Some("Registered a.localhost".to_string())),
        Response::Port(4321),
        Response::Services(Vec::new()),
        Response::Services(vec![
            svc("a.localhost", 4000, 1, "/a"),
            svc("b.localhost", 4001, 2, "/b \"x\""),
        ]),
        Response::Error("Domain 'a' not found".to_string()),
        Response::HttpsEnabled(true),
        Response::HttpsEnabled(false),
    ];
    for r in responses {
        let line = encode_response(&r);
        let back = parse_response(line.as_str()).expect("canonical line must parse");
        assert_eq!(encode_response(&back), line);
    }
}

#[test]
fn test_malformed_responses_are_refused() {
    assert!(parse_response("").is_none());
    assert!(parse_response("{\"Ok\":}").is_none());
    assert!(parse_response("{\"Port\":70000}").is_none());
    assert!(parse_response("{\"Services\":[]} ").is_none());
    assert!(parse_response("{\"HttpsEnabled\":maybe}").is_none());
}

#[test]
fn test_handle_register_then_conflict() {
    let mut reg = Registry::new();
    let register = Request::Register {
        domain: "api.localhost".to_string(),
        port: 4000,
        pid: 1,
        directory: "/tmp".to_string(),
    };
    let (resp, eff, _) = handle_request(&mut reg, register, false, |_p: u16| true);
    match resp {
        Response::Okay(Some(m)) => assert_eq!(m, "Registered api.localhost"),
        _ => panic!("expected an ack"),
    }
    assert!(eff.persist);
    assert!(!eff.regen_tls);
    assert!(eff.kill_pid.is_none());

    let again = Request::Register {
        domain: "api.localhost".to_string(),
        port: 4001,
        pid: 2,
        directory: "/tmp2".to_string(),
    };
    let (resp, eff, _) = handle_request(&mut reg, again, false, |_p: u16| true);
    match resp {
        Response::Error(m) => assert_eq!(m, "Domain 'api.localhost' already registered"),
        _ => panic!("expected a conflict"),
    }
    assert!(!eff.persist);
    assert_eq!(reg.list().len(), 1);
}

#[test]
fn test_handle_register_regenerates_tls_only_when_https() {
    let mut reg = Registry::new();
    let register = Request::Register {
        domain: "x.localhost".to_string(),
        port: 4000,
        pid: 1,
        directory: "/x".to_string(),
    };
    let (_, eff, _) = handle_request(&mut reg, register, true, |_p: u16| true);
    assert!(eff.regen_tls);
}

#[test]
fn test_handle_stop_signals_and_removes() {
    let mut reg = Registry::new();
    reg.register(svc("api.localhost", 4000, 777, "/tmp")).unwrap();

    let (resp, eff, _) = handle_request(
        &mut reg,
        Request::Stop { domain: "api.localhost".to_string() },
        false,
        |_p: u16| true,
    );
    match resp {
        Response::Okay(Some(m)) => assert_eq!(m, "Stopped api.localhost"),
        _ => panic!("expected an ack"),
    }
    assert_eq!(eff.kill_pid, Some(777));
    assert!(eff.persist);
    assert!(reg.list().is_empty());
}

#[test]
fn test_handle_unregister_not_found() {
    let mut reg = Registry::new();
    let (resp, eff, _) = handle_request(
        &mut reg,
        Request::Unregister { domain: "missing.localhost".to_string() },
        false,
        |_p: u16| true,
    );
    match resp {
        Response::Error(m) => assert_eq!(m, "Domain 'missing.localhost' not found"),
        _ => panic!("expected an error"),
    }
    assert!(!eff.persist);
}

#[test]
fn test_handle_get_port_and_status() {
    let mut reg = Registry::new();
    let (resp, _, _) = handle_request(&mut reg, Request::GetPort, false, |_p: u16| true);
    match resp {
        Response::Port(p) => assert_eq!(p, 4000),
        _ => panic!("expected a port"),
    }
    let (resp, _, _) = handle_request(&mut reg, Request::HttpsStatus, true, |_p: u16| true);
    match resp {
        Response::HttpsEnabled(b) => assert!(b),
        _ => panic!("expected the HTTPS flag"),
    }
    let (resp, eff, _) = handle_request(&mut reg, Request::Shutdown, false, |_p: u16| true);
    match resp {
        Response::Okay(None) => {}
        _ => panic!("expected a bare ack"),
    }
    assert!(eff.shutdown);
}

#[test]
fn test_get_port_skips_unbindable_candidates() {
    let mut reg = Registry::new();
    // The probe refuses the first two candidates: the scan must hand out
    // the third, and the cursor moves past it.
    let (resp, _, _) = handle_request(&mut reg, Request::GetPort, false, |p: u16| p >= 4002);
    match resp {
        Response::Port(p) => assert_eq!(p, 4002),
        _ => panic!("expected a port"),
    }
    let (resp, _, _) = handle_request(&mut reg, Request::GetPort, false, |p: u16| p >= 4002);
    match resp {
        Response::Port(p) => assert_eq!(p, 4003),
        _ => panic!("expected a port"),
    }
}

#[test]
fn test_get_port_full_cycle_falls_back() {
    let mut reg = Registry::new();
    // Nothing is bindable: after probing the whole range once, the scan
    // stays total and hands out the current candidate anyway; the caller
    // observes the failure at its child instead.
    let (resp, _, _) = handle_request(&mut reg, Request::GetPort, false, |_p: u16| false);
    match resp {
        Response::Port(p) => assert_eq!(p, 5000),
        _ => panic!("expected a port"),
    }
    // The cursor wrapped back to the start of the range.
    let (resp, _, _) = handle_request(&mut reg, Request::GetPort, false, |_p: u16| true);
    match resp {
        Response::Port(p) => assert_eq!(p, 4000),
        _ => panic!("expected a port"),
    }
}

#[test]
fn test_handle_line_answers_one_line_per_request() {
    let mut reg = Registry::new();
    let line = encode_request(&Request::Register {
        domain: "api.localhost".to_string(),
        port: 4000,
        pid: 7,
        directory: "/tmp".to_string(),
    });
    let (step, _) = handle_line(&mut reg, line.as_str(), false, |_p: u16| true);
    let (reply, effects) = step.expect("a well-formed request line gets a response");
    assert_eq!(reply, "{\"Ok\":\"Registered api.localhost\"}\n");
    assert_eq!(reply.matches('\n').count(), 1);
    assert!(effects.persist);

    // A malformed line gets no response and changes nothing.
    let (step, _) = handle_line(&mut reg, "not json", false, |_p: u16| true);
    assert!(step.is_none());
    assert_eq!(reg.list().len(), 1);
}

#[test]
fn test_san_list_follows_registry() {
    let mut reg = Registry::new();
    let names = san_domains(&reg);
    assert_eq!(names, vec!["localhost".to_string()]);

    reg.register(svc("x.localhost", 4000, 1, "/x")).unwrap();
    let names = san_domains(&reg);
    assert_eq!(names, vec!["localhost".to_string(), "x.localhost".to_string()]);
}

#[test]
fn test_strip_port_on_host_header() {
    assert_eq!(strip_port("api.localhost:80"), "api.localhost");
    assert_eq!(strip_port("api.localhost"), "api.localhost");
    assert_eq!(strip_port(":80"), "");
}

#[test]
fn test_route_by_host() {
    let mut reg = Registry::new();
    reg.register(svc("api.localhost", 4100, 1, "/a")).unwrap();
    assert_eq!(route_port(&reg, "api.localhost:80"), Some(4100));
    assert_eq!(route_port(&reg, "api.localhost"), Some(4100));
    assert_eq!(route_port(&reg, "missing.localhost"), None);
}

#[test]
fn test_not_found_body_names_registered_domains() {
    let mut reg = Registry::new();
    reg.register(svc("api.localhost", 4000, 1, "/a")).unwrap();
    reg.register(svc("web.localhost", 4001, 2, "/b")).unwrap();
    let body = not_found_body(&reg);
    assert!(body.contains("api.localhost"));
    assert!(body.contains("web.localhost"));
    assert_eq!(
        body,
        "No service registered for this host. Registered domains: api.localhost, web.localhost"
    );

    let empty = Registry::new();
    assert_eq!(
        not_found_body(&empty),
        "No service registered for this host. Registered domains: (none)"
    );
}
