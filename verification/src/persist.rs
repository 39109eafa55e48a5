use vstd::prelude::*;
use vstd::string::StringExecFns;

use crate::json::{
    append_quoted, dec_string, expect_lit, is_ws, lemma_dec_string, lemma_expect_prefix,
    lemma_skip_ws_prefix, parse_string_at, quoted, skip_ws, skip_ws_at, spec_expect,
};
use crate::text::{chars_of, str_eq};
use crate::types::{views_of, Service, ServiceV};
use crate::wire::{
    append_service, dec_service, enc_service, lemma_dec_service, parse_service_at,
};

verus! {

// ---------------------------------------------------------------------------
// The persisted registry document: one JSON object, one entry per line,
// keyed by domain; the empty registry is the empty object.
// ---------------------------------------------------------------------------

/// One entry of the document: indent, the domain as key, the service.
pub open spec fn enc_entry(v: ServiceV) -> Seq<char> {
    "  "@ + quoted(v.domain) + ": "@ + enc_service(v)
}

/// The entries, one per line, comma separated.
pub open spec fn enc_entries(ss: Seq<ServiceV>) -> Seq<char>
    decreases ss.len(),
{
    if ss.len() == 0 {
        Seq::empty()
    } else if ss.len() == 1 {
        enc_entry(ss[0])
    } else {
        enc_entry(ss[0]) + ",\n"@ + enc_entries(ss.skip(1))
    }
}

/// The whole document.
pub open spec fn enc_registry(ss: Seq<ServiceV>) -> Seq<char> {
    if ss.len() == 0 {
        "{}"@
    } else {
        "{\n"@ + enc_entries(ss) + "\n}"@
    }
}

/// Reads entries until the first one not followed by a comma. Whitespace
/// may stand around the document's own punctuation; each service object
/// stays in its canonical single-line form. The fuel only bounds the
/// recursion; one unit per entry is enough.
pub open spec fn dec_entries(s: Seq<char>, fuel: nat) -> Option<(Seq<ServiceV>, Seq<char>)>
    decreases fuel,
{
    if fuel == 0 {
        None
    } else {
        match dec_string(skip_ws(s)) {
            None => None,
            Some((key, s1)) => match spec_expect(skip_ws(s1), ":"@) {
                None => None,
                Some(s2) => match dec_service(skip_ws(s2)) {
                    None => None,
                    Some((v, s3)) => if key != v.domain {
                        None
                    } else {
                        match spec_expect(skip_ws(s3), ","@) {
                            Some(s4) => match dec_entries(s4, (fuel - 1) as nat) {
                                Some((tail, r)) => Some((seq![v] + tail, r)),
                                None => None,
                            },
                            None => Some((seq![v], s3)),
                        }
                    },
                },
            },
        }
    }
}

/// Reads a whole registry document: one JSON object keyed by domain, with
/// whitespace free between the document's tokens.
pub open spec fn dec_registry(s: Seq<char>) -> Option<Seq<ServiceV>> {
    match spec_expect(skip_ws(s), "{"@) {
        None => None,
        Some(s1) => match spec_expect(skip_ws(s1), "}"@) {
            Some(rest) => if skip_ws(rest).len() == 0 {
                Some(Seq::empty())
            } else {
                None
            },
            None => match dec_entries(s1, s1.len()) {
                None => None,
                Some((ss, r)) => match spec_expect(skip_ws(r), "}"@) {
                    None => None,
                    Some(rest) => if skip_ws(rest).len() == 0 {
                        Some(ss)
                    } else {
                        None
                    },
                },
            },
        },
    }
}

/// The written entries are at least as long as the entry count, so the
/// document's own length is always enough fuel.
proof fn lemma_enc_entries_len(ss: Seq<ServiceV>)
    ensures
        enc_entries(ss).len() >= ss.len(),
    decreases ss.len(),
{
    reveal_strlit("  ");
    reveal_strlit(",\n");
    if ss.len() > 1 {
        lemma_enc_entries_len(ss.skip(1));
    }
}

/// Reading written entries, each led in by its newline and indent, gives
/// them back, whatever non-comma text follows, at any sufficient fuel.
proof fn lemma_dec_entries(ss: Seq<ServiceV>, rest: Seq<char>, fuel: nat)
    requires
        ss.len() >= 1,
        fuel >= 1,
        fuel >= ss.len(),
        spec_expect(skip_ws(rest), ","@) is None,
    ensures
        dec_entries("\n"@ + enc_entries(ss) + rest, fuel) == Some((ss, rest)),
    decreases ss.len(),
{
    reveal_strlit("\n");
    reveal_strlit("  ");
    reveal_strlit(": ");
    reveal_strlit(":");
    reveal_strlit(" ");
    reveal_strlit(",\n");
    reveal_strlit(",");
    reveal_strlit("{\"domain\":");
    let s = "\n"@ + enc_entries(ss) + rest;
    let v = ss[0];
    let lead = "\n"@ + "  "@;
    assert(forall|i: int| 0 <= i < lead.len() ==> is_ws(#[trigger] lead[i]));
    if ss.len() == 1 {
        let r3 = enc_service(v) + rest;
        let r2p = " "@ + r3;
        let r2 = ":"@ + r2p;
        let r1 = quoted(v.domain) + r2;
        assert(s =~= lead + r1);
        assert(r1[0] == '"');
        lemma_skip_ws_prefix(lead, r1);
        lemma_dec_string(v.domain, r2);
        assert(r2[0] == ':');
        crate::json::lemma_skip_ws_noop(r2);
        lemma_expect_prefix(":"@, r2p);
        assert(r3[0] == '{');
        lemma_skip_ws_prefix(" "@, r3);
        lemma_dec_service(v, rest);
        assert(seq![v] =~= ss);
    } else {
        let r5 = "\n"@ + enc_entries(ss.skip(1)) + rest;
        let r4 = ","@ + r5;
        let r3 = enc_service(v) + r4;
        let r2p = " "@ + r3;
        let r2 = ":"@ + r2p;
        let r1 = quoted(v.domain) + r2;
        assert(s =~= lead + r1);
        assert(r1[0] == '"');
        lemma_skip_ws_prefix(lead, r1);
        lemma_dec_string(v.domain, r2);
        assert(r2[0] == ':');
        crate::json::lemma_skip_ws_noop(r2);
        lemma_expect_prefix(":"@, r2p);
        assert(r3[0] == '{');
        lemma_skip_ws_prefix(" "@, r3);
        lemma_dec_service(v, r4);
        assert(r4[0] == ',');
        crate::json::lemma_skip_ws_noop(r4);
        lemma_expect_prefix(","@, r5);
        lemma_dec_entries(ss.skip(1), rest, (fuel - 1) as nat);
        assert(seq![v] + ss.skip(1) =~= ss);
    }
}

/// Persistence round trip: the document written for any service sequence
/// reads back as exactly that sequence.
pub proof fn lemma_dec_registry(ss: Seq<ServiceV>)
    ensures
        dec_registry(enc_registry(ss)) == Some(ss),
{
    reveal_strlit("{}");
    reveal_strlit("{\n");
    reveal_strlit("\n}");
    reveal_strlit("\n");
    reveal_strlit("{");
    reveal_strlit("}");
    reveal_strlit("  ");
    let s = enc_registry(ss);
    if ss.len() == 0 {
        assert(s == "{}"@);
        assert(s[0] == '{');
        crate::json::lemma_skip_ws_noop(s);
        assert(s =~= "{"@ + "}"@);
        lemma_expect_prefix("{"@, "}"@);
        assert("}"@[0] == '}');
        crate::json::lemma_skip_ws_noop("}"@);
        lemma_expect_prefix("}"@, Seq::<char>::empty());
        crate::json::lemma_skip_ws_noop(Seq::<char>::empty());
        assert(ss =~= Seq::<ServiceV>::empty());
    } else {
        let body = "\n"@ + enc_entries(ss) + "\n}"@;
        assert(s =~= "{"@ + body);
        assert(s[0] == '{');
        crate::json::lemma_skip_ws_noop(s);
        lemma_expect_prefix("{"@, body);
        // The first entry begins after the newline and the indent, with
        // the quote of its key, so the empty-object branch is refused.
        let v = ss[0];
        let lead = "\n"@ + "  "@;
        let t1 = quoted(v.domain) + (": "@ + tail_of_first(ss, "\n}"@));
        assert(body =~= lead + t1) by {
            lemma_body_shape(ss, "\n}"@);
        }
        assert(forall|i: int| 0 <= i < lead.len() ==> is_ws(#[trigger] lead[i]));
        assert(t1[0] == '"');
        lemma_skip_ws_prefix(lead, t1);
        assert(spec_expect(skip_ws(body), "}"@) is None) by {
            if spec_expect(skip_ws(body), "}"@) is Some {
                assert(t1.subrange(0, 1)[0] == t1[0]);
            }
        }
        assert(spec_expect(skip_ws("\n}"@), ","@) is None) by {
            reveal_strlit(",");
            assert("\n}"@ =~= "\n"@ + "}"@);
            lemma_skip_ws_prefix("\n"@, "}"@);
            if spec_expect(skip_ws("\n}"@), ","@) is Some {
                assert("}"@.subrange(0, 1)[0] == "}"@[0]);
            }
        }
        lemma_enc_entries_len(ss);
        assert(body.len() >= ss.len() && body.len() >= 1);
        lemma_dec_entries(ss, "\n}"@, body.len() as nat);
        lemma_skip_ws_prefix("\n"@, "}"@);
        lemma_expect_prefix("}"@, Seq::<char>::empty());
        crate::json::lemma_skip_ws_noop(Seq::<char>::empty());
        assert("\n}"@ =~= "\n"@ + "}"@);
    }
}

/// The text after the first entry's `": "`: its service object, then the
/// separator and the remaining entries, then `rest`.
spec fn tail_of_first(ss: Seq<ServiceV>, rest: Seq<char>) -> Seq<char> {
    if ss.len() == 1 {
        enc_service(ss[0]) + rest
    } else {
        enc_service(ss[0]) + (",\n"@ + (enc_entries(ss.skip(1)) + rest))
    }
}

/// The written entries with text behind them re-associate around the first
/// entry's own parts.
proof fn lemma_body_shape(ss: Seq<ServiceV>, rest: Seq<char>)
    requires
        ss.len() >= 1,
    ensures
        "\n"@ + enc_entries(ss) + rest =~= ("\n"@ + "  "@) + (quoted(ss[0].domain) + (": "@
            + tail_of_first(ss, rest))),
{
}

// ---------------------------------------------------------------------------
// Executable writer and reader.
// ---------------------------------------------------------------------------

/// Appends one document entry for `s` to `out`.
fn append_entry(out: &mut String, s: &Service)
    ensures
        final(out)@ == old(out)@ + enc_entry(s@),
{
    let ghost base = old(out)@;
    out.append("  ");
    append_quoted(out, s.domain.as_str());
    out.append(": ");
    append_service(out, s);
    proof {
        assert(out@ =~= base + enc_entry(s@));
    }
}

/// Extending the entries appends one more, with a separator unless it is
/// the first.
proof fn lemma_enc_entries_push(ss: Seq<ServiceV>, x: ServiceV)
    ensures
        enc_entries(ss.push(x)) == if ss.len() == 0 {
            enc_entry(x)
        } else {
            enc_entries(ss) + ",\n"@ + enc_entry(x)
        },
    decreases ss.len(),
{
    let w = ss.push(x);
    if ss.len() == 0 {
        assert(w.len() == 1);
        assert(w[0] == x);
    } else if ss.len() == 1 {
        assert(w.len() == 2);
        assert(w[0] == ss[0]);
        assert(w.skip(1) =~= seq![x]);
        assert(enc_entries(seq![x]) == enc_entry(x));
        assert(enc_entries(ss) == enc_entry(ss[0]));
    } else {
        assert(w[0] == ss[0]);
        assert(w.skip(1) =~= ss.skip(1).push(x));
        lemma_enc_entries_push(ss.skip(1), x);
        assert(enc_entries(w) =~= enc_entry(ss[0]) + ",\n"@ + enc_entries(ss.skip(1)) + ",\n"@
            + enc_entry(x));
        assert(enc_entries(ss) + ",\n"@ + enc_entry(x) =~= enc_entry(ss[0]) + ",\n"@
            + enc_entries(ss.skip(1)) + ",\n"@ + enc_entry(x));
    }
}

/// Writes the persisted document for the given services.
pub fn registry_json_of(services: &Vec<Service>) -> (r: String)
    ensures
        r@ == enc_registry(views_of(services@)),
{
    let n = services.len();
    if n == 0 {
        proof {
            assert(views_of(services@).len() == 0);
        }
        return String::from_str("{}");
    }
    let mut out = String::from_str("{\n");
    proof {
        assert(views_of(services@).subrange(0, 0) =~= Seq::<ServiceV>::empty());
        assert(out@ =~= "{\n"@ + enc_entries(views_of(services@).subrange(0, 0)));
    }
    let mut i: usize = 0;
    while i < n
        invariant
            i <= n,
            n == services@.len(),
            n >= 1,
            out@ == "{\n"@ + enc_entries(views_of(services@).subrange(0, i as int)),
        decreases n - i,
    {
        if i > 0 {
            out.append(",\n");
        }
        append_entry(&mut out, &services[i]);
        proof {
            let svs = views_of(services@);
            let prefix = svs.subrange(0, i as int);
            assert(svs.subrange(0, i + 1 as int) =~= prefix.push(svs[i as int]));
            lemma_enc_entries_push(prefix, svs[i as int]);
            assert(out@ =~= "{\n"@ + enc_entries(svs.subrange(0, i + 1 as int)));
        }
        i += 1;
    }
    out.append("\n}");
    proof {
        assert(views_of(services@).subrange(0, n as int) =~= views_of(services@));
        assert(out@ =~= enc_registry(views_of(services@)));
    }
    out
}

/// Reads entries starting at `i`, mirroring `dec_entries` with any fuel
/// that covers the rest of the document.
fn parse_entries_at(v: &Vec<char>, i: usize, Ghost(fuel): Ghost<nat>) -> (r: Option<
    (Vec<Service>, usize),
>)
    requires
        i <= v@.len(),
        fuel >= v@.len() - i,
    ensures
        match r {
            Some(p) => i < p.1 <= v@.len() && dec_entries(v@.skip(i as int), fuel) == Some(
                (views_of(p.0@), v@.skip(p.1 as int)),
            ),
            None => dec_entries(v@.skip(i as int), fuel) is None,
        },
    decreases v@.len() - i,
{
    proof {
        reveal_strlit(":");
        reveal_strlit(",");
    }
    let i1 = skip_ws_at(v, i);
    let (key, j1) = match parse_string_at(v, i1) {
        None => {
            return None;
        },
        Some(p) => p,
    };
    let j2 = skip_ws_at(v, j1);
    let j3 = match expect_lit(v, j2, ":") {
        None => {
            return None;
        },
        Some(j) => j,
    };
    let j4 = skip_ws_at(v, j3);
    let (svc, j5) = match parse_service_at(v, j4) {
        None => {
            return None;
        },
        Some(p) => p,
    };
    if !str_eq(key.as_str(), svc.domain.as_str()) {
        return None;
    }
    let j6 = skip_ws_at(v, j5);
    match expect_lit(v, j6, ",") {
        None => {
            let ghost sv = svc@;
            let mut list: Vec<Service> = Vec::new();
            list.push(svc);
            proof {
                assert(views_of(list@) =~= seq![sv]);
            }
            Some((list, j5))
        },
        Some(j7) => {
            match parse_entries_at(v, j7, Ghost((fuel - 1) as nat)) {
                None => None,
                Some((tail, j8)) => {
                    let ghost sv = svc@;
                    let ghost tailv = views_of(tail@);
                    let mut list = tail;
                    list.insert(0, svc);
                    proof {
                        assert(views_of(list@) =~= seq![sv] + tailv);
                    }
                    Some((list, j8))
                },
            }
        },
    }
}

/// Reads a persisted document into its services. The document's own
/// punctuation may carry whitespace around it; anything else malformed is
/// refused.
pub fn parse_registry_json(s: &str) -> (r: Option<Vec<Service>>)
    ensures
        match r {
            Some(list) => dec_registry(s@) == Some(views_of(list@)),
            None => dec_registry(s@) is None,
        },
{
    let v = chars_of(s);
    let n = v.len();
    proof {
        assert(v@.skip(0) =~= s@);
    }
    let i0 = skip_ws_at(&v, 0);
    let j = match expect_lit(&v, i0, "{") {
        None => {
            return None;
        },
        Some(j) => j,
    };
    let j1 = skip_ws_at(&v, j);
    match expect_lit(&v, j1, "}") {
        Some(j2) => {
            let j3 = skip_ws_at(&v, j2);
            if j3 == n {
                let list: Vec<Service> = Vec::new();
                proof {
                    assert(v@.skip(n as int).len() == 0);
                    assert(views_of(list@) =~= Seq::<ServiceV>::empty());
                }
                Some(list)
            } else {
                proof {
                    assert(v@.skip(j3 as int).len() > 0);
                }
                None
            }
        },
        None => {
            proof {
                assert(v@.skip(j as int).len() == n - j);
            }
            match parse_entries_at(&v, j, Ghost((v@.len() - j as int) as nat)) {
                None => None,
                Some((list, j2)) => {
                    let j3 = skip_ws_at(&v, j2);
                    match expect_lit(&v, j3, "}") {
                        None => None,
                        Some(j4) => {
                            let j5 = skip_ws_at(&v, j4);
                            if j5 == n {
                                proof {
                                    assert(v@.skip(n as int).len() == 0);
                                }
                                Some(list)
                            } else {
                                proof {
                                    assert(v@.skip(j5 as int).len() > 0);
                                }
                                None
                            }
                        },
                    }
                },
            }
        },
    }
}

} // verus!
