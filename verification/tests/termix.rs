use omni::config::TermixCfg;
use omni::json::{set_member, write_object, write_quoted, Leaf};
use omni::termix::{
    delete_result, host_id_created, host_payload, pick_host_id, ping_result, truncate, HostPayload,
    Method, Reply, Termix, Upsert, UpsertStep,
};

fn client() -> Termix {
    Termix::new(&TermixCfg {
        url: "http://127.0.0.1:8090//".to_string(),
        api_key: "tmx_key".to_string(),
        stale_after_secs: 900,
    })
}

fn host() -> HostPayload {
    HostPayload { name: "web \"1\"".to_string(), ip: "127.0.0.1".to_string(), port: 2201 }
}

fn reply(code: u16, status: &str, body: &str) -> Reply {
    Reply { code, status: status.to_string(), body: body.to_string() }
}

fn sent(step: UpsertStep) -> (Upsert, Method, String, Option<String>) {
    match step {
        UpsertStep::Send(at, r) => (at, r.method, r.url, r.body),
        UpsertStep::Done(r) => panic!("done: {:?}", r),
    }
}

fn done(step: UpsertStep) -> Result<String, String> {
    match step {
        UpsertStep::Done(r) => r,
        UpsertStep::Send(at, r) => panic!("still to send: {:?} {:?}", at, r),
    }
}

const CREATED: &str = r#"{"ip":"127.0.0.1","name":"web \"1\"","port":2201}"#;

#[test]
fn requests_carry_the_key() {
    let t = client();
    assert_eq!(t.base, "http://127.0.0.1:8090");
    let r = t.ping();
    assert_eq!(r.method, Method::Get);
    assert_eq!(r.url, "http://127.0.0.1:8090/ssh/db/host");
    assert_eq!(r.authorization, "Bearer tmx_key");
    assert_eq!(r.body, None);
    let r = t.delete_host("42");
    assert_eq!(r.method, Method::Delete);
    assert_eq!(r.url, "http://127.0.0.1:8090/ssh/db/host/42");
    assert_eq!(r.body, None);
}

#[test]
fn unknown_hosts_are_created() {
    let t = client();
    let (at, r) = t.upsert_host(None, &host());
    assert_eq!(at, Upsert::Create);
    assert_eq!(r.method, Method::Post);
    assert_eq!(r.url, "http://127.0.0.1:8090/host/enroll");
    assert_eq!(r.body.as_deref(), Some(CREATED));
    let made = t.upsert_host_next(Upsert::Create, "", &host(), &reply(201, "201 Created", r#"{"id":7}"#));
    assert_eq!(done(made), Ok("7".to_string()));
}

#[test]
fn known_hosts_are_read_and_written_back() {
    let t = client();
    let (at, r) = t.upsert_host(Some("42"), &host());
    assert_eq!((at, r.method), (Upsert::Read, Method::Get));
    assert_eq!(r.url, "http://127.0.0.1:8090/ssh/db/host/42");
    let body = r#"{"pin": true, "name": "old", "tags": [1, 2.50], "port": 9}"#;
    let (at, method, url, body) =
        sent(t.upsert_host_next(Upsert::Read, "42", &host(), &reply(200, "200 OK", body)));
    assert_eq!((at, method), (Upsert::Write, Method::Put));
    assert_eq!(url, "http://127.0.0.1:8090/ssh/db/host/42");
    assert_eq!(
        body.as_deref(),
        Some(r#"{"name":"web \"1\"","pin":true,"port":2201,"tags":[1, 2.50],"ip":"127.0.0.1"}"#)
    );
    let end = t.upsert_host_next(Upsert::Write, "42", &host(), &reply(204, "204 No Content", ""));
    assert_eq!(done(end), Ok("42".to_string()));
}

#[test]
fn hosts_deleted_in_the_ui_are_created_anew() {
    let t = client();
    for at in [Upsert::Read, Upsert::Write] {
        let step = t.upsert_host_next(at, "42", &host(), &reply(404, "404 Not Found", "gone"));
        let (next, method, url, body) = sent(step);
        assert_eq!((next, method), (Upsert::Create, Method::Post));
        assert_eq!(url, "http://127.0.0.1:8090/host/enroll");
        assert_eq!(body.as_deref(), Some(CREATED));
    }
}

#[test]
fn refused_upserts_fail() {
    let t = client();
    let no = reply(500, "500 Internal Server Error", " boom ");
    let updating = Err("Termix host update failed: 500 Internal Server Error".to_string());
    assert_eq!(done(t.upsert_host_next(Upsert::Read, "42", &host(), &no)), updating);
    assert_eq!(done(t.upsert_host_next(Upsert::Write, "42", &host(), &no)), updating);
    assert_eq!(
        done(t.upsert_host_next(Upsert::Create, "42", &host(), &no)),
        Err("Termix host create failed: 500 Internal Server Error boom".to_string())
    );
    let list = reply(200, "200 OK", "[1]");
    assert_eq!(
        done(t.upsert_host_next(Upsert::Read, "42", &host(), &list)),
        Err("Termix host is not a JSON object: [1]".to_string())
    );
    let gone = reply(404, "404 Not Found", "");
    assert_eq!(
        done(t.upsert_host_next(Upsert::Create, "42", &host(), &gone)),
        Err("Termix host create failed: 404 Not Found ".to_string())
    );
}

#[test]
fn host_ids_are_found_in_three_places() {
    assert_eq!(host_id_created(r#"{"id":"a","hostId":"b"}"#), Ok("a".to_string()));
    assert_eq!(host_id_created(r#"{"hostId":12,"data":{"id":"c"}}"#), Ok("12".to_string()));
    assert_eq!(host_id_created(r#"{"data":{"id":"c"}}"#), Ok("c".to_string()));
    assert_eq!(host_id_created(r#"{"id":"a\n"}"#), Ok("a\n".to_string()));
    assert_eq!(
        host_id_created(r#"{"id":null,"hostId":"b"}"#),
        Err(r#"Termix create response has no host id: {"id":null,"hostId":"b"}"#.to_string())
    );
    assert_eq!(
        host_id_created(" [] "),
        Err("Termix create response has no host id: []".to_string())
    );
    let e = host_id_created("oops").unwrap_err();
    assert!(e.starts_with("Termix create response is not JSON: oops: "), "{}", e);
}

#[test]
fn the_first_id_found_counts() {
    let text = |s: &str| Ok(Some(Leaf::Text(s.to_string())));
    assert_eq!(pick_host_id(text("a"), text("b"), text("c"), ""), Ok("a".to_string()));
    assert_eq!(pick_host_id(Ok(None), text("b"), text("c"), ""), Ok("b".to_string()));
    assert_eq!(pick_host_id(Ok(None), Ok(None), text("c"), ""), Ok("c".to_string()));
    let number = Ok(Some(Leaf::Number("3".to_string())));
    assert_eq!(pick_host_id(number, text("b"), text("c"), ""), Ok("3".to_string()));
    for leaf in [Leaf::Null, Leaf::Flag(true), Leaf::List, Leaf::Object] {
        assert_eq!(
            pick_host_id(Ok(Some(leaf)), text("b"), text("c"), "x"),
            Err("Termix create response has no host id: x".to_string())
        );
    }
    assert_eq!(
        pick_host_id(Err("why".to_string()), text("b"), text("c"), "x"),
        Err("Termix create response is not JSON: x: why".to_string())
    );
    assert_eq!(
        pick_host_id(Ok(None), Ok(None), Ok(None), "x"),
        Err("Termix create response has no host id: x".to_string())
    );
}

#[test]
fn pings_and_deletes_are_judged_by_status() {
    assert_eq!(ping_result(&reply(200, "200 OK", "")), Ok(()));
    assert_eq!(
        ping_result(&reply(401, "401 Unauthorized", "")),
        Err("Termix answered 401 Unauthorized — check termix.url and api_key".to_string())
    );
    assert_eq!(delete_result(&reply(204, "204 No Content", "")), Ok(()));
    assert_eq!(delete_result(&reply(404, "404 Not Found", "")), Ok(()));
    assert_eq!(
        delete_result(&reply(403, "403 Forbidden", "")),
        Err("Termix host delete failed: 403 Forbidden".to_string())
    );
    assert!(reply(299, "", "").is_success());
    assert!(!reply(300, "", "").is_success());
    assert!(!reply(199, "", "").is_success());
}

#[test]
fn answers_are_cut_for_messages() {
    assert_eq!(truncate("  short \n"), "short");
    assert_eq!(truncate(&"é".repeat(200)), "é".repeat(200));
    assert_eq!(truncate(&"é".repeat(201)), format!("{}…", "é".repeat(200)));
}

#[test]
fn objects_are_written() {
    let pair = |k: &str, v: &str| (k.to_string(), v.to_string());
    assert_eq!(write_object(&Vec::new()), "{}");
    assert_eq!(write_object(&vec![pair("a\n", "1")]), "{\"a\\n\":1}");
    assert_eq!(write_object(&vec![pair("a", "1"), pair("b", "[]")]), r#"{"a":1,"b":[]}"#);
    assert_eq!(write_quoted(&vec![pair("\"a\"", "1"), pair("\"b\"", "2")]), r#"{"a":1,"b":2}"#);
}

#[test]
fn keys_are_escaped() {
    let key = |c: char| write_object(&vec![(c.to_string(), "0".to_string())]);
    for n in 0u32..=0xffff {
        let Some(c) = char::from_u32(n) else { continue };
        let literal = match c {
            '"' => "\\\"".to_string(),
            '\\' => "\\\\".to_string(),
            '\u{8}' => "\\b".to_string(),
            '\t' => "\\t".to_string(),
            '\n' => "\\n".to_string(),
            '\u{c}' => "\\f".to_string(),
            '\r' => "\\r".to_string(),
            c if n < 0x20 => format!("\\u00{:02x}", c as u32),
            c => c.to_string(),
        };
        assert_eq!(key(c), format!("{{\"{}\":0}}", literal), "U+{:04X}", n);
    }
}

#[test]
fn members_are_set_in_place_or_added() {
    let pair = |k: &str, v: &str| (k.to_string(), v.to_string());
    let mut members = vec![pair("name", "\"old\""), pair("pin", "true")];
    set_member(&mut members, "name", "\"new\"".to_string());
    set_member(&mut members, "port", "1".to_string());
    assert_eq!(members, [pair("name", "\"new\""), pair("pin", "true"), pair("port", "1")]);
}

#[test]
fn owned_members_are_set_and_others_survive() {
    let pair = |k: &str, v: &str| (k.to_string(), v.to_string());
    let mut members = vec![pair("pin", "true"), pair("ip", "\"10.0.0.1\"")];
    host_payload(&mut members, &host());
    assert_eq!(
        members,
        [
            pair("pin", "true"),
            pair("ip", "\"127.0.0.1\""),
            pair("name", "\"web \\\"1\\\"\""),
            pair("port", "2201"),
        ]
    );
}
