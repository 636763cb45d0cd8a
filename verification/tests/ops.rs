use omni::clock::{Moment, LAST_STAMP};
use omni::config::{Config, HerdrCfg, RatholeCfg, TermixCfg};
use omni::db::{
    add_token, insert_machine, insert_token_at, live_machines, machine_by_id, machine_by_name,
    mark_deleted, set_termix_host, touch_last_seen_at, update_machine, DbError, Machine, Registry,
};
use omni::ops::{
    control_down, doctor, enroll, enroll_with, exposure_message, heading, human_age, human_age_at, human_age_of, ls, ls_at,
    ls_row, outcome_line, place, rename, rename_message, rename_to, rm, rm_message, set_exposure, set_stale,
    short_id, show, show_with, stale_at, stale_by_age, stale_message, stale_sweep, stale_sweep_at,
    sweep, sweep_at, sync, sync_termix_host, termix_display_name, termix_host, token_new, token_one_liner, Fresh,
    Probes, RenameError, TOKEN_TTL_SECS,
};
use omni::util::sha256_hex;

fn config() -> Config {
    Config {
        db_path: "/var/lib/omni/omni.db".to_string(),
        listen: "127.0.0.1:8070".to_string(),
        public_url: "https://omni.tld/".to_string(),
        port_start: 2201,
        rathole: RatholeCfg {
            config_path: "/etc/rathole/server.toml".to_string(),
            bind_addr: "0.0.0.0:2333".to_string(),
            remote_addr: "omni.tld:2333".to_string(),
            version: "0.5.0".to_string(),
        },
        termix: None,
        herdr: HerdrCfg::default(),
    }
}

fn machine(id: &str, name: &str, port: u16) -> Machine {
    Machine {
        id: id.to_string(),
        name: name.to_string(),
        port,
        service_token: "tok".to_string(),
        secret_hash: "h".to_string(),
        bind_addr: "127.0.0.1".to_string(),
        termix_host_id: None,
        os: None,
        enrolled_at: "1970-01-01T00:00:00Z".to_string(),
        last_seen: None,
        deleted: false,
        marked_stale: false,
    }
}

fn fleet() -> Registry {
    let mut reg = Registry::new();
    insert_machine(&mut reg, &machine("aaaaaaaa-1", "web", 2201)).unwrap();
    insert_machine(&mut reg, &machine("bbbbbbbb-2", "db", 2202)).unwrap();
    reg
}

fn fresh(secret: &str, id: &str) -> Fresh {
    Fresh {
        secret: secret.to_string(),
        service_token: format!("svc-{}", secret),
        id: id.to_string(),
        fallback: "beef".to_string(),
        now: "1970-01-01T00:10:00Z".to_string(),
    }
}

fn with_token(reg: &mut Registry, id: &str, token: &str, hint: Option<&str>) {
    add_token(
        reg,
        id,
        &sha256_hex(token),
        hint,
        "1970-01-01T00:00:00Z".to_string(),
        "1970-01-01T00:15:00Z".to_string(),
    )
    .unwrap();
}

#[test]
fn enrolling_enters_a_machine() {
    let mut reg = Registry::new();
    with_token(&mut reg, "t1", "abc", Some("hinted"));
    let e = enroll_with(&mut reg, &config(), "abc", Some(" my box "), Some("linux"), fresh("s1", "id-1"))
        .unwrap();
    assert_eq!(e.secret, "s1");
    assert_eq!(
        e.client_toml,
        "# Managed by omni — refresh with `omni update`.\n[client]\nremote_addr = \"omni.tld:2333\"\n\n\
         [client.services.\"id-1\"]\ntoken = \"svc-s1\"\nlocal_addr = \"127.0.0.1:22\"\n"
    );
    let m = machine_by_name(&reg, "my-box").unwrap();
    assert_eq!((m.id.as_str(), m.port), ("id-1", 2201));
    assert_eq!(m.secret_hash, sha256_hex("s1"));
    assert_eq!(m.service_token, "svc-s1");
    assert_eq!(m.bind_addr, "127.0.0.1");
    assert_eq!(m.os.as_deref(), Some("linux"));
    assert_eq!(m.enrolled_at, "1970-01-01T00:10:00Z");
    assert_eq!(m.last_seen.as_deref(), Some("1970-01-01T00:10:00Z"));
    assert!(m.termix_host_id.is_none() && !m.deleted && !m.marked_stale);
    assert_eq!(e.machine.id, m.id);
}

#[test]
fn names_come_from_the_caller_or_the_token() {
    let enrolled = |hint: Option<&str>, name: Option<&str>| {
        let mut reg = Registry::new();
        with_token(&mut reg, "t1", "abc", hint);
        let e = enroll_with(&mut reg, &config(), "abc", name, None, fresh("s", "i")).unwrap();
        e.machine.name
    };
    assert_eq!(enrolled(Some("hinted"), Some("asked")), "asked");
    assert_eq!(enrolled(Some("hinted"), Some(" \t")), "hinted");
    assert_eq!(enrolled(Some("hinted"), None), "hinted");
    assert_eq!(enrolled(None, None), "machine");
    assert_eq!(enrolled(None, Some("!!!")), "machine-beef");
}

#[test]
fn enrolling_again_updates() {
    let mut reg = Registry::new();
    with_token(&mut reg, "t1", "abc", None);
    with_token(&mut reg, "t2", "def", None);
    enroll_with(&mut reg, &config(), "abc", Some("box"), Some("linux"), fresh("s1", "id-1")).unwrap();
    set_exposure(&mut reg, "box", true).unwrap();
    let e = enroll_with(&mut reg, &config(), "def", Some("box"), None, fresh("s2", "id-2")).unwrap();
    assert_eq!(reg.machines().len(), 1);
    assert_eq!((e.machine.id.as_str(), e.machine.port), ("id-1", 2201));
    assert_eq!(e.machine.os.as_deref(), Some("linux"));
    assert_eq!(e.machine.bind_addr, "0.0.0.0");
    assert_eq!(e.machine.service_token, "svc-s2");
    assert_eq!(e.machine.secret_hash, sha256_hex("s2"));
}

#[test]
fn enrolling_fails_for_want_of_a_token_or_a_port() {
    let mut reg = Registry::new();
    let no = enroll_with(&mut reg, &config(), "abc", None, None, fresh("s", "i"));
    assert_eq!(no.unwrap_err(), DbError::BadToken);
    insert_machine(&mut reg, &machine("aaaaaaaa-1", "web", 65535)).unwrap();
    with_token(&mut reg, "t1", "abc", None);
    let no = enroll_with(&mut reg, &config(), "abc", None, None, fresh("s", "i"));
    assert_eq!(no.unwrap_err(), DbError::PortsExhausted);
    assert!(reg.tokens()[0].used_at.is_some());
    assert_eq!(reg.machines().len(), 1);
}

#[test]
fn placing_enters_under_a_name() {
    let mut reg = fleet();
    let f = fresh("s", "cccccccc-3");
    let m = place(&mut reg, 9000, "new".to_string(), None, &f, "hash".to_string()).unwrap();
    assert_eq!((m.port, m.secret_hash.as_str()), (2203, "hash"));
    let again = place(&mut reg, 9000, "web".to_string(), Some("bsd"), &f, "hash".to_string()).unwrap();
    assert_eq!((again.id.as_str(), again.port), ("aaaaaaaa-1", 2201));
    assert_eq!(again.os.as_deref(), Some("bsd"));
    let clash = fresh("s", "bbbbbbbb-2");
    let no = place(&mut reg, 9000, "other".to_string(), None, &clash, "hash".to_string());
    assert_eq!(no.unwrap_err(), DbError::DuplicateId);
}

#[test]
fn draws_are_fresh() {
    let a = Fresh::draw();
    let b = Fresh::draw();
    assert_ne!(a.secret, b.secret);
    assert_ne!(a.service_token, b.service_token);
    assert_ne!(a.secret, a.service_token);
    assert_ne!(a.id, b.id);
    assert_eq!((a.secret.len(), a.service_token.len(), a.fallback.len()), (64, 64, 4));
    assert_eq!(uuid::Uuid::parse_str(&a.id).unwrap().get_version_num(), 4);
}

#[test]
fn tokens_are_minted_and_used() {
    let mut reg = Registry::new();
    let text = token_new(&mut reg, &config(), Some("laptop")).unwrap();
    let head = "token (single-use, expires in 15 min):\n\n  \
                curl -fsSL https://omni.tld/install.sh | sudo sh -s -- ";
    assert!(text.starts_with(head), "{}", text);
    let token = text.strip_prefix(head).unwrap();
    assert_eq!(token.len(), 32);
    assert_eq!(text, token_one_liner(&config(), token));
    assert_eq!(TOKEN_TTL_SECS, 15 * 60);
    assert_eq!(reg.tokens()[0].token_hash, sha256_hex(token));
    let e = enroll(&mut reg, &config(), token, None, None).unwrap();
    assert_eq!((e.machine.name.as_str(), e.machine.port), ("laptop", 2201));
    assert_eq!(e.machine.secret_hash, sha256_hex(&e.secret));
    assert_eq!(
        enroll(&mut reg, &config(), token, None, None).unwrap_err(),
        DbError::BadToken
    );
}

#[test]
fn ages_are_put_in_words() {
    for (age, words) in [
        (-1, "future?"),
        (0, "0s ago"),
        (89, "89s ago"),
        (90, "1m ago"),
        (5399, "89m ago"),
        (5400, "1h ago"),
        (172_799, "47h ago"),
        (172_800, "2d ago"),
        (i64::MAX, "106751991167300d ago"),
    ] {
        assert_eq!(human_age_of(Some(age)), words);
    }
    assert_eq!(human_age_of(None), "never");
    let now = Moment { secs: 600, nanos: 0 };
    assert_eq!(human_age_at(Some("1970-01-01T00:00:00Z"), now), "10m ago");
    assert_eq!(human_age_at(Some("garbage"), now), "never");
    assert_eq!(human_age_at(None, now), "never");
    assert_eq!(human_age(None), "never");
    assert!(human_age(Some("1970-01-01T00:00:00Z")).ends_with("d ago"));
}

#[test]
fn ids_are_shown_short() {
    assert_eq!(short_id("aaaaaaaa-1"), "aaaaaaaa");
    assert_eq!(short_id("aaaaaaaa"), "aaaaaaaa");
}

#[test]
fn machines_are_listed() {
    let mut a = machine("aaaaaaaa-1", "web", 2201);
    a.os = Some("linux".to_string());
    a.last_seen = Some("1970-01-01T00:00:30Z".to_string());
    let mut b = machine("bbbbbbbb-2", "a-name-longer-than-the-column", 2202);
    b.bind_addr = "0.0.0.0".to_string();
    let now = Moment { secs: 60, nanos: 0 };
    assert_eq!(
        ls_row(&a, true, "30s ago"),
        format!(
            "{:<20} {:>5}  {:<7} {:<10} {:<12} {}{}",
            "web", 2201, "linux", "yes", "30s ago", "aaaaaaaa", ""
        )
    );
    assert_eq!(
        ls_at(&vec![a, b], &vec![true, false], now),
        [
            "NAME                  PORT  OS      CONNECTED  LAST SEEN    ID",
            "web                   2201  linux   yes        30s ago      aaaaaaaa",
            "a-name-longer-than-the-column  2202  ?       no         never        bbbbbbbb  [exposed]",
        ]
    );
    let none = ["no machines enrolled — mint a token with `omni token new`"];
    assert_eq!(ls_at(&Vec::new(), &Vec::new(), now), none);
    assert_eq!(ls(&Vec::new(), &Vec::new()), none);
    let c = machine("cccccccc-3", "c", 2203);
    let row = "c                     2203  ?       no         never        cccccccc";
    assert_eq!(ls(&vec![c], &vec![false])[1], row);
}

#[test]
fn machines_are_shown() {
    let mut m = machine("aaaaaaaa-1", "web", 2201);
    let plain = [
        "name:        web",
        "id:          aaaaaaaa-1",
        "port:        2201 (bind 127.0.0.1)",
        "os:          ?",
        "connected:   no",
        "enrolled:    1970-01-01T00:00:00Z",
        "last seen:   never",
        "termix host: -",
        "stale flag:  ok",
    ];
    assert_eq!(show(&m, false), plain);
    m.os = Some("linux".to_string());
    m.termix_host_id = Some("7".to_string());
    m.marked_stale = true;
    let out = show_with(&m, true, "5m ago");
    assert_eq!(out[3], "os:          linux");
    assert_eq!(out[4], "connected:   yes");
    assert_eq!(out[6], "last seen:   5m ago");
    assert_eq!(out[7], "termix host: 7");
    assert_eq!(out[8], "stale flag:  down");
    assert_eq!(out.len(), 9);
}

#[test]
fn machines_are_renamed() {
    let mut reg = fleet();
    let m = rename(&mut reg, "web", " front end ").unwrap();
    assert_eq!((m.id.as_str(), m.name.as_str()), ("aaaaaaaa-1", "front-end"));
    assert_eq!(machine_by_name(&reg, "front-end").unwrap().port, 2201);
    assert!(machine_by_name(&reg, "web").is_none());
    assert_eq!(rename_to(&mut reg, "front-end", "front-end").unwrap().name, "front-end");
    assert_eq!(rename_message("x"), "renamed to x (Termix host updated)");
    let blank = rename(&mut reg, "db", " ").unwrap();
    assert!(blank.name.starts_with("machine-"));
}

#[test]
fn names_in_use_are_refused() {
    let mut reg = fleet();
    let e = rename_to(&mut reg, "web", "db").unwrap_err();
    assert!(matches!(&e, RenameError::Taken(id) if id == "bbbbbbbb-2"));
    assert_eq!(e.message("web", "db"), "name 'db' is taken by machine bbbbbbbb");
    let e = rename(&mut reg, "nope", "x").unwrap_err();
    assert!(matches!(&e, RenameError::Db(DbError::NoMatch)));
    assert_eq!(e.message("nope", "x"), "no machine matches 'nope' (try `omni ls`)");
    assert!(machine_by_name(&reg, "web").is_some());
}

#[test]
fn machines_are_revoked() {
    let mut reg = fleet();
    let m = rm(&mut reg, "web").unwrap();
    assert!(!m.deleted);
    assert_eq!(
        rm_message(&m),
        "revoked web — stanza dropped from server.toml, tunnel dies on next reconnect; \
         port 2201 is retired"
    );
    assert!(machine_by_id(&reg, "aaaaaaaa-1").is_none());
    assert_eq!(reg.machines().len(), 2);
    assert_eq!(rm(&mut reg, "web").unwrap_err(), DbError::NoMatch);
}

#[test]
fn exposure_is_set_and_undone() {
    let mut reg = fleet();
    let m = set_exposure(&mut reg, "web", true).unwrap();
    assert_eq!(m.bind_addr, "0.0.0.0");
    assert_eq!(
        exposure_message(&m, true),
        "web now binds 0.0.0.0:2201 — direct SSH from anywhere; open the port in the firewall yourself"
    );
    let m = set_exposure(&mut reg, "web", false).unwrap();
    assert_eq!(m.bind_addr, "127.0.0.1");
    assert_eq!(exposure_message(&m, false), "web back on loopback — only Termix reaches port 2201");
    assert_eq!(set_exposure(&mut reg, "nope", true).unwrap_err(), DbError::NoMatch);
}

#[test]
fn termix_is_told_of_live_machines() {
    let mut reg = fleet();
    let (m, host) = termix_host(&reg, "aaaaaaaa-1").unwrap();
    assert_eq!(m.name, "web");
    assert_eq!((host.name.as_str(), host.ip.as_str(), host.port), ("web", "127.0.0.1", 2201));
    let mut down = machine("x", "web", 1);
    down.marked_stale = true;
    assert_eq!(termix_display_name(&down), "web (down)");
    mark_deleted(&mut reg, "aaaaaaaa-1");
    assert!(termix_host(&reg, "aaaaaaaa-1").is_none());
}

#[test]
fn host_ids_are_stored() {
    let mut reg = fleet();
    let m = machine_by_id(&reg, "aaaaaaaa-1").unwrap();
    assert_eq!(sync_termix_host(&mut reg, &m, "7"), Ok(()));
    let m = machine_by_id(&reg, "aaaaaaaa-1").unwrap();
    assert_eq!(m.termix_host_id.as_deref(), Some("7"));
    assert_eq!(sync_termix_host(&mut reg, &m, "7"), Ok(()));
    let gone = machine("none", "none", 1);
    assert_eq!(sync_termix_host(&mut reg, &gone, "7"), Err(DbError::NotFoundForUpdate));
    let known = Machine { termix_host_id: Some("7".to_string()), ..machine("none", "none", 1) };
    assert_eq!(sync_termix_host(&mut reg, &known, "7"), Ok(()));
}

#[test]
fn storing_a_host_id_undoes_nothing() {
    let mut reg = fleet();
    let read = machine_by_id(&reg, "aaaaaaaa-1").unwrap();
    with_token(&mut reg, "t1", "abc", None);
    enroll_with(&mut reg, &config(), "abc", Some("web"), Some("linux"), fresh("new", "x")).unwrap();
    rename_to(&mut reg, "web", "front").unwrap();
    rename_to(&mut reg, "db", "web").unwrap();
    set_exposure(&mut reg, "front", true).unwrap();
    assert_eq!(sync_termix_host(&mut reg, &read, "7"), Ok(()));
    let m = machine_by_id(&reg, "aaaaaaaa-1").unwrap();
    assert_eq!(m.termix_host_id.as_deref(), Some("7"));
    assert_eq!(m.name, "front");
    assert_eq!(m.secret_hash, sha256_hex("new"));
    assert_eq!(m.service_token, "svc-new");
    assert_eq!(m.bind_addr, "0.0.0.0");
    assert_eq!(m.last_seen.as_deref(), Some("1970-01-01T00:10:00Z"));
    assert_eq!(set_termix_host(&mut reg, "aaaaaaaa-1", "8"), Ok(()));
    assert_eq!(set_termix_host(&mut reg, "none", "8"), Err(DbError::NotFoundForUpdate));
    let m = machine_by_id(&reg, "aaaaaaaa-1").unwrap();
    assert_eq!((m.termix_host_id.as_deref(), m.name.as_str()), (Some("8"), "front"));
}

#[test]
fn outcomes_are_reported_one_by_one() {
    assert_eq!(outcome_line("web", &Ok(())), "termix: web ok");
    assert_eq!(outcome_line("db", &Err("why".to_string())), "termix: db FAILED: why");
    assert_eq!(heading(), "NAME                  PORT  OS      CONNECTED  LAST SEEN    ID");
    assert_eq!(
        control_down(&config()),
        "nothing listening on 127.0.0.1:2333 — is the rathole server running?"
    );
}

#[test]
fn a_sweep_marks_the_whole_fleet() {
    let mut reg = fleet();
    let mut quiet = machine_by_id(&reg, "bbbbbbbb-2").unwrap();
    quiet.last_seen = Some("1970-01-01T00:10:00Z".to_string());
    quiet.marked_stale = true;
    update_machine(&mut reg, &quiet).unwrap();
    let now = Moment { secs: 1000, nanos: 0 };
    let mut flips = Vec::new();
    for m in live_machines(&reg) {
        flips.push(stale_sweep_at(&mut reg, &m, 900, now));
    }
    assert_eq!(flips, [Some(true), Some(false)]);
    assert!(machine_by_name(&reg, "web").unwrap().marked_stale);
    assert!(!machine_by_name(&reg, "db").unwrap().marked_stale);
    let read = live_machines(&reg);
    assert_eq!(sweep_at(&mut reg, &read, 900, now), []);
}

#[test]
fn a_sweep_tells_which_markers_flipped() {
    let mut reg = fleet();
    insert_machine(&mut reg, &machine("cccccccc-3", "nas", 2203)).unwrap();
    touch_last_seen_at(&mut reg, "bbbbbbbb-2", "1970-01-01T00:10:00Z");
    let read = live_machines(&reg);
    let now = Moment { secs: 1000, nanos: 0 };
    assert_eq!(sweep_at(&mut reg, &read, 900, now), [(0, true), (2, true)]);
    let marked: Vec<bool> = live_machines(&reg).iter().map(|m| m.marked_stale).collect();
    assert_eq!(marked, [true, false, true]);
    let read = live_machines(&reg);
    mark_deleted(&mut reg, "aaaaaaaa-1");
    assert_eq!(sweep_at(&mut reg, &read, 2000, now), [(2, false)]);
    let read = live_machines(&reg);
    assert_eq!(sweep(&mut reg, &read, 900), [(0, true), (1, true)]);
    assert_eq!(sweep(&mut reg, &Vec::new(), 900), []);
}

#[test]
fn a_heartbeat_brings_a_machine_back() {
    let mut reg = fleet();
    let m = machine_by_id(&reg, "aaaaaaaa-1").unwrap();
    set_stale(&mut reg, &m, true);
    assert_eq!(termix_host(&reg, "aaaaaaaa-1").unwrap().1.name, "web (down)");
    touch_last_seen_at(&mut reg, "aaaaaaaa-1", "1970-01-01T01:00:00Z");
    let m = machine_by_id(&reg, "aaaaaaaa-1").unwrap();
    assert_eq!(stale_sweep_at(&mut reg, &m, 900, Moment { secs: 4500, nanos: 0 }), Some(false));
    assert_eq!(termix_host(&reg, "aaaaaaaa-1").unwrap().1.name, "web");
}

#[test]
fn no_machine_is_stale_within_the_threshold_in_any_year() {
    let mut m = machine("a", "a", 1);
    m.last_seen = Some("+10000-01-01T00:00:00Z".to_string());
    assert!(!stale_at(&m, 0, Moment { secs: LAST_STAMP + 1, nanos: 0 }));
    m.last_seen = Some("9999-12-31T23:59:59Z".to_string());
    assert!(!stale_at(&m, 1, Moment { secs: LAST_STAMP + 1, nanos: 0 }));
    assert!(stale_at(&m, 0, Moment { secs: LAST_STAMP + 1, nanos: 0 }));
}

#[test]
fn reconciling_is_reported() {
    assert_eq!(
        sync("/p", &None),
        ["server.toml regenerated at /p", "termix: not configured, skipped"]
    );
    let outcomes = vec![("web".to_string(), Ok(())), ("db".to_string(), Err("why".to_string()))];
    assert_eq!(
        sync("/p", &Some(outcomes)),
        ["server.toml regenerated at /p", "termix: web ok", "termix: db FAILED: why"]
    );
    assert_eq!(sync("/p", &Some(Vec::new())), ["server.toml regenerated at /p"]);
}

#[test]
fn a_healthy_service_is_all_good() {
    let mut cfg = config();
    let mut p = Probes { database: Ok(2), rathole: Ok(Ok(())), control_up: true, termix: None };
    let (out, end) = doctor(&cfg, &p);
    assert_eq!(
        out,
        [
            "  ok   database: /var/lib/omni/omni.db (2 machines)",
            "  ok   rathole config: /etc/rathole/server.toml writable, regenerated",
            "  ok   rathole control: listening on :2333",
            "  --   termix: not configured (machines won't appear in the browser)",
            "  ok   public_url: https://omni.tld",
            "all good",
        ]
    );
    assert_eq!(end, Ok(()));
    cfg.termix = Some(TermixCfg {
        url: "http://127.0.0.1:8090".to_string(),
        api_key: "k".to_string(),
        stale_after_secs: 900,
    });
    p.termix = Some(Ok(()));
    assert_eq!(doctor(&cfg, &p).0[3], "  ok   termix: http://127.0.0.1:8090");
}

#[test]
fn problems_are_diagnosed() {
    let mut cfg = config();
    cfg.public_url = "omni.tld".to_string();
    cfg.termix = Some(TermixCfg {
        url: "http://t".to_string(),
        api_key: "k".to_string(),
        stale_after_secs: 900,
    });
    let p = Probes {
        database: Err("locked".to_string()),
        rathole: Ok(Err("cannot write".to_string())),
        control_up: false,
        termix: Some(Err("Termix unreachable".to_string())),
    };
    let (out, end) = doctor(&cfg, &p);
    assert_eq!(
        out,
        [
            "  FAIL database: locked",
            "  FAIL rathole config: cannot write",
            "  FAIL rathole control: nothing listening on 127.0.0.1:2333 — is the rathole server running?",
            "  FAIL termix: Termix unreachable",
            "  FAIL public_url: 'omni.tld' is not a URL",
        ]
    );
    assert_eq!(end, Err("doctor found problems".to_string()));
    let p = Probes {
        database: Err("locked".to_string()),
        rathole: Err("locked".to_string()),
        control_up: true,
        termix: None,
    };
    let (out, end) = doctor(&cfg, &p);
    assert_eq!(out, ["  FAIL database: locked"]);
    assert_eq!(end, Err("locked".to_string()));
}

#[test]
fn silence_makes_stale() {
    assert!(stale_by_age(Some(901), 900));
    assert!(!stale_by_age(Some(900), 900));
    assert!(!stale_by_age(None, 0));
    assert!(stale_by_age(None, -1));
    let mut m = machine("a", "a", 1);
    assert!(stale_at(&m, 900, Moment { secs: 901, nanos: 0 }));
    assert!(!stale_at(&m, 900, Moment { secs: 900, nanos: 999_999_999 }));
    m.last_seen = Some("1970-01-01T00:00:01Z".to_string());
    assert!(!stale_at(&m, 900, Moment { secs: 901, nanos: 0 }));
    m.last_seen = Some("garbage".to_string());
    assert!(!stale_at(&m, 900, Moment { secs: 10_000, nanos: 0 }));
}

#[test]
fn markers_flip_as_heartbeats_stop_and_resume() {
    let mut reg = fleet();
    let m = machine_by_id(&reg, "aaaaaaaa-1").unwrap();
    let late = Moment { secs: 901, nanos: 0 };
    assert_eq!(stale_sweep_at(&mut reg, &m, 900, Moment { secs: 900, nanos: 0 }), None);
    assert_eq!(stale_sweep_at(&mut reg, &m, 900, late), Some(true));
    let m = machine_by_id(&reg, "aaaaaaaa-1").unwrap();
    assert!(m.marked_stale);
    assert_eq!(stale_sweep_at(&mut reg, &m, 900, late), None);
    assert_eq!(stale_sweep_at(&mut reg, &m, 1000, late), Some(false));
    assert!(!machine_by_id(&reg, "aaaaaaaa-1").unwrap().marked_stale);
    let m = machine_by_id(&reg, "aaaaaaaa-1").unwrap();
    assert_eq!(stale_sweep(&mut reg, &m, 900), Some(true));
    let m = machine_by_id(&reg, "bbbbbbbb-2").unwrap();
    mark_deleted(&mut reg, "bbbbbbbb-2");
    assert_eq!(set_stale(&mut reg, &m, true), None);
    assert_eq!(stale_message("web", true), "web marked down in Termix");
    assert_eq!(stale_message("web", false), "web marked up in Termix");
}

#[test]
fn minted_tokens_enroll_within_their_time() {
    let mut reg = Registry::new();
    let now = Moment { secs: 0, nanos: 0 };
    insert_token_at(&mut reg, "t", &sha256_hex("abc"), None, TOKEN_TTL_SECS, now).unwrap();
    assert_eq!(reg.tokens()[0].expires_at, "1970-01-01T00:15:00Z");
    let e = enroll_with(&mut reg, &config(), "abc", None, None, fresh("s", "i"));
    assert!(e.is_ok());
}
