use omni::config::{Config, HerdrCfg, RatholeCfg};
use omni::db::{
    add_token, auth_machine, consume_token_at, find_machine, live_machines, machine_by_name,
    next_port, DbError, Machine, Registry,
};
use omni::ops::{enroll_with, rename_to, rm, set_exposure, set_stale, short_id, sync_termix_host, Fresh};
use omni::rathole::{render_client_toml, render_server_toml};
use omni::serve::{enroll_error, get_config_at, heartbeat_at};
use omni::util::sha256_hex;

fn config() -> Config {
    Config {
        db_path: String::new(),
        listen: String::new(),
        public_url: String::new(),
        port_start: 2201,
        rathole: RatholeCfg {
            config_path: String::new(),
            bind_addr: "0.0.0.0:2333".to_string(),
            remote_addr: "omni.tld:2333".to_string(),
            version: "0.5.0".to_string(),
        },
        termix: None,
        herdr: HerdrCfg::default(),
    }
}

const NOW: &str = "2026-01-01T00:00:00Z";

fn enrolled(reg: &mut Registry, name: &str, secret: &str, id: &str) -> Result<Machine, DbError> {
    let token = format!("token-{}", secret);
    let expires = "2026-01-01T00:15:00Z".to_string();
    add_token(reg, &token, &sha256_hex(&token), None, NOW.to_string(), expires).unwrap();
    let f = Fresh {
        secret: secret.to_string(),
        service_token: format!("svc-{}", secret),
        id: id.to_string(),
        fallback: "beef".to_string(),
        now: NOW.to_string(),
    };
    enroll_with(reg, &config(), &token, Some(name), None, f).map(|e| e.machine)
}

fn fleet() -> Registry {
    let mut reg = Registry::new();
    enrolled(&mut reg, "web", "s1", "aaaaaaaa-1").unwrap();
    enrolled(&mut reg, "db", "s2", "aabbbbbb-2").unwrap();
    enrolled(&mut reg, "nas", "s3", "cccccccc-3").unwrap();
    reg
}

#[test]
fn ports_stay_with_their_ids() {
    let mut reg = fleet();
    rename_to(&mut reg, "web", "front").unwrap();
    set_exposure(&mut reg, "db", true).unwrap();
    rm(&mut reg, "nas").unwrap();
    enrolled(&mut reg, "front", "s4", "dddddddd-4").unwrap();
    enrolled(&mut reg, "nas", "s5", "eeeeeeee-5").unwrap();
    let ports: Vec<(&str, u16)> =
        reg.machines().iter().map(|m| (m.id.as_str(), m.port)).collect();
    assert_eq!(
        ports,
        [("aaaaaaaa-1", 2201), ("aabbbbbb-2", 2202), ("cccccccc-3", 2203), ("eeeeeeee-5", 2204)]
    );
}

#[test]
fn retired_ports_do_not_come_back() {
    let mut reg = fleet();
    let next = next_port(&reg, 2201);
    rm(&mut reg, "nas").unwrap();
    assert_eq!(next_port(&reg, 2201), next);
    assert_eq!(next, Ok(2204));
}

#[test]
fn enrolled_machines_are_let_in_and_old_secrets_are_not() {
    let mut reg = fleet();
    assert_eq!(auth_machine(&reg, "aaaaaaaa-1", "s1").unwrap().name, "web");
    enrolled(&mut reg, "web", "s9", "ffffffff-9").unwrap();
    assert_eq!(auth_machine(&reg, "aaaaaaaa-1", "s1").unwrap_err(), DbError::BadSecret);
    assert_eq!(auth_machine(&reg, "aaaaaaaa-1", "s9").unwrap().name, "web");
    assert_eq!(reg.machines().len(), 3);
}

#[test]
fn bad_tokens_enroll_nothing_and_spend_nothing() {
    let mut reg = fleet();
    let f = Fresh {
        secret: "s".to_string(),
        service_token: "t".to_string(),
        id: "i".to_string(),
        fallback: "beef".to_string(),
        now: NOW.to_string(),
    };
    let expires = "2026-01-01T00:15:00Z".to_string();
    add_token(&mut reg, "other", &sha256_hex("other"), None, NOW.to_string(), expires).unwrap();
    let used = enroll_with(&mut reg, &config(), "token-s1", None, None, f);
    assert_eq!(used.unwrap_err(), DbError::BadToken);
    assert_eq!(reg.machines().len(), 3);
    assert!(reg.tokens().iter().any(|t| t.id == "other" && t.used_at.is_none()));
}

#[test]
fn revoking_shuts_out_one_machine() {
    let mut reg = fleet();
    rm(&mut reg, "db").unwrap();
    assert_eq!(auth_machine(&reg, "aabbbbbb-2", "s2").unwrap_err(), DbError::UnknownMachine);
    assert!(machine_by_name(&reg, "db").is_none());
    assert!(auth_machine(&reg, "aaaaaaaa-1", "s1").is_ok());
    assert!(auth_machine(&reg, "cccccccc-3", "s3").is_ok());
}

#[test]
fn credentials_do_not_expire() {
    let mut reg = fleet();
    let m = machine_by_name(&reg, "web").unwrap();
    set_stale(&mut reg, &m, true);
    rename_to(&mut reg, "web", "front").unwrap();
    set_exposure(&mut reg, "front", true).unwrap();
    let r = heartbeat_at(&mut reg, Some("aaaaaaaa-1"), Some("s1"), "2126-01-01T00:00:00Z");
    assert_eq!(r.status, 200);
    enrolled(&mut reg, "more", "s8", "88888888-8").unwrap();
    enrolled(&mut reg, "db", "s9", "99999999-9").unwrap();
    assert!(enrolled(&mut reg, "again", "s10", "88888888-8").is_err());
    sync_termix_host(&mut reg, &m, "7").unwrap();
    assert!(auth_machine(&reg, "aaaaaaaa-1", "s1").is_ok());
    assert!(auth_machine(&reg, "cccccccc-3", "s3").is_ok());
}

#[test]
fn prefixes_of_ids_suffice_where_unique() {
    let reg = fleet();
    assert_eq!(find_machine(&reg, "c").unwrap().name, "nas");
    assert_eq!(find_machine(&reg, "aaa").unwrap().name, "web");
    assert_eq!(find_machine(&reg, "aa").unwrap_err(), DbError::Ambiguous(2));
}

#[test]
fn renamed_machines_are_found() {
    let mut reg = fleet();
    let m = rename_to(&mut reg, "aab", "store").unwrap();
    assert_eq!(find_machine(&reg, "store").unwrap().id, m.id);
}

#[test]
fn unexposing_undoes() {
    let mut reg = fleet();
    let before = render_server_toml(&config(), &live_machines(&reg));
    set_exposure(&mut reg, "db", true).unwrap();
    assert_ne!(render_server_toml(&config(), &live_machines(&reg)), before);
    set_exposure(&mut reg, "db", false).unwrap();
    assert_eq!(render_server_toml(&config(), &live_machines(&reg)), before);
}

#[test]
fn revoking_drops_one_stanza() {
    let mut reg = fleet();
    let before = render_server_toml(&config(), &live_machines(&reg));
    let stanza = "\n# db (?)\n[server.services.\"aabbbbbb-2\"]\ntoken = \"svc-s2\"\n\
                  bind_addr = \"127.0.0.1:2202\"\n";
    assert!(before.contains(stanza));
    rm(&mut reg, "db").unwrap();
    let after = render_server_toml(&config(), &live_machines(&reg));
    assert_eq!(after, before.replace(stanza, ""));
}

#[test]
fn both_ends_of_a_tunnel_agree() {
    let reg = fleet();
    let server = render_server_toml(&config(), &live_machines(&reg));
    for m in live_machines(&reg) {
        let client = render_client_toml(&config(), &m);
        let service = format!("services.\"{}\"]\ntoken = \"{}\"\n", m.id, m.service_token);
        assert!(server.contains(&format!("[server.{}", service)));
        assert!(client.contains(&format!("[client.{}", service)));
    }
}

#[test]
fn calls_only_note_the_time() {
    let mut reg = fleet();
    let before = machine_by_name(&reg, "web").unwrap();
    get_config_at(&mut reg, &config(), Some("aaaaaaaa-1"), Some("s1"), "2026-02-02T00:00:00Z");
    let after = machine_by_name(&reg, "web").unwrap();
    assert_eq!(after.last_seen.as_deref(), Some("2026-02-02T00:00:00Z"));
    assert_eq!(
        format!("{:?}", Machine { last_seen: None, ..after }),
        format!("{:?}", Machine { last_seen: None, ..before })
    );
}

#[test]
fn refusals_name_the_token_only() {
    let told = enroll_error(&DbError::BadToken.message(""));
    assert_eq!(told.status, 403);
    assert_eq!(told.body, "enrollment token is invalid, expired, or already used\n");
    for e in [DbError::PortsExhausted, DbError::DuplicateId, DbError::DuplicatePort] {
        let r = enroll_error(&e.message(""));
        assert_eq!((r.status, r.body.as_str()), (500, "internal error\n"));
    }
}

#[test]
fn drawn_ids_shorten() {
    let f = Fresh::draw();
    assert_eq!(short_id(&f.id), &f.id[..8]);
}

#[test]
fn revoked_ids_stay_out() {
    let mut reg = fleet();
    rm(&mut reg, "db").unwrap();
    enrolled(&mut reg, "db", "s6", "ffffffff-6").unwrap();
    rename_to(&mut reg, "db", "store").unwrap();
    assert_eq!(auth_machine(&reg, "aabbbbbb-2", "s2").unwrap_err(), DbError::UnknownMachine);
    assert_eq!(find_machine(&reg, "aabbbbbb-2").unwrap_err(), DbError::NoMatch);
}

#[test]
fn spent_tokens_stay_spent() {
    let mut reg = fleet();
    enrolled(&mut reg, "more", "s7", "77777777-7").unwrap();
    for now in ["2020-01-01T00:00:00Z", NOW, "2030-01-01T00:00:00Z"] {
        assert_eq!(consume_token_at(&mut reg, "token-s1", now), Err(DbError::BadToken));
    }
}

#[test]
fn config_is_what_enrolling_gave() {
    let mut reg = fleet();
    let m = machine_by_name(&reg, "web").unwrap();
    let r = get_config_at(&mut reg, &config(), Some(&m.id), Some("s1"), NOW);
    assert_eq!(r.body, render_client_toml(&config(), &m));
}
