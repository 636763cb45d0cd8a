use omni::clock::{Moment, FIRST_STAMP, LAST_STAMP, MAX_SECS};
use omni::db::{
    add_token, auth_by_hash, auth_machine, consume_hash_at, consume_token, consume_token_at,
    find_machine, insert_machine, insert_token, insert_token_at, live_machines, machine_by_id,
    machine_by_name, mark_deleted, next_port, row_to_machine, touch_last_seen, touch_last_seen_at,
    update_machine, DbError, Machine, MachineRow, Registry, Token,
};
use omni::util::sha256_hex;

fn machine(id: &str, name: &str, port: u16) -> Machine {
    Machine {
        id: id.to_string(),
        name: name.to_string(),
        port,
        service_token: format!("tok-{}", id),
        secret_hash: sha256_hex(&format!("secret-{}", id)),
        bind_addr: "127.0.0.1".to_string(),
        termix_host_id: None,
        os: None,
        enrolled_at: "2026-01-01T00:00:00Z".to_string(),
        last_seen: None,
        deleted: false,
        marked_stale: false,
    }
}

fn fleet() -> Registry {
    let mut reg = Registry::new();
    insert_machine(&mut reg, &machine("aa11", "web", 2203)).unwrap();
    insert_machine(&mut reg, &machine("aa22", "db", 2201)).unwrap();
    insert_machine(&mut reg, &machine("bb33", "nas", 2202)).unwrap();
    reg
}

fn token(id: &str, hash: &str, expires_at: &str) -> Token {
    Token {
        id: id.to_string(),
        token_hash: hash.to_string(),
        name_hint: None,
        created_at: "2026-01-01T00:00:00Z".to_string(),
        expires_at: expires_at.to_string(),
        used_at: None,
    }
}

#[test]
fn live_machines_come_by_port() {
    let mut reg = fleet();
    let names: Vec<String> = live_machines(&reg).into_iter().map(|m| m.name).collect();
    assert_eq!(names, ["db", "nas", "web"]);
    mark_deleted(&mut reg, "bb33");
    let names: Vec<String> = live_machines(&reg).into_iter().map(|m| m.name).collect();
    assert_eq!(names, ["db", "web"]);
    assert!(live_machines(&Registry::new()).is_empty());
}

#[test]
fn machines_are_looked_up() {
    let mut reg = fleet();
    assert_eq!(machine_by_id(&reg, "aa22").unwrap().name, "db");
    assert_eq!(machine_by_name(&reg, "nas").unwrap().id, "bb33");
    assert!(machine_by_id(&reg, "aa").is_none());
    mark_deleted(&mut reg, "aa22");
    assert!(machine_by_id(&reg, "aa22").is_none());
    assert!(machine_by_name(&reg, "db").is_none());
}

#[test]
fn finding_prefers_name_then_id_then_prefix() {
    let mut reg = fleet();
    insert_machine(&mut reg, &machine("cc44", "aa11", 2300)).unwrap();
    insert_machine(&mut reg, &machine("cc4455", "long", 2301)).unwrap();
    assert_eq!(find_machine(&reg, "aa11").unwrap().id, "cc44");
    assert_eq!(find_machine(&reg, "cc44").unwrap().id, "cc44");
    assert_eq!(find_machine(&reg, "cc445").unwrap().id, "cc4455");
    assert_eq!(find_machine(&reg, "b").unwrap().id, "bb33");
    assert_eq!(find_machine(&reg, "BB").unwrap().id, "bb33");
    assert_eq!(find_machine(&reg, "aa").unwrap_err(), DbError::Ambiguous(2));
    assert_eq!(find_machine(&reg, "").unwrap_err(), DbError::Ambiguous(5));
    assert_eq!(find_machine(&reg, "zz").unwrap_err(), DbError::NoMatch);
    assert_eq!(find_machine(&reg, "%").unwrap_err(), DbError::NoMatch);
    mark_deleted(&mut reg, "aa22");
    assert_eq!(find_machine(&reg, "aa2").unwrap_err(), DbError::NoMatch);
}

#[test]
fn ports_count_up_and_are_never_reused() {
    let mut reg = Registry::new();
    assert_eq!(next_port(&reg, 2201), Ok(2201));
    insert_machine(&mut reg, &machine("a", "a", 2201)).unwrap();
    assert_eq!(next_port(&reg, 2201), Ok(2202));
    insert_machine(&mut reg, &machine("b", "b", 2202)).unwrap();
    mark_deleted(&mut reg, "b");
    assert_eq!(next_port(&reg, 2201), Ok(2203));
    assert_eq!(next_port(&reg, 9000), Ok(2203));
    insert_machine(&mut reg, &machine("c", "c", 65535)).unwrap();
    assert_eq!(next_port(&reg, 2201), Err(DbError::PortsExhausted));
}

#[test]
fn inserting_keeps_the_constraints() {
    let mut reg = fleet();
    assert_eq!(insert_machine(&mut reg, &machine("aa11", "x", 1)), Err(DbError::DuplicateId));
    assert_eq!(insert_machine(&mut reg, &machine("x", "x", 2201)), Err(DbError::DuplicatePort));
    assert_eq!(insert_machine(&mut reg, &machine("x", "web", 1)), Err(DbError::DuplicateName));
    mark_deleted(&mut reg, "aa11");
    let mut again = machine("dd55", "web", 2400);
    again.deleted = true;
    again.marked_stale = true;
    assert_eq!(insert_machine(&mut reg, &again), Ok(()));
    let m = machine_by_name(&reg, "web").unwrap();
    assert_eq!(m.id, "dd55");
    assert!(!m.deleted && !m.marked_stale);
    assert_eq!(insert_machine(&mut reg, &machine("aa11", "y", 9)), Err(DbError::DuplicateId));
}

#[test]
fn updating_leaves_port_and_enrollment() {
    let mut reg = fleet();
    let mut m = machine("aa22", "store", 9999);
    m.enrolled_at = "later".to_string();
    m.deleted = true;
    m.os = Some("linux".to_string());
    m.last_seen = Some("2026-02-02T00:00:00Z".to_string());
    m.marked_stale = true;
    assert_eq!(update_machine(&mut reg, &m), Ok(()));
    let got = machine_by_name(&reg, "store").unwrap();
    assert_eq!(got.port, 2201);
    assert_eq!(got.enrolled_at, "2026-01-01T00:00:00Z");
    assert!(!got.deleted && got.marked_stale);
    assert_eq!(got.os.as_deref(), Some("linux"));
    assert_eq!(
        update_machine(&mut reg, &machine("aa22", "web", 1)),
        Err(DbError::DuplicateName)
    );
    assert_eq!(
        update_machine(&mut reg, &machine("none", "q", 1)),
        Err(DbError::NotFoundForUpdate)
    );
    mark_deleted(&mut reg, "aa22");
    assert_eq!(update_machine(&mut reg, &machine("aa22", "web", 1)), Ok(()));
}

#[test]
fn heartbeats_only_set_the_time() {
    let mut reg = fleet();
    touch_last_seen_at(&mut reg, "aa22", "2026-03-03T00:00:00Z");
    let m = machine_by_id(&reg, "aa22").unwrap();
    assert_eq!(m.last_seen.as_deref(), Some("2026-03-03T00:00:00Z"));
    assert_eq!(m.name, "db");
    assert!(machine_by_id(&reg, "aa11").unwrap().last_seen.is_none());
    touch_last_seen_at(&mut reg, "none", "2026-03-03T00:00:00Z");
    touch_last_seen(&mut reg, "aa11");
    assert_eq!(machine_by_id(&reg, "aa11").unwrap().last_seen.unwrap().len(), 20);
}

#[test]
fn machines_authenticate_by_their_secret() {
    let mut reg = fleet();
    assert_eq!(auth_machine(&reg, "aa11", "secret-aa11").unwrap().name, "web");
    assert_eq!(auth_machine(&reg, "aa11", "secret-aa22").unwrap_err(), DbError::BadSecret);
    assert_eq!(auth_machine(&reg, "none", "secret-aa11").unwrap_err(), DbError::UnknownMachine);
    let hash = sha256_hex("secret-aa11");
    assert_eq!(auth_by_hash(&reg, "aa11", &hash).unwrap().name, "web");
    assert_eq!(auth_by_hash(&reg, "aa11", "secret-aa11").unwrap_err(), DbError::BadSecret);
    mark_deleted(&mut reg, "aa11");
    assert_eq!(auth_machine(&reg, "aa11", "secret-aa11").unwrap_err(), DbError::UnknownMachine);
}

#[test]
fn tokens_are_used_once() {
    let mut reg = Registry::new();
    let now = Moment { secs: 1_000, nanos: 5 };
    insert_token_at(&mut reg, "t1", &sha256_hex("abc"), Some("laptop"), 900, now).unwrap();
    assert_eq!(reg.tokens()[0].created_at, "1970-01-01T00:16:40Z");
    assert_eq!(reg.tokens()[0].expires_at, "1970-01-01T00:31:40Z");
    assert_eq!(
        consume_token_at(&mut reg, "wrong", "1970-01-01T00:20:00Z"),
        Err(DbError::BadToken)
    );
    assert_eq!(
        consume_token_at(&mut reg, "abc", "1970-01-01T00:31:40Z"),
        Ok(Some("laptop".to_string()))
    );
    assert_eq!(reg.tokens()[0].used_at.as_deref(), Some("1970-01-01T00:31:40Z"));
    assert_eq!(
        consume_token_at(&mut reg, "abc", "1970-01-01T00:20:00Z"),
        Err(DbError::BadToken)
    );
}

#[test]
fn tokens_expire() {
    let mut reg = Registry::new();
    let now = Moment { secs: 1_000, nanos: 0 };
    insert_token_at(&mut reg, "t1", &sha256_hex("abc"), None, 900, now).unwrap();
    insert_token_at(&mut reg, "t2", &sha256_hex("def"), None, 1_800, now).unwrap();
    assert_eq!(
        consume_token_at(&mut reg, "abc", "1970-01-01T00:31:41Z"),
        Err(DbError::BadToken)
    );
    let left: Vec<&str> = reg.tokens().iter().map(|t| t.id.as_str()).collect();
    assert_eq!(left, ["t2"]);
    assert_eq!(consume_token_at(&mut reg, "def", "1970-01-01T00:31:41Z"), Ok(None));
}

#[test]
fn used_tokens_stay_on_record() {
    let mut used = token("t1", "h", "2026-01-01T00:15:00Z");
    used.used_at = Some("2026-01-01T00:01:00Z".to_string());
    let lapsed = token("t2", "k", "2026-01-01T00:15:00Z");
    let mut reg = Registry::from_rows(Vec::new(), vec![used, lapsed]).unwrap();
    assert_eq!(consume_hash_at(&mut reg, "h", "2026-06-01T00:00:00Z"), Err(DbError::BadToken));
    assert_eq!(reg.tokens().len(), 1);
    assert_eq!(reg.tokens()[0].id, "t1");
}

#[test]
fn fresh_tokens_work_now() {
    let mut reg = Registry::new();
    insert_token(&mut reg, &sha256_hex("abc"), None, 900).unwrap();
    insert_token(&mut reg, &sha256_hex("def"), Some("x"), -60).unwrap();
    assert_eq!(consume_token(&mut reg, "def"), Err(DbError::BadToken));
    assert_eq!(consume_token(&mut reg, "abc"), Ok(None));
    assert_eq!(consume_token(&mut reg, "abc"), Err(DbError::BadToken));
    assert_eq!(uuid::Uuid::parse_str(&reg.tokens()[0].id).unwrap().get_version_num(), 4);
}

#[test]
fn tokens_need_an_id_and_an_expiry() {
    let mut reg = Registry::new();
    let now = Moment { secs: 1_000, nanos: 0 };
    insert_token_at(&mut reg, "t1", "h", None, 1, now).unwrap();
    assert_eq!(
        insert_token_at(&mut reg, "t1", "k", None, 1, now),
        Err(DbError::DuplicateTokenId)
    );
    assert_eq!(
        insert_token_at(&mut reg, "t2", "k", None, i64::MAX, now),
        Err(DbError::ExpiryOutOfRange)
    );
    assert_eq!(
        insert_token_at(&mut reg, "t2", "k", None, MAX_SECS - 999, now),
        Err(DbError::ExpiryOutOfRange)
    );
    assert_eq!(
        add_token(&mut reg, "t1", "k", None, "a".to_string(), "b".to_string()),
        Err(DbError::DuplicateTokenId)
    );
    assert_eq!(
        add_token(&mut reg, "t3", "k", Some("n"), "a".to_string(), "b".to_string()),
        Ok(())
    );
    assert_eq!(reg.tokens().len(), 2);
    assert_eq!(reg.tokens()[1].name_hint.as_deref(), Some("n"));
}

#[test]
fn times_sort_as_texts() {
    let secs = [FIRST_STAMP, -62_135_596_801, -1, 0, 59, 86_399, 951_782_400, 4_102_444_800, LAST_STAMP];
    let mut texts: Vec<String> = Vec::new();
    for s in secs {
        let mut reg = Registry::new();
        insert_token_at(&mut reg, "t", "h", None, 0, Moment { secs: s, nanos: 0 }).unwrap();
        assert_eq!(reg.tokens()[0].created_at, reg.tokens()[0].expires_at);
        texts.push(reg.tokens()[0].created_at.clone());
    }
    let mut sorted = texts.clone();
    sorted.sort();
    assert_eq!(texts, sorted);
    assert_eq!(texts[0], "0000-01-01T00:00:00Z");
    assert_eq!(texts[8], "9999-12-31T23:59:59Z");
}

#[test]
fn rows_become_machines() {
    let row = |port: i64, deleted: i64| MachineRow {
        id: "i".to_string(),
        name: "n".to_string(),
        port,
        service_token: "t".to_string(),
        secret_hash: "h".to_string(),
        bind_addr: "0.0.0.0".to_string(),
        termix_host_id: Some("7".to_string()),
        os: None,
        enrolled_at: "e".to_string(),
        last_seen: None,
        deleted,
        marked_stale: 0,
    };
    let m = row_to_machine(row(2201, 0));
    assert_eq!((m.port, m.deleted, m.marked_stale), (2201, false, false));
    assert_eq!(m.termix_host_id.as_deref(), Some("7"));
    let m = row_to_machine(row(65_536 + 7, 2));
    assert_eq!((m.port, m.deleted), (7, true));
    assert_eq!(row_to_machine(row(-1, 0)).port, 65535);
}

#[test]
fn stored_rows_must_keep_the_constraints() {
    let two = |a: Machine, b: Machine| Registry::from_rows(vec![a, b], Vec::new()).map(|_| ());
    assert_eq!(two(machine("a", "x", 1), machine("a", "y", 2)), Err(DbError::DuplicateId));
    assert_eq!(two(machine("a", "x", 1), machine("b", "y", 1)), Err(DbError::DuplicatePort));
    assert_eq!(two(machine("a", "x", 1), machine("b", "x", 2)), Err(DbError::DuplicateName));
    let mut gone = machine("a", "x", 1);
    gone.deleted = true;
    assert_eq!(two(gone, machine("b", "x", 2)), Ok(()));
    let r = Registry::from_rows(Vec::new(), vec![token("t", "h", "z"), token("t", "k", "z")]);
    assert_eq!(r.map(|_| ()), Err(DbError::DuplicateTokenId));
    let reg = Registry::from_rows(vec![machine("a", "x", 1)], vec![token("t", "h", "z")]).unwrap();
    assert_eq!(reg.machines().len(), 1);
    assert_eq!(reg.tokens().len(), 1);
}

#[test]
fn failures_say_what_is_wrong() {
    assert_eq!(DbError::NoMatch.message("web"), "no machine matches 'web' (try `omni ls`)");
    assert_eq!(DbError::Ambiguous(3).message("a"), "'a' is ambiguous (3 machines match)");
    assert_eq!(DbError::PortsExhausted.message(""), "port space exhausted");
    assert_eq!(DbError::NotFoundForUpdate.message("id"), "machine id not found for update");
    assert_eq!(DbError::UnknownMachine.message(""), "unknown machine");
    assert_eq!(DbError::BadSecret.message(""), "bad machine secret");
    assert_eq!(
        DbError::BadToken.message(""),
        "enrollment token is invalid, expired, or already used"
    );
    assert_eq!(DbError::ExpiryOutOfRange.message(""), "token expiry out of range");
    assert_eq!(DbError::DuplicateId.message(""), "UNIQUE constraint failed: machines.id");
    assert_eq!(DbError::DuplicatePort.message(""), "UNIQUE constraint failed: machines.port");
    assert_eq!(DbError::DuplicateName.message(""), "UNIQUE constraint failed: machines.name");
    assert_eq!(DbError::DuplicateTokenId.message(""), "UNIQUE constraint failed: tokens.id");
}
