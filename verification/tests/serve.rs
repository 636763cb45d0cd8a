use omni::config::{Config, HerdrCfg, RatholeCfg};
use omni::db::{insert_machine, machine_by_id, mark_deleted, Machine, Registry};
use omni::ops::Enrolled;
use omni::serve::{
    enroll_error, enroll_log, enroll_reply, get_config, get_config_at, heartbeat, heartbeat_at,
    install_ps1, install_sh, internal, machine_auth, render_config_reply, startup_checks, HttpReply,
};
use omni::util::sha256_hex;

fn config() -> Config {
    Config {
        db_path: "/tmp/x".to_string(),
        listen: "127.0.0.1:8070".to_string(),
        public_url: "https://omni.tld/".to_string(),
        port_start: 2201,
        rathole: RatholeCfg {
            config_path: "/tmp/server.toml".to_string(),
            bind_addr: "0.0.0.0:2333".to_string(),
            remote_addr: "omni.tld:2333".to_string(),
            version: "0.5.0".to_string(),
        },
        termix: None,
        herdr: HerdrCfg { install_url: "https://h/i.sh".to_string() },
    }
}

fn machine() -> Machine {
    Machine {
        id: "m1".to_string(),
        name: "web".to_string(),
        port: 2201,
        service_token: "tok".to_string(),
        secret_hash: sha256_hex("s3cret"),
        bind_addr: "127.0.0.1".to_string(),
        termix_host_id: None,
        os: Some("linux".to_string()),
        enrolled_at: "2026-01-01T00:00:00Z".to_string(),
        last_seen: None,
        deleted: false,
        marked_stale: false,
    }
}

fn registry() -> Registry {
    let mut reg = Registry::new();
    insert_machine(&mut reg, &machine()).unwrap();
    reg
}

fn says(r: &HttpReply, status: u16, headers: &[(&str, &str)], body: &str) {
    assert_eq!(r.status, status);
    let got: Vec<(&str, &str)> =
        r.headers.iter().map(|(k, v)| (k.as_str(), v.as_str())).collect();
    assert_eq!(got, headers);
    assert_eq!(r.body, body);
}

const CLIENT_TOML: &str = "# Managed by omni — refresh with `omni update`.\n[client]\n\
    remote_addr = \"omni.tld:2333\"\n\n[client.services.\"m1\"]\ntoken = \"tok\"\n\
    local_addr = \"127.0.0.1:22\"\n";

#[test]
fn enrolling_answers_with_everything_a_client_needs() {
    let e = Enrolled { machine: machine(), secret: "s3cret".to_string(), client_toml: "T\n".to_string() };
    says(
        &enroll_reply(&config(), &e),
        200,
        &[("content-type", "text/plain")],
        "OMNI-ENROLL-V1\nmachine_id=m1\nmachine_secret=s3cret\nname=web\nport=2201\n\
         rathole_version=0.5.0\n---BEGIN CLIENT TOML---\nT\n---END CLIENT TOML---\n",
    );
    assert_eq!(enroll_log(&e), "enrolled web (port 2201, linux)");
}

#[test]
fn only_token_problems_are_told() {
    says(
        &enroll_error("enrollment token is invalid, expired, or already used"),
        403,
        &[],
        "enrollment token is invalid, expired, or already used\n",
    );
    says(&enroll_error("port space exhausted"), 500, &[], "internal error\n");
    says(&internal(), 500, &[], "internal error\n");
}

#[test]
fn callers_show_id_and_secret() {
    let mut reg = registry();
    assert_eq!(machine_auth(&reg, Some("m1"), Some("s3cret")).unwrap().name, "web");
    let missing = "missing X-Omni-Machine / X-Omni-Secret headers\n";
    says(&machine_auth(&reg, None, Some("s3cret")).unwrap_err(), 401, &[], missing);
    says(&machine_auth(&reg, Some("m1"), None).unwrap_err(), 401, &[], missing);
    says(&machine_auth(&reg, None, None).unwrap_err(), 401, &[], missing);
    let bad = "bad machine credentials\n";
    says(&machine_auth(&reg, Some("m1"), Some("no")).unwrap_err(), 403, &[], bad);
    says(&machine_auth(&reg, Some("m2"), Some("s3cret")).unwrap_err(), 403, &[], bad);
    mark_deleted(&mut reg, "m1");
    says(&machine_auth(&reg, Some("m1"), Some("s3cret")).unwrap_err(), 403, &[], bad);
}

#[test]
fn config_is_fetched() {
    let mut reg = registry();
    let headers = [
        ("content-type", "text/plain"),
        ("x-omni-rathole-version", "0.5.0"),
        ("x-omni-port", "2201"),
        ("x-omni-name", "web"),
    ];
    says(&render_config_reply(&config(), &machine()), 200, &headers, CLIENT_TOML);
    let r = get_config_at(&mut reg, &config(), Some("m1"), Some("s3cret"), "2026-02-02T00:00:00Z");
    says(&r, 200, &headers, CLIENT_TOML);
    let seen = machine_by_id(&reg, "m1").unwrap().last_seen;
    assert_eq!(seen.as_deref(), Some("2026-02-02T00:00:00Z"));
    says(&get_config(&mut reg, &config(), Some("m1"), Some("s3cret")), 200, &headers, CLIENT_TOML);
    assert_ne!(machine_by_id(&reg, "m1").unwrap().last_seen, seen);
}

#[test]
fn heartbeats_note_the_time() {
    let mut reg = registry();
    let r = heartbeat_at(&mut reg, Some("m1"), Some("s3cret"), "2026-02-02T00:00:00Z");
    says(&r, 200, &[], "ok\n");
    let seen = machine_by_id(&reg, "m1").unwrap().last_seen;
    assert_eq!(seen.as_deref(), Some("2026-02-02T00:00:00Z"));
    says(&heartbeat(&mut reg, Some("m1"), Some("s3cret")), 200, &[], "ok\n");
    assert_eq!(machine_by_id(&reg, "m1").unwrap().last_seen.unwrap().len(), 20);
}

#[test]
fn refused_calls_leave_no_trace() {
    let mut reg = registry();
    let r = heartbeat_at(&mut reg, Some("m1"), Some("no"), "2026-02-02T00:00:00Z");
    says(&r, 403, &[], "bad machine credentials\n");
    let r = get_config_at(&mut reg, &config(), None, None, "2026-02-02T00:00:00Z");
    assert_eq!(r.status, 401);
    assert_eq!(machine_by_id(&reg, "m1").unwrap().last_seen, None);
}

#[test]
fn installers_are_filled_in() {
    let r = install_sh(
        &config(),
        "u=__OMNI_URL__ v=__RATHOLE_VERSION__ h=__HERDR_INSTALL_URL__ u=__OMNI_URL__\n",
    );
    says(
        &r,
        200,
        &[("content-type", "text/x-shellscript")],
        "u=https://omni.tld v=0.5.0 h=https://h/i.sh u=https://omni.tld\n",
    );
    says(
        &install_ps1(),
        404,
        &[],
        "# The PowerShell client isn't built yet (build plan phase 4).\n",
    );
}

#[test]
fn the_service_runs_only_with_what_it_needs() {
    let mut cfg = config();
    let ok: Result<(), String> = Ok(());
    assert_eq!(
        startup_checks(&cfg, &ok, true, &None),
        Ok(Some(
            "[termix] not configured — machines will tunnel but won't appear in the browser"
                .to_string()
        ))
    );
    assert_eq!(startup_checks(&cfg, &ok, true, &Some(Ok(()))), Ok(None));
    assert_eq!(
        startup_checks(&cfg, &Err("cannot write x".to_string()), false, &None),
        Err("rathole config not writable — is rathole set up? (omni doctor): cannot write x"
            .to_string())
    );
    cfg.rathole.bind_addr = "0.0.0.0:7000".to_string();
    assert_eq!(
        startup_checks(&cfg, &ok, false, &Some(Err("down".to_string()))),
        Err("rathole not reachable: nothing listening on 127.0.0.1:7000 — \
             is the rathole server running?"
            .to_string())
    );
    assert_eq!(
        startup_checks(&cfg, &ok, true, &Some(Err("down".to_string()))),
        Err("Termix not reachable — fix termix.url/api_key or remove [termix] from the config: down"
            .to_string())
    );
}
