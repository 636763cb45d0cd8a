use omni::config::{
    d_db_path, d_herdr_url, d_listen, d_port_start, d_rathole_bind, d_rathole_config,
    d_rathole_version, d_stale_after, Config, HerdrCfg, RatholeCfg,
};
use omni::db::Machine;
use omni::rathole::{control_port, os_or_unknown, render_client_toml, render_server_toml};

fn config(public_url: &str, bind_addr: &str) -> Config {
    Config {
        db_path: d_db_path(),
        listen: d_listen(),
        public_url: public_url.to_string(),
        port_start: d_port_start(),
        rathole: RatholeCfg {
            config_path: d_rathole_config(),
            bind_addr: bind_addr.to_string(),
            remote_addr: "omni.example.tld:2333".to_string(),
            version: d_rathole_version(),
        },
        termix: None,
        herdr: HerdrCfg::default(),
    }
}

fn machine(id: &str, port: u16, os: Option<&str>) -> Machine {
    Machine {
        id: id.to_string(),
        name: format!("box-{}", id),
        port,
        service_token: "tok".to_string(),
        secret_hash: "h".to_string(),
        bind_addr: "127.0.0.1".to_string(),
        termix_host_id: None,
        os: os.map(str::to_string),
        enrolled_at: "2026-01-01T00:00:00Z".to_string(),
        last_seen: None,
        deleted: false,
        marked_stale: false,
    }
}

#[test]
fn settings_have_defaults() {
    assert_eq!(d_db_path(), "/var/lib/omni/omni.db");
    assert_eq!(d_listen(), "127.0.0.1:8070");
    assert_eq!(d_port_start(), 2201);
    assert_eq!(d_rathole_config(), "/etc/rathole/server.toml");
    assert_eq!(d_rathole_bind(), "0.0.0.0:2333");
    assert_eq!(d_rathole_version(), "0.5.0");
    assert_eq!(d_stale_after(), 900);
    assert_eq!(d_herdr_url(), "https://herdr.dev/install.sh");
    assert_eq!(HerdrCfg::default().install_url, d_herdr_url());
}

#[test]
fn public_urls_lose_their_slashes() {
    assert_eq!(config("https://omni.tld//", "").public_url_trimmed(), "https://omni.tld");
    assert_eq!(config("https://omni.tld/x", "").public_url_trimmed(), "https://omni.tld/x");
    assert_eq!(config("///", "").public_url_trimmed(), "");
    assert_eq!(config("", "").public_url_trimmed(), "");
}

#[test]
fn server_toml_has_a_stanza_per_live_machine() {
    let mut gone = machine("c", 2203, None);
    gone.deleted = true;
    let fleet = [machine("a", 2201, Some("linux")), gone, machine("b", 2202, None)];
    assert_eq!(
        render_server_toml(&config("", "0.0.0.0:2333"), &fleet),
        "# Managed by omni — hand edits are overwritten. Run `omni sync` to regenerate.\n\
         [server]\n\
         bind_addr = \"0.0.0.0:2333\"\n\
         \n# box-a (linux)\n[server.services.\"a\"]\ntoken = \"tok\"\nbind_addr = \"127.0.0.1:2201\"\n\
         \n# box-b (?)\n[server.services.\"b\"]\ntoken = \"tok\"\nbind_addr = \"127.0.0.1:2202\"\n"
    );
}

#[test]
fn server_toml_of_an_empty_fleet_is_its_head() {
    assert_eq!(
        render_server_toml(&config("", "x"), &[]),
        "# Managed by omni — hand edits are overwritten. Run `omni sync` to regenerate.\n\
         [server]\nbind_addr = \"x\"\n"
    );
}

#[test]
fn client_toml_names_the_service_of_the_server() {
    assert_eq!(
        render_client_toml(&config("", ""), &machine("a", 2201, None)),
        "# Managed by omni — refresh with `omni update`.\n[client]\n\
         remote_addr = \"omni.example.tld:2333\"\n\n[client.services.\"a\"]\n\
         token = \"tok\"\nlocal_addr = \"127.0.0.1:22\"\n"
    );
}

#[test]
fn control_ports_end_the_address() {
    assert_eq!(control_port(&config("", "0.0.0.0:7000")), 7000);
    assert_eq!(control_port(&config("", "[::]:7001")), 7001);
    assert_eq!(control_port(&config("", "7002")), 7002);
    assert_eq!(control_port(&config("", "host:+7003")), 7003);
    assert_eq!(control_port(&config("", "0.0.0.0")), 2333);
    assert_eq!(control_port(&config("", "0.0.0.0:")), 2333);
    assert_eq!(control_port(&config("", "0.0.0.0:65536")), 2333);
    assert_eq!(control_port(&config("", "")), 2333);
}

#[test]
fn unknown_systems_show_as_a_question_mark() {
    assert_eq!(os_or_unknown(&machine("a", 1, Some("darwin"))), "darwin");
    assert_eq!(os_or_unknown(&machine("a", 1, None)), "?");
}
