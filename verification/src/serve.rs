//! What the HTTP endpoints answer.

use crate::clock::{is_some_stamp, now_rfc3339};
use crate::config::Config;
use crate::db::{
    auth_machine, authenticated, opt_str, opt_text, seen_at, touch_last_seen_at, with_row, Machine,
    MachineView, Registry, RegistryView,
};
use crate::json::member_views;
use crate::ops::{control_down, control_outcome, Enrolled};
use crate::rathole::{client_toml, os_or_unknown, os_shown, render_client_toml};
use crate::termix::result_unit;
use crate::text::{contains, decimal, decimal_digits, occurs, replace_all, replaced};
use vstd::prelude::*;

verus! {

/// An answer: its status, the headers it sets, and its body.
#[derive(Debug)]
pub struct HttpReply {
    pub status: u16,
    pub headers: Vec<(String, String)>,
    pub body: String,
}

/// What an answer says.
#[verifier::ext_equal]
pub struct HttpReplyView {
    pub status: u16,
    pub headers: Seq<(Seq<char>, Seq<char>)>,
    pub body: Seq<char>,
}

impl View for HttpReply {
    type V = HttpReplyView;

    open spec fn view(&self) -> HttpReplyView {
        HttpReplyView {
            status: self.status,
            headers: member_views(self.headers@),
            body: self.body@,
        }
    }
}

/// An answer without headers of its own.
pub open spec fn plain(status: u16, body: Seq<char>) -> HttpReplyView {
    HttpReplyView { status, headers: Seq::empty(), body }
}

fn plain_reply(status: u16, body: String) -> (r: HttpReply)
    ensures
        r@ == plain(status, body@),
{
    let r = HttpReply { status, headers: Vec::new(), body };
    assert(r@.headers =~= Seq::empty());
    r
}

fn one_header(status: u16, key: &str, value: &str, body: String) -> (r: HttpReply)
    ensures
        r@ == (HttpReplyView { status, headers: seq![(key@, value@)], body: body@ }),
{
    let mut headers: Vec<(String, String)> = Vec::new();
    headers.push((key.to_owned(), value.to_owned()));
    let r = HttpReply { status, headers, body };
    assert(r@.headers =~= seq![(key@, value@)]);
    r
}

/// The answer to a failure that is not the caller's.
pub fn internal() -> (r: HttpReply)
    ensures
        r@ == plain(500, "internal error\n"@),
{
    plain_reply(500, "internal error\n".to_owned())
}

// ----------------------------------------------------------------- startup ---
/// Whether the service may run, by what its probes found: whether server.toml could
/// be written, whether rathole listens on its control port, and whether Termix
/// answers, where it is configured. What to warn of, or why it may not.
pub open spec fn startup_outcome(
    cfg: Config,
    written: Result<(), Seq<char>>,
    control_up: bool,
    termix: Option<Result<(), Seq<char>>>,
) -> Result<Option<Seq<char>>, Seq<char>> {
    if written is Err {
        Err("rathole config not writable — is rathole set up? (omni doctor): "@ + written->Err_0)
    } else if control_outcome(cfg, control_up) is Err {
        Err("rathole not reachable: "@ + control_outcome(cfg, control_up)->Err_0)
    } else {
        match termix {
            None => Ok(
                Some(
                    "[termix] not configured — machines will tunnel but won't appear in the browser"@,
                ),
            ),
            Some(Ok(_)) => Ok(None),
            Some(Err(e)) => Err(
                "Termix not reachable — fix termix.url/api_key or remove [termix] from the config: "@
                    + e,
            ),
        }
    }
}

pub open spec fn opt_result_unit(o: Option<Result<(), String>>) -> Option<Result<(), Seq<char>>> {
    match o {
        Some(r) => Some(result_unit(r)),
        None => None,
    }
}

pub open spec fn result_warning(r: Result<Option<String>, String>) -> Result<
    Option<Seq<char>>,
    Seq<char>,
> {
    match r {
        Ok(w) => Ok(opt_text(w)),
        Err(e) => Err(e@),
    }
}

/// omni assumes rathole and Termix are already on this box; it refuses to run with
/// a clear error rather than limp along. Returns what to warn of.
pub fn startup_checks(
    cfg: &Config,
    written: &Result<(), String>,
    control_up: bool,
    termix: &Option<Result<(), String>>,
) -> (r: Result<Option<String>, String>)
    ensures
        result_warning(r) == startup_outcome(
            *cfg,
            result_unit(*written),
            control_up,
            opt_result_unit(*termix),
        ),
        r is Ok <==> written is Ok && control_up && (termix is None || termix->0 is Ok),
        r matches Ok(w) ==> (w is Some <==> termix is None),
{
    if let Err(e) = written {
        let mut s = "rathole config not writable — is rathole set up? (omni doctor): ".to_owned();
        s.append(e.as_str());
        return Err(s);
    }
    if !control_up {
        let mut s = "rathole not reachable: ".to_owned();
        s.append(control_down(cfg).as_str());
        return Err(s);
    }
    match termix {
        None => Ok(
            Some(
                "[termix] not configured — machines will tunnel but won't appear in the browser".to_owned(),
            ),
        ),
        Some(Ok(_)) => Ok(None),
        Some(Err(e)) => {
            let mut s =
                "Termix not reachable — fix termix.url/api_key or remove [termix] from the config: ".to_owned();
            s.append(e.as_str());
            Err(s)
        },
    }
}

// ---------------------------------------------------------------- handlers ---
/// What a machine gets back from enrolling.
pub open spec fn enroll_text(cfg: Config, e: Enrolled) -> Seq<char> {
    "OMNI-ENROLL-V1\nmachine_id="@ + e.machine@.id + "\nmachine_secret="@ + e.secret@ + "\nname="@
        + e.machine@.name + "\nport="@ + decimal_digits(e.machine@.port as nat)
        + "\nrathole_version="@ + cfg.rathole.version@ + "\n---BEGIN CLIENT TOML---\n"@
        + e.client_toml@ + "---END CLIENT TOML---\n"@
}

/// The answer to an enrollment that succeeded.
pub fn enroll_reply(cfg: &Config, e: &Enrolled) -> (r: HttpReply)
    ensures
        r@ == (HttpReplyView {
            status: 200,
            headers: seq![("content-type"@, "text/plain"@)],
            body: enroll_text(*cfg, *e),
        }),
{
    let mut s = "OMNI-ENROLL-V1\nmachine_id=".to_owned();
    s.append(e.machine.id.as_str());
    s.append("\nmachine_secret=");
    s.append(e.secret.as_str());
    s.append("\nname=");
    s.append(e.machine.name.as_str());
    s.append("\nport=");
    s.append(decimal(e.machine.port as u64).as_str());
    s.append("\nrathole_version=");
    s.append(cfg.rathole.version.as_str());
    s.append("\n---BEGIN CLIENT TOML---\n");
    s.append(e.client_toml.as_str());
    s.append("---END CLIENT TOML---\n");
    one_header(200, "content-type", "text/plain", s)
}

/// The answer to an enrollment that failed with `msg`. Token problems are the
/// caller's fault and safe to state plainly.
pub open spec fn enroll_refusal(msg: Seq<char>) -> HttpReplyView {
    if occurs(msg, "token"@) {
        plain(403, msg + "\n"@)
    } else {
        plain(500, "internal error\n"@)
    }
}

/// The answer to an enrollment that failed with `msg`.
pub fn enroll_error(msg: &str) -> (r: HttpReply)
    ensures
        r@ == enroll_refusal(msg@),
{
    if contains(msg, "token") {
        let mut s = msg.to_owned();
        s.append("\n");
        plain_reply(403, s)
    } else {
        internal()
    }
}

/// What is logged of an enrollment.
pub fn enroll_log(e: &Enrolled) -> (s: String)
    ensures
        s@ == "enrolled "@ + e.machine@.name + " (port "@ + decimal_digits(e.machine@.port as nat)
            + ", "@ + os_shown(e.machine@.os) + ")"@,
{
    let mut s = "enrolled ".to_owned();
    s.append(e.machine.name.as_str());
    s.append(" (port ");
    s.append(decimal(e.machine.port as u64).as_str());
    s.append(", ");
    s.append(os_or_unknown(&e.machine));
    s.append(")");
    s
}

/// The machine that calls, by the id and the secret in its headers, or the
/// answer that refuses it.
pub open spec fn admitted(
    ms: Seq<MachineView>,
    id: Option<Seq<char>>,
    secret: Option<Seq<char>>,
) -> Result<MachineView, HttpReplyView> {
    if id is None || secret is None {
        Err(plain(401, "missing X-Omni-Machine / X-Omni-Secret headers\n"@))
    } else {
        match authenticated(ms, id->0, secret->0) {
            Ok(m) => Ok(m),
            Err(_) => Err(plain(403, "bad machine credentials\n"@)),
        }
    }
}

/// Authenticates a caller by what its headers say.
pub fn machine_auth(reg: &Registry, id: Option<&str>, secret: Option<&str>) -> (r: Result<
    Machine,
    HttpReply,
>)
    ensures
        match admitted(reg@.machines, opt_str(id), opt_str(secret)) {
            Ok(m) => r matches Ok(x) && x@ == m,
            Err(e) => r matches Err(x) && x@ == e,
        },
{
    match (id, secret) {
        (Some(i), Some(s)) => match auth_machine(reg, i, s) {
            Ok(m) => Ok(m),
            Err(_) => Err(plain_reply(403, "bad machine credentials\n".to_owned())),
        },
        _ => Err(
            plain_reply(401, "missing X-Omni-Machine / X-Omni-Secret headers\n".to_owned()),
        ),
    }
}

/// The current client.toml of a machine, as an answer.
pub open spec fn config_reply(cfg: Config, m: MachineView) -> HttpReplyView {
    HttpReplyView {
        status: 200,
        headers: seq![
            ("content-type"@, "text/plain"@),
            ("x-omni-rathole-version"@, cfg.rathole.version@),
            ("x-omni-port"@, decimal_digits(m.port as nat)),
            ("x-omni-name"@, m.name),
        ],
        body: client_toml(cfg.rathole.remote_addr@, m.id, m.service_token),
    }
}

/// The answer that hands a machine its current client.toml.
pub fn render_config_reply(cfg: &Config, m: &Machine) -> (r: HttpReply)
    ensures
        r@ == config_reply(*cfg, m@),
{
    let mut headers: Vec<(String, String)> = Vec::new();
    headers.push(("content-type".to_owned(), "text/plain".to_owned()));
    headers.push(("x-omni-rathole-version".to_owned(), cfg.rathole.version.clone()));
    headers.push(("x-omni-port".to_owned(), decimal(m.port as u64)));
    headers.push(("x-omni-name".to_owned(), m.name.clone()));
    let r = HttpReply { status: 200, headers, body: render_client_toml(cfg, m) };
    assert(r@.headers =~= config_reply(*cfg, m@).headers);
    r
}

/// The registry after a call that its headers admit or do not.
pub open spec fn after_call(
    reg: RegistryView,
    id: Option<Seq<char>>,
    secret: Option<Seq<char>>,
    now: Seq<char>,
) -> RegistryView {
    match admitted(reg.machines, id, secret) {
        Ok(m) => with_row(reg, m.id, seen_at(now)),
        Err(_) => reg,
    }
}

/// The answer to `GET /config`.
pub open spec fn config_answer(
    cfg: Config,
    ms: Seq<MachineView>,
    id: Option<Seq<char>>,
    secret: Option<Seq<char>>,
) -> HttpReplyView {
    match admitted(ms, id, secret) {
        Ok(m) => config_reply(cfg, m),
        Err(e) => e,
    }
}

/// The answer to `POST /heartbeat`.
pub open spec fn heartbeat_answer(
    ms: Seq<MachineView>,
    id: Option<Seq<char>>,
    secret: Option<Seq<char>>,
) -> HttpReplyView {
    match admitted(ms, id, secret) {
        Ok(_) => plain(200, "ok\n"@),
        Err(e) => e,
    }
}

/// Answers `GET /config` at the time `now`: the caller's current client.toml.
pub fn get_config_at(
    reg: &mut Registry,
    cfg: &Config,
    id: Option<&str>,
    secret: Option<&str>,
    now: &str,
) -> (r: HttpReply)
    requires
        old(reg)@.wf(),
    ensures
        final(reg)@.wf(),
        r@ == config_answer(
            *cfg,
            old(reg)@.machines,
            opt_str(id),
            opt_str(secret),
        ),
        final(reg)@ == after_call(
            old(reg)@,
            opt_str(id),
            opt_str(secret),
            now@,
        ),
{
    match machine_auth(reg, id, secret) {
        Ok(m) => {
            touch_last_seen_at(reg, m.id.as_str(), now);
            render_config_reply(cfg, &m)
        },
        Err(e) => e,
    }
}

/// Answers `GET /config`.
pub fn get_config(
    reg: &mut Registry,
    cfg: &Config,
    id: Option<&str>,
    secret: Option<&str>,
) -> (r: HttpReply)
    requires
        old(reg)@.wf(),
    ensures
        final(reg)@.wf(),
        r@ == config_answer(
            *cfg,
            old(reg)@.machines,
            opt_str(id),
            opt_str(secret),
        ),
        exists|now: Seq<char>| #[trigger]
            is_some_stamp(now) && final(reg)@ == after_call(
                old(reg)@,
                opt_str(id),
                opt_str(secret),
                now,
            ),
{
    let now = now_rfc3339();
    get_config_at(reg, cfg, id, secret, now.as_str())
}

/// Answers `POST /heartbeat` at the time `now`.
pub fn heartbeat_at(reg: &mut Registry, id: Option<&str>, secret: Option<&str>, now: &str) -> (r:
    HttpReply)
    requires
        old(reg)@.wf(),
    ensures
        final(reg)@.wf(),
        r@ == heartbeat_answer(
            old(reg)@.machines,
            opt_str(id),
            opt_str(secret),
        ),
        final(reg)@ == after_call(
            old(reg)@,
            opt_str(id),
            opt_str(secret),
            now@,
        ),
{
    match machine_auth(reg, id, secret) {
        Ok(m) => {
            touch_last_seen_at(reg, m.id.as_str(), now);
            plain_reply(200, "ok\n".to_owned())
        },
        Err(e) => e,
    }
}

/// Answers `POST /heartbeat`.
pub fn heartbeat(reg: &mut Registry, id: Option<&str>, secret: Option<&str>) -> (r: HttpReply)
    requires
        old(reg)@.wf(),
    ensures
        final(reg)@.wf(),
        r@ == heartbeat_answer(
            old(reg)@.machines,
            opt_str(id),
            opt_str(secret),
        ),
        exists|now: Seq<char>| #[trigger]
            is_some_stamp(now) && final(reg)@ == after_call(
                old(reg)@,
                opt_str(id),
                opt_str(secret),
                now,
            ),
{
    let now = now_rfc3339();
    heartbeat_at(reg, id, secret, now.as_str())
}

/// The installer `script` with what it is told of this service filled in.
pub open spec fn filled_script(cfg: Config, script: Seq<char>) -> Seq<char> {
    replaced(
        replaced(
            replaced(script, "__OMNI_URL__"@, cfg.trimmed_url()),
            "__RATHOLE_VERSION__"@,
            cfg.rathole.version@,
        ),
        "__HERDR_INSTALL_URL__"@,
        cfg.herdr.install_url@,
    )
}

/// Answers `GET /install.sh` with the installer `script`, filled in.
pub fn install_sh(cfg: &Config, script: &str) -> (r: HttpReply)
    ensures
        r@ == (HttpReplyView {
            status: 200,
            headers: seq![("content-type"@, "text/x-shellscript"@)],
            body: filled_script(*cfg, script@),
        }),
{
    proof {
        reveal_strlit("__OMNI_URL__");
        reveal_strlit("__RATHOLE_VERSION__");
        reveal_strlit("__HERDR_INSTALL_URL__");
    }
    let one = replace_all(script, "__OMNI_URL__", cfg.public_url_trimmed());
    let two = replace_all(one.as_str(), "__RATHOLE_VERSION__", cfg.rathole.version.as_str());
    let three = replace_all(
        two.as_str(),
        "__HERDR_INSTALL_URL__",
        cfg.herdr.install_url.as_str(),
    );
    one_header(200, "content-type", "text/x-shellscript", three)
}

/// Answers `GET /install.ps1`: there is no PowerShell client yet.
pub fn install_ps1() -> (r: HttpReply)
    ensures
        r@ == plain(404, "# The PowerShell client isn't built yet (build plan phase 4).\n"@),
{
    plain_reply(404, "# The PowerShell client isn't built yet (build plan phase 4).\n".to_owned())
}

} // verus!
