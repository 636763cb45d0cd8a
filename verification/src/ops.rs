//! What the service does: enrolling, listing, renaming, revoking, and keeping
//! the stale markers.

use crate::clock::{
    age_at, age_secs_at, is_some_stamp, is_stamp, now_rfc3339, opt_secs, utc_now, Moment, MAX_SECS,
};
use crate::config::Config;
use crate::db::{
    borrow_opt, consume_token_at, consumed, consumed_hint, find_machine, first_index, found, hosted,
    insert_machine, insert_token, inserted, lemma_filter_order, lemma_first_index,
    lemma_is_first_index, live_with_id, live_with_id_prefix,
    live_with_name, machine_by_id, machine_by_name, machine_views, machine_where, mark_deleted,
    next_port, opt_str, opt_text, own_opt, port_after, result_machine, set_termix_host, token_added,
    update_machine, updated, updated_row, with_id, with_row, DbError, Machine, MachineView,
    Registry, RegistryView,
};
use crate::random::{is_hex_digit, is_uuid, new_uuid};
use crate::rathole::{
    client_toml, control_port, os_or_unknown, os_shown, port_of_addr, render_client_toml,
};
use crate::termix::{result_unit, HostPayload};
use crate::text::{
    decimal, decimal_digits, pad_left, pad_right, padded_left, padded_right, same, stands_at,
    starts_with, strip_both, trim_both, Strip,
};
use crate::util::{rand_hex, sanitize_name_or, sanitized, sha256_hex, sha256_text};
use vstd::prelude::*;
use vstd::utf8::{decode_utf8, encode_utf8, is_char_boundary};

verus! {

/// The name shown in Termix.
pub open spec fn display_name(m: MachineView) -> Seq<char> {
    if m.marked_stale {
        m.name + " (down)"@
    } else {
        m.name
    }
}

/// Name shown in Termix; stale machines get flagged so a dead tunnel doesn't
/// look like a broken connection.
pub fn termix_display_name(m: &Machine) -> (s: String)
    ensures
        s@ == display_name(m@),
{
    let mut s = m.name.clone();
    if m.marked_stale {
        s.append(" (down)");
    }
    s
}

// ------------------------------------------------------------------ enroll ---
/// What enrolling draws afresh: the machine's secret, its service token, an id
/// in case it is new, a name in case none is left, and the time.
#[derive(Debug)]
pub struct Fresh {
    pub secret: String,
    pub service_token: String,
    pub id: String,
    pub fallback: String,
    pub now: String,
}

pub open spec fn is_hex(s: Seq<char>) -> bool {
    forall|i: int| 0 <= i < s.len() ==> is_hex_digit(#[trigger] s[i])
}

impl Fresh {
    /// What every draw looks like.
    pub open spec fn drawn(self) -> bool {
        &&& self.secret@.len() == 64 && is_hex(self.secret@)
        &&& self.service_token@.len() == 64 && is_hex(self.service_token@)
        &&& is_uuid(self.id@)
        &&& self.fallback@.len() == 4 && is_hex(self.fallback@)
        &&& is_some_stamp(self.now@)
    }

    /// Draws afresh.
    pub fn draw() -> (f: Fresh)
        ensures
            f.drawn(),
    {
        let f = Fresh {
            secret: rand_hex(32),
            service_token: rand_hex(32),
            id: new_uuid(),
            fallback: rand_hex(2),
            now: now_rfc3339(),
        };
        assert(is_hex(f.secret@));
        assert(is_hex(f.service_token@));
        assert(is_hex(f.fallback@));
        f
    }
}

#[derive(Debug)]
pub struct Enrolled {
    pub machine: Machine,
    pub secret: String,
    pub client_toml: String,
}

/// The name asked for unless it is blank, else the token's hint, else `machine`.
pub open spec fn chosen_name(name: Option<Seq<char>>, hint: Option<Seq<char>>) -> Seq<char> {
    if name is Some && strip_both(name->0, Strip::White).len() > 0 {
        name->0
    } else if hint is Some {
        hint->0
    } else {
        "machine"@
    }
}

/// Machine `m` after it enrolled again: new secrets, seen now, not stale, and on
/// the operating system it names, if it names one.
pub open spec fn rejoined(
    m: MachineView,
    os: Option<Seq<char>>,
    f: Fresh,
    hash: Seq<char>,
) -> MachineView {
    MachineView {
        service_token: f.service_token@,
        secret_hash: hash,
        os: if os is Some {
            os
        } else {
            m.os
        },
        last_seen: Some(f.now@),
        marked_stale: false,
        ..m
    }
}

/// A machine that enrolled for the first time: on loopback, unknown to Termix.
pub open spec fn joined(
    name: Seq<char>,
    port: u16,
    os: Option<Seq<char>>,
    f: Fresh,
    hash: Seq<char>,
) -> MachineView {
    MachineView {
        id: f.id@,
        name,
        port,
        service_token: f.service_token@,
        secret_hash: hash,
        bind_addr: "127.0.0.1"@,
        termix_host_id: None,
        os,
        enrolled_at: f.now@,
        last_seen: Some(f.now@),
        deleted: false,
        marked_stale: false,
    }
}

/// The registry after a machine enrolled under `name` with a secret of this hash,
/// and that machine.
pub open spec fn placed(
    reg: RegistryView,
    port_start: u16,
    name: Seq<char>,
    os: Option<Seq<char>>,
    f: Fresh,
    hash: Seq<char>,
) -> (RegistryView, Result<MachineView, DbError>) {
    match first_index(reg.machines, live_with_name(name)) {
        Some(i) => {
            let m = rejoined(reg.machines[i], os, f, hash);
            (RegistryView { machines: reg.machines.update(i, m), ..reg }, Ok(m))
        },
        None => {
            let port = port_after(reg.machines, port_start);
            if port > 0xffff {
                (reg, Err(DbError::PortsExhausted))
            } else {
                let m = joined(name, port as u16, os, f, hash);
                match inserted(reg, m) {
                    Ok(next) => (next, Ok(m)),
                    Err(e) => (reg, Err(e)),
                }
            }
        },
    }
}

/// The registry after an enrollment with `token`, and the machine enrolled or
/// why there is none. A token is spent even where enrolling then fails.
pub open spec fn enrollment(
    reg: RegistryView,
    port_start: u16,
    token: Seq<char>,
    name: Option<Seq<char>>,
    os: Option<Seq<char>>,
    f: Fresh,
) -> (RegistryView, Result<MachineView, DbError>) {
    let spent = consumed(reg, token, f.now@);
    match consumed_hint(reg, token, f.now@) {
        Err(e) => (spent, Err(e)),
        Ok(hint) => placed(
            spent,
            port_start,
            sanitized(chosen_name(name, hint), f.fallback@),
            os,
            f,
            sha256_text(f.secret@),
        ),
    }
}

/// A live machine keeps its name and may be updated in all that updates touch.
pub proof fn lemma_update_own_row(reg: RegistryView, i: int, m: MachineView)
    requires
        reg.wf(),
        0 <= i < reg.machines.len(),
        !reg.machines[i].deleted,
        m.id == reg.machines[i].id,
        m.name == reg.machines[i].name,
    ensures
        first_index(reg.machines, with_id(m.id)) == Some(i),
        updated(reg, m) == Ok::<RegistryView, DbError>(
            RegistryView {
                machines: reg.machines.update(i, updated_row(reg.machines[i], m)),
                ..reg
            },
        ),
{
    assert forall|j: int| 0 <= j < i implies !with_id(m.id)(#[trigger] reg.machines[j]) by {
        assert(reg.machines[j].id != reg.machines[i].id);
    }
    lemma_is_first_index(reg.machines, with_id(m.id), i);
    assert forall|j: int|
        0 <= j < reg.machines.len() && j != i && !(
        #[trigger] reg.machines[j]).deleted implies reg.machines[j].name != m.name by {
        if j < i {
            assert(reg.machines[j].name != reg.machines[i].name);
        } else {
            assert(reg.machines[i].name != reg.machines[j].name);
        }
    }
}

fn pick_name<'a>(name: Option<&'a str>, hint: &'a Option<String>) -> (s: &'a str)
    ensures
        s@ == chosen_name(opt_str(name), opt_text(*hint)),
{
    if let Some(n) = name {
        if !trim_both(n, Strip::White).is_empty() {
            return n;
        }
    }
    match hint {
        Some(h) => h.as_str(),
        None => "machine",
    }
}

/// Enters a machine under `name` with a secret of this hash. An existing name is
/// updated, never duplicated, and both of its secrets rotate: the machine gets a
/// fresh client.toml anyway.
pub fn place(
    reg: &mut Registry,
    port_start: u16,
    name: String,
    os: Option<&str>,
    f: &Fresh,
    secret_hash: String,
) -> (r: Result<Machine, DbError>)
    requires
        old(reg)@.wf(),
    ensures
        final(reg)@.wf(),
        final(reg)@ == placed(old(reg)@, port_start, name@, opt_str(os), *f, secret_hash@).0,
        result_machine(r) == placed(
            old(reg)@,
            port_start,
            name@,
            opt_str(os),
            *f,
            secret_hash@,
        ).1,
{
    let ghost before = reg@;
    proof {
        lemma_first_index(before.machines, live_with_name(name@));
    }
    match machine_by_name(reg, name.as_str()) {
        Some(was) => {
            let ghost i = first_index(before.machines, live_with_name(name@))->0;
            let mut m = was;
            m.service_token = f.service_token.clone();
            m.secret_hash = secret_hash;
            if os.is_some() {
                m.os = own_opt(os);
            }
            m.last_seen = Some(f.now.clone());
            m.marked_stale = false;
            proof {
                lemma_update_own_row(before, i, m@);
                assert(m@ =~= rejoined(before.machines[i], opt_str(os), *f, secret_hash@));
                assert(updated_row(before.machines[i], m@) =~= m@);
            }
            match update_machine(reg, &m) {
                Ok(_) => Ok(m),
                Err(e) => Err(e),
            }
        },
        None => {
            let port = match next_port(reg, port_start) {
                Ok(p) => p,
                Err(e) => {
                    return Err(e);
                },
            };
            let m = Machine {
                id: f.id.clone(),
                name,
                port,
                service_token: f.service_token.clone(),
                secret_hash,
                bind_addr: "127.0.0.1".to_owned(),
                termix_host_id: None,
                os: own_opt(os),
                enrolled_at: f.now.clone(),
                last_seen: Some(f.now.clone()),
                deleted: false,
                marked_stale: false,
            };
            assert(m@ =~= joined(name@, port, opt_str(os), *f, secret_hash@));
            match insert_machine(reg, &m) {
                Ok(_) => Ok(m),
                Err(e) => Err(e),
            }
        },
    }
}

/// What an enrollment hands back.
pub open spec fn is_enrolled(e: Enrolled, m: MachineView, f: Fresh, cfg: Config) -> bool {
    &&& e.machine@ == m
    &&& e.secret@ == f.secret@
    &&& e.client_toml@ == client_toml(cfg.rathole.remote_addr@, m.id, m.service_token)
}

/// Enrolls a machine with what was drawn in `f`.
pub fn enroll_with(
    reg: &mut Registry,
    cfg: &Config,
    token: &str,
    name: Option<&str>,
    os: Option<&str>,
    f: Fresh,
) -> (r: Result<Enrolled, DbError>)
    requires
        old(reg)@.wf(),
    ensures
        final(reg)@.wf(),
        final(reg)@ == enrollment(
            old(reg)@,
            cfg.port_start,
            token@,
            opt_str(name),
            opt_str(os),
            f,
        ).0,
        match enrollment(old(reg)@, cfg.port_start, token@, opt_str(name), opt_str(os), f).1 {
            Ok(m) => r matches Ok(e) && is_enrolled(e, m, f, *cfg),
            Err(e) => r == Err::<Enrolled, DbError>(e),
        },
{
    let hint = match consume_token_at(reg, token, f.now.as_str()) {
        Ok(h) => h,
        Err(e) => {
            return Err(e);
        },
    };
    let name = sanitize_name_or(pick_name(name, &hint), f.fallback.as_str());
    let hash = sha256_hex(f.secret.as_str());
    match place(reg, cfg.port_start, name, os, &f, hash) {
        Ok(machine) => {
            let client_toml = render_client_toml(cfg, &machine);
            Ok(Enrolled { machine, secret: f.secret, client_toml })
        },
        Err(e) => Err(e),
    }
}

/// Enrolls a machine: a valid token buys a name, a port and fresh secrets.
pub fn enroll(
    reg: &mut Registry,
    cfg: &Config,
    token: &str,
    name: Option<&str>,
    os: Option<&str>,
) -> (r: Result<Enrolled, DbError>)
    requires
        old(reg)@.wf(),
    ensures
        final(reg)@.wf(),
        exists|f: Fresh|
            f.drawn() && final(reg)@ == (#[trigger] enrollment(
                old(reg)@,
                cfg.port_start,
                token@,
                opt_str(name),
                opt_str(os),
                f,
            )).0 && match enrollment(
                old(reg)@,
                cfg.port_start,
                token@,
                opt_str(name),
                opt_str(os),
                f,
            ).1 {
                Ok(m) => r matches Ok(e) && is_enrolled(e, m, f, *cfg),
                Err(e) => r == Err::<Enrolled, DbError>(e),
            },
{
    let f = Fresh::draw();
    enroll_with(reg, cfg, token, name, os, f)
}

// -------------------------------------------------------------- CLI verbs ---
/// Seconds for which an enrollment token can be used: fifteen minutes.
pub const TOKEN_TTL_SECS: i64 = 900;

/// What is printed of a new token: the one-liner that uses it.
pub open spec fn token_text(cfg: Config, token: Seq<char>) -> Seq<char> {
    "token (single-use, expires in 15 min):\n\n  curl -fsSL "@ + cfg.trimmed_url()
        + "/install.sh | sudo sh -s -- "@ + token
}

/// The one-liner that enrolls a machine with `token`.
pub fn token_one_liner(cfg: &Config, token: &str) -> (s: String)
    ensures
        s@ == token_text(*cfg, token@),
{
    let mut s = "token (single-use, expires in 15 min):\n\n  curl -fsSL ".to_owned();
    s.append(cfg.public_url_trimmed());
    s.append("/install.sh | sudo sh -s -- ");
    s.append(token);
    s
}

/// Mints an enrollment token; only its hash is kept. Returns what to print.
pub fn token_new(reg: &mut Registry, cfg: &Config, name: Option<&str>) -> (r: Result<
    String,
    DbError,
>)
    requires
        old(reg)@.wf(),
    ensures
        final(reg)@.wf(),
        exists|token: Seq<char>, id: Seq<char>, secs: i64|
            token.len() == 32 && is_hex(token) && is_uuid(id) && 0 <= secs <= MAX_SECS
                && match #[trigger] token_added(
                old(reg)@,
                id,
                sha256_text(token),
                opt_str(name),
                TOKEN_TTL_SECS as int,
                secs as int,
            ) {
                Ok(next) => r is Ok && r->Ok_0@ == token_text(*cfg, token) && final(reg)@ == next
                    && is_stamp(
                    final(reg)@.tokens.last().expires_at,
                    (secs + TOKEN_TTL_SECS) as i64,
                ),
                Err(e) => r == Err::<String, DbError>(e) && final(reg)@ == old(reg)@,
            },
{
    let token = rand_hex(16);
    assert(is_hex(token@));
    let hash = sha256_hex(token.as_str());
    match insert_token(reg, hash.as_str(), name, TOKEN_TTL_SECS) {
        Ok(_) => Ok(token_one_liner(cfg, token.as_str())),
        Err(e) => Err(e),
    }
}

/// An age in words.
pub open spec fn age_text(age: Option<int>) -> Seq<char> {
    match age {
        None => "never"@,
        Some(s) => if s < 0 {
            "future?"@
        } else if s < 90 {
            decimal_digits(s as nat) + "s ago"@
        } else if s < 5400 {
            decimal_digits((s / 60) as nat) + "m ago"@
        } else if s < 172800 {
            decimal_digits((s / 3600) as nat) + "h ago"@
        } else {
            decimal_digits((s / 86400) as nat) + "d ago"@
        },
    }
}

/// How long ago `ts` was, seen from `now`.
pub open spec fn age_shown(ts: Option<Seq<char>>, now: Moment) -> Seq<char> {
    age_text(
        match ts {
            Some(t) => age_at(t, now),
            None => None,
        },
    )
}

fn counted(n: i64, unit: &str) -> (s: String)
    requires
        n >= 0,
    ensures
        s@ == decimal_digits(n as nat) + unit@,
{
    let mut s = decimal(n as u64);
    s.append(unit);
    s
}

/// An age in words.
pub fn human_age_of(age: Option<i64>) -> (s: String)
    ensures
        s@ == age_text(opt_secs(age)),
{
    match age {
        None => "never".to_owned(),
        Some(n) => {
            if n < 0 {
                "future?".to_owned()
            } else if n < 90 {
                counted(n, "s ago")
            } else if n < 5400 {
                counted(n / 60, "m ago")
            } else if n < 172800 {
                counted(n / 3600, "h ago")
            } else {
                counted(n / 86400, "d ago")
            }
        },
    }
}

/// How long ago `ts` was, seen from `now`.
pub fn human_age_at(ts: Option<&str>, now: Moment) -> (s: String)
    requires
        now.valid(),
    ensures
        s@ == age_shown(opt_str(ts), now),
{
    match ts {
        None => human_age_of(None),
        Some(t) => human_age_of(age_secs_at(t, now)),
    }
}

/// How long ago `ts` was.
pub fn human_age(ts: Option<&str>) -> (s: String)
    ensures
        exists|now: Moment|
            now.from_clock() && s@ == #[trigger] age_shown(opt_str(ts), now),
{
    let now = utc_now();
    human_age_at(ts, now)
}

/// An id whose first eight bytes are whole characters.
pub open spec fn can_shorten(id: Seq<char>) -> bool {
    is_char_boundary(encode_utf8(id), 8)
}

/// The first eight bytes of an id.
pub open spec fn shortened(id: Seq<char>) -> Seq<char> {
    decode_utf8(encode_utf8(id).subrange(0, 8))
}

/// The first eight characters of an id.
pub fn short_id(id: &str) -> (s: &str)
    requires
        can_shorten(id@),
    ensures
        s@ == shortened(id@),
{
    let (s, _) = id.split_at(8);
    proof {
        vstd::utf8::encode_utf8_decode_utf8(s@);
    }
    s
}

pub open spec fn yes_no(b: bool) -> Seq<char> {
    if b {
        "yes"@
    } else {
        "no"@
    }
}

fn say_yes_no(b: bool) -> (s: &'static str)
    ensures
        s@ == yes_no(b),
{
    if b {
        "yes"
    } else {
        "no"
    }
}

/// The heading of the listing.
pub open spec fn ls_heading() -> Seq<char> {
    padded_right("NAME"@, 20) + " "@ + padded_left("PORT"@, 5) + "  "@ + padded_right("OS"@, 7)
        + " "@ + padded_right("CONNECTED"@, 10) + " "@ + padded_right("LAST SEEN"@, 12) + " ID"@
}

/// One machine's line in the listing.
pub open spec fn ls_line(m: MachineView, connected: bool, age: Seq<char>) -> Seq<char> {
    padded_right(m.name, 20) + " "@ + padded_left(decimal_digits(m.port as nat), 5) + "  "@
        + padded_right(os_shown(m.os), 7) + " "@ + padded_right(yes_no(connected), 10) + " "@
        + padded_right(age, 12) + " "@ + shortened(m.id) + (
    if m.bind_addr == "127.0.0.1"@ {
        Seq::empty()
    } else {
        "  [exposed]"@
    })
}

/// The listing of the live machines `ms`.
pub open spec fn listing(ms: Seq<MachineView>, connected: Seq<bool>, now: Moment) -> Seq<
    Seq<char>,
> {
    if ms.len() == 0 {
        seq!["no machines enrolled — mint a token with `omni token new`"@]
    } else {
        seq![ls_heading()] + Seq::new(
            ms.len(),
            |i: int| ls_line(ms[i], connected[i], age_shown(ms[i].last_seen, now)),
        )
    }
}

pub open spec fn lines(v: Seq<String>) -> Seq<Seq<char>> {
    v.map_values(|s: String| s@)
}

/// The heading of the listing.
pub fn heading() -> (s: String)
    ensures
        s@ == ls_heading(),
{
    let mut s = pad_right("NAME", 20);
    s.append(" ");
    s.append(pad_left("PORT", 5).as_str());
    s.append("  ");
    s.append(pad_right("OS", 7).as_str());
    s.append(" ");
    s.append(pad_right("CONNECTED", 10).as_str());
    s.append(" ");
    s.append(pad_right("LAST SEEN", 12).as_str());
    s.append(" ID");
    s
}

/// One machine's line in the listing; `age` says when it was last seen.
pub fn ls_row(m: &Machine, connected: bool, age: &str) -> (s: String)
    requires
        can_shorten(m@.id),
    ensures
        s@ == ls_line(m@, connected, age@),
{
    let mut s = pad_right(m.name.as_str(), 20);
    s.append(" ");
    s.append(pad_left(decimal(m.port as u64).as_str(), 5).as_str());
    s.append("  ");
    s.append(pad_right(os_or_unknown(m), 7).as_str());
    s.append(" ");
    s.append(pad_right(say_yes_no(connected), 10).as_str());
    s.append(" ");
    s.append(pad_right(age, 12).as_str());
    s.append(" ");
    s.append(short_id(m.id.as_str()));
    if !same(m.bind_addr.as_str(), "127.0.0.1") {
        s.append("  [exposed]");
    }
    assert(s@ =~= ls_line(m@, connected, age@));
    s
}

/// The lines of `omni ls`, seen from `now`; `connected` says for each machine
/// whether its port answers.
pub fn ls_at(machines: &Vec<Machine>, connected: &Vec<bool>, now: Moment) -> (out: Vec<String>)
    requires
        now.valid(),
        machines@.len() == connected@.len(),
        forall|i: int| 0 <= i < machines@.len() ==> can_shorten((#[trigger] machines@[i])@.id),
    ensures
        lines(out@) == listing(machine_views(machines@), connected@, now),
{
    let ghost ms = machine_views(machines@);
    let mut out: Vec<String> = Vec::new();
    if machines.len() == 0 {
        out.push("no machines enrolled — mint a token with `omni token new`".to_owned());
        assert(lines(out@) =~= listing(ms, connected@, now));
        return out;
    }
    out.push(heading());
    let mut i: usize = 0;
    while i < machines.len()
        invariant
            now.valid(),
            ms == machine_views(machines@),
            machines@.len() == connected@.len(),
            i <= machines@.len(),
            forall|i: int| 0 <= i < machines@.len() ==> can_shorten((#[trigger] machines@[i])@.id),
            lines(out@) == seq![ls_heading()] + Seq::new(
                i as nat,
                |k: int| ls_line(ms[k], connected@[k], age_shown(ms[k].last_seen, now)),
            ),
        decreases machines@.len() - i,
    {
        let ghost before = lines(out@);
        let age = human_age_at(borrow_opt(&machines[i].last_seen), now);
        out.push(ls_row(&machines[i], connected[i], age.as_str()));
        assert(lines(out@) =~= before.push(ls_line(ms[i as int], connected@[i as int], age@)));
        i = i + 1;
        assert(lines(out@) =~= seq![ls_heading()] + Seq::new(
            i as nat,
            |k: int| ls_line(ms[k], connected@[k], age_shown(ms[k].last_seen, now)),
        ));
    }
    out
}

/// The lines of `omni ls`: machines with name, port, os, connected, last seen.
pub fn ls(machines: &Vec<Machine>, connected: &Vec<bool>) -> (out: Vec<String>)
    requires
        machines@.len() == connected@.len(),
        forall|i: int| 0 <= i < machines@.len() ==> can_shorten((#[trigger] machines@[i])@.id),
    ensures
        exists|now: Moment|
            now.from_clock() && lines(out@) == #[trigger] listing(
                machine_views(machines@),
                connected@,
                now,
            ),
{
    let now = utc_now();
    ls_at(machines, connected, now)
}

/// What is shown of one machine.
pub open spec fn detail(m: MachineView, connected: bool, age: Seq<char>) -> Seq<Seq<char>> {
    seq![
        "name:        "@ + m.name,
        "id:          "@ + m.id,
        "port:        "@ + decimal_digits(m.port as nat) + " (bind "@ + m.bind_addr + ")"@,
        "os:          "@ + os_shown(m.os),
        "connected:   "@ + yes_no(connected),
        "enrolled:    "@ + m.enrolled_at,
        "last seen:   "@ + age,
        "termix host: "@ + (match m.termix_host_id {
            Some(h) => h,
            None => "-"@,
        }),
        "stale flag:  "@ + (if m.marked_stale {
            "down"@
        } else {
            "ok"@
        }),
    ]
}

fn labelled(label: &str, value: &str) -> (s: String)
    ensures
        s@ == label@ + value@,
{
    let mut s = label.to_owned();
    s.append(value);
    s
}

/// The lines of `omni show`; `age` says when the machine was last seen.
pub fn show_with(m: &Machine, connected: bool, age: &str) -> (out: Vec<String>)
    ensures
        lines(out@) == detail(m@, connected, age@),
{
    let mut port = labelled("port:        ", decimal(m.port as u64).as_str());
    port.append(" (bind ");
    port.append(m.bind_addr.as_str());
    port.append(")");
    let mut out: Vec<String> = Vec::new();
    out.push(labelled("name:        ", m.name.as_str()));
    out.push(labelled("id:          ", m.id.as_str()));
    out.push(port);
    out.push(labelled("os:          ", os_or_unknown(m)));
    out.push(labelled("connected:   ", say_yes_no(connected)));
    out.push(labelled("enrolled:    ", m.enrolled_at.as_str()));
    out.push(labelled("last seen:   ", age));
    match &m.termix_host_id {
        Some(h) => out.push(labelled("termix host: ", h.as_str())),
        None => out.push(labelled("termix host: ", "-")),
    }
    if m.marked_stale {
        out.push(labelled("stale flag:  ", "down"));
    } else {
        out.push(labelled("stale flag:  ", "ok"));
    }
    assert(lines(out@) =~= detail(m@, connected, age@));
    out
}

/// The lines of `omni show`.
pub fn show(m: &Machine, connected: bool) -> (out: Vec<String>)
    ensures
        exists|now: Moment|
            now.from_clock() && lines(out@) == detail(
                m@,
                connected,
                #[trigger] age_shown(m@.last_seen, now),
            ),
{
    let age = human_age(borrow_opt(&m.last_seen));
    show_with(m, connected, age.as_str())
}

/// Why a machine was not renamed.
#[derive(Debug)]
pub enum RenameError {
    Db(DbError),
    /// The name belongs to the live machine with this id.
    Taken(String),
}

/// Why a machine was not renamed.
pub enum RenameErrorView {
    Db(DbError),
    Taken(Seq<char>),
}

impl View for RenameError {
    type V = RenameErrorView;

    open spec fn view(&self) -> RenameErrorView {
        match self {
            RenameError::Db(e) => RenameErrorView::Db(*e),
            RenameError::Taken(id) => RenameErrorView::Taken(id@),
        }
    }
}

impl RenameError {
    /// The failure in words, where `needle` is what was asked for and `name` the
    /// name wanted.
    pub fn message(&self, needle: &str, name: &str) -> (s: String)
        requires
            self matches RenameError::Taken(id) ==> can_shorten(id@),
        ensures
            s@ == (match *self {
                RenameError::Db(e) => e.says(needle@),
                RenameError::Taken(id) => "name '"@ + name@ + "' is taken by machine "@ + shortened(
                    id@,
                ),
            }),
    {
        match self {
            RenameError::Db(e) => e.message(needle),
            RenameError::Taken(id) => {
                let mut s = "name '".to_owned();
                s.append(name);
                s.append("' is taken by machine ");
                s.append(short_id(id.as_str()));
                s
            },
        }
    }
}

/// The live machine that `needle` names, with this name, or why it cannot have it.
pub open spec fn renamed(
    ms: Seq<MachineView>,
    needle: Seq<char>,
    name: Seq<char>,
) -> Result<MachineView, RenameErrorView> {
    match found(ms, needle) {
        Err(e) => Err(RenameErrorView::Db(e)),
        Ok(m) => match machine_where(ms, live_with_name(name)) {
            Some(other) => if other.id != m.id {
                Err(RenameErrorView::Taken(other.id))
            } else {
                Ok(MachineView { name, ..m })
            },
            None => Ok(MachineView { name, ..m }),
        },
    }
}

/// The registry in which the row with `m`'s id says `m`.
pub open spec fn stored(reg: RegistryView, m: MachineView) -> RegistryView {
    match first_index(reg.machines, with_id(m.id)) {
        Some(i) => RegistryView { machines: reg.machines.update(i, m), ..reg },
        None => reg,
    }
}

/// What `found` finds is a live row, and the only one with its id.
pub proof fn lemma_found_is_live(reg: RegistryView, needle: Seq<char>)
    requires
        reg.wf(),
    ensures
        found(reg.machines, needle) matches Ok(m) ==> {
            &&& first_index(reg.machines, with_id(m.id)) matches Some(i)
            &&& 0 <= i < reg.machines.len()
            &&& reg.machines[i] == m
            &&& !m.deleted
        },
{
    let ms = reg.machines;
    lemma_first_index(ms, live_with_name(needle));
    lemma_first_index(ms, live_with_id(needle));
    if let Ok(m) = found(ms, needle) {
        let p = live_with_id_prefix(needle);
        assert(exists|i: int| 0 <= i < ms.len() && ms[i] == m && !m.deleted) by {
            if machine_where(ms, live_with_name(needle)) is Some {
                let i = first_index(ms, live_with_name(needle))->0;
                assert(ms[i] == m);
            } else if machine_where(ms, live_with_id(needle)) is Some {
                let i = first_index(ms, live_with_id(needle))->0;
                assert(ms[i] == m);
            } else {
                let at = lemma_filter_order(ms, p);
                assert(ms[at[0]] == m);
                assert(p(m));
            }
        }
        let i = choose|i: int| 0 <= i < ms.len() && ms[i] == m && !m.deleted;
        lemma_update_own_row(reg, i, m);
    }
}

/// Renames the machine that `needle` names to `name`, which is taken as it is.
pub fn rename_to(reg: &mut Registry, needle: &str, name: &str) -> (r: Result<Machine, RenameError>)
    requires
        old(reg)@.wf(),
    ensures
        final(reg)@.wf(),
        match renamed(old(reg)@.machines, needle@, name@) {
            Ok(m) => r matches Ok(n) && n@ == m && final(reg)@ == stored(old(reg)@, m),
            Err(e) => r matches Err(x) && x@ == e && final(reg)@ == old(reg)@,
        },
{
    let ghost before = reg@;
    proof {
        lemma_found_is_live(before, needle@);
        lemma_first_index(before.machines, live_with_name(name@));
    }
    let mut m = match find_machine(reg, needle) {
        Ok(m) => m,
        Err(e) => {
            return Err(RenameError::Db(e));
        },
    };
    let ghost was = m@;
    let ghost i = first_index(before.machines, with_id(was.id))->0;
    if let Some(other) = machine_by_name(reg, name) {
        if other.id != m.id {
            return Err(RenameError::Taken(other.id));
        }
    }
    m.name = name.to_owned();
    proof {
        let ms = before.machines;
        assert(m@ =~= MachineView { name: name@, ..was });
        assert forall|j: int| 0 <= j < ms.len() && j != i && !(
        #[trigger] ms[j]).deleted implies ms[j].name != name@ by {
            if ms[j].name == name@ {
                assert(live_with_name(name@)(ms[j]));
                let k = first_index(ms, live_with_name(name@))->0;
                assert(ms[k].id == was.id);
                assert(k == i) by {
                    if k < i {
                        assert(ms[k].id != ms[i].id);
                    } else if i < k {
                        assert(ms[i].id != ms[k].id);
                    }
                }
                assert(ms[i].name == name@);
                if i < j {
                    assert(ms[i].name != ms[j].name);
                } else {
                    assert(ms[j].name != ms[i].name);
                }
            }
        }
        assert(updated_row(ms[i], m@) =~= m@);
    }
    match update_machine(reg, &m) {
        Ok(_) => Ok(m),
        Err(e) => Err(RenameError::Db(e)),
    }
}

/// Renames a machine; the name is made safe first. The caller then updates the
/// Termix host.
pub fn rename(reg: &mut Registry, needle: &str, new_name: &str) -> (r: Result<
    Machine,
    RenameError,
>)
    requires
        old(reg)@.wf(),
    ensures
        final(reg)@.wf(),
        exists|fallback: Seq<char>|
            fallback.len() == 4 && is_hex(fallback) && match renamed(
                old(reg)@.machines,
                needle@,
                #[trigger] sanitized(new_name@, fallback),
            ) {
                Ok(m) => r is Ok && r->Ok_0@ == m && final(reg)@ == stored(old(reg)@, m),
                Err(e) => r is Err && r->Err_0@ == e && final(reg)@ == old(reg)@,
            },
{
    let fallback = rand_hex(2);
    assert(is_hex(fallback@));
    let name = sanitize_name_or(new_name, fallback.as_str());
    rename_to(reg, needle, name.as_str())
}

/// What is printed after a rename.
pub fn rename_message(name: &str) -> (s: String)
    ensures
        s@ == "renamed to "@ + name@ + " (Termix host updated)"@,
{
    let mut s = labelled("renamed to ", name);
    s.append(" (Termix host updated)");
    s
}

/// Revokes the machine that `needle` names, and hands back its row as it was.
pub fn rm(reg: &mut Registry, needle: &str) -> (r: Result<Machine, DbError>)
    requires
        old(reg)@.wf(),
    ensures
        final(reg)@.wf(),
        result_machine(r) == found(old(reg)@.machines, needle@),
        match found(old(reg)@.machines, needle@) {
            Ok(m) => final(reg)@ == stored(old(reg)@, MachineView { deleted: true, ..m }),
            Err(_) => final(reg)@ == old(reg)@,
        },
{
    let ghost before = reg@;
    proof {
        lemma_found_is_live(before, needle@);
    }
    match find_machine(reg, needle) {
        Ok(m) => {
            mark_deleted(reg, m.id.as_str());
            Ok(m)
        },
        Err(e) => Err(e),
    }
}

/// What is printed after a revocation.
pub fn rm_message(m: &Machine) -> (s: String)
    ensures
        s@ == "revoked "@ + m@.name
            + " — stanza dropped from server.toml, tunnel dies on next reconnect; port "@
            + decimal_digits(m@.port as nat) + " is retired"@,
{
    let mut s = labelled("revoked ", m.name.as_str());
    s.append(" — stanza dropped from server.toml, tunnel dies on next reconnect; port ");
    s.append(decimal(m.port as u64).as_str());
    s.append(" is retired");
    s
}

/// The address that a machine's port binds.
pub open spec fn bind_for(exposed: bool) -> Seq<char> {
    if exposed {
        "0.0.0.0"@
    } else {
        "127.0.0.1"@
    }
}

/// Binds a machine's port on every address, or back on loopback.
pub fn set_exposure(reg: &mut Registry, needle: &str, exposed: bool) -> (r: Result<
    Machine,
    DbError,
>)
    requires
        old(reg)@.wf(),
    ensures
        final(reg)@.wf(),
        match found(old(reg)@.machines, needle@) {
            Ok(m) => r matches Ok(n) && n@ == (MachineView { bind_addr: bind_for(exposed), ..m })
                && final(reg)@ == stored(old(reg)@, n@),
            Err(e) => r == Err::<Machine, DbError>(e) && final(reg)@ == old(reg)@,
        },
{
    let ghost before = reg@;
    proof {
        lemma_found_is_live(before, needle@);
    }
    match find_machine(reg, needle) {
        Ok(was) => {
            let ghost i = first_index(before.machines, with_id(was@.id))->0;
            let mut m = was;
            if exposed {
                m.bind_addr = "0.0.0.0".to_owned();
            } else {
                m.bind_addr = "127.0.0.1".to_owned();
            }
            proof {
                assert(m@ =~= MachineView { bind_addr: bind_for(exposed), ..before.machines[i] });
                lemma_update_own_row(before, i, m@);
                assert(updated_row(before.machines[i], m@) =~= m@);
            }
            match update_machine(reg, &m) {
                Ok(_) => Ok(m),
                Err(e) => Err(e),
            }
        },
        Err(e) => Err(e),
    }
}

/// What is printed after a change of exposure.
pub fn exposure_message(m: &Machine, exposed: bool) -> (s: String)
    ensures
        s@ == (if exposed {
            m@.name + " now binds 0.0.0.0:"@ + decimal_digits(m@.port as nat)
                + " — direct SSH from anywhere; open the port in the firewall yourself"@
        } else {
            m@.name + " back on loopback — only Termix reaches port "@ + decimal_digits(
                m@.port as nat,
            )
        }),
{
    let mut s = m.name.clone();
    if exposed {
        s.append(" now binds 0.0.0.0:");
        s.append(decimal(m.port as u64).as_str());
        s.append(" — direct SSH from anywhere; open the port in the firewall yourself");
    } else {
        s.append(" back on loopback — only Termix reaches port ");
        s.append(decimal(m.port as u64).as_str());
    }
    s
}

// ------------------------------------------------------------------- Termix ---
/// What Termix is told of a machine, if it is live: its row, and the host.
pub fn termix_host(reg: &Registry, machine_id: &str) -> (r: Option<(Machine, HostPayload)>)
    ensures
        match machine_where(reg@.machines, live_with_id(machine_id@)) {
            Some(m) => r matches Some(x) && x.0@ == m && x.1.name@ == display_name(m) && x.1.ip@
                == "127.0.0.1"@ && x.1.port == m.port,
            None => r is None,
        },
{
    match machine_by_id(reg, machine_id) {
        Some(m) => {
            let host = HostPayload {
                name: termix_display_name(&m),
                ip: "127.0.0.1".to_owned(),
                port: m.port,
            };
            Some((m, host))
        },
        None => None,
    }
}

/// The registry once the upsert of the host of a machine, read as `m` before it,
/// gave `host_id`: the id is stored unless it is the one known already. Whatever
/// else the machine's row says by now stays.
pub open spec fn host_stored(reg: RegistryView, m: MachineView, host_id: Seq<char>) -> RegistryView {
    if m.termix_host_id == Some(host_id) {
        reg
    } else {
        with_row(reg, m.id, hosted(host_id))
    }
}

/// Stores the id of a machine's Termix host, unless it is the one known already;
/// `m` is the machine as it was read before its host was upserted. The row may
/// have changed since: nothing but the host's id is written.
pub fn sync_termix_host(reg: &mut Registry, m: &Machine, host_id: &str) -> (r: Result<(), DbError>)
    requires
        old(reg)@.wf(),
    ensures
        final(reg)@.wf(),
        final(reg)@ == host_stored(old(reg)@, m@, host_id@),
        r == (if m@.termix_host_id == Some(host_id@) || first_index(
            old(reg)@.machines,
            with_id(m@.id),
        ) is Some {
            Ok(())
        } else {
            Err::<(), DbError>(DbError::NotFoundForUpdate)
        }),
{
    if let Some(known) = &m.termix_host_id {
        if same(known.as_str(), host_id) {
            return Ok(());
        }
    }
    set_termix_host(reg, m.id.as_str(), host_id)
}

/// What is printed of one machine's reconciliation with Termix.
pub open spec fn sync_line(name: Seq<char>, outcome: Result<(), String>) -> Seq<char> {
    match outcome {
        Ok(_) => "termix: "@ + name + " ok"@,
        Err(e) => "termix: "@ + name + " FAILED: "@ + e@,
    }
}

/// The lines of `omni sync`: where server.toml went, and how each machine's
/// Termix host fared, unless Termix is not configured.
pub open spec fn sync_lines(
    path: Seq<char>,
    outcomes: Option<Seq<(String, Result<(), String>)>>,
) -> Seq<Seq<char>> {
    seq!["server.toml regenerated at "@ + path] + (match outcomes {
        None => seq!["termix: not configured, skipped"@],
        Some(os) => Seq::new(os.len(), |i: int| sync_line(os[i].0@, os[i].1)),
    })
}

/// What is printed of one machine's reconciliation with Termix.
pub fn outcome_line(name: &str, outcome: &Result<(), String>) -> (s: String)
    ensures
        s@ == sync_line(name@, *outcome),
{
    let mut s = labelled("termix: ", name);
    match outcome {
        Ok(_) => {
            s.append(" ok");
        },
        Err(e) => {
            s.append(" FAILED: ");
            s.append(e.as_str());
        },
    }
    s
}

/// The lines of `omni sync`; `outcomes` holds each machine's name and how its
/// Termix host fared.
pub fn sync(path: &str, outcomes: &Option<Vec<(String, Result<(), String>)>>) -> (out: Vec<String>)
    ensures
        lines(out@) == sync_lines(
            path@,
            match *outcomes {
                Some(v) => Some(v@),
                None => None,
            },
        ),
{
    let mut out: Vec<String> = Vec::new();
    out.push(labelled("server.toml regenerated at ", path));
    let ghost head = seq!["server.toml regenerated at "@ + path@];
    assert(lines(out@) =~= head);
    match outcomes {
        None => {
            out.push("termix: not configured, skipped".to_owned());
            assert(lines(out@) =~= head + seq!["termix: not configured, skipped"@]);
        },
        Some(v) => {
            let mut i: usize = 0;
            assert(lines(out@) =~= head + Seq::new(
                0 as nat,
                |k: int| sync_line(v@[k].0@, v@[k].1),
            ));
            while i < v.len()
                invariant
                    i <= v@.len(),
                    lines(out@) == head + Seq::new(
                        i as nat,
                        |k: int| sync_line(v@[k].0@, v@[k].1),
                    ),
                decreases v@.len() - i,
            {
                let ghost before = lines(out@);
                out.push(outcome_line(v[i].0.as_str(), &v[i].1));
                assert(lines(out@) =~= before.push(sync_line(v@[i as int].0@, v@[i as int].1)));
                i = i + 1;
                assert(lines(out@) =~= head + Seq::new(
                    i as nat,
                    |k: int| sync_line(v@[k].0@, v@[k].1),
                ));
            }
        },
    }
    out
}

// ------------------------------------------------------------------- doctor ---
/// What the probes of `omni doctor` found.
#[derive(Debug)]
pub struct Probes {
    /// How many machines the database holds, or what is wrong with it.
    pub database: Result<usize, String>,
    /// Whether server.toml could be written; an outer error where the machines
    /// for it could not be read.
    pub rathole: Result<Result<(), String>, String>,
    /// Whether something listens on the control port.
    pub control_up: bool,
    /// Whether Termix answers, where it is configured.
    pub termix: Option<Result<(), String>>,
}

/// One line of the report.
pub open spec fn check_line(name: Seq<char>, outcome: Result<Seq<char>, Seq<char>>) -> Seq<char> {
    match outcome {
        Ok(detail) => "  ok   "@ + name + ": "@ + detail,
        Err(e) => "  FAIL "@ + name + ": "@ + e,
    }
}

pub open spec fn database_outcome(cfg: Config, p: Probes) -> Result<Seq<char>, Seq<char>> {
    match p.database {
        Ok(n) => Ok(cfg.db_path@ + " ("@ + decimal_digits(n as nat) + " machines)"@),
        Err(e) => Err(e@),
    }
}

pub open spec fn rathole_outcome(cfg: Config, written: Result<(), String>) -> Result<
    Seq<char>,
    Seq<char>,
> {
    match written {
        Ok(_) => Ok(cfg.rathole.config_path@ + " writable, regenerated"@),
        Err(e) => Err(e@),
    }
}

pub open spec fn control_outcome(cfg: Config, up: bool) -> Result<Seq<char>, Seq<char>> {
    let port = decimal_digits(port_of_addr(cfg.rathole.bind_addr@) as nat);
    if up {
        Ok("listening on :"@ + port)
    } else {
        Err(
            "nothing listening on 127.0.0.1:"@ + port
                + " — is the rathole server running?"@,
        )
    }
}

pub open spec fn termix_outcome(cfg: Config, answered: Result<(), String>) -> Result<
    Seq<char>,
    Seq<char>,
> {
    match answered {
        Ok(_) => Ok(cfg.termix->0.url@),
        Err(e) => Err(e@),
    }
}

pub open spec fn url_outcome(cfg: Config) -> Result<Seq<char>, Seq<char>> {
    if stands_at(cfg.public_url@, "http"@, 0) {
        Ok(cfg.trimmed_url())
    } else {
        Err("'"@ + cfg.public_url@ + "' is not a URL"@)
    }
}

pub open spec fn termix_line(cfg: Config, p: Probes) -> Seq<char> {
    match p.termix {
        Some(answered) => check_line("termix"@, termix_outcome(cfg, answered)),
        None => "  --   termix: not configured (machines won't appear in the browser)"@,
    }
}

/// Some check failed.
pub open spec fn any_failed(cfg: Config, p: Probes, written: Result<(), String>) -> bool {
    ||| p.database is Err
    ||| written is Err
    ||| !p.control_up
    ||| (p.termix is Some && p.termix->0 is Err)
    ||| url_outcome(cfg) is Err
}

/// The report, and what the command ends with.
pub open spec fn diagnosis(cfg: Config, p: Probes) -> (Seq<Seq<char>>, Result<(), Seq<char>>) {
    let first = check_line("database"@, database_outcome(cfg, p));
    match p.rathole {
        Err(e) => (seq![first], Err(e@)),
        Ok(written) => {
            let report = seq![
                first,
                check_line("rathole config"@, rathole_outcome(cfg, written)),
                check_line("rathole control"@, control_outcome(cfg, p.control_up)),
                termix_line(cfg, p),
                check_line("public_url"@, url_outcome(cfg)),
            ];
            if any_failed(cfg, p, written) {
                (report, Err("doctor found problems"@))
            } else {
                (report.push("all good"@), Ok(()))
            }
        },
    }
}

/// What is wrong where nothing listens on the control port.
pub fn control_down(cfg: &Config) -> (s: String)
    ensures
        control_outcome(*cfg, false) == Err::<Seq<char>, Seq<char>>(s@),
{
    let port = decimal(control_port(cfg) as u64);
    let mut s = labelled("nothing listening on 127.0.0.1:", port.as_str());
    s.append(" — is the rathole server running?");
    s
}

fn ok_line(name: &str, detail: &str) -> (s: String)
    ensures
        s@ == check_line(name@, Ok(detail@)),
{
    let mut s = labelled("  ok   ", name);
    s.append(": ");
    s.append(detail);
    s
}

fn fail_line(name: &str, e: &str) -> (s: String)
    ensures
        s@ == check_line(name@, Err(e@)),
{
    let mut s = labelled("  FAIL ", name);
    s.append(": ");
    s.append(e);
    s
}

/// rathole reachable? Termix API? config writable? The lines of the report, and
/// what the command ends with.
pub fn doctor(cfg: &Config, p: &Probes) -> (r: (Vec<String>, Result<(), String>))
    requires
        p.termix is Some ==> cfg.termix is Some,
    ensures
        lines(r.0@) == diagnosis(*cfg, *p).0,
        result_unit(r.1) == diagnosis(*cfg, *p).1,
{
    let mut out: Vec<String> = Vec::new();
    let mut failed = false;
    match &p.database {
        Ok(n) => {
            let mut detail = labelled(cfg.db_path.as_str(), " (");
            detail.append(decimal(*n as u64).as_str());
            detail.append(" machines)");
            out.push(ok_line("database", detail.as_str()));
        },
        Err(e) => {
            failed = true;
            out.push(fail_line("database", e.as_str()));
        },
    }
    let written = match &p.rathole {
        Ok(w) => w,
        Err(e) => {
            assert(lines(out@) =~= diagnosis(*cfg, *p).0);
            return (out, Err(e.clone()));
        },
    };
    match written {
        Ok(_) => {
            let detail = labelled(cfg.rathole.config_path.as_str(), " writable, regenerated");
            out.push(ok_line("rathole config", detail.as_str()));
        },
        Err(e) => {
            failed = true;
            out.push(fail_line("rathole config", e.as_str()));
        },
    }
    if p.control_up {
        let port = decimal(control_port(cfg) as u64);
        let detail = labelled("listening on :", port.as_str());
        out.push(ok_line("rathole control", detail.as_str()));
    } else {
        failed = true;
        out.push(fail_line("rathole control", control_down(cfg).as_str()));
    }
    match &p.termix {
        Some(Ok(_)) => {
            if let Some(t) = &cfg.termix {
                out.push(ok_line("termix", t.url.as_str()));
            }
        },
        Some(Err(e)) => {
            failed = true;
            out.push(fail_line("termix", e.as_str()));
        },
        None => {
            out.push(
                "  --   termix: not configured (machines won't appear in the browser)".to_owned(),
            );
        },
    }
    if starts_with(cfg.public_url.as_str(), "http") {
        out.push(ok_line("public_url", cfg.public_url_trimmed()));
    } else {
        failed = true;
        let mut e = labelled("'", cfg.public_url.as_str());
        e.append("' is not a URL");
        out.push(fail_line("public_url", e.as_str()));
    }
    if failed {
        assert(lines(out@) =~= diagnosis(*cfg, *p).0);
        (out, Err("doctor found problems".to_owned()))
    } else {
        out.push("all good".to_owned());
        assert(lines(out@) =~= diagnosis(*cfg, *p).0);
        (out, Ok(()))
    }
}

// ----------------------------------------------------------------- staleness --
/// When a machine was last heard of: its last heartbeat, or its enrollment.
pub open spec fn last_heard(m: MachineView) -> Seq<char> {
    match m.last_seen {
        Some(ts) => ts,
        None => m.enrolled_at,
    }
}

/// Seconds since a machine was last heard of; 0 where that cannot be read.
pub open spec fn silence(m: MachineView, now: Moment) -> int {
    match age_at(last_heard(m), now) {
        Some(age) => age,
        None => 0,
    }
}

/// A machine not heard of for more than `threshold` seconds.
pub open spec fn is_stale(m: MachineView, threshold: i64, now: Moment) -> bool {
    silence(m, now) > threshold
}

/// The stale marker set to this.
pub open spec fn marked(stale: bool) -> spec_fn(MachineView) -> MachineView {
    |m: MachineView| MachineView { marked_stale: stale, ..m }
}

/// What the stale marker of a machine that was read as `m` flips to, where it is
/// not `stale` and the machine is still live.
pub open spec fn flip_to(ms: Seq<MachineView>, m: MachineView, stale: bool) -> Option<bool> {
    if stale == m.marked_stale || machine_where(ms, live_with_id(m.id)) is None {
        None
    } else {
        Some(stale)
    }
}

/// What the stale marker of a machine that was read as `m` flips to at `now`.
pub open spec fn flip(
    ms: Seq<MachineView>,
    m: MachineView,
    threshold: i64,
    now: Moment,
) -> Option<bool> {
    flip_to(ms, m, is_stale(m, threshold, now))
}

/// The registry after a sweep at `now` over the machines read as `ms`, one by one.
pub open spec fn swept(
    reg: RegistryView,
    ms: Seq<MachineView>,
    threshold: i64,
    now: Moment,
) -> RegistryView
    decreases ms.len(),
{
    if ms.len() == 0 {
        reg
    } else {
        let so_far = swept(reg, ms.drop_last(), threshold, now);
        match flip(so_far.machines, ms.last(), threshold, now) {
            Some(stale) => with_row(so_far, ms.last().id, marked(stale)),
            None => so_far,
        }
    }
}

/// Whether a machine last heard of `age` seconds ago is stale; one that has no
/// age is not, unless any is.
pub fn stale_by_age(age: Option<i64>, threshold: i64) -> (r: bool)
    ensures
        r == (match age {
            Some(a) => a > threshold,
            None => 0 > threshold,
        }),
{
    let secs: i64 = match age {
        Some(a) => a,
        None => 0,
    };
    secs > threshold
}

/// Whether a machine is stale at `now`.
pub fn stale_at(m: &Machine, threshold: i64, now: Moment) -> (r: bool)
    requires
        now.valid(),
    ensures
        r == is_stale(m@, threshold, now),
{
    let age = match &m.last_seen {
        Some(ts) => age_secs_at(ts.as_str(), now),
        None => age_secs_at(m.enrolled_at.as_str(), now),
    };
    stale_by_age(age, threshold)
}

/// Sets the stale marker of a machine, read as `m`, where it flips and the
/// machine is still live. Returns the new marker where it flipped.
pub fn set_stale(reg: &mut Registry, m: &Machine, stale: bool) -> (r: Option<bool>)
    requires
        old(reg)@.wf(),
    ensures
        final(reg)@.wf(),
        r == flip_to(old(reg)@.machines, m@, stale),
        final(reg)@ == (match r {
            Some(stale) => with_row(old(reg)@, m@.id, marked(stale)),
            None => old(reg)@,
        }),
{
    let ghost before = reg@;
    if stale == m.marked_stale {
        return None;
    }
    proof {
        lemma_first_index(before.machines, live_with_id(m@.id));
    }
    match machine_by_id(reg, m.id.as_str()) {
        None => None,
        Some(was) => {
            let ghost i = first_index(before.machines, live_with_id(m@.id))->0;
            let mut fresh = was;
            fresh.marked_stale = stale;
            proof {
                lemma_update_own_row(before, i, fresh@);
                assert(fresh@ =~= marked(stale)(before.machines[i]));
                assert(updated_row(before.machines[i], fresh@) =~= fresh@);
            }
            match update_machine(reg, &fresh) {
                Ok(_) => Some(stale),
                Err(_) => None,
            }
        },
    }
}

/// Flips the stale marker of one machine, read as `m`, as heartbeats stop and
/// resume. Returns the new marker where it flipped, for Termix to be told.
pub fn stale_sweep_at(reg: &mut Registry, m: &Machine, threshold: i64, now: Moment) -> (r: Option<
    bool,
>)
    requires
        old(reg)@.wf(),
        now.valid(),
    ensures
        final(reg)@.wf(),
        r == flip(old(reg)@.machines, m@, threshold, now),
        final(reg)@ == (match r {
            Some(stale) => with_row(old(reg)@, m@.id, marked(stale)),
            None => old(reg)@,
        }),
{
    let stale = stale_at(m, threshold, now);
    set_stale(reg, m, stale)
}

/// Flips the stale marker of one machine, read as `m`, as it is now.
pub fn stale_sweep(reg: &mut Registry, m: &Machine, threshold: i64) -> (r: Option<bool>)
    requires
        old(reg)@.wf(),
    ensures
        final(reg)@.wf(),
        exists|now: Moment|
            now.from_clock() && r == #[trigger] flip(
                old(reg)@.machines,
                m@,
                threshold,
                now,
            ),
        final(reg)@ == (match r {
            Some(stale) => with_row(old(reg)@, m@.id, marked(stale)),
            None => old(reg)@,
        }),
{
    let now = utc_now();
    stale_sweep_at(reg, m, threshold, now)
}

/// Which of the machines read as `ms` a sweep at `now` flips, by their places, and
/// to what.
pub open spec fn flips(
    reg: RegistryView,
    ms: Seq<MachineView>,
    threshold: i64,
    now: Moment,
) -> Seq<(int, bool)>
    decreases ms.len(),
{
    if ms.len() == 0 {
        Seq::empty()
    } else {
        let past = ms.drop_last();
        let so_far = flips(reg, past, threshold, now);
        match flip(swept(reg, past, threshold, now).machines, ms.last(), threshold, now) {
            Some(stale) => so_far.push((past.len() as int, stale)),
            None => so_far,
        }
    }
}

pub open spec fn flip_views(v: Seq<(usize, bool)>) -> Seq<(int, bool)> {
    v.map_values(|f: (usize, bool)| (f.0 as int, f.1))
}

/// Flips the stale markers of the machines read as `ms`, one by one. Returns which
/// flipped, by their places in `ms`, and to what, for Termix to be told.
pub fn sweep_at(reg: &mut Registry, ms: &Vec<Machine>, threshold: i64, now: Moment) -> (told: Vec<
    (usize, bool),
>)
    requires
        old(reg)@.wf(),
        now.valid(),
    ensures
        final(reg)@.wf(),
        final(reg)@ == swept(old(reg)@, machine_views(ms@), threshold, now),
        flip_views(told@) == flips(old(reg)@, machine_views(ms@), threshold, now),
{
    let ghost before = reg@;
    let ghost views = machine_views(ms@);
    let mut told: Vec<(usize, bool)> = Vec::new();
    let mut i: usize = 0;
    assert(flip_views(told@) =~= flips(before, views.take(0), threshold, now));
    while i < ms.len()
        invariant
            now.valid(),
            reg@.wf(),
            views == machine_views(ms@),
            i <= ms@.len(),
            reg@ == swept(before, views.take(i as int), threshold, now),
            flip_views(told@) == flips(before, views.take(i as int), threshold, now),
        decreases ms@.len() - i,
    {
        let ghost so_far = flip_views(told@);
        proof {
            assert(views.take(i + 1).drop_last() =~= views.take(i as int));
            assert(views.take(i + 1).last() == ms@[i as int]@);
        }
        if let Some(stale) = stale_sweep_at(reg, &ms[i], threshold, now) {
            told.push((i, stale));
            assert(flip_views(told@) =~= so_far.push((i as int, stale)));
        }
        i = i + 1;
    }
    assert(views.take(i as int) =~= views);
    told
}

/// Flips the stale markers of the machines read as `ms`, as they are now.
pub fn sweep(reg: &mut Registry, ms: &Vec<Machine>, threshold: i64) -> (told: Vec<(usize, bool)>)
    requires
        old(reg)@.wf(),
    ensures
        final(reg)@.wf(),
        exists|now: Moment|
            now.from_clock() && final(reg)@ == swept(
                old(reg)@,
                machine_views(ms@),
                threshold,
                now,
            ) && flip_views(told@) == #[trigger] flips(
                old(reg)@,
                machine_views(ms@),
                threshold,
                now,
            ),
{
    let now = utc_now();
    sweep_at(reg, ms, threshold, now)
}

/// What is printed after a stale marker flipped.
pub fn stale_message(name: &str, stale: bool) -> (s: String)
    ensures
        s@ == name@ + " marked "@ + (if stale {
            "down"@
        } else {
            "up"@
        }) + " in Termix"@,
{
    let mut s = name.to_owned();
    s.append(" marked ");
    if stale {
        s.append("down");
    } else {
        s.append("up");
    }
    s.append(" in Termix");
    s
}

} // verus!
