//! Configuration for the rathole server and its clients.

use crate::config::Config;
use crate::db::{machine_views, Machine, MachineView};
use crate::text::{chars_of, decimal, decimal_digits, parse_u16, u16_spelled};
use vstd::prelude::*;

verus! {

/// The operating system as shown, or `?`.
pub open spec fn os_shown(os: Option<Seq<char>>) -> Seq<char> {
    match os {
        Some(s) => s,
        None => "?"@,
    }
}

/// The operating system as shown, or `?`.
pub fn os_or_unknown(m: &Machine) -> (s: &str)
    ensures
        s@ == os_shown(m@.os),
{
    match &m.os {
        Some(s) => s.as_str(),
        None => "?",
    }
}

/// One machine's stanza in server.toml.
pub open spec fn server_stanza(m: MachineView) -> Seq<char> {
    "\n# "@ + m.name + " ("@ + os_shown(m.os) + ")\n[server.services.\""@ + m.id
        + "\"]\ntoken = \""@ + m.service_token + "\"\nbind_addr = \""@ + m.bind_addr + ":"@
        + decimal_digits(m.port as nat) + "\"\n"@
}

/// The stanzas of the machines that are not deleted, in the order given.
pub open spec fn server_stanzas(ms: Seq<MachineView>) -> Seq<char>
    decreases ms.len(),
{
    if ms.len() == 0 {
        Seq::empty()
    } else if ms.last().deleted {
        server_stanzas(ms.drop_last())
    } else {
        server_stanzas(ms.drop_last()) + server_stanza(ms.last())
    }
}

pub open spec fn server_head(bind_addr: Seq<char>) -> Seq<char> {
    "# Managed by omni — hand edits are overwritten. Run `omni sync` to regenerate.\n"@
        + "[server]\n"@ + "bind_addr = \""@ + bind_addr + "\"\n"@
}

/// The server.toml of a fleet.
pub open spec fn server_toml(bind_addr: Seq<char>, ms: Seq<MachineView>) -> Seq<char> {
    server_head(bind_addr) + server_stanzas(ms)
}

fn render_stanza(m: &Machine) -> (s: String)
    ensures
        s@ == server_stanza(m@),
{
    let mut s = "\n# ".to_owned();
    s.append(m.name.as_str());
    s.append(" (");
    s.append(os_or_unknown(m));
    s.append(")\n[server.services.\"");
    s.append(m.id.as_str());
    s.append("\"]\ntoken = \"");
    s.append(m.service_token.as_str());
    s.append("\"\nbind_addr = \"");
    s.append(m.bind_addr.as_str());
    s.append(":");
    let port = decimal(m.port as u64);
    s.append(port.as_str());
    s.append("\"\n");
    s
}

/// The server.toml for these machines; deleted ones have no stanza.
pub fn render_server_toml(cfg: &Config, machines: &[Machine]) -> (out: String)
    ensures
        out@ == server_toml(
            cfg.rathole.bind_addr@,
            machine_views(machines@),
        ),
{
    let mut out =
        "# Managed by omni — hand edits are overwritten. Run `omni sync` to regenerate.\n".to_owned();
    out.append("[server]\n");
    out.append("bind_addr = \"");
    out.append(cfg.rathole.bind_addr.as_str());
    out.append("\"\n");
    let ghost head = out@;
    let ghost ms = machine_views(machines@);
    let mut i: usize = 0;
    assert(out@ =~= head + server_stanzas(ms.take(0)));
    while i < machines.len()
        invariant
            i <= machines@.len(),
            ms == machine_views(machines@),
            out@ == head + server_stanzas(ms.take(i as int)),
        decreases machines@.len() - i,
    {
        assert(ms.take(i + 1).drop_last() =~= ms.take(i as int));
        let ghost before = out@;
        if !machines[i].deleted {
            let stanza = render_stanza(&machines[i]);
            out.append(stanza.as_str());
            assert(out@ =~= head + (server_stanzas(ms.take(i as int)) + server_stanza(
                ms[i as int],
            )));
        }
        i = i + 1;
    }
    assert(ms.take(i as int) =~= ms);
    out
}

/// The client.toml of one machine.
pub open spec fn client_toml(
    remote_addr: Seq<char>,
    id: Seq<char>,
    service_token: Seq<char>,
) -> Seq<char> {
    "# Managed by omni — refresh with `omni update`.\n[client]\nremote_addr = \""@ + remote_addr
        + "\"\n\n[client.services.\""@ + id + "\"]\ntoken = \""@ + service_token
        + "\"\nlocal_addr = \"127.0.0.1:22\"\n"@
}

/// The client.toml with which a machine dials in.
pub fn render_client_toml(cfg: &Config, m: &Machine) -> (out: String)
    ensures
        out@ == client_toml(cfg.rathole.remote_addr@, m@.id, m@.service_token),
{
    let mut out =
        "# Managed by omni — refresh with `omni update`.\n[client]\nremote_addr = \"".to_owned();
    out.append(cfg.rathole.remote_addr.as_str());
    out.append("\"\n\n[client.services.\"");
    out.append(m.id.as_str());
    out.append("\"]\ntoken = \"");
    out.append(m.service_token.as_str());
    out.append("\"\nlocal_addr = \"127.0.0.1:22\"\n");
    out
}

/// What stands in `s` after its last colon; all of it where there is none.
pub open spec fn after_last_colon(s: Seq<char>) -> Seq<char>
    decreases s.len(),
{
    if s.len() == 0 || s.last() == ':' {
        Seq::empty()
    } else {
        after_last_colon(s.drop_last()).push(s.last())
    }
}

/// The port of an address, or 2333 where it ends in none.
pub open spec fn port_of_addr(addr: Seq<char>) -> u16 {
    match u16_spelled(after_last_colon(addr)) {
        Some(p) => p,
        None => 2333,
    }
}

proof fn lemma_after_last_colon(s: Seq<char>, at: int)
    requires
        0 <= at <= s.len(),
        at > 0 ==> s[at - 1] == ':',
        forall|j: int| at <= j < s.len() ==> s[j] != ':',
    ensures
        after_last_colon(s) == s.skip(at),
    decreases s.len(),
{
    if at < s.len() {
        lemma_after_last_colon(s.drop_last(), at);
        assert(s.drop_last().skip(at).push(s.last()) =~= s.skip(at));
    } else {
        assert(s.skip(at) =~= Seq::<char>::empty());
    }
}

/// Port of the rathole control endpoint as reachable from this host.
pub fn control_port(cfg: &Config) -> (p: u16)
    ensures
        p == port_of_addr(cfg.rathole.bind_addr@),
{
    let addr = cfg.rathole.bind_addr.as_str();
    let v = chars_of(addr);
    let mut at: usize = v.len();
    while at > 0 && v[at - 1] != ':'
        invariant
            at <= v@.len(),
            forall|j: int| at <= j < v@.len() ==> v@[j] != ':',
        ensures
            at <= v@.len(),
            forall|j: int| at <= j < v@.len() ==> v@[j] != ':',
            at > 0 ==> v@[at - 1] == ':',
        decreases at,
    {
        at = at - 1;
    }
    proof {
        lemma_after_last_colon(v@, at as int);
        assert(v@.skip(at as int) =~= v@.subrange(at as int, v@.len() as int));
    }
    match parse_u16(addr.substring_char(at, v.len())) {
        Some(p) => p,
        None => 2333,
    }
}

} // verus!
