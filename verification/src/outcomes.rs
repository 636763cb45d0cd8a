//! What callers can rely on: laws on what the operations hand back, read off their
//! results.

use crate::clock::{age_secs_at, in_four_digit_years, is_stamp, rfc3339_moment, Moment};
use crate::config::Config;
use crate::db::{
    first_index, found, machine_views, opt_str, opt_text, with_id, Machine, MachineView,
    Registry,
};
use crate::ops::{
    can_shorten, check_line, control_down, control_outcome, database_outcome, detail, doctor,
    heading, human_age_at, human_age_of, lemma_found_is_live, lines, ls_at, ls_row,
    rathole_outcome, rename_to, renamed, shortened, show_with, stored, termix_line,
    termix_outcome, url_outcome, yes_no, Enrolled, Probes, RenameError, RenameErrorView,
};
use crate::rathole::{control_port, os_shown, render_client_toml};
use crate::serve::{enroll_reply, enroll_text, render_config_reply, HttpReply};
use crate::termix::{HostPayload, Method, Request, Termix, Upsert};
use crate::text::{
    decimal, decimal_digits, pad_left, pad_right, padded_left, padded_right, stands_at,
};
use vstd::prelude::*;
use vstd::utf8::encode_utf8;

verus! {

// ------------------------------------------------------------------ reading ---
/// The number that decimal digits spell.
pub open spec fn number(s: Seq<char>) -> int
    decreases s.len(),
{
    if s.len() == 0 {
        0
    } else {
        10 * number(s.drop_last()) + (s.last() as int - '0' as int)
    }
}

/// `s` spells `n` in decimal, without leading zeros.
pub open spec fn spells(s: Seq<char>, n: int) -> bool {
    &&& s.len() > 0
    &&& forall|i: int| 0 <= i < s.len() ==> '0' <= #[trigger] s[i] <= '9'
    &&& number(s) == n
    &&& s[0] == '0' ==> s.len() == 1
}

/// `s` is one line of text.
pub open spec fn one_line(s: Seq<char>) -> bool {
    !s.contains('\n')
}

/// How long the first line of `s` is.
pub open spec fn line_len(s: Seq<char>) -> nat
    decreases s.len(),
{
    if s.len() == 0 || s[0] == '\n' {
        0
    } else {
        1 + line_len(s.drop_first())
    }
}

/// `s` starts with `head`.
pub open spec fn begins(s: Seq<char>, head: Seq<char>) -> bool {
    head.len() <= s.len() && s.take(head.len() as int) == head
}

/// What the first line of `s` that starts with `key` says after it.
pub open spec fn field(s: Seq<char>, key: Seq<char>) -> Option<Seq<char>>
    decreases s.len(),
{
    let n = line_len(s) as int;
    let line = s.take(n);
    if begins(line, key) {
        Some(line.skip(key.len() as int))
    } else if n >= s.len() {
        None
    } else {
        field(s.skip(n + 1), key)
    }
}

proof fn lemma_line_len(line: Seq<char>, rest: Seq<char>)
    requires
        one_line(line),
    ensures
        line_len(line + seq!['\n'] + rest) == line.len(),
    decreases line.len(),
{
    let s = line + seq!['\n'] + rest;
    if line.len() > 0 {
        let tail = line.drop_first();
        assert forall|i: int| 0 <= i < tail.len() implies tail[i] != '\n' by {
            assert(tail[i] == line[i + 1]);
            assert(line.contains(line[i + 1]));
        }
        lemma_line_len(tail, rest);
        assert(s.drop_first() =~= tail + seq!['\n'] + rest);
        assert(line.contains(line[0]));
        assert(s[0] == line[0]);
    } else {
        assert(s[0] == '\n');
    }
}

/// Reading skips a line that does not start with the key, and stops at one that does.
pub proof fn lemma_field(line: Seq<char>, rest: Seq<char>, key: Seq<char>)
    requires
        one_line(line),
    ensures
        field(line + seq!['\n'] + rest, key) == (if begins(line, key) {
            Some(line.skip(key.len() as int))
        } else {
            field(rest, key)
        }),
{
    let s = line + seq!['\n'] + rest;
    lemma_line_len(line, rest);
    assert(s.take(line.len() as int) =~= line);
    assert(s.skip(line.len() as int + 1) =~= rest);
}

/// Decimal digits spell their number.
pub proof fn lemma_spells(n: nat)
    ensures
        spells(decimal_digits(n), n as int),
        n > 0 ==> decimal_digits(n)[0] != '0',
    decreases n,
{
    let s = decimal_digits(n);
    if n < 10 {
        assert(s.drop_last() =~= Seq::<char>::empty());
        assert(number(s.drop_last()) == 0);
        assert(number(s) == n);
    } else {
        lemma_spells(n / 10);
        assert(s.drop_last() =~= decimal_digits(n / 10));
        assert(s[0] == decimal_digits(n / 10)[0]);
    }
}

/// A number that is written reads back.
pub proof fn law_numbers_read_back(n: u64, s: String)
    requires
        call_ensures(decimal, (n,), s),
    ensures
        spells(s@, n as int),
{
    lemma_spells(n as nat);
}

/// Two pieces of one line make one line.
pub proof fn lemma_one_line_joined(a: Seq<char>, b: Seq<char>)
    requires
        one_line(a),
        one_line(b),
    ensures
        one_line(a + b),
{
    assert forall|i: int| 0 <= i < (a + b).len() implies (a + b)[i] != '\n' by {
        if i < a.len() {
            assert(a.contains(a[i]));
        } else {
            assert(b.contains(b[i - a.len()]));
        }
    }
}

/// A line that starts with the key gives what follows it.
pub proof fn lemma_field_here(key: Seq<char>, value: Seq<char>, rest: Seq<char>)
    requires
        one_line(key),
        one_line(value),
    ensures
        field(key + value + seq!['\n'] + rest, key) == Some(value),
{
    lemma_one_line_joined(key, value);
    lemma_field(key + value, rest, key);
    assert((key + value).take(key.len() as int) =~= key);
    assert((key + value).skip(key.len() as int) =~= value);
}

/// A line whose tag differs from the key is passed over.
pub proof fn lemma_field_past(tag: Seq<char>, value: Seq<char>, rest: Seq<char>, key: Seq<char>, k: int)
    requires
        one_line(tag),
        one_line(value),
        0 <= k < tag.len(),
        k < key.len(),
        tag[k] != key[k],
    ensures
        field(tag + value + seq!['\n'] + rest, key) == field(rest, key),
{
    lemma_one_line_joined(tag, value);
    lemma_field(tag + value, rest, key);
    let line = tag + value;
    if begins(line, key) {
        assert(line.take(key.len() as int)[k] == tag[k]);
    }
}

// -------------------------------------------------------------- POST /enroll ---
/// What an answer to an enrollment says, line by line.
proof fn lemma_enroll_lines(cfg: Config, e: Enrolled, rest: Seq<char>)
    requires
        rest == "---BEGIN CLIENT TOML---\n"@ + e.client_toml@ + "---END CLIENT TOML---\n"@,
    ensures
        ({
            let nl = seq!['\n'];
            let version = "rathole_version="@ + cfg.rathole.version@ + nl + rest;
            let port = "port="@ + decimal_digits(e.machine@.port as nat) + nl + version;
            let name = "name="@ + e.machine@.name + nl + port;
            let secret = "machine_secret="@ + e.secret@ + nl + name;
            let id = "machine_id="@ + e.machine@.id + nl + secret;
            enroll_text(cfg, e) == "OMNI-ENROLL-V1"@ + Seq::<char>::empty() + nl + id
        }),
{
    let nl = seq!['\n'];
    reveal_strlit("OMNI-ENROLL-V1\nmachine_id=");
    reveal_strlit("OMNI-ENROLL-V1");
    reveal_strlit("machine_id=");
    reveal_strlit("\nmachine_secret=");
    reveal_strlit("machine_secret=");
    reveal_strlit("\nname=");
    reveal_strlit("name=");
    reveal_strlit("\nport=");
    reveal_strlit("port=");
    reveal_strlit("\nrathole_version=");
    reveal_strlit("rathole_version=");
    reveal_strlit("\n---BEGIN CLIENT TOML---\n");
    reveal_strlit("---BEGIN CLIENT TOML---\n");
    assert("OMNI-ENROLL-V1\nmachine_id="@ =~= "OMNI-ENROLL-V1"@ + nl + "machine_id="@);
    assert("\nmachine_secret="@ =~= nl + "machine_secret="@);
    assert("\nname="@ =~= nl + "name="@);
    assert("\nport="@ =~= nl + "port="@);
    assert("\nrathole_version="@ =~= nl + "rathole_version="@);
    assert("\n---BEGIN CLIENT TOML---\n"@ =~= nl + "---BEGIN CLIENT TOML---\n"@);
    lemma_reassociate(
        "OMNI-ENROLL-V1"@,
        "machine_id="@,
        e.machine@.id,
        "machine_secret="@,
        e.secret@,
        "name="@,
        e.machine@.name,
        "port="@,
        decimal_digits(e.machine@.port as nat),
        "rathole_version="@,
        cfg.rathole.version@,
        "---BEGIN CLIENT TOML---\n"@,
        e.client_toml@,
        "---END CLIENT TOML---\n"@,
    );
}

proof fn lemma_reassociate(
    a: Seq<char>,
    b: Seq<char>,
    c: Seq<char>,
    d: Seq<char>,
    e: Seq<char>,
    f: Seq<char>,
    g: Seq<char>,
    h: Seq<char>,
    i: Seq<char>,
    j: Seq<char>,
    k: Seq<char>,
    l: Seq<char>,
    m: Seq<char>,
    n: Seq<char>,
)
    ensures
        ({
            let nl = seq!['\n'];
            (a + nl + b) + c + (nl + d) + e + (nl + f) + g + (nl + h) + i + (nl + j) + k + (nl + l) + m
                + n == a + Seq::<char>::empty() + nl + (b + c + nl + (d + e + nl + (f + g + nl + (h + i + nl + (j
                + k + nl + (l + m + n))))))
        }),
{
    let nl = seq!['\n'];
    let s5 = l + m + n;
    let s4 = j + k + nl + s5;
    let s3 = h + i + nl + s4;
    let s2 = f + g + nl + s3;
    let s1 = d + e + nl + s2;
    let t1 = (a + nl + b) + c;
    let t2 = t1 + (nl + d) + e;
    let t3 = t2 + (nl + f) + g;
    let t4 = t3 + (nl + h) + i;
    let t5 = t4 + (nl + j) + k;
    assert(t5 + (nl + l) + m + n =~= t5 + (nl + s5));
    assert(t5 + (nl + s5) =~= t4 + (nl + s4));
    assert(t4 + (nl + s4) =~= t3 + (nl + s3));
    assert(t3 + (nl + s3) =~= t2 + (nl + s2));
    assert(t2 + (nl + s2) =~= t1 + (nl + s1));
    assert(t1 + (nl + s1) =~= a + Seq::<char>::empty() + nl + (b + c + nl + s1));
}

/// A machine reads from the answer to its enrollment its own id, secret, name and
/// port, the version to install, and its client.toml.
pub proof fn law_enroll_answer_reads_back(cfg: &Config, e: &Enrolled, r: HttpReply)
    requires
        call_ensures(enroll_reply, (cfg, e), r),
        one_line(e.machine.id@),
        one_line(e.secret@),
        one_line(e.machine.name@),
        one_line(cfg.rathole.version@),
    ensures
        r.status == 200,
        r.headers@.len() == 1,
        r.headers@[0].0@ == "content-type"@ && r.headers@[0].1@ == "text/plain"@,
        begins(r.body@, "OMNI-ENROLL-V1\n"@),
        field(r.body@, "machine_id="@) == Some(e.machine.id@),
        field(r.body@, "machine_secret="@) == Some(e.secret@),
        field(r.body@, "name="@) == Some(e.machine.name@),
        field(r.body@, "rathole_version="@) == Some(cfg.rathole.version@),
        field(r.body@, "port="@) is Some,
        spells(field(r.body@, "port="@)->0, e.machine.port as int),
        exists|head: Seq<char>|
            r.body@ == #[trigger] (head + "---BEGIN CLIENT TOML---\n"@) + e.client_toml@
                + "---END CLIENT TOML---\n"@,
{
    let nl = seq!['\n'];
    let digits = decimal_digits(e.machine.port as nat);
    lemma_spells(e.machine.port as nat);
    let rest = "---BEGIN CLIENT TOML---\n"@ + e.client_toml@ + "---END CLIENT TOML---\n"@;
    lemma_enroll_lines(*cfg, *e, rest);
    let version = "rathole_version="@ + cfg.rathole.version@ + nl + rest;
    let port = "port="@ + digits + nl + version;
    let name = "name="@ + e.machine.name@ + nl + port;
    let secret = "machine_secret="@ + e.secret@ + nl + name;
    let id = "machine_id="@ + e.machine.id@ + nl + secret;
    let none = Seq::<char>::empty();
    reveal_strlit("OMNI-ENROLL-V1");
    reveal_strlit("machine_id=");
    reveal_strlit("machine_secret=");
    reveal_strlit("name=");
    reveal_strlit("port=");
    reveal_strlit("rathole_version=");
    let first = "OMNI-ENROLL-V1"@;
    assert(one_line(digits)) by {
        if digits.contains('\n') {
            let i = choose|i: int| 0 <= i < digits.len() && digits[i] == '\n';
            assert('0' <= digits[i]);
        }
    }
    assert(one_line(none));
    lemma_field_past(first, none, id, "machine_id="@, 0);
    lemma_field_here("machine_id="@, e.machine.id@, secret);
    lemma_field_past(first, none, id, "machine_secret="@, 0);
    lemma_field_past("machine_id="@, e.machine.id@, secret, "machine_secret="@, 8);
    lemma_field_here("machine_secret="@, e.secret@, name);
    lemma_field_past(first, none, id, "name="@, 0);
    lemma_field_past("machine_id="@, e.machine.id@, secret, "name="@, 0);
    lemma_field_past("machine_secret="@, e.secret@, name, "name="@, 0);
    lemma_field_here("name="@, e.machine.name@, port);
    lemma_field_past(first, none, id, "port="@, 0);
    lemma_field_past("machine_id="@, e.machine.id@, secret, "port="@, 0);
    lemma_field_past("machine_secret="@, e.secret@, name, "port="@, 0);
    lemma_field_past("name="@, e.machine.name@, port, "port="@, 0);
    lemma_field_here("port="@, digits, version);
    lemma_field_past(first, none, id, "rathole_version="@, 0);
    lemma_field_past("machine_id="@, e.machine.id@, secret, "rathole_version="@, 0);
    lemma_field_past("machine_secret="@, e.secret@, name, "rathole_version="@, 0);
    lemma_field_past("name="@, e.machine.name@, port, "rathole_version="@, 0);
    lemma_field_past("port="@, digits, version, "rathole_version="@, 0);
    lemma_field_here("rathole_version="@, cfg.rathole.version@, rest);
    let v = r@.headers;
    assert(v.len() == 1);
    assert(v[0] == (r.headers@[0].0@, r.headers@[0].1@));
    reveal_strlit("OMNI-ENROLL-V1\n");
    reveal_strlit("OMNI-ENROLL-V1\nmachine_id=");
    assert(r.body@.take(15) =~= "OMNI-ENROLL-V1\n"@);
    let head = enroll_text(*cfg, *e).take(enroll_text(*cfg, *e).len() - rest.len());
    assert(enroll_text(*cfg, *e).skip(enroll_text(*cfg, *e).len() - rest.len()) =~= rest);
    assert(r.body@ =~= (head + "---BEGIN CLIENT TOML---\n"@) + e.client_toml@
        + "---END CLIENT TOML---\n"@);
}

/// `GET /config` hands a machine its own name and port, the version to install and
/// the client.toml that is rendered for it.
pub proof fn law_config_answer_is_the_machines(cfg: &Config, m: &Machine, r: HttpReply, toml: String)
    requires
        call_ensures(render_config_reply, (cfg, m), r),
        call_ensures(render_client_toml, (cfg, m), toml),
    ensures
        r.status == 200,
        r.body@ == toml@,
        r.headers@.len() == 4,
        r.headers@[0].0@ == "content-type"@ && r.headers@[0].1@ == "text/plain"@,
        r.headers@[1].0@ == "x-omni-rathole-version"@ && r.headers@[1].1@ == cfg.rathole.version@,
        r.headers@[2].0@ == "x-omni-port"@ && spells(r.headers@[2].1@, m.port as int),
        r.headers@[3].0@ == "x-omni-name"@ && r.headers@[3].1@ == m.name@,
{
    lemma_spells(m.port as nat);
    let v = r@.headers;
    assert(v.len() == 4);
    assert(v[0] == (r.headers@[0].0@, r.headers@[0].1@));
    assert(v[1] == (r.headers@[1].0@, r.headers@[1].1@));
    assert(v[2] == (r.headers@[2].0@, r.headers@[2].1@));
    assert(v[3] == (r.headers@[3].0@, r.headers@[3].1@));
}

/// Where two machines differ in their port, so do the answers to their enrollment, and
/// in nothing else: each has its own port behind the same start and before the same end.
pub proof fn law_the_port_is_the_machines_own(
    cfg: &Config,
    one: &Enrolled,
    two: &Enrolled,
    r: HttpReply,
    o: HttpReply,
)
    requires
        call_ensures(enroll_reply, (cfg, one), r),
        call_ensures(enroll_reply, (cfg, two), o),
        one.machine.id@ == two.machine.id@ && one.machine.name@ == two.machine.name@,
        one.secret@ == two.secret@ && one.client_toml@ == two.client_toml@,
    ensures
        exists|head: Seq<char>, a: Seq<char>, b: Seq<char>, tail: Seq<char>|
            {
                &&& r.body@ == #[trigger] (head + a + tail)
                &&& o.body@ == #[trigger] (head + b + tail)
                &&& spells(a, one.machine.port as int)
                &&& spells(b, two.machine.port as int)
                &&& head.skip(head.len() - 6) == "\nport="@
                &&& tail[0] == '\n'
            },
{
    let head = "OMNI-ENROLL-V1\nmachine_id="@ + one.machine.id@ + "\nmachine_secret="@
        + one.secret@ + "\nname="@ + one.machine.name@ + "\nport="@;
    let tail = "\nrathole_version="@ + cfg.rathole.version@ + "\n---BEGIN CLIENT TOML---\n"@
        + one.client_toml@ + "---END CLIENT TOML---\n"@;
    let a = decimal_digits(one.machine.port as nat);
    let b = decimal_digits(two.machine.port as nat);
    lemma_spells(one.machine.port as nat);
    lemma_spells(two.machine.port as nat);
    reveal_strlit("\nport=");
    reveal_strlit("\nrathole_version=");
    assert(head.skip(head.len() - 6) =~= "\nport="@);
    assert(tail[0] == '\n');
    assert(r.body@ =~= head + a + tail);
    assert(o.body@ =~= head + b + tail);
}

/// The port a machine is told when it enrolls is the port that `GET /config` tells
/// it, whatever port the fleet starts at; machines on different ports are told
/// different ports.
pub proof fn law_ports_told_agree(
    cfg: &Config,
    later: &Config,
    e: &Enrolled,
    r: HttpReply,
    c: HttpReply,
    other: &Enrolled,
    o: HttpReply,
)
    requires
        call_ensures(enroll_reply, (cfg, e), r),
        call_ensures(render_config_reply, (later, &e.machine), c),
        call_ensures(enroll_reply, (cfg, other), o),
        one_line(e.machine.id@) && one_line(e.secret@) && one_line(e.machine.name@),
        one_line(other.machine.id@) && one_line(other.secret@) && one_line(other.machine.name@),
        one_line(cfg.rathole.version@),
    ensures
        field(r.body@, "port="@) == Some(c.headers@[2].1@),
        field(r.body@, "port="@) == field(o.body@, "port="@) <==> e.machine.port
            == other.machine.port,
{
    law_enroll_answer_reads_back(cfg, e, r);
    law_enroll_answer_reads_back(cfg, other, o);
    let v = c@.headers;
    assert(v.len() == 4);
    assert(v[2] == (c.headers@[2].0@, c.headers@[2].1@));
    lemma_spells(e.machine.port as nat);
    lemma_spelled_once(field(r.body@, "port="@)->0, c.headers@[2].1@, e.machine.port as int);
    if e.machine.port == other.machine.port {
        lemma_spelled_once(
            field(r.body@, "port="@)->0,
            field(o.body@, "port="@)->0,
            e.machine.port as int,
        );
    }
}

/// A number is spelled in one way.
proof fn lemma_spelled_once(a: Seq<char>, b: Seq<char>, n: int)
    requires
        spells(a, n),
        spells(b, n),
    ensures
        a == b,
    decreases a.len(),
{
    lemma_number_bounds(a);
    lemma_number_bounds(b);
    let x = a.last() as int - '0' as int;
    let y = b.last() as int - '0' as int;
    let (a0, b0) = (a.drop_last(), b.drop_last());
    assert('0' <= a[a.len() - 1] <= '9');
    assert('0' <= b[b.len() - 1] <= '9');
    assert(x == y && number(a0) == number(b0)) by (nonlinear_arith)
        requires
            10 * number(a0) + x == 10 * number(b0) + y,
            0 <= x <= 9,
            0 <= y <= 9,
    ;
    if a.len() == 1 {
        assert(number(a0) == 0);
        if b.len() > 1 {
            lemma_number_bounds(b0);
            assert(b0[0] == b[0]);
        }
        assert(a =~= b);
    } else if b.len() == 1 {
        lemma_number_bounds(a0);
        assert(a0[0] == a[0]);
    } else {
        assert(a0[0] == a[0] && b0[0] == b[0]);
        lemma_spelled_once(a0, b0, number(a0));
        assert(a =~= a0.push(a.last()));
        assert(b =~= b0.push(b.last()));
    }
}

/// Digits spell no negative number, and a positive one where the first is no zero.
proof fn lemma_number_bounds(s: Seq<char>)
    requires
        forall|i: int| 0 <= i < s.len() ==> '0' <= #[trigger] s[i] <= '9',
    ensures
        number(s) >= 0,
        s.len() > 0 && s[0] != '0' ==> number(s) > 0,
    decreases s.len(),
{
    if s.len() > 0 {
        let t = s.drop_last();
        lemma_number_bounds(t);
        assert('0' <= s[s.len() - 1] <= '9');
        if t.len() > 0 {
            assert(t[0] == s[0]);
        }
    }
}

// ------------------------------------------------------------------- rename ---
/// A rename changes the name of one live machine and nothing else: every other field
/// of its row, the host in Termix among them, every other row and every token stays.
pub proof fn law_rename_changes_the_name_only(
    reg: &mut Registry,
    needle: &str,
    name: &str,
    r: Result<Machine, RenameError>,
)
    requires
        old(reg)@.wf(),
        call_ensures(rename_to, (reg, needle, name), r),
    ensures
        r is Err ==> final(reg)@ == old(reg)@,
        r matches Ok(m) ==> exists|i: int|
            #![trigger old(reg)@.machines[i]]
            {
                let was = old(reg)@.machines[i];
                &&& 0 <= i < old(reg)@.machines.len()
                &&& !was.deleted
                &&& m.name@ == name@
                &&& m.id@ == was.id
                &&& m.port == was.port
                &&& m.service_token@ == was.service_token
                &&& m.secret_hash@ == was.secret_hash
                &&& m.bind_addr@ == was.bind_addr
                &&& opt_text(m.termix_host_id) == was.termix_host_id
                &&& opt_text(m.os) == was.os
                &&& m.enrolled_at@ == was.enrolled_at
                &&& opt_text(m.last_seen) == was.last_seen
                &&& m.deleted == was.deleted
                &&& m.marked_stale == was.marked_stale
                &&& final(reg)@.machines == old(reg)@.machines.update(i, m@)
                &&& final(reg)@.tokens == old(reg)@.tokens
            },
{
    lemma_found_is_live(old(reg)@, needle@);
    let ms = old(reg)@.machines;
    if let Ok(n) = r {
        let m = n@;
        let was = found(ms, needle@)->Ok_0;
        let i = first_index(ms, with_id(was.id))->0;
        assert(renamed(ms, needle@, name@) == Ok::<MachineView, RenameErrorView>(m));
        assert(ms[i] == was);
        assert(final(reg)@ == stored(old(reg)@, m));
        assert(m.id == was.id);
    }
}

/// After a rename the host known to Termix is read and written back, none is made.
pub proof fn law_rename_keeps_the_host(
    reg: &mut Registry,
    needle: &str,
    name: &str,
    m: Machine,
    termix: &Termix,
    host_id: &str,
    p: &HostPayload,
    u: (Upsert, Request),
)
    requires
        old(reg)@.wf(),
        call_ensures(rename_to, (reg, needle, name), Ok(m)),
        found(old(reg)@.machines, needle@) matches Ok(was) && was.termix_host_id == Some(host_id@),
        call_ensures(Termix::upsert_host, (termix, Some(host_id), p), u),
    ensures
        opt_text(m.termix_host_id) == Some(host_id@),
        u.0 == Upsert::Read,
        u.1.method == Method::Get,
        u.1.url@ == termix.base@ + "/ssh/db/host/"@ + host_id@,
        u.1.authorization@ == "Bearer "@ + termix.api_key@,
        u.1.body is None,
{
    lemma_found_is_live(old(reg)@, needle@);
    assert(renamed(old(reg)@.machines, needle@, name@) == Ok::<MachineView, RenameErrorView>(m@));
    assert(u.1@.url == u.1.url@);
    assert(termix.base@ + ("/ssh/db/host/"@ + host_id@) =~= termix.base@ + "/ssh/db/host/"@
        + host_id@);
}

// ------------------------------------------------------------------- doctor ---
/// A line of a report that says that something is wrong.
pub open spec fn is_failure(line: Seq<char>) -> bool {
    begins(line, "  FAIL "@)
}

proof fn lemma_check_line(name: Seq<char>, outcome: Result<Seq<char>, Seq<char>>)
    ensures
        is_failure(check_line(name, outcome)) == (outcome is Err),
        check_line(name, outcome) != "all good"@,
        outcome matches Ok(detail) ==> check_line(name, outcome) == "  ok   "@ + name + ": "@
            + detail,
        outcome matches Err(e) ==> check_line(name, outcome) == "  FAIL "@ + name + ": "@ + e,
{
    reveal_strlit("  FAIL ");
    reveal_strlit("  ok   ");
    reveal_strlit("all good");
    let line = check_line(name, outcome);
    match outcome {
        Ok(_) => {
            assert(line[2] == "  ok   "@[2]);
            if begins(line, "  FAIL "@) {
                assert(line.take(7)[2] == line[2]);
            }
        },
        Err(_) => {
            assert(line.take(7) =~= "  FAIL "@);
        },
    }
    assert(line[0] == ' ');
}

/// The report ends well, and says `all good` as its last line, exactly where none of
/// its lines is a failure; each probe that fails makes it end in an error, alone or
/// with others, and nothing else does.
pub proof fn law_doctor_passes_only_the_healthy(
    cfg: &Config,
    p: &Probes,
    r: (Vec<String>, Result<(), String>),
)
    requires
        p.termix is Some ==> cfg.termix is Some,
        call_ensures(doctor, (cfg, p), r),
    ensures
        r.1 is Ok <==> (forall|i: int|
            0 <= i < r.0@.len() ==> !is_failure((#[trigger] r.0@[i])@)) && p.rathole is Ok,
        r.1 is Ok <==> r.0@.last()@ == "all good"@,
        forall|i: int| 0 <= i < r.0@.len() - 1 ==> (#[trigger] r.0@[i])@ != "all good"@,
        r.1 is Ok <==> {
            &&& p.database is Ok
            &&& p.rathole is Ok
            &&& p.rathole->Ok_0 is Ok
            &&& p.control_up
            &&& p.termix is None || p.termix->0 is Ok
            &&& begins(cfg.public_url@, "http"@)
        },
{
    let out = lines(r.0@);
    lemma_check_line("database"@, database_outcome(*cfg, *p));
    reveal_strlit("http");
    reveal_strlit("all good");
    reveal_strlit("  FAIL ");
    reveal_strlit("  --   termix: not configured (machines won't appear in the browser)");
    assert(forall|i: int| 0 <= i < out.len() ==> #[trigger] out[i] == r.0@[i]@);
    assert(out.len() == r.0@.len());
    assert(stands_at(cfg.public_url@, "http"@, 0) == begins(cfg.public_url@, "http"@)) by {
        let u = cfg.public_url@;
        if u.len() >= 4 {
            assert(u.subrange(0, 4) =~= u.take(4));
        }
    }
    match p.rathole {
        Err(_) => {
            assert(out =~= seq![check_line("database"@, database_outcome(*cfg, *p))]);
            assert(r.0@.last()@ == out[0]);
        },
        Ok(written) => {
            lemma_check_line("rathole config"@, rathole_outcome(*cfg, written));
            lemma_check_line("rathole control"@, control_outcome(*cfg, p.control_up));
            if let Some(answered) = p.termix {
                lemma_check_line("termix"@, termix_outcome(*cfg, answered));
            }
            lemma_check_line("public_url"@, url_outcome(*cfg));
            let t = termix_line(*cfg, *p);
            assert(is_failure(t) == (p.termix is Some && p.termix->0 is Err)) by {
                if p.termix is None {
                    assert(t[2] == '-');
                    if begins(t, "  FAIL "@) {
                        assert(t.take(7)[2] == t[2]);
                    }
                }
            }
            assert(t != "all good"@) by {
                assert(p.termix is None ==> t[0] == ' ');
            }
            assert(!is_failure("all good"@)) by {
                assert("all good"@[0] == 'a');
                if begins("all good"@, "  FAIL "@) {
                    assert("all good"@.take(7)[0] == 'a');
                }
            }
            assert(out.len() >= 5);
            assert(r.0@[0]@ == out[0] && r.0@[1]@ == out[1] && r.0@[2]@ == out[2] && r.0@[3]@ == out[3]
                && r.0@[4]@ == out[4]);
            assert(r.0@.last()@ == out.last());
        },
    }
}

/// The report says of each thing that was probed, in its place, whether it is well.
pub proof fn law_doctor_reports_every_probe(
    cfg: &Config,
    p: &Probes,
    r: (Vec<String>, Result<(), String>),
)
    requires
        p.termix is Some ==> cfg.termix is Some,
        call_ensures(doctor, (cfg, p), r),
        p.rathole is Ok,
    ensures
        r.0@.len() >= 5,
        is_failure(r.0@[0]@) <==> p.database is Err,
        is_failure(r.0@[1]@) <==> p.rathole->Ok_0 is Err,
        is_failure(r.0@[2]@) <==> !p.control_up,
        is_failure(r.0@[3]@) <==> p.termix is Some && p.termix->0 is Err,
        is_failure(r.0@[4]@) <==> !begins(cfg.public_url@, "http"@),
        p.database matches Err(e) ==> r.0@[0]@ == "  FAIL database: "@ + e@,
        p.rathole->Ok_0 matches Err(e) ==> r.0@[1]@ == "  FAIL rathole config: "@ + e@,
        p.termix matches Some(Err(e)) ==> r.0@[3]@ == "  FAIL termix: "@ + e@,
        p.termix matches Some(Ok(_)) ==> r.0@[3]@ == "  ok   termix: "@ + cfg.termix->0.url@,
        begins(cfg.public_url@, "http"@) ==> r.0@[4]@ == "  ok   public_url: "@ + cfg.trimmed_url(),
        p.database matches Ok(n) ==> exists|count: Seq<char>|
            spells(count, n as int) && r.0@[0]@ == "  ok   database: "@ + cfg.db_path@ + " ("@
                + #[trigger] (count + " machines)"@),
{
    let out = lines(r.0@);
    let written = p.rathole->Ok_0;
    lemma_check_line("database"@, database_outcome(*cfg, *p));
    lemma_check_line("rathole config"@, rathole_outcome(*cfg, written));
    lemma_check_line("rathole control"@, control_outcome(*cfg, p.control_up));
    if let Some(answered) = p.termix {
        lemma_check_line("termix"@, termix_outcome(*cfg, answered));
    }
    lemma_check_line("public_url"@, url_outcome(*cfg));
    reveal_strlit("http");
    reveal_strlit("  FAIL ");
    reveal_strlit("  ok   ");
    reveal_strlit(": ");
    reveal_strlit("database");
    reveal_strlit("rathole config");
    reveal_strlit("termix");
    reveal_strlit("public_url");
    reveal_strlit("  FAIL database: ");
    reveal_strlit("  FAIL rathole config: ");
    reveal_strlit("  FAIL termix: ");
    reveal_strlit("  ok   termix: ");
    reveal_strlit("  ok   public_url: ");
    reveal_strlit("  ok   database: ");
    reveal_strlit("  --   termix: not configured (machines won't appear in the browser)");
    assert("  FAIL "@ + "database"@ + ": "@ =~= "  FAIL database: "@);
    assert("  FAIL "@ + "rathole config"@ + ": "@ =~= "  FAIL rathole config: "@);
    assert("  FAIL "@ + "termix"@ + ": "@ =~= "  FAIL termix: "@);
    assert("  ok   "@ + "termix"@ + ": "@ =~= "  ok   termix: "@);
    assert("  ok   "@ + "public_url"@ + ": "@ =~= "  ok   public_url: "@);
    assert("  ok   "@ + "database"@ + ": "@ =~= "  ok   database: "@);
    assert(out.len() >= 5);
    assert(r.0@[0]@ == out[0] && r.0@[1]@ == out[1] && r.0@[2]@ == out[2] && r.0@[3]@ == out[3]
        && r.0@[4]@ == out[4]);
    assert(stands_at(cfg.public_url@, "http"@, 0) == begins(cfg.public_url@, "http"@)) by {
        let u = cfg.public_url@;
        if u.len() >= 4 {
            assert(u.subrange(0, 4) =~= u.take(4));
        }
    }
    if p.termix is None {
        assert(out[3][2] == '-');
        if begins(out[3], "  FAIL "@) {
            assert(out[3].take(7)[2] == out[3][2]);
        }
    }
    if let Ok(n) = p.database {
        let count = decimal_digits(n as nat);
        lemma_spells(n as nat);
        assert("  ok   database: "@ + (cfg.db_path@ + " ("@ + count + " machines)"@)
            =~= "  ok   database: "@ + cfg.db_path@ + " ("@ + (count + " machines)"@));
    }
}

/// What the report says of the tunnel and of the public address: where server.toml is,
/// which port rathole listens on or should, and the address without slashes at its end,
/// or the address as it is configured where it is none.
pub proof fn law_doctor_says_what_it_found(
    cfg: &Config,
    p: &Probes,
    r: (Vec<String>, Result<(), String>),
    port: u16,
    down: String,
    url: &str,
)
    requires
        p.termix is Some ==> cfg.termix is Some,
        call_ensures(doctor, (cfg, p), r),
        call_ensures(control_port, (cfg,), port),
        call_ensures(control_down, (cfg,), down),
        call_ensures(Config::public_url_trimmed, (cfg,), url),
        p.rathole is Ok,
    ensures
        r.0@.len() >= 5,
        p.rathole->Ok_0 is Ok ==> begins(
            r.0@[1]@,
            "  ok   rathole config: "@ + cfg.rathole.config_path@,
        ),
        p.control_up ==> exists|digits: Seq<char>|
            spells(digits, port as int) && r.0@[2]@ == #[trigger] (
            "  ok   rathole control: listening on :"@ + digits),
        !p.control_up ==> r.0@[2]@ == "  FAIL rathole control: "@ + down@,
        p.termix is None ==> begins(r.0@[3]@, "  --   termix: not configured"@),
        begins(cfg.public_url@, "http"@) ==> r.0@[4]@ == "  ok   public_url: "@ + url@,
        !begins(cfg.public_url@, "http"@) ==> r.0@[4]@ == "  FAIL public_url: '"@ + cfg.public_url@
            + "' is not a URL"@,
        r.1 matches Err(e) ==> r.0@.len() == 5 && e@ == "doctor found problems"@,
        r.1 is Ok ==> r.0@.len() == 6,
{
    let out = lines(r.0@);
    reveal_strlit("http");
    reveal_strlit("  FAIL ");
    reveal_strlit("  ok   ");
    reveal_strlit(": ");
    reveal_strlit("'");
    reveal_strlit("rathole config");
    reveal_strlit("rathole control");
    reveal_strlit("public_url");
    reveal_strlit("listening on :");
    reveal_strlit("  ok   rathole config: ");
    reveal_strlit("  ok   rathole control: listening on :");
    reveal_strlit("  FAIL rathole control: ");
    reveal_strlit("  ok   public_url: ");
    reveal_strlit("  FAIL public_url: '");
    reveal_strlit("  --   termix: not configured");
    reveal_strlit("  --   termix: not configured (machines won't appear in the browser)");
    assert("  ok   "@ + "rathole config"@ + ": "@ =~= "  ok   rathole config: "@);
    assert("  ok   "@ + "rathole control"@ + ": "@ + "listening on :"@
        =~= "  ok   rathole control: listening on :"@);
    assert("  FAIL "@ + "rathole control"@ + ": "@ =~= "  FAIL rathole control: "@);
    assert("  ok   "@ + "public_url"@ + ": "@ =~= "  ok   public_url: "@);
    assert("  FAIL "@ + "public_url"@ + ": "@ + "'"@ =~= "  FAIL public_url: '"@);
    assert(out.len() == r.0@.len());
    assert(out.len() >= 5);
    assert(r.0@[1]@ == out[1] && r.0@[2]@ == out[2] && r.0@[3]@ == out[3] && r.0@[4]@ == out[4]);
    assert(stands_at(cfg.public_url@, "http"@, 0) == begins(cfg.public_url@, "http"@)) by {
        let u = cfg.public_url@;
        if u.len() >= 4 {
            assert(u.subrange(0, 4) =~= u.take(4));
        }
    }
    if p.rathole->Ok_0 is Ok {
        let head = "  ok   rathole config: "@ + cfg.rathole.config_path@;
        assert(out[1].take(head.len() as int) =~= head);
    }
    if p.control_up {
        let digits = decimal_digits(port as nat);
        lemma_spells(port as nat);
        assert(out[2] =~= "  ok   rathole control: listening on :"@ + digits);
    }
    if p.termix is None {
        let head = "  --   termix: not configured"@;
        assert(out[3].take(head.len() as int) =~= head);
    }
    if !begins(cfg.public_url@, "http"@) {
        assert(out[4] =~= "  FAIL public_url: '"@ + cfg.public_url@ + "' is not a URL"@);
    }
}

/// Where the machines cannot be read, the report stops after the database and ends with
/// what was wrong.
pub proof fn law_doctor_stops_without_machines(
    cfg: &Config,
    p: &Probes,
    r: (Vec<String>, Result<(), String>),
)
    requires
        p.termix is Some ==> cfg.termix is Some,
        call_ensures(doctor, (cfg, p), r),
        p.rathole is Err,
    ensures
        r.0@.len() == 1,
        is_failure(r.0@[0]@) <==> p.database is Err,
        r.1 is Err,
        r.1->Err_0@ == p.rathole->Err_0@,
{
    let out = lines(r.0@);
    lemma_check_line("database"@, database_outcome(*cfg, *p));
    assert(out.len() == r.0@.len());
    assert(r.0@[0]@ == out[0]);
}

// ------------------------------------------------------------------ columns ---
/// `out` is `s` and then as many spaces as it takes to fill `width`.
pub open spec fn left_aligned(out: Seq<char>, s: Seq<char>, width: int) -> bool {
    &&& out.len() == (if s.len() < width {
        width
    } else {
        s.len() as int
    })
    &&& begins(out, s)
    &&& forall|i: int| s.len() <= i < out.len() ==> #[trigger] out[i] == ' '
}

/// `out` is as many spaces as it takes to fill `width`, and then `s`.
pub open spec fn right_aligned(out: Seq<char>, s: Seq<char>, width: int) -> bool {
    &&& out.len() == (if s.len() < width {
        width
    } else {
        s.len() as int
    })
    &&& out.skip(out.len() - s.len()) == s
    &&& forall|i: int| 0 <= i < out.len() - s.len() ==> #[trigger] out[i] == ' '
}

proof fn lemma_aligned(s: Seq<char>, width: int)
    ensures
        left_aligned(padded_right(s, width), s, width),
        right_aligned(padded_left(s, width), s, width),
{
    assert(padded_right(s, width).take(s.len() as int) =~= s);
    let out = padded_left(s, width);
    assert(out.skip(out.len() - s.len()) =~= s);
}

/// A column holds its text and nothing but spaces beside it.
pub proof fn law_columns_are_filled(s: &str, width: usize, left: String, right: String)
    requires
        call_ensures(pad_right, (s, width), left),
        call_ensures(pad_left, (s, width), right),
    ensures
        left_aligned(left@, s@, width as int),
        right_aligned(right@, s@, width as int),
{
    lemma_aligned(s@, width as int);
}

// ----------------------------------------------------------------- omni ls ---
/// The columns of a machine's line in the listing, in order.
#[verifier::ext_equal]
pub struct Columns {
    pub name: Seq<char>,
    pub port: Seq<char>,
    pub os: Seq<char>,
    pub connected: Seq<char>,
    pub last_seen: Seq<char>,
    pub id: Seq<char>,
}

impl Columns {
    /// The line that these columns make.
    pub open spec fn line(self) -> Seq<char> {
        self.name + seq![' '] + self.port + seq![' ', ' '] + self.os + seq![' '] + self.connected
            + seq![' '] + self.last_seen + seq![' '] + self.id
    }
}

/// A machine's line shows in their columns its name, its port, its operating system
/// or `?`, whether its port answers, when it was last seen and its short id; the last
/// ends in `[exposed]` exactly where the machine does not bind loopback.
pub proof fn law_ls_line_has_its_columns(m: &Machine, connected: bool, age: &str, s: String) -> (c:
    Columns)
    requires
        can_shorten(m.id@),
        call_ensures(ls_row, (m, connected, age), s),
    ensures
        s@ == c.line(),
        left_aligned(c.name, m.name@, 20),
        exists|digits: Seq<char>|
            spells(digits, m.port as int) && #[trigger] right_aligned(c.port, digits, 5),
        left_aligned(
            c.os,
            match m.os {
                Some(os) => os@,
                None => seq!['?'],
            },
            7,
        ),
        left_aligned(
            c.connected,
            if connected {
                seq!['y', 'e', 's']
            } else {
                seq!['n', 'o']
            },
            10,
        ),
        left_aligned(c.last_seen, age@, 12),
        encode_utf8(c.id.take(c.id.len() - exposed_mark(m).len())) == encode_utf8(m.id@).take(8),
        c.id.skip(c.id.len() - exposed_mark(m).len()) == exposed_mark(m),
{
    reveal_strlit(" ");
    reveal_strlit("  ");
    reveal_strlit("?");
    reveal_strlit("yes");
    reveal_strlit("no");
    let digits = decimal_digits(m.port as nat);
    lemma_spells(m.port as nat);
    let id = shortened(m.id@);
    let mark = exposed_mark(m);
    let c = Columns {
        name: padded_right(m.name@, 20),
        port: padded_left(digits, 5),
        os: padded_right(os_shown(m@.os), 7),
        connected: padded_right(yes_no(connected), 10),
        last_seen: padded_right(age@, 12),
        id: id + mark,
    };
    lemma_aligned(m.name@, 20);
    lemma_aligned(digits, 5);
    lemma_aligned(os_shown(m@.os), 7);
    lemma_aligned(yes_no(connected), 10);
    lemma_aligned(age@, 12);
    assert(right_aligned(c.port, digits, 5));
    assert(" "@ =~= seq![' ']);
    assert("  "@ =~= seq![' ', ' ']);
    assert("?"@ =~= seq!['?']);
    assert("yes"@ =~= seq!['y', 'e', 's']);
    assert("no"@ =~= seq!['n', 'o']);
    lemma_shortened(m.id@);
    assert(c.id.take(id.len() as int) =~= id);
    assert(c.id.skip(id.len() as int) =~= mark);
    let front = c.name + seq![' '] + c.port + seq![' ', ' '] + c.os + seq![' '] + c.connected
        + seq![' '] + c.last_seen + seq![' '];
    assert(front + id + mark =~= front + (id + mark));
    c
}

/// What the listing adds to the id of a machine that does not bind loopback.
pub open spec fn exposed_mark(m: &Machine) -> Seq<char> {
    if m.bind_addr@ == "127.0.0.1"@ {
        Seq::empty()
    } else {
        "  [exposed]"@
    }
}

/// A short id is the first eight bytes of the id.
pub proof fn lemma_shortened(id: Seq<char>)
    requires
        can_shorten(id),
    ensures
        encode_utf8(shortened(id)) == encode_utf8(id).take(8),
{
    let bytes = encode_utf8(id);
    vstd::utf8::encode_utf8_valid_utf8(id);
    vstd::utf8::valid_utf8_split(bytes, 8);
    vstd::utf8::decode_utf8_encode_utf8(bytes.subrange(0, 8));
    assert(bytes.subrange(0, 8) =~= bytes.take(8));
}

/// Whether its port answers shows in its own column only: two lines for one machine
/// and one age share all the others.
pub proof fn law_connected_shows_in_its_column_only(
    m: &Machine,
    age: &str,
    up: String,
    down: String,
)
    requires
        can_shorten(m.id@),
        call_ensures(ls_row, (m, true, age), up),
        call_ensures(ls_row, (m, false, age), down),
    ensures
        exists|head: Seq<char>, tail: Seq<char>|
            up@ == #[trigger] (head + "yes       "@ + tail) && down@ == head + "no        "@ + tail
                && begins(tail, seq![' '] + age@),
{
    reveal_strlit("yes");
    reveal_strlit("no");
    reveal_strlit("yes       ");
    reveal_strlit("no        ");
    reveal_strlit(" ");
    let head = padded_right(m.name@, 20) + " "@ + padded_left(decimal_digits(m.port as nat), 5)
        + "  "@ + padded_right(os_shown(m@.os), 7) + " "@;
    let mark: Seq<char> = if m.bind_addr@ == "127.0.0.1"@ {
        Seq::empty()
    } else {
        "  [exposed]"@
    };
    let tail = " "@ + padded_right(age@, 12) + " "@ + shortened(m.id@) + mark;
    assert(padded_right("yes"@, 10) =~= "yes       "@);
    assert(padded_right("no"@, 10) =~= "no        "@);
    assert(up@ =~= head + "yes       "@ + tail);
    assert(down@ =~= head + "no        "@ + tail);
    assert(tail.take(1 + age@.len() as int) =~= seq![' '] + age@);
}

/// The listing starts with its heading; where there is no machine it says so instead.
pub proof fn law_listing_starts_with_its_heading(
    machines: &Vec<Machine>,
    connected: &Vec<bool>,
    now: Moment,
    out: Vec<String>,
    head: String,
)
    requires
        now.valid(),
        machines@.len() == connected@.len(),
        call_ensures(ls_at, (machines, connected, now), out),
        call_ensures(heading, (), head),
    ensures
        machines@.len() > 0 ==> out@[0]@ == head@,
        machines@.len() == 0 ==> out@.len() == 1 && out@[0]@
            == "no machines enrolled — mint a token with `omni token new`"@,
{
    let all = lines(out@);
    assert(all.len() == out@.len());
    assert(machine_views(machines@).len() == machines@.len());
    assert(all[0] == out@[0]@);
}

/// The listing has a heading and then one line per machine, in their order: the line
/// that `ls_row` gives for the machine, for whether its port answers and for the age
/// of its last heartbeat.
pub proof fn law_listing_is_row_by_row(
    machines: &Vec<Machine>,
    connected: &Vec<bool>,
    now: Moment,
    out: Vec<String>,
    i: int,
    ts: Option<&str>,
    age: String,
    shown: &str,
    row: String,
)
    requires
        now.valid(),
        machines@.len() == connected@.len(),
        call_ensures(ls_at, (machines, connected, now), out),
        0 <= i < machines@.len(),
        opt_str(ts) == opt_text(machines@[i].last_seen),
        call_ensures(human_age_at, (ts, now), age),
        shown@ == age@,
        call_ensures(ls_row, (&machines@[i], connected@[i], shown), row),
    ensures
        out@.len() == machines@.len() + 1,
        out@[i + 1]@ == row@,
{
    let ms = machine_views(machines@);
    let all = lines(out@);
    assert(all.len() == out@.len());
    assert(all[i + 1] == out@[i + 1]@);
    assert(ms[i] == machines@[i]@);
}

// --------------------------------------------------------------------- ages ---
/// An age is shown as a count of the unit that suits it: seconds up to 90 of them,
/// minutes up to 90, hours up to 48, then days, rounded down.
pub proof fn law_ages_are_counted(age: i64, s: String)
    requires
        call_ensures(human_age_of, (Some(age),), s),
    ensures
        age < 0 ==> s@ == "future?"@,
        age >= 0 ==> exists|digits: Seq<char>, count: int, unit: int, suffix: Seq<char>|
            {
                &&& #[trigger] (digits + suffix) == s@
                &&& #[trigger] spells(digits, count)
                &&& #[trigger] (count * unit) <= age < count * unit + unit
                &&& unit == 1 && suffix == "s ago"@ && age < 90 || unit == 60 && suffix == "m ago"@
                    && 90 <= age < 90 * 60 || unit == 3600 && suffix == "h ago"@ && 90 * 60 <= age
                    < 48 * 3600 || unit == 86400 && suffix == "d ago"@ && 48 * 3600 <= age
            },
{
    if age >= 0 {
        let a = age as int;
        let (unit, suffix) = if a < 90 {
            (1int, "s ago"@)
        } else if a < 5400 {
            (60int, "m ago"@)
        } else if a < 172800 {
            (3600int, "h ago"@)
        } else {
            (86400int, "d ago"@)
        };
        let count = a / unit;
        lemma_spells(count as nat);
        let digits = decimal_digits(count as nat);
        assert(digits + suffix == s@);
        assert(spells(digits, count));
        assert(count * unit <= age < count * unit + unit);
    }
}

/// `never` is shown only where there is no time or it cannot be read; else the age
/// that `age_secs_at` gives is shown.
pub proof fn law_never_means_never(
    ts: Option<&str>,
    now: Moment,
    s: String,
    age: Option<i64>,
    words: String,
)
    requires
        now.valid(),
        call_ensures(human_age_at, (ts, now), s),
        call_ensures(human_age_of, (age,), words),
        ts matches Some(t) ==> call_ensures(age_secs_at, (t, now), age),
        ts is None ==> age is None,
    ensures
        s@ == words@,
        s@ == "never"@ <==> ts is None || rfc3339_moment(ts->0@) is None,
{
    reveal_strlit("never");
    reveal_strlit("future?");
    reveal_strlit("s ago");
    reveal_strlit("m ago");
    reveal_strlit("h ago");
    reveal_strlit("d ago");
    if let Some(a) = age {
        law_ages_are_counted(a, words);
        if a >= 0 {
            assert(words@.last() == 'o');
        } else {
            assert("future?"@[0] == 'f');
        }
        assert("never"@[0] == 'n' && "never"@.last() == 'r');
    }
}

/// The age of a text that the clock wrote is the number of seconds since.
pub proof fn law_ages_count_seconds(ts: &str, written: i64, now: Moment, age: Option<i64>)
    requires
        is_stamp(ts@, written),
        in_four_digit_years(written),
        now.valid(),
        now.nanos < 1_000_000_000,
        call_ensures(age_secs_at, (ts, now), age),
    ensures
        age is Some,
        written <= now.secs ==> age->0 == now.secs - written,
        written > now.secs ==> now.secs - written <= age->0 <= now.secs - written + 1 && age->0 <= 0,
{
}

// ---------------------------------------------------------------- omni show ---
/// What is shown of a machine, line by line: after its label of thirteen characters
/// each line says the machine's own value.
pub open spec fn shows(m: Machine, connected: bool, age: Seq<char>, out: Seq<String>) -> bool {
    &&& out.len() == 9
    &&& begins(out[0]@, "name:"@) && out[0]@.skip(13) == m.name@
    &&& begins(out[1]@, "id:"@) && out[1]@.skip(13) == m.id@
    &&& begins(out[2]@, "port:"@) && exists|digits: Seq<char>|
        spells(digits, m.port as int) && out[2]@.skip(13) == #[trigger] (digits + " (bind "@)
            + m.bind_addr@ + ")"@
    &&& begins(out[3]@, "os:"@) && out[3]@.skip(13) == (match m.os {
        Some(os) => os@,
        None => seq!['?'],
    })
    &&& begins(out[4]@, "connected:"@) && out[4]@.skip(13) == (if connected {
        seq!['y', 'e', 's']
    } else {
        seq!['n', 'o']
    })
    &&& begins(out[5]@, "enrolled:"@) && out[5]@.skip(13) == m.enrolled_at@
    &&& begins(out[6]@, "last seen:"@) && out[6]@.skip(13) == age
    &&& begins(out[7]@, "termix host:"@) && out[7]@.skip(13) == (match m.termix_host_id {
        Some(h) => h@,
        None => seq!['-'],
    })
    &&& begins(out[8]@, "stale flag:"@) && out[8]@.skip(13) == (if m.marked_stale {
        seq!['d', 'o', 'w', 'n']
    } else {
        seq!['o', 'k']
    })
}

/// What `omni show` prints says every field of the machine, and the age it is given.
pub proof fn law_show_says_every_field(m: &Machine, connected: bool, age: &str, out: Vec<String>)
    requires
        call_ensures(show_with, (m, connected, age), out),
    ensures
        shows(*m, connected, age@, out@),
{
    lemma_shows(*m, connected, age@, out@);
}

/// The lines of `omni show` say every field.
pub proof fn lemma_shows(m: Machine, connected: bool, age: Seq<char>, out: Seq<String>)
    requires
        lines(out) == detail(m@, connected, age),
    ensures
        shows(m, connected, age, out),
{
    let all = lines(out);
    let d = detail(m@, connected, age);
    assert(all.len() == 9);
    assert(all[0] == out[0]@ && all[1] == out[1]@ && all[2] == out[2]@ && all[3] == out[3]@
        && all[4] == out[4]@ && all[5] == out[5]@ && all[6] == out[6]@ && all[7] == out[7]@
        && all[8] == out[8]@);
    reveal_strlit("name:        ");
    reveal_strlit("id:          ");
    reveal_strlit("port:        ");
    reveal_strlit("os:          ");
    reveal_strlit("connected:   ");
    reveal_strlit("enrolled:    ");
    reveal_strlit("last seen:   ");
    reveal_strlit("termix host: ");
    reveal_strlit("stale flag:  ");
    lemma_show_labels();
    lemma_labelled("name:        "@, "name:"@, m.name@);
    lemma_labelled("id:          "@, "id:"@, m.id@);
    let digits = decimal_digits(m.port as nat);
    lemma_spells(m.port as nat);
    let bound = (digits + " (bind "@) + m.bind_addr@ + ")"@;
    lemma_labelled("port:        "@, "port:"@, bound);
    assert(d[2] =~= "port:        "@ + bound);
    reveal_strlit("?");
    assert("?"@ =~= seq!['?']);
    lemma_labelled("os:          "@, "os:"@, os_shown(m@.os));
    reveal_strlit("yes");
    reveal_strlit("no");
    assert("yes"@ =~= seq!['y', 'e', 's']);
    assert("no"@ =~= seq!['n', 'o']);
    lemma_labelled("connected:   "@, "connected:"@, yes_no(connected));
    lemma_labelled("enrolled:    "@, "enrolled:"@, m.enrolled_at@);
    lemma_labelled("last seen:   "@, "last seen:"@, age);
    reveal_strlit("-");
    assert("-"@ =~= seq!['-']);
    let host = match m.termix_host_id {
        Some(h) => h@,
        None => "-"@,
    };
    lemma_labelled("termix host: "@, "termix host:"@, host);
    reveal_strlit("down");
    reveal_strlit("ok");
    assert("down"@ =~= seq!['d', 'o', 'w', 'n']);
    assert("ok"@ =~= seq!['o', 'k']);
    let flag = if m.marked_stale {
        "down"@
    } else {
        "ok"@
    };
    lemma_labelled("stale flag:  "@, "stale flag:"@, flag);
}

proof fn lemma_show_labels()
    ensures
        begins("name:        "@, "name:"@),
        begins("id:          "@, "id:"@),
        begins("port:        "@, "port:"@),
        begins("os:          "@, "os:"@),
        begins("connected:   "@, "connected:"@),
        begins("enrolled:    "@, "enrolled:"@),
        begins("last seen:   "@, "last seen:"@),
        begins("termix host: "@, "termix host:"@),
        begins("stale flag:  "@, "stale flag:"@),
{
    reveal_strlit("name:        ");
    reveal_strlit("id:          ");
    reveal_strlit("port:        ");
    reveal_strlit("os:          ");
    reveal_strlit("connected:   ");
    reveal_strlit("enrolled:    ");
    reveal_strlit("last seen:   ");
    reveal_strlit("termix host: ");
    reveal_strlit("stale flag:  ");
    reveal_strlit("name:");
    reveal_strlit("id:");
    reveal_strlit("port:");
    reveal_strlit("os:");
    reveal_strlit("connected:");
    reveal_strlit("enrolled:");
    reveal_strlit("last seen:");
    reveal_strlit("termix host:");
    reveal_strlit("stale flag:");
    assert("name:        "@.take(5) =~= "name:"@);
    assert("id:          "@.take(3) =~= "id:"@);
    assert("port:        "@.take(5) =~= "port:"@);
    assert("os:          "@.take(3) =~= "os:"@);
    assert("connected:   "@.take(10) =~= "connected:"@);
    assert("enrolled:    "@.take(9) =~= "enrolled:"@);
    assert("last seen:   "@.take(10) =~= "last seen:"@);
    assert("termix host: "@.take(12) =~= "termix host:"@);
    assert("stale flag:  "@.take(11) =~= "stale flag:"@);
}

/// What follows a label of thirteen characters.
proof fn lemma_labelled(label: Seq<char>, start: Seq<char>, value: Seq<char>)
    requires
        label.len() == 13,
        begins(label, start),
    ensures
        begins(label + value, start),
        (label + value).skip(13) == value,
{
    assert((label + value).take(start.len() as int) =~= label.take(start.len() as int));
    assert((label + value).skip(13) =~= value);
}

} // verus!
