//! Laws on what is printed and logged, and on what a failure says.

use crate::config::Config;
use crate::db::{DbError, Machine, Registry};
use crate::ops::{
    can_shorten, control_down, exposure_message, lines, outcome_line, rename_message,
    rm_message, set_exposure, short_id, stale_message, sync, sync_line, termix_display_name,
    Enrolled, RenameError,
};
use crate::outcomes::{begins, lemma_shortened, lemma_spells, spells};
use crate::rathole::{control_port, os_or_unknown};
use crate::serve::{enroll_error, enroll_log, startup_checks, HttpReply};
use crate::text::decimal_digits;
use crate::wording::{lemma_mentions, mentions};
use vstd::prelude::*;
use vstd::utf8::encode_utf8;

verus! {

/// `s` ends with `tail`.
pub open spec fn ends(s: Seq<char>, tail: Seq<char>) -> bool {
    tail.len() <= s.len() && s.skip(s.len() - tail.len()) == tail
}

/// What stands at `at` is mentioned.
proof fn lemma_stands(s: Seq<char>, x: Seq<char>, at: int)
    requires
        0 <= at,
        at + x.len() <= s.len(),
        s.subrange(at, at + x.len()) == x,
    ensures
        mentions(s, x),
{
    assert(s.skip(at).take(x.len() as int) =~= s.subrange(at, at + x.len()));
    assert(begins(s.skip(at), x));
}

// ----------------------------------------------------------------- failures ---
/// A failure to find a machine repeats what was asked for, and how many answer to it
/// where it is more than one.
pub proof fn law_failures_repeat_what_was_asked(e: &DbError, subject: &str, s: String)
    requires
        call_ensures(DbError::message, (e, subject), s),
    ensures
        e is NoMatch ==> begins(s@, "no machine matches '"@ + subject@ + "'"@),
        e is NotFoundForUpdate ==> s@ == "machine "@ + subject@ + " not found for update"@,
        e matches DbError::Ambiguous(n) ==> exists|digits: Seq<char>|
            #[trigger] spells(digits, *n as int) && s@ == "'"@ + subject@ + "' is ambiguous ("@ + digits
                + " machines match)"@,
{
    if let DbError::NoMatch = e {
        reveal_strlit("'");
        reveal_strlit("' (try `omni ls`)");
        let head = "no machine matches '"@ + subject@ + "'"@;
        assert(s@.take(head.len() as int) =~= head);
    }
    if let DbError::Ambiguous(n) = e {
        lemma_spells(*n as nat);
        assert(spells(decimal_digits(*n as nat), *n as int));
    }
}

/// What is wrong with a token says so, and is therefore told to whoever enrolls.
pub proof fn law_token_failures_are_told(e: &DbError, subject: &str, s: String, msg: &str, r: HttpReply)
    requires
        e is BadToken || e is ExpiryOutOfRange || e is DuplicateTokenId,
        call_ensures(DbError::message, (e, subject), s),
        msg@ == s@,
        call_ensures(enroll_error, (msg,), r),
    ensures
        mentions(s@, "token"@),
        r.status == 403,
        begins(r.body@, s@),
{
    reveal_strlit("token");
    reveal_strlit("enrollment token is invalid, expired, or already used");
    reveal_strlit("token expiry out of range");
    reveal_strlit("UNIQUE constraint failed: tokens.id");
    let at: int = if e is BadToken {
        11
    } else if e is ExpiryOutOfRange {
        0
    } else {
        26
    };
    assert(s@.subrange(at, at + 5) =~= "token"@);
    lemma_stands(s@, "token"@, at);
    lemma_mentions(msg@, "token"@);
    assert(r.body@.take(s@.len() as int) =~= s@);
}

/// A failure that is not about a token does not speak of one: whoever enrolls is told
/// of an internal error.
pub proof fn law_other_failures_are_not_told(
    e: &DbError,
    subject: &str,
    s: String,
    msg: &str,
    r: HttpReply,
)
    requires
        e is PortsExhausted || e is DuplicateId || e is DuplicatePort || e is DuplicateName,
        call_ensures(DbError::message, (e, subject), s),
        msg@ == s@,
        call_ensures(enroll_error, (msg,), r),
    ensures
        r.status == 500,
        r.body@ == "internal error\n"@,
{
    reveal_strlit("token");
    reveal_strlit("port space exhausted");
    reveal_strlit("UNIQUE constraint failed: machines.id");
    reveal_strlit("UNIQUE constraint failed: machines.port");
    reveal_strlit("UNIQUE constraint failed: machines.name");
    lemma_mentions(msg@, "token"@);
    assert forall|i: int| 0 <= i < s@.len() implies s@[i] != 'k' by {}
    if mentions(s@, "token"@) {
        let at = choose|at: int| 0 <= at <= s@.len() && #[trigger] begins(s@.skip(at), "token"@);
        assert(s@.skip(at).take(5)[2] == s@[at + 2]);
    }
}

/// A rename that fails says what the registry says, or that the name is taken, and by
/// which machine.
pub proof fn law_failed_renames_name_the_holder(
    e: &RenameError,
    needle: &str,
    name: &str,
    s: String,
    cause: String,
    holder: &str,
    short: &str,
)
    requires
        e matches RenameError::Taken(id) ==> can_shorten(id@) && holder@ == id@,
        call_ensures(RenameError::message, (e, needle, name), s),
        e matches RenameError::Db(c) ==> call_ensures(DbError::message, (c, needle), cause),
        e is Taken ==> call_ensures(short_id, (holder,), short),
    ensures
        e is Db ==> s@ == cause@,
        e is Taken ==> s@ == "name '"@ + name@ + "' is taken by machine "@ + short@,
{
}

/// A short id is the first eight bytes of the id.
pub proof fn law_short_ids_are_prefixes(id: &str, s: &str)
    requires
        can_shorten(id@),
        call_ensures(short_id, (id,), s),
    ensures
        encode_utf8(s@) == encode_utf8(id@).take(8),
{
    lemma_shortened(id@);
}

// -------------------------------------------------------------------- verbs ---
/// What is printed of a machine names it; where it gives its port, that is the port.
pub proof fn law_verbs_name_the_machine(
    m: &Machine,
    name: &str,
    renamed: String,
    revoked: String,
    hidden: String,
)
    requires
        name@ == m.name@,
        call_ensures(rename_message, (name,), renamed),
        call_ensures(rm_message, (m,), revoked),
        call_ensures(exposure_message, (m, false), hidden),
    ensures
        begins(renamed@, "renamed to "@ + m.name@ + " "@),
        begins(revoked@, "revoked "@ + m.name@ + " "@),
        begins(hidden@, m.name@ + " back on loopback"@),
        exists|digits: Seq<char>|
            {
                &&& #[trigger] spells(digits, m.port as int)
                &&& ends(revoked@, "; port "@ + digits + " is retired"@)
                &&& ends(hidden@, " reaches port "@ + digits)
            },
{
    let digits = decimal_digits(m.port as nat);
    lemma_spells(m.port as nat);
    reveal_strlit(" ");
    reveal_strlit(" (Termix host updated)");
    let rename_head = "renamed to "@ + m.name@ + " "@;
    assert(renamed@.take(rename_head.len() as int) =~= rename_head);
    reveal_strlit("; port ");
    reveal_strlit(
        " — stanza dropped from server.toml, tunnel dies on next reconnect; port ",
    );
    let revoke_head = "revoked "@ + m.name@ + " "@;
    assert(revoked@.take(revoke_head.len() as int) =~= revoke_head);
    let revoke_tail = "; port "@ + digits + " is retired"@;
    assert(revoked@.skip(revoked@.len() - revoke_tail.len()) =~= revoke_tail);
    reveal_strlit(" back on loopback");
    reveal_strlit(" reaches port ");
    reveal_strlit(" back on loopback — only Termix reaches port ");
    let hide_head = m.name@ + " back on loopback"@;
    assert(hidden@.take(hide_head.len() as int) =~= hide_head);
    let hide_tail = " reaches port "@ + digits;
    assert(hidden@.skip(hidden@.len() - hide_tail.len()) =~= hide_tail);
}

/// Once a machine is exposed, what is printed gives the address that its port binds
/// by then.
pub proof fn law_exposure_tells_the_address(
    reg: &mut Registry,
    needle: &str,
    r: Result<Machine, DbError>,
    s: String,
)
    requires
        old(reg)@.wf(),
        call_ensures(set_exposure, (reg, needle, true), r),
        r is Ok,
        call_ensures(exposure_message, (&r->Ok_0, true), s),
    ensures
        exists|digits: Seq<char>|
            {
                &&& #[trigger] spells(digits, r->Ok_0.port as int)
                &&& begins(
                    s@,
                    r->Ok_0.name@ + " now binds "@ + r->Ok_0.bind_addr@ + ":"@ + digits + " "@,
                )
            },
{
    let m = r->Ok_0;
    let digits = decimal_digits(m.port as nat);
    lemma_spells(m.port as nat);
    assert(m@.bind_addr == "0.0.0.0"@);
    reveal_strlit(" ");
    reveal_strlit(":");
    reveal_strlit("0.0.0.0");
    reveal_strlit(" now binds ");
    reveal_strlit(" now binds 0.0.0.0:");
    reveal_strlit(" — direct SSH from anywhere; open the port in the firewall yourself");
    let head = m.name@ + " now binds "@ + m.bind_addr@ + ":"@ + digits + " "@;
    assert(" now binds "@ + "0.0.0.0"@ + ":"@ =~= " now binds 0.0.0.0:"@);
    assert(s@.take(head.len() as int) =~= head);
}

/// A machine is shown in Termix under its name, with a mark exactly where it is marked
/// as down; what is printed when the marker flips says the same.
pub proof fn law_down_is_shown(m: &Machine, name: &str, shown: String, s: String)
    requires
        name@ == m.name@,
        call_ensures(termix_display_name, (m,), shown),
        call_ensures(stale_message, (name, m.marked_stale), s),
    ensures
        !m.marked_stale ==> shown@ == m.name@ && begins(s@, m.name@ + " marked up"@),
        m.marked_stale ==> shown@ == m.name@ + " (down)"@ && begins(s@, m.name@ + " marked down"@),
{
    reveal_strlit(" marked ");
    reveal_strlit("up");
    reveal_strlit("down");
    reveal_strlit(" marked up");
    reveal_strlit(" marked down");
    let up = m.name@ + " marked up"@;
    let down = m.name@ + " marked down"@;
    if m.marked_stale {
        assert(s@.take(down.len() as int) =~= down);
    } else {
        assert(s@.take(up.len() as int) =~= up);
    }
}

/// An operating system is shown as it was told, or as a question mark.
pub proof fn law_systems_are_shown(m: &Machine, s: &str)
    requires
        call_ensures(os_or_unknown, (m,), s),
    ensures
        m.os matches Some(os) ==> s@ == os@,
        m.os is None ==> s@ == seq!['?'],
{
    reveal_strlit("?");
    assert("?"@ =~= seq!['?']);
}

/// An enrollment is logged with the machine's name, its port and its system.
pub proof fn law_enrollments_are_logged(e: &Enrolled, s: String, os: &str)
    requires
        call_ensures(enroll_log, (e,), s),
        call_ensures(os_or_unknown, (&e.machine,), os),
    ensures
        exists|digits: Seq<char>|
            #[trigger] spells(digits, e.machine.port as int) && s@ == "enrolled "@ + e.machine.name@
                + " (port "@ + digits + ", "@ + os@ + ")"@,
{
    lemma_spells(e.machine.port as nat);
    assert(spells(decimal_digits(e.machine.port as nat), e.machine.port as int));
}

// --------------------------------------------------------------------- sync ---
/// What is printed of one machine's host says whether it went well, and else why.
pub proof fn law_outcomes_are_told(name: &str, outcome: &Result<(), String>, s: String)
    requires
        call_ensures(outcome_line, (name, outcome), s),
    ensures
        begins(s@, "termix: "@ + name@ + " "@),
        outcome is Ok ==> s@ == "termix: "@ + name@ + " ok"@,
        outcome matches Err(e) ==> s@ == "termix: "@ + name@ + " FAILED: "@ + e@,
{
    reveal_strlit(" ");
    reveal_strlit(" ok");
    reveal_strlit(" FAILED: ");
    let head = "termix: "@ + name@ + " "@;
    assert(s@.take(head.len() as int) =~= head);
}

/// `omni sync` says where server.toml went, and then of every machine, in their order,
/// how its host fared; where Termix is not configured it says that instead.
pub proof fn law_sync_tells_of_every_machine(
    path: &str,
    outcomes: &Option<Vec<(String, Result<(), String>)>>,
    out: Vec<String>,
    i: int,
    name: &str,
    line: String,
)
    requires
        call_ensures(sync, (path, outcomes), out),
        outcomes matches Some(v) ==> 0 <= i < v@.len() ==> name@ == v@[i].0@ && call_ensures(
            outcome_line,
            (name, &v@[i].1),
            line,
        ),
    ensures
        out@.len() > 0 && ends(out@[0]@, path@) && mentions(out@[0]@, "server.toml"@),
        outcomes is None ==> out@.len() == 2 && mentions(out@[1]@, "not configured"@),
        outcomes matches Some(v) ==> out@.len() == v@.len() + 1,
        outcomes matches Some(v) ==> 0 <= i < v@.len() ==> out@[i + 1]@ == line@,
{
    let all = lines(out@);
    assert(all.len() == out@.len());
    assert(all[0] == out@[0]@);
    reveal_strlit("server.toml");
    reveal_strlit("server.toml regenerated at ");
    let first = out@[0]@;
    assert(first.skip(first.len() - path@.len()) =~= path@);
    assert(first.subrange(0, 11) =~= "server.toml"@);
    lemma_stands(first, "server.toml"@, 0);
    match outcomes {
        None => {
            reveal_strlit("not configured");
            reveal_strlit("termix: not configured, skipped");
            assert(all[1] == out@[1]@);
            assert(out@[1]@.subrange(8, 22) =~= "not configured"@);
            lemma_stands(out@[1]@, "not configured"@, 8);
        },
        Some(v) => {
            if 0 <= i < v@.len() {
                assert(all[i + 1] == out@[i + 1]@);
                assert(all[i + 1] == sync_line(v@[i].0@, v@[i].1));
            }
        },
    }
}

// ------------------------------------------------------------------ startup ---
/// What is said where nothing listens on the control port gives that port.
pub proof fn law_the_control_port_is_told(cfg: &Config, port: u16, s: String)
    requires
        call_ensures(control_port, (cfg,), port),
        call_ensures(control_down, (cfg,), s),
    ensures
        exists|digits: Seq<char>|
            #[trigger] spells(digits, port as int) && begins(
                s@,
                "nothing listening on 127.0.0.1:"@ + digits + " "@,
            ),
{
    let digits = decimal_digits(port as nat);
    lemma_spells(port as nat);
    reveal_strlit(" ");
    reveal_strlit(" — is the rathole server running?");
    let head = "nothing listening on 127.0.0.1:"@ + digits + " "@;
    assert(s@.take(head.len() as int) =~= head);
}

/// The service starts exactly where server.toml could be written, rathole listens, and
/// Termix answers or is not configured; it warns exactly of the last. What keeps it
/// from starting is the first of these that fails, and it says what was found.
pub proof fn law_startup_needs_what_it_uses(
    cfg: &Config,
    written: &Result<(), String>,
    control_up: bool,
    termix: &Option<Result<(), String>>,
    r: Result<Option<String>, String>,
    down: String,
)
    requires
        call_ensures(startup_checks, (cfg, written, control_up, termix), r),
        call_ensures(control_down, (cfg,), down),
    ensures
        r is Ok <==> written is Ok && control_up && (termix is None || termix->0 is Ok),
        r is Ok ==> (r->Ok_0 is Some <==> termix is None),
        r matches Ok(Some(w)) ==> begins(w@, "[termix] not configured"@),
        written matches Err(e) ==> r is Err && ends(r->Err_0@, ": "@ + e@) && begins(
            r->Err_0@,
            "rathole config"@,
        ),
        written is Ok && !control_up ==> r is Err && r->Err_0@ == "rathole not reachable: "@ + down@,
        written is Ok && control_up ==> (termix matches Some(Err(e)) ==> r is Err && ends(
            r->Err_0@,
            ": "@ + e@,
        ) && begins(r->Err_0@, "Termix not reachable"@)),
{
    reveal_strlit(": ");
    reveal_strlit("rathole config");
    reveal_strlit("rathole config not writable — is rathole set up? (omni doctor): ");
    reveal_strlit("Termix not reachable");
    reveal_strlit(
        "Termix not reachable — fix termix.url/api_key or remove [termix] from the config: ",
    );
    reveal_strlit("[termix] not configured");
    reveal_strlit(
        "[termix] not configured — machines will tunnel but won't appear in the browser",
    );
    if let Err(e) = written {
        let s = r->Err_0@;
        assert(s.skip(s.len() - (": "@ + e@).len()) =~= ": "@ + e@);
        assert(s.take(14) =~= "rathole config"@);
    } else if control_up {
        match termix {
            None => {
                let w = r->Ok_0->0@;
                assert(w.take(23) =~= "[termix] not configured"@);
            },
            Some(Err(e)) => {
                let s = r->Err_0@;
                assert(s.skip(s.len() - (": "@ + e@).len()) =~= ": "@ + e@);
                assert(s.take(20) =~= "Termix not reachable"@);
            },
            Some(Ok(_)) => {},
        }
    }
}

} // verus!
