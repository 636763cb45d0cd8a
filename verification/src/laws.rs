//! What holds of the service as a whole.

use crate::clock::{in_four_digit_years, is_stamp, rfc3339, Moment};
use crate::config::Config;
use crate::db::{
    authenticated, consumed, consumed_hint, first_index, found, highest_port, inserted,
    is_live_listing, lemma_filter_order, lemma_first_index, lemma_highest_port, lemma_is_first_index,
    live_with_id, live_with_id_prefix, live_with_name, machine_where, minted, port_after, revoked,
    seen_at, standing, token_added, updated, usable, with_id, with_row, DbError, MachineView,
    RegistryView, TokenView,
};
use crate::json::{json_text, lemma_with_member, member, with_member, MemberViews};
use crate::ops::{
    bind_for, can_shorten, chosen_name, display_name, enrollment, flip, flips, host_stored,
    is_enrolled, is_hex, is_stale, joined, lemma_found_is_live, lemma_update_own_row, marked, rejoined, renamed,
    shortened, silence, stored, swept, Enrolled, Fresh,
};
use crate::random::{is_hex_digit, is_uuid, is_uuid_hyphen};
use crate::rathole::{client_toml, os_shown, server_head, server_stanza, server_stanzas, server_toml};
use crate::serve::{
    admitted, after_call, config_answer, config_reply, enroll_refusal, plain,
};
use crate::termix::{
    owned_members, upsert_step, HostPayload, Reply, Termix, Upsert, UpsertStepView,
};
use crate::text::{
    decimal_digits, occurs, stands_at, strip_back, strip_both, strip_front, text_lt, Strip,
};
use crate::util::{cleaned, is_safe, made_safe, safe_start, sanitized, sha256_text};
use vstd::prelude::*;
use vstd::utf8::encode_utf8;

verus! {

// ------------------------------------------------------------ ids and ports ---
/// The port that the next machine gets is above every port ever given, deleted
/// machines counted: ports are never reused, and allocation only counts up.
pub proof fn law_next_port_is_new(ms: Seq<MachineView>, port_start: u16)
    ensures
        forall|i: int| 0 <= i < ms.len() ==> (#[trigger] ms[i]).port < port_after(ms, port_start),
{
    lemma_highest_port(ms);
}

/// Every row of `before` is still there in `after`, in its place, with the id,
/// the port and the time of enrollment it had, and revoked if it was.
pub open spec fn pinned(before: RegistryView, after: RegistryView) -> bool {
    &&& before.machines.len() <= after.machines.len()
    &&& forall|i: int|
        0 <= i < before.machines.len() ==> {
            &&& (#[trigger] after.machines[i]).id == before.machines[i].id
            &&& after.machines[i].port == before.machines[i].port
            &&& after.machines[i].enrolled_at == before.machines[i].enrolled_at
            &&& before.machines[i].deleted ==> after.machines[i].deleted
        }
}

/// No row but the one at `i` differs.
pub open spec fn only_row_differs(before: RegistryView, after: RegistryView, i: int) -> bool {
    &&& before.machines.len() == after.machines.len()
    &&& forall|j: int|
        0 <= j < before.machines.len() && j != i ==> #[trigger] after.machines[j]
            == before.machines[j]
}

/// Ports are pinned to ids for good: over any history whose every change leaves ids
/// on their ports, each machine keeps its port, and a port that was ever given
/// belongs to no other id later.
pub proof fn law_ports_are_never_reused(history: Seq<RegistryView>)
    requires
        history.len() > 0,
        history.last().wf(),
        forall|k: int|
            0 < k < history.len() ==> pinned(history[k - 1], #[trigger] history[k]),
    ensures
        pinned(history[0], history.last()),
        forall|i: int, j: int|
            0 <= i < history[0].machines.len() && 0 <= j < history.last().machines.len() && (
            #[trigger] history[0].machines[i]).port == (
            #[trigger] history.last().machines[j]).port ==> history[0].machines[i].id
                == history.last().machines[j].id,
{
    lemma_pinned_over(history);
    let first = history[0].machines;
    let last = history.last().machines;
    assert forall|i: int, j: int|
        0 <= i < first.len() && 0 <= j < last.len() && (#[trigger] first[i]).port == (
        #[trigger] last[j]).port implies first[i].id == last[j].id by {
        assert(last[i].port == first[i].port);
        if i < j {
            assert(last[i].port != last[j].port);
        } else if j < i {
            assert(last[j].port != last[i].port);
        }
    }
}

/// What every change of a history keeps, the history keeps.
proof fn lemma_pinned_over(history: Seq<RegistryView>)
    requires
        history.len() > 0,
        forall|k: int|
            0 < k < history.len() ==> pinned(history[k - 1], #[trigger] history[k]),
    ensures
        pinned(history[0], history.last()),
    decreases history.len(),
{
    if history.len() > 1 {
        let past = history.drop_last();
        assert forall|k: int| 0 < k < past.len() implies pinned(
            past[k - 1],
            #[trigger] past[k],
        ) by {
            assert(past[k] == history[k]);
        }
        lemma_pinned_over(past);
        let n = history.len() - 1;
        assert(pinned(history[n - 1], history[n]));
        let (first, mid, last) = (history[0], past.last(), history.last());
        assert forall|i: int| 0 <= i < first.machines.len() implies {
            &&& (#[trigger] last.machines[i]).id == first.machines[i].id
            &&& last.machines[i].port == first.machines[i].port
            &&& last.machines[i].enrolled_at == first.machines[i].enrolled_at
            &&& first.machines[i].deleted ==> last.machines[i].deleted
        } by {
            assert(mid.machines[i].id == first.machines[i].id);
        }
    }
}

/// Adding and updating a machine leave every id on its port, and no revocation is
/// undone.
pub proof fn law_writes_keep_ids_on_their_ports(reg: RegistryView, m: MachineView)
    ensures
        inserted(reg, m) matches Ok(next) ==> pinned(reg, next),
        updated(reg, m) matches Ok(next) ==> pinned(reg, next),
{
    lemma_first_index(reg.machines, with_id(m.id));
}

/// Heartbeats, revocations and stale markers leave every id on its port, and no
/// revocation is undone.
pub proof fn law_marks_keep_ids_on_their_ports(
    reg: RegistryView,
    id: Seq<char>,
    ts: Seq<char>,
    stale: bool,
)
    ensures
        pinned(reg, with_row(reg, id, seen_at(ts))),
        pinned(reg, with_row(reg, id, revoked())),
        pinned(reg, with_row(reg, id, marked(stale))),
{
    lemma_first_index(reg.machines, with_id(id));
}

/// Enrolling leaves every machine there was on its port, whether it succeeds or
/// not, and brings no revoked machine back.
pub proof fn law_enrolling_keeps_ids_on_their_ports(
    reg: RegistryView,
    port_start: u16,
    token: Seq<char>,
    name: Option<Seq<char>>,
    os: Option<Seq<char>>,
    f: Fresh,
)
    ensures
        pinned(reg, enrollment(reg, port_start, token, name, os, f).0),
{
    let spent = consumed(reg, token, f.now@);
    if let Ok(hint) = consumed_hint(reg, token, f.now@) {
        let clean = sanitized(chosen_name(name, hint), f.fallback@);
        lemma_first_index(spent.machines, live_with_name(clean));
    }
}

/// Renaming, exposing and revoking leave every machine on its port, and no
/// revocation is undone.
pub proof fn law_verbs_keep_ids_on_their_ports(
    reg: RegistryView,
    needle: Seq<char>,
    name: Seq<char>,
    exposed: bool,
)
    requires
        reg.wf(),
    ensures
        renamed(reg.machines, needle, name) matches Ok(m) ==> pinned(reg, stored(reg, m)),
        found(reg.machines, needle) matches Ok(m) ==> {
            &&& pinned(reg, stored(reg, MachineView { bind_addr: bind_for(exposed), ..m }))
            &&& pinned(reg, stored(reg, MachineView { deleted: true, ..m }))
        },
{
    lemma_found_is_live(reg, needle);
}

// ---------------------------------------------------------------- enrolling ---
/// What makes an enrollment a re-enrollment: the token is good, and the name it
/// leads to belongs to the live machine at `i`.
pub open spec fn reenrolls(
    reg: RegistryView,
    token: Seq<char>,
    name: Option<Seq<char>>,
    f: Fresh,
    i: int,
) -> bool {
    &&& consumed_hint(reg, token, f.now@) is Ok
    &&& 0 <= i < reg.machines.len()
    &&& !reg.machines[i].deleted
    &&& reg.machines[i].name == sanitized(
        chosen_name(name, consumed_hint(reg, token, f.now@)->Ok_0),
        f.fallback@,
    )
}

/// Re-enrolling an existing name updates that machine, never creates a duplicate:
/// it keeps its id, its port and its exposure, gets the secrets just drawn, and
/// no other machine is touched.
pub proof fn law_reenrolling_updates(
    reg: RegistryView,
    port_start: u16,
    token: Seq<char>,
    name: Option<Seq<char>>,
    os: Option<Seq<char>>,
    f: Fresh,
    i: int,
)
    requires
        reg.wf(),
        reenrolls(reg, token, name, f, i),
    ensures
        enrollment(reg, port_start, token, name, os, f).1 == Ok::<MachineView, DbError>(
            rejoined(reg.machines[i], os, f, sha256_text(f.secret@)),
        ),
        enrollment(reg, port_start, token, name, os, f).0.machines == reg.machines.update(
            i,
            rejoined(reg.machines[i], os, f, sha256_text(f.secret@)),
        ),
        rejoined(reg.machines[i], os, f, sha256_text(f.secret@)).id == reg.machines[i].id,
        rejoined(reg.machines[i], os, f, sha256_text(f.secret@)).port == reg.machines[i].port,
        rejoined(reg.machines[i], os, f, sha256_text(f.secret@)).bind_addr == reg.machines[i].bind_addr,
        rejoined(reg.machines[i], os, f, sha256_text(f.secret@)).service_token == f.service_token@,
        rejoined(reg.machines[i], os, f, sha256_text(f.secret@)).secret_hash == sha256_text(f.secret@),
{
    let ms = reg.machines;
    let clean = ms[i].name;
    assert forall|j: int| 0 <= j < i implies !live_with_name(clean)(#[trigger] ms[j]) by {
        if !ms[j].deleted {
            assert(ms[j].name != ms[i].name);
        }
    }
    lemma_is_first_index(ms, live_with_name(clean), i);
}

/// A machine that enrolls for the first time gets the id just drawn, loopback and
/// a port above every port ever given; all there was before stays as it was.
pub proof fn law_enrolling_adds(
    reg: RegistryView,
    port_start: u16,
    token: Seq<char>,
    name: Option<Seq<char>>,
    os: Option<Seq<char>>,
    f: Fresh,
)
    requires
        reg.wf(),
        consumed_hint(reg, token, f.now@) is Ok,
        forall|i: int| !reenrolls(reg, token, name, f, i),
        port_after(reg.machines, port_start) <= 0xffff,
        forall|i: int| 0 <= i < reg.machines.len() ==> (#[trigger] reg.machines[i]).id != f.id@,
    ensures
        enrollment(reg, port_start, token, name, os, f).1 matches Ok(m) && {
            &&& enrollment(reg, port_start, token, name, os, f).0.machines == reg.machines.push(m)
            &&& m.id == f.id@
            &&& m.bind_addr == "127.0.0.1"@
            &&& m.port == port_after(reg.machines, port_start)
            &&& forall|i: int|
                0 <= i < reg.machines.len() ==> (#[trigger] reg.machines[i]).port < m.port
        },
{
    let ms = reg.machines;
    let hint = consumed_hint(reg, token, f.now@)->Ok_0;
    let clean = sanitized(chosen_name(name, hint), f.fallback@);
    lemma_first_index(ms, live_with_name(clean));
    if let Some(i) = first_index(ms, live_with_name(clean)) {
        assert(reenrolls(reg, token, name, f, i));
    }
    lemma_first_index(ms, with_id(f.id@));
    law_next_port_is_new(ms, port_start);
    let m = joined(clean, port_after(ms, port_start) as u16, os, f, sha256_text(f.secret@));
    assert(MachineView { deleted: false, marked_stale: false, ..m } =~= m);
}

/// Whoever has enrolled is let in: the id and the secret handed out authenticate
/// the machine that was entered, and its name leads to it.
pub proof fn law_enrolled_machine_is_admitted(
    reg: RegistryView,
    port_start: u16,
    token: Seq<char>,
    name: Option<Seq<char>>,
    os: Option<Seq<char>>,
    f: Fresh,
)
    requires
        reg.wf(),
        enrollment(reg, port_start, token, name, os, f).1 is Ok,
    ensures
        ({
            let (after, r) = enrollment(reg, port_start, token, name, os, f);
            &&& authenticated(after.machines, r->Ok_0.id, f.secret@) == r
            &&& machine_where(after.machines, live_with_name(r->Ok_0.name)) == Some(r->Ok_0)
            &&& admitted(after.machines, Some(r->Ok_0.id), Some(f.secret@)) is Ok
        }),
{
    let ms = reg.machines;
    let hint = consumed_hint(reg, token, f.now@)->Ok_0;
    let clean = sanitized(chosen_name(name, hint), f.fallback@);
    let (after, r) = enrollment(reg, port_start, token, name, os, f);
    let m = r->Ok_0;
    lemma_first_index(ms, live_with_name(clean));
    lemma_first_index(ms, with_id(f.id@));
    match first_index(ms, live_with_name(clean)) {
        Some(i) => {
            assert forall|j: int| 0 <= j < i implies !live_with_id(m.id)(
                #[trigger] after.machines[j],
            ) by {
                assert(ms[j].id != ms[i].id);
            }
            lemma_is_first_index(after.machines, live_with_id(m.id), i);
            assert forall|j: int| 0 <= j < i implies !live_with_name(m.name)(
                #[trigger] after.machines[j],
            ) by {
                assert(after.machines[j] == ms[j]);
                assert(!live_with_name(clean)(ms[j]));
            }
            lemma_is_first_index(after.machines, live_with_name(m.name), i);
        },
        None => {
            let i = ms.len() as int;
            assert(MachineView { deleted: false, marked_stale: false, ..m } =~= m);
            assert forall|j: int| 0 <= j < i implies !live_with_id(m.id)(
                #[trigger] after.machines[j],
            ) by {
                assert(after.machines[j] == ms[j]);
                assert(!with_id(f.id@)(ms[j]));
            }
            lemma_is_first_index(after.machines, live_with_id(m.id), i);
            assert forall|j: int| 0 <= j < i implies !live_with_name(m.name)(
                #[trigger] after.machines[j],
            ) by {
                assert(after.machines[j] == ms[j]);
                assert(!live_with_name(clean)(ms[j]));
            }
            lemma_is_first_index(after.machines, live_with_name(m.name), i);
        },
    }
}

/// Config is fetched, not pushed: right after enrolling, `GET /config` hands out
/// the client.toml that enrolling did.
pub proof fn law_config_is_what_enrolling_gave(
    reg: RegistryView,
    cfg: Config,
    token: Seq<char>,
    name: Option<Seq<char>>,
    os: Option<Seq<char>>,
    f: Fresh,
    e: Enrolled,
)
    requires
        reg.wf(),
        enrollment(reg, cfg.port_start, token, name, os, f).1 matches Ok(m) && is_enrolled(
            e,
            m,
            f,
            cfg,
        ),
    ensures
        ({
            let after = enrollment(reg, cfg.port_start, token, name, os, f).0;
            let answer = config_answer(cfg, after.machines, Some(e.machine@.id), Some(e.secret@));
            &&& answer == config_reply(cfg, e.machine@)
            &&& answer.body == e.client_toml@
        }),
{
    law_enrolled_machine_is_admitted(reg, cfg.port_start, token, name, os, f);
}

/// Re-enrolling rotates the secret: a secret with another hash than the new one
/// is refused from then on.
pub proof fn law_old_secret_is_refused(
    reg: RegistryView,
    port_start: u16,
    token: Seq<char>,
    name: Option<Seq<char>>,
    os: Option<Seq<char>>,
    f: Fresh,
    i: int,
    old_secret: Seq<char>,
)
    requires
        reg.wf(),
        reenrolls(reg, token, name, f, i),
        sha256_text(old_secret) != sha256_text(f.secret@),
    ensures
        authenticated(
            enrollment(reg, port_start, token, name, os, f).0.machines,
            reg.machines[i].id,
            old_secret,
        ) == Err::<MachineView, DbError>(DbError::BadSecret),
{
    law_reenrolling_updates(reg, port_start, token, name, os, f, i);
    law_enrolled_machine_is_admitted(reg, port_start, token, name, os, f);
}

/// An enrollment without a good token enters no machine and changes none.
pub proof fn law_bad_token_enrolls_nothing(
    reg: RegistryView,
    port_start: u16,
    token: Seq<char>,
    name: Option<Seq<char>>,
    os: Option<Seq<char>>,
    f: Fresh,
)
    requires
        consumed_hint(reg, token, f.now@) is Err,
    ensures
        enrollment(reg, port_start, token, name, os, f).1 == Err::<MachineView, DbError>(
            DbError::BadToken,
        ),
        enrollment(reg, port_start, token, name, os, f).0.machines == reg.machines,
{
}

// ------------------------------------------------------------------- tokens ---
/// At most one token has this hash.
pub open spec fn hash_is_unique(ts: Seq<TokenView>, hash: Seq<char>) -> bool {
    forall|i: int, j: int|
        0 <= i < j < ts.len() ==> !((#[trigger] ts[i]).token_hash == hash && (
        #[trigger] ts[j]).token_hash == hash)
}

/// Every token with this hash was used.
pub open spec fn spent(ts: Seq<TokenView>, hash: Seq<char>) -> bool {
    forall|i: int|
        0 <= i < ts.len() && (#[trigger] ts[i]).token_hash == hash ==> ts[i].used_at is Some
}

/// A token can be used once: after it was used, every further attempt fails, at
/// whatever time.
pub proof fn law_token_is_single_use(
    reg: RegistryView,
    token: Seq<char>,
    now: Seq<char>,
    later: Seq<char>,
)
    requires
        hash_is_unique(reg.tokens, sha256_text(token)),
        consumed_hint(reg, token, now) is Ok,
    ensures
        spent(consumed(reg, token, now).tokens, sha256_text(token)),
        consumed_hint(consumed(reg, token, now), token, later) == Err::<
            Option<Seq<char>>,
            DbError,
        >(DbError::BadToken),
{
    let hash = sha256_text(token);
    let left = reg.tokens.filter(standing(now));
    let at = lemma_filter_order(reg.tokens, standing(now));
    lemma_first_index(left, usable(hash, now));
    let i = first_index(left, usable(hash, now))->0;
    let after = consumed(reg, token, now).tokens;
    assert forall|k: int|
        0 <= k < after.len() && (#[trigger] after[k]).token_hash == hash implies after[k].used_at
        is Some by {
        if k != i {
            assert(after[k] == left[k]);
            if k < i {
                assert(at[k] < at[i]);
                assert(reg.tokens[at[k]].token_hash == hash && reg.tokens[at[i]].token_hash == hash);
            } else {
                assert(at[i] < at[k]);
                assert(reg.tokens[at[i]].token_hash == hash && reg.tokens[at[k]].token_hash == hash);
            }
        }
    }
    law_spent_tokens_buy_nothing(consumed(reg, token, now), token, later);
}

/// A spent token buys nothing, at whatever time.
pub proof fn law_spent_tokens_buy_nothing(reg: RegistryView, token: Seq<char>, now: Seq<char>)
    requires
        spent(reg.tokens, sha256_text(token)),
    ensures
        consumed_hint(reg, token, now) == Err::<Option<Seq<char>>, DbError>(DbError::BadToken),
{
    let hash = sha256_text(token);
    let left = reg.tokens.filter(standing(now));
    let at = lemma_filter_order(reg.tokens, standing(now));
    lemma_first_index(left, usable(hash, now));
    if let Some(k) = first_index(left, usable(hash, now)) {
        assert(left[k] == reg.tokens[at[k]]);
    }
}

/// A spent token stays spent, whatever else is enrolled, used or minted: it dies
/// with its use.
pub proof fn law_spent_tokens_stay_spent(
    reg: RegistryView,
    hash: Seq<char>,
    port_start: u16,
    other: Seq<char>,
    name: Option<Seq<char>>,
    os: Option<Seq<char>>,
    f: Fresh,
    id: Seq<char>,
    new_hash: Seq<char>,
    ttl: int,
    now: int,
)
    requires
        spent(reg.tokens, hash),
        new_hash != hash,
    ensures
        spent(consumed(reg, other, f.now@).tokens, hash),
        spent(enrollment(reg, port_start, other, name, os, f).0.tokens, hash),
        token_added(reg, id, new_hash, name, ttl, now) matches Ok(next) ==> spent(
            next.tokens,
            hash,
        ),
{
    let theirs = sha256_text(other);
    let left = reg.tokens.filter(standing(f.now@));
    let at = lemma_filter_order(reg.tokens, standing(f.now@));
    lemma_first_index(left, usable(theirs, f.now@));
    let after = consumed(reg, other, f.now@).tokens;
    assert forall|k: int|
        0 <= k < after.len() && (#[trigger] after[k]).token_hash == hash implies after[k].used_at
        is Some by {
        assert(left[k] == reg.tokens[at[k]]);
    }
}

/// A token buys an enrollment up to and with the second in which it expires, and
/// none after it.
pub proof fn law_token_lives_until_it_expires(
    reg: RegistryView,
    id: Seq<char>,
    token: Seq<char>,
    hint: Option<Seq<char>>,
    ttl: int,
    minted_at: i64,
    used_at: i64,
)
    requires
        forall|i: int|
            0 <= i < reg.tokens.len() ==> (#[trigger] reg.tokens[i]).token_hash != sha256_text(
                token,
            ),
        token_added(reg, id, sha256_text(token), hint, ttl, minted_at as int) is Ok,
        is_stamp(rfc3339((minted_at + ttl) as i64), (minted_at + ttl) as i64),
        in_four_digit_years((minted_at + ttl) as i64),
        in_four_digit_years(used_at),
    ensures
        ({
            let next = token_added(reg, id, sha256_text(token), hint, ttl, minted_at as int)->Ok_0;
            consumed_hint(next, token, rfc3339(used_at)) == (if used_at <= minted_at + ttl {
                Ok::<Option<Seq<char>>, DbError>(hint)
            } else {
                Err(DbError::BadToken)
            })
        }),
{
    let hash = sha256_text(token);
    let now = rfc3339(used_at);
    let next = token_added(reg, id, hash, hint, ttl, minted_at as int)->Ok_0;
    let row = minted(id, hash, hint, ttl, minted_at as int);
    let n = reg.tokens.len() as int;
    let left = next.tokens.filter(standing(now));
    let at = lemma_filter_order(next.tokens, standing(now));
    assert(next.tokens[n] == row);
    assert(text_lt(row.expires_at, now) <==> minted_at + ttl < used_at);
    lemma_first_index(left, usable(hash, now));
    assert forall|k: int| 0 <= k < left.len() && left[k].token_hash == hash implies left[k]
        == row by {
        if at[k] < n {
            assert(next.tokens[at[k]] == reg.tokens[at[k]]);
        }
    }
    if used_at <= minted_at + ttl {
        assert(standing(now)(next.tokens[n]));
        let k = choose|k: int| 0 <= k < at.len() && at[k] == n;
        assert(left[k] == row);
        assert(usable(hash, now)(left[k]));
    } else {
        if let Some(k) = first_index(left, usable(hash, now)) {
            assert(left[k] == row);
        }
    }
}

/// An attempt with one token spends no other: whoever holds another token that
/// can be used now can still use it after it.
pub proof fn law_attempt_spends_no_other_token(
    reg: RegistryView,
    token: Seq<char>,
    other: Seq<char>,
    now: Seq<char>,
)
    requires
        sha256_text(token) != sha256_text(other),
    ensures
        consumed_hint(consumed(reg, token, now), other, now) is Ok <==> consumed_hint(
            reg,
            other,
            now,
        ) is Ok,
{
    let hash = sha256_text(token);
    let theirs = sha256_text(other);
    let left = reg.tokens.filter(standing(now));
    let after = consumed(reg, token, now).tokens;
    lemma_first_index(left, usable(hash, now));
    lemma_first_index(left, usable(theirs, now));
    let from = lemma_filter_order(after, standing(now));
    let kept = after.filter(standing(now));
    lemma_first_index(kept, usable(theirs, now));
    if let Some(k) = first_index(left, usable(theirs, now)) {
        assert(after[k] == left[k]);
        assert(standing(now)(after[k]));
        let j = choose|j: int| 0 <= j < from.len() && from[j] == k;
        assert(kept[j] == after[k]);
        assert(usable(theirs, now)(kept[j]));
    }
    if let Some(j) = first_index(kept, usable(theirs, now)) {
        let k = from[j];
        assert(after[k] == kept[j]);
        assert(left[k].token_hash == theirs && left[k] == after[k]);
        assert(usable(theirs, now)(left[k]));
    }
}

// ----------------------------------------------------------------- revoking ---
/// A revoked machine is gone: no secret authenticates it, and neither its id nor
/// its name leads to it any more.
pub proof fn law_revoked_machine_is_refused(
    reg: RegistryView,
    needle: Seq<char>,
    secret: Seq<char>,
)
    requires
        reg.wf(),
        found(reg.machines, needle) is Ok,
    ensures
        ({
            let m = found(reg.machines, needle)->Ok_0;
            let after = stored(reg, MachineView { deleted: true, ..m });
            &&& authenticated(after.machines, m.id, secret) == Err::<MachineView, DbError>(
                DbError::UnknownMachine,
            )
            &&& machine_where(after.machines, live_with_id(m.id)) is None
            &&& machine_where(after.machines, live_with_name(m.name)) is None
        }),
{
    lemma_found_is_live(reg, needle);
    let ms = reg.machines;
    let m = found(ms, needle)->Ok_0;
    let i = first_index(ms, with_id(m.id))->0;
    let after = stored(reg, MachineView { deleted: true, ..m });
    lemma_first_index(after.machines, live_with_id(m.id));
    lemma_first_index(after.machines, live_with_name(m.name));
    assert forall|j: int| 0 <= j < ms.len() implies !live_with_id(m.id)(
        #[trigger] after.machines[j],
    ) && !live_with_name(m.name)(after.machines[j]) by {
        if j != i {
            assert(after.machines[j] == ms[j]);
            if j < i {
                assert(ms[j].id != ms[i].id);
            } else {
                assert(ms[i].id != ms[j].id);
            }
        }
    }
}

/// A revoked id stays out for good: as long as rows stay in place and no
/// revocation is undone, no machine is live under that id again.
pub proof fn law_revoked_ids_stay_out(
    before: RegistryView,
    after: RegistryView,
    i: int,
    secret: Seq<char>,
)
    requires
        after.wf(),
        pinned(before, after),
        0 <= i < before.machines.len(),
        before.machines[i].deleted,
    ensures
        machine_where(after.machines, live_with_id(before.machines[i].id)) is None,
        authenticated(after.machines, before.machines[i].id, secret) == Err::<
            MachineView,
            DbError,
        >(DbError::UnknownMachine),
{
    let id = before.machines[i].id;
    lemma_first_index(after.machines, live_with_id(id));
    if let Some(k) = first_index(after.machines, live_with_id(id)) {
        assert(after.machines[i].id == id);
        if k < i {
            assert(after.machines[k].id != after.machines[i].id);
        } else if i < k {
            assert(after.machines[i].id != after.machines[k].id);
        }
    }
}

/// Revoking one machine, renaming it or exposing it affects no other: every other
/// row stays as it was.
pub proof fn law_verbs_touch_one_machine(
    reg: RegistryView,
    needle: Seq<char>,
    name: Seq<char>,
    exposed: bool,
)
    requires
        reg.wf(),
    ensures
        renamed(reg.machines, needle, name) matches Ok(m) ==> exists|i: int|
            reg.machines[i].id == m.id && #[trigger] only_row_differs(reg, stored(reg, m), i),
        found(reg.machines, needle) matches Ok(m) ==> exists|i: int|
            #![trigger reg.machines[i]]
            reg.machines[i].id == m.id && only_row_differs(
                reg,
                stored(reg, MachineView { deleted: true, ..m }),
                i,
            ) && only_row_differs(
                reg,
                stored(reg, MachineView { bind_addr: bind_for(exposed), ..m }),
                i,
            ),
{
    lemma_found_is_live(reg, needle);
    if let Ok(m) = found(reg.machines, needle) {
        let i = first_index(reg.machines, with_id(m.id))->0;
        assert(reg.machines[i].id == m.id);
        if let Ok(n) = renamed(reg.machines, needle, name) {
            assert(only_row_differs(reg, stored(reg, n), i));
        }
    }
}

/// A prefix of an id suffices where no other live machine shares it; where one
/// does, and neither a name nor an id is exactly that, it is refused as ambiguous.
pub proof fn law_unique_prefix_suffices(ms: Seq<MachineView>, needle: Seq<char>, i: int)
    requires
        0 <= i < ms.len(),
        live_with_id_prefix(needle)(ms[i]),
        machine_where(ms, live_with_name(needle)) is None,
    ensures
        (forall|j: int|
            0 <= j < ms.len() && j != i ==> !live_with_id_prefix(needle)(#[trigger] ms[j]))
            ==> found(ms, needle) == Ok::<MachineView, DbError>(ms[i]),
        machine_where(ms, live_with_id(needle)) is None && (exists|j: int|
            0 <= j < ms.len() && j != i && live_with_id_prefix(needle)(#[trigger] ms[j]))
            ==> found(ms, needle) matches Err(DbError::Ambiguous(_)),
{
    let p = live_with_id_prefix(needle);
    let at = lemma_filter_order(ms, p);
    lemma_first_index(ms, live_with_id(needle));
    let k = choose|k: int| 0 <= k < at.len() && at[k] == i;
    assert(p(ms[i]));
    assert(at.contains(i));
    if forall|j: int| 0 <= j < ms.len() && j != i ==> !p(#[trigger] ms[j]) {
        assert(k == 0) by {
            if k > 0 {
                assert(at[0] < at[k]);
            }
        }
        assert(at.len() == 1) by {
            if at.len() > 1 {
                assert(at[0] < at[1]);
            }
        }
        if let Some(j) = first_index(ms, live_with_id(needle)) {
            assert(p(ms[j]));
        }
    }
    if exists|j: int| 0 <= j < ms.len() && j != i && p(#[trigger] ms[j]) {
        let j = choose|j: int| 0 <= j < ms.len() && j != i && p(#[trigger] ms[j]);
        assert(at.contains(j));
        let l = choose|l: int| 0 <= l < at.len() && at[l] == j;
        assert(k != l);
    }
}

/// A secret is accepted exactly where a live machine has that id and keeps the hash
/// of that secret, and what is accepted is that machine.
pub proof fn law_authentication_is_exact(
    reg: RegistryView,
    id: Seq<char>,
    secret: Seq<char>,
    m: MachineView,
)
    requires
        reg.wf(),
    ensures
        authenticated(reg.machines, id, secret) == Ok::<MachineView, DbError>(m) <==> (
        reg.machines.contains(m) && !m.deleted && m.id == id && m.secret_hash == sha256_text(
            secret,
        )),
{
    let ms = reg.machines;
    lemma_first_index(ms, live_with_id(id));
    if ms.contains(m) && !m.deleted && m.id == id {
        let i = choose|i: int| 0 <= i < ms.len() && ms[i] == m;
        assert forall|j: int| 0 <= j < i implies !live_with_id(id)(#[trigger] ms[j]) by {
            assert(ms[j].id != ms[i].id);
        }
        lemma_is_first_index(ms, live_with_id(id), i);
    }
}

/// `after` holds every row of `before` in its place with the id it had; the one with
/// this id has the secret it had, and is deleted or not as it was.
pub open spec fn credentials_kept(
    before: Seq<MachineView>,
    after: Seq<MachineView>,
    id: Seq<char>,
) -> bool {
    &&& before.len() <= after.len()
    &&& forall|i: int|
        0 <= i < before.len() ==> {
            &&& (#[trigger] after[i]).id == before[i].id
            &&& before[i].id == id ==> after[i].secret_hash == before[i].secret_hash
            &&& before[i].id == id ==> after[i].deleted == before[i].deleted
        }
}

proof fn lemma_credentials_kept(
    before: Seq<MachineView>,
    after: Seq<MachineView>,
    id: Seq<char>,
    secret: Seq<char>,
)
    requires
        credentials_kept(before, after, id),
        authenticated(before, id, secret) is Ok,
    ensures
        authenticated(after, id, secret) is Ok,
{
    lemma_first_index(before, live_with_id(id));
    let i = first_index(before, live_with_id(id))->0;
    assert forall|j: int| 0 <= j < i implies !live_with_id(id)(#[trigger] after[j]) by {
        assert(!live_with_id(id)(before[j]));
    }
    lemma_is_first_index(after, live_with_id(id), i);
}

/// Nothing expires out from under a running machine: whoever is let in still is
/// after heartbeats, stale markers, renames, changes of exposure, stored host ids,
/// tokens used and minted, of its own and of any other machine.
pub proof fn law_credentials_last(
    reg: RegistryView,
    id: Seq<char>,
    secret: Seq<char>,
    other: Seq<char>,
    ts: Seq<char>,
    stale: bool,
    needle: Seq<char>,
    name: Seq<char>,
    exposed: bool,
    read: MachineView,
    host_id: Seq<char>,
    token: Seq<char>,
)
    requires
        reg.wf(),
        authenticated(reg.machines, id, secret) is Ok,
    ensures
        authenticated(with_row(reg, other, seen_at(ts)).machines, id, secret) is Ok,
        authenticated(with_row(reg, other, marked(stale)).machines, id, secret) is Ok,
        authenticated(host_stored(reg, read, host_id).machines, id, secret) is Ok,
        renamed(reg.machines, needle, name) matches Ok(m) ==> authenticated(
            stored(reg, m).machines,
            id,
            secret,
        ) is Ok,
        found(reg.machines, needle) matches Ok(m) ==> authenticated(
            stored(reg, MachineView { bind_addr: bind_for(exposed), ..m }).machines,
            id,
            secret,
        ) is Ok,
        authenticated(consumed(reg, token, ts).machines, id, secret) is Ok,
        forall|token_id: Seq<char>, hash: Seq<char>, hint: Option<Seq<char>>, ttl: int, now: int|
            (#[trigger] token_added(reg, token_id, hash, hint, ttl, now) matches Ok(next)
                ==> authenticated(next.machines, id, secret) is Ok),
{
    let ms = reg.machines;
    lemma_first_index(ms, with_id(other));
    lemma_first_index(ms, with_id(read.id));
    lemma_credentials_kept(ms, with_row(reg, other, seen_at(ts)).machines, id, secret);
    lemma_credentials_kept(ms, with_row(reg, other, marked(stale)).machines, id, secret);
    lemma_credentials_kept(ms, host_stored(reg, read, host_id).machines, id, secret);
    lemma_found_is_live(reg, needle);
    if let Ok(m) = renamed(ms, needle, name) {
        lemma_credentials_kept(ms, stored(reg, m).machines, id, secret);
    }
    if let Ok(m) = found(ms, needle) {
        let next = MachineView { bind_addr: bind_for(exposed), ..m };
        lemma_credentials_kept(ms, stored(reg, next).machines, id, secret);
    }
}

/// Enrolling another machine, or failing to enroll, shuts nobody out: only a machine
/// that enrolls again has its secret replaced.
pub proof fn law_enrolling_shuts_out_no_other(
    reg: RegistryView,
    id: Seq<char>,
    secret: Seq<char>,
    port_start: u16,
    token: Seq<char>,
    name: Option<Seq<char>>,
    os: Option<Seq<char>>,
    f: Fresh,
)
    requires
        reg.wf(),
        authenticated(reg.machines, id, secret) is Ok,
        enrollment(reg, port_start, token, name, os, f).1 matches Ok(m) ==> m.id != id,
    ensures
        authenticated(
            enrollment(reg, port_start, token, name, os, f).0.machines,
            id,
            secret,
        ) is Ok,
{
    let (after, r) = enrollment(reg, port_start, token, name, os, f);
    if let Ok(hint) = consumed_hint(reg, token, f.now@) {
        let clean = sanitized(chosen_name(name, hint), f.fallback@);
        lemma_first_index(reg.machines, live_with_name(clean));
    }
    lemma_credentials_kept(reg.machines, after.machines, id, secret);
}

/// A secret lasts over any history: as long as no change replaces the secret of that
/// machine or revokes it, it is let in.
pub proof fn law_credentials_outlast_any_history(
    history: Seq<RegistryView>,
    id: Seq<char>,
    secret: Seq<char>,
)
    requires
        history.len() > 0,
        authenticated(history[0].machines, id, secret) is Ok,
        forall|k: int|
            0 < k < history.len() ==> credentials_kept(
                history[k - 1].machines,
                (#[trigger] history[k]).machines,
                id,
            ),
    ensures
        authenticated(history.last().machines, id, secret) is Ok,
    decreases history.len(),
{
    if history.len() > 1 {
        let past = history.drop_last();
        assert forall|k: int| 0 < k < past.len() implies credentials_kept(
            past[k - 1].machines,
            (#[trigger] past[k]).machines,
            id,
        ) by {
            assert(past[k] == history[k]);
        }
        law_credentials_outlast_any_history(past, id, secret);
        let k = history.len() - 1;
        assert(history[k] == history.last());
        lemma_credentials_kept(past.last().machines, history.last().machines, id, secret);
    }
}

/// Revoking one machine shuts out no other.
pub proof fn law_revoking_shuts_out_no_other(
    reg: RegistryView,
    id: Seq<char>,
    secret: Seq<char>,
    other: Seq<char>,
)
    requires
        reg.wf(),
        id != other,
    ensures
        authenticated(with_row(reg, other, revoked()).machines, id, secret) == authenticated(
            reg.machines,
            id,
            secret,
        ),
{
    let ms = reg.machines;
    let after = with_row(reg, other, revoked()).machines;
    lemma_first_index(ms, with_id(other));
    lemma_first_index(ms, live_with_id(id));
    lemma_first_index(after, live_with_id(id));
    match first_index(ms, live_with_id(id)) {
        Some(i) => {
            assert(after[i] == ms[i]);
            assert forall|j: int| 0 <= j < i implies !live_with_id(id)(#[trigger] after[j]) by {
                assert(!live_with_id(id)(ms[j]));
            }
            lemma_is_first_index(after, live_with_id(id), i);
        },
        None => {
            if let Some(i) = first_index(after, live_with_id(id)) {
                assert(!live_with_id(id)(ms[i]));
            }
        },
    }
}

/// The port of a revoked machine stays retired: the next port given is the same
/// as without the revocation.
pub proof fn law_revoking_retires_the_port(reg: RegistryView, id: Seq<char>, port_start: u16)
    ensures
        port_after(with_row(reg, id, revoked()).machines, port_start) == port_after(
            reg.machines,
            port_start,
        ),
{
    lemma_first_index(reg.machines, with_id(id));
    let after = with_row(reg, id, revoked()).machines;
    lemma_same_ports(reg.machines, after);
}

/// Equal ports have an equal maximum.
proof fn lemma_same_ports(a: Seq<MachineView>, b: Seq<MachineView>)
    requires
        a.len() == b.len(),
        forall|i: int| 0 <= i < a.len() ==> (#[trigger] a[i]).port == b[i].port,
    ensures
        highest_port(a) == highest_port(b),
    decreases a.len(),
{
    if a.len() > 0 {
        assert(a[a.len() - 1].port == b[b.len() - 1].port);
        assert forall|i: int| 0 <= i < a.drop_last().len() implies (
        #[trigger] a.drop_last()[i]).port == b.drop_last()[i].port by {
            assert(a[i].port == b[i].port);
        }
        lemma_same_ports(a.drop_last(), b.drop_last());
    }
}

/// Renaming gives the machine its name: the name then leads to it.
pub proof fn law_renamed_machine_is_found(reg: RegistryView, needle: Seq<char>, name: Seq<char>)
    requires
        reg.wf(),
        renamed(reg.machines, needle, name) is Ok,
    ensures
        ({
            let m = renamed(reg.machines, needle, name)->Ok_0;
            &&& m.name == name
            &&& found(stored(reg, m).machines, name) == Ok::<MachineView, DbError>(m)
        }),
{
    lemma_found_is_live(reg, needle);
    let ms = reg.machines;
    let was = found(ms, needle)->Ok_0;
    let m = renamed(ms, needle, name)->Ok_0;
    let i = first_index(ms, with_id(was.id))->0;
    let after = stored(reg, m).machines;
    lemma_first_index(ms, live_with_name(name));
    assert forall|j: int| 0 <= j < i implies !live_with_name(name)(#[trigger] after[j]) by {
        assert(after[j] == ms[j]);
        if live_with_name(name)(ms[j]) {
            let k = first_index(ms, live_with_name(name))->0;
            assert(ms[k].id == was.id);
            assert(k == i) by {
                if k < i {
                    assert(ms[k].id != ms[i].id);
                } else if i < k {
                    assert(ms[i].id != ms[k].id);
                }
            }
            assert(ms[j].name != ms[i].name);
        }
    }
    lemma_is_first_index(after, live_with_name(name), i);
}

/// Unexposing undoes exposing: a machine that was on loopback is again as it was,
/// and so is the whole registry.
pub proof fn law_unexposing_undoes_exposing(reg: RegistryView, m: MachineView)
    requires
        reg.wf(),
        first_index(reg.machines, with_id(m.id)) matches Some(i) && reg.machines[i] == m,
        m.bind_addr == bind_for(false),
    ensures
        stored(
            stored(reg, MachineView { bind_addr: bind_for(true), ..m }),
            MachineView { bind_addr: bind_for(false), ..m },
        ) == reg,
{
    let ms = reg.machines;
    lemma_first_index(ms, with_id(m.id));
    let i = first_index(ms, with_id(m.id))->0;
    let exposed = stored(reg, MachineView { bind_addr: bind_for(true), ..m });
    assert forall|j: int| 0 <= j < i implies !with_id(m.id)(#[trigger] exposed.machines[j]) by {
        assert(exposed.machines[j] == ms[j]);
    }
    lemma_is_first_index(exposed.machines, with_id(m.id), i);
    let back = MachineView { bind_addr: bind_for(false), ..m };
    assert(back =~= m);
    assert(exposed.machines.update(i, back) =~= ms);
}

// ------------------------------------------------------------- configuration ---
/// There is one listing of the live machines, so that what is written of a fleet
/// is determined by its registry.
pub proof fn law_listing_is_determined(
    ms: Seq<MachineView>,
    a: Seq<MachineView>,
    b: Seq<MachineView>,
)
    requires
        is_live_listing(ms, a),
        is_live_listing(ms, b),
    ensures
        a == b,
{
    lemma_equal_sorted(a, b);
}

/// Two listings by ascending port with the same machines are equal.
proof fn lemma_equal_sorted(a: Seq<MachineView>, b: Seq<MachineView>)
    requires
        forall|i: int, j: int|
            0 <= i < j < a.len() ==> (#[trigger] a[i]).port < (#[trigger] a[j]).port,
        forall|i: int, j: int|
            0 <= i < j < b.len() ==> (#[trigger] b[i]).port < (#[trigger] b[j]).port,
        forall|i: int| 0 <= i < a.len() ==> b.contains(#[trigger] a[i]),
        forall|i: int| 0 <= i < b.len() ==> a.contains(#[trigger] b[i]),
    ensures
        a == b,
    decreases a.len(),
{
    if a.len() == 0 {
        if b.len() > 0 {
            assert(a.contains(b[0]));
        }
        assert(a =~= b);
    } else {
        assert(b.contains(a[0]));
        let n = a.len() - 1;
        let l = b.len() - 1;
        // Both end in the machine with the highest port.
        let x = choose|x: int| 0 <= x < b.len() && b[x] == a[n];
        let y = choose|y: int| 0 <= y < a.len() && a[y] == b[l];
        assert(a.contains(b[l]));
        assert(b.contains(a[n]));
        if x < l {
            assert(b[x].port < b[l].port);
            if y < n {
                assert(a[y].port < a[n].port);
            }
        }
        assert(a[n] == b[l]);
        let a0 = a.drop_last();
        let b0 = b.drop_last();
        assert forall|i: int| 0 <= i < a0.len() implies b0.contains(#[trigger] a0[i]) by {
            assert(a[i].port < a[n].port);
            let k = choose|k: int| 0 <= k < b.len() && b[k] == a[i];
            assert(b.contains(a[i]));
            assert(k != l);
            assert(b0[k] == a0[i]);
        }
        assert forall|i: int| 0 <= i < b0.len() implies a0.contains(#[trigger] b0[i]) by {
            assert(b[i].port < b[l].port);
            let k = choose|k: int| 0 <= k < a.len() && a[k] == b[i];
            assert(a.contains(b[i]));
            assert(k != n);
            assert(a0[k] == b0[i]);
        }
        lemma_equal_sorted(a0, b0);
        assert(a =~= a0.push(a[n]));
        assert(b =~= b0.push(b[l]));
    }
}

/// All machines but the one with this id.
pub open spec fn others(id: Seq<char>) -> spec_fn(MachineView) -> bool {
    |m: MachineView| m.id != id
}

/// What `filter` keeps of a listing is a listing of what it keeps.
proof fn lemma_filter_listing(out: Seq<MachineView>, p: spec_fn(MachineView) -> bool)
    requires
        forall|i: int, j: int|
            0 <= i < j < out.len() ==> (#[trigger] out[i]).port < (#[trigger] out[j]).port,
    ensures
        forall|i: int, j: int|
            0 <= i < j < out.filter(p).len() ==> (#[trigger] out.filter(p)[i]).port < (
            #[trigger] out.filter(p)[j]).port,
        forall|i: int|
            0 <= i < out.filter(p).len() ==> p(#[trigger] out.filter(p)[i]) && out.contains(
                out.filter(p)[i],
            ),
        forall|i: int|
            0 <= i < out.len() && p(#[trigger] out[i]) ==> out.filter(p).contains(out[i]),
{
    let at = lemma_filter_order(out, p);
    let all = out.filter(p);
    assert forall|i: int, j: int| 0 <= i < j < all.len() implies (#[trigger] all[i]).port < (
    #[trigger] all[j]).port by {
        assert(at[i] < at[j]);
        assert(out[at[i]].port < out[at[j]].port);
    }
    assert forall|i: int| 0 <= i < all.len() implies p(#[trigger] all[i]) && out.contains(
        all[i],
    ) by {
        assert(out[at[i]] == all[i]);
    }
    assert forall|i: int| 0 <= i < out.len() && p(#[trigger] out[i]) implies all.contains(
        out[i],
    ) by {
        assert(at.contains(i));
        let k = choose|k: int| 0 <= k < at.len() && at[k] == i;
        assert(all[k] == out[i]);
    }
}

/// A listing without the machine with this id is what stands before and after it.
proof fn lemma_without_one(
    ms: Seq<MachineView>,
    listing: Seq<MachineView>,
    id: Seq<char>,
    i: int,
)
    requires
        forall|a: int, b: int|
            0 <= a < b < ms.len() ==> (#[trigger] ms[a]).id != (#[trigger] ms[b]).id,
        is_live_listing(ms, listing),
        0 <= i < listing.len(),
        listing[i].id == id,
    ensures
        listing.filter(others(id)) == listing.take(i) + listing.skip(i + 1),
{
    lemma_filter_listing(listing, others(id));
    let kept = listing.filter(others(id));
    let rest = listing.take(i) + listing.skip(i + 1);
    assert forall|j: int| 0 <= j < listing.len() && j != i implies (#[trigger] listing[j]).id
        != id by {
        assert(ms.contains(listing[i]));
        assert(ms.contains(listing[j]));
        let a = choose|a: int| 0 <= a < ms.len() && ms[a] == listing[i];
        let b = choose|b: int| 0 <= b < ms.len() && ms[b] == listing[j];
        if j < i {
            assert(listing[j].port < listing[i].port);
        } else {
            assert(listing[i].port < listing[j].port);
        }
        if a < b {
            assert(ms[a].id != ms[b].id);
        } else {
            assert(ms[b].id != ms[a].id);
        }
    }
    assert forall|k: int| 0 <= k < rest.len() implies kept.contains(#[trigger] rest[k]) by {
        let j = if k < i {
            k
        } else {
            k + 1
        };
        assert(rest[k] == listing[j]);
        assert(others(id)(listing[j]));
    }
    assert forall|k: int| 0 <= k < kept.len() implies rest.contains(#[trigger] kept[k]) by {
        let j = choose|j: int| 0 <= j < listing.len() && listing[j] == kept[k];
        assert(listing.contains(kept[k]));
        assert(others(id)(kept[k]));
        if j < i {
            assert(rest[j] == kept[k]);
        } else {
            assert(rest[j - 1] == kept[k]);
        }
    }
    assert forall|a: int, b: int| 0 <= a < b < rest.len() implies (#[trigger] rest[a]).port < (
    #[trigger] rest[b]).port by {
        let x = if a < i {
            a
        } else {
            a + 1
        };
        let y = if b < i {
            b
        } else {
            b + 1
        };
        assert(rest[a] == listing[x]);
        assert(rest[b] == listing[y]);
        assert(listing[x].port < listing[y].port);
    }
    lemma_equal_sorted(kept, rest);
}

/// Stanzas of two listings one after the other.
proof fn lemma_stanzas_join(a: Seq<MachineView>, b: Seq<MachineView>)
    ensures
        server_stanzas(a + b) == server_stanzas(a) + server_stanzas(b),
    decreases b.len(),
{
    if b.len() == 0 {
        assert(a + b =~= a);
    } else {
        lemma_stanzas_join(a, b.drop_last());
        assert((a + b).drop_last() =~= a + b.drop_last());
        assert((a + b).last() == b.last());
        assert(server_stanzas(a + b) =~= server_stanzas(a) + server_stanzas(b));
    }
}

/// The server.toml of a listing with a live machine at `i`, and of it without.
proof fn lemma_toml_around(bind_addr: Seq<char>, listing: Seq<MachineView>, i: int)
    requires
        0 <= i < listing.len(),
        !listing[i].deleted,
    ensures
        server_toml(bind_addr, listing) == server_head(bind_addr) + server_stanzas(listing.take(i))
            + server_stanza(listing[i]) + server_stanzas(listing.skip(i + 1)),
        server_toml(bind_addr, listing.take(i) + listing.skip(i + 1)) == server_head(bind_addr)
            + server_stanzas(listing.take(i)) + server_stanzas(listing.skip(i + 1)),
{
    let above = listing.take(i);
    let below = listing.skip(i + 1);
    let upto = listing.take(i + 1);
    assert(upto.drop_last() =~= above);
    assert(upto.last() == listing[i]);
    assert(server_stanzas(upto) == server_stanzas(above) + server_stanza(listing[i]));
    lemma_stanzas_join(upto, below);
    lemma_stanzas_join(above, below);
    assert(upto + below =~= listing);
    assert(server_toml(bind_addr, listing) =~= server_head(bind_addr) + server_stanzas(above)
        + server_stanza(listing[i]) + server_stanzas(below));
    assert(server_toml(bind_addr, above + below) =~= server_head(bind_addr) + server_stanzas(above)
        + server_stanzas(below));
}

/// Revoking a machine drops its stanza from server.toml and leaves every other
/// stanza, in its order: the text before and the text after it stay as they were.
pub proof fn law_revoking_drops_one_stanza(
    reg: RegistryView,
    id: Seq<char>,
    before: Seq<MachineView>,
    after: Seq<MachineView>,
    bind_addr: Seq<char>,
)
    requires
        reg.wf(),
        is_live_listing(reg.machines, before),
        is_live_listing(with_row(reg, id, revoked()).machines, after),
    ensures
        after == before.filter(others(id)),
        forall|i: int|
            0 <= i < before.len() && (#[trigger] before[i]).id == id ==> {
                let above = server_stanzas(before.take(i));
                let below = server_stanzas(before.skip(i + 1));
                &&& server_toml(bind_addr, before) == server_head(bind_addr) + above
                    + server_stanza(before[i]) + below
                &&& server_toml(bind_addr, after) == server_head(bind_addr) + above + below
            },
{
    let ms = reg.machines;
    let next = with_row(reg, id, revoked()).machines;
    lemma_first_index(ms, with_id(id));
    lemma_filter_listing(before, others(id));
    let kept = before.filter(others(id));
    assert forall|i: int| 0 <= i < ms.len() implies (#[trigger] next[i]).deleted || (next[i]
        == ms[i] && ms[i].id != id) by {
        match first_index(ms, with_id(id)) {
            Some(k) => {
                if i < k {
                    assert(ms[i].id != ms[k].id);
                } else if i > k {
                    assert(ms[k].id != ms[i].id);
                }
            },
            None => {
                assert(!with_id(id)(ms[i]));
            },
        }
    }
    assert forall|i: int| 0 <= i < after.len() implies kept.contains(#[trigger] after[i]) by {
        let k = choose|k: int| 0 <= k < next.len() && next[k] == after[i];
        assert(next.contains(after[i]));
        assert(next[k] == ms[k]);
        assert(before.contains(ms[k]));
        let j = choose|j: int| 0 <= j < before.len() && before[j] == ms[k];
        assert(others(id)(before[j]));
    }
    assert forall|i: int| 0 <= i < kept.len() implies after.contains(#[trigger] kept[i]) by {
        let j = choose|j: int| 0 <= j < before.len() && before[j] == kept[i];
        assert(before.contains(kept[i]));
        assert(!before[j].deleted);
        let k = choose|k: int| 0 <= k < ms.len() && ms[k] == before[j];
        assert(ms.contains(before[j]));
        assert(others(id)(kept[i]));
        assert(next[k] == ms[k]) by {
            if let Some(h) = first_index(ms, with_id(id)) {
                assert(k != h);
            }
        }
        assert(after.contains(next[k]));
    }
    lemma_equal_sorted(after, kept);
    assert forall|i: int| 0 <= i < before.len() && (#[trigger] before[i]).id == id implies {
        let above = server_stanzas(before.take(i));
        let below = server_stanzas(before.skip(i + 1));
        &&& server_toml(bind_addr, before) == server_head(bind_addr) + above + server_stanza(
            before[i],
        ) + below
        &&& server_toml(bind_addr, after) == server_head(bind_addr) + above + below
    } by {
        lemma_without_one(ms, before, id, i);
        lemma_toml_around(bind_addr, before, i);
    }
}

/// `b` stands in `a + b + c`.
proof fn lemma_stands(a: Seq<char>, b: Seq<char>, c: Seq<char>)
    ensures
        occurs(a + b + c, b),
{
    assert((a + b + c).subrange(a.len() as int, (a.len() + b.len()) as int) =~= b);
    assert(stands_at(a + b + c, b, a.len() as int));
}

/// What stands in a part stands in the whole.
proof fn lemma_stands_within(a: Seq<char>, b: Seq<char>, c: Seq<char>, needle: Seq<char>)
    requires
        occurs(b, needle),
    ensures
        occurs(a + b + c, needle),
{
    let at = choose|at: int| stands_at(b, needle, at);
    let whole = a + b + c;
    assert(whole.subrange(a.len() + at, a.len() + at + needle.len()) =~= b.subrange(
        at,
        at + needle.len(),
    ));
    assert(stands_at(whole, needle, a.len() + at));
}

proof fn lemma_stanza_listed(ms: Seq<MachineView>, i: int)
    requires
        0 <= i < ms.len(),
        !ms[i].deleted,
    ensures
        occurs(server_stanzas(ms), server_stanza(ms[i])),
    decreases ms.len(),
{
    let e = Seq::<char>::empty();
    let rest = ms.drop_last();
    if i == ms.len() - 1 {
        lemma_stands(server_stanzas(rest), server_stanza(ms[i]), e);
        assert(server_stanzas(rest) + server_stanza(ms[i]) + e =~= server_stanzas(ms));
    } else {
        lemma_stanza_listed(rest, i);
        let tail = if ms.last().deleted {
            e
        } else {
            server_stanza(ms.last())
        };
        lemma_stands_within(e, server_stanzas(rest), tail, server_stanza(ms[i]));
        assert(e + server_stanzas(rest) + tail =~= server_stanzas(ms));
    }
}

/// A stanza of server.toml names the machine's service with its token.
proof fn lemma_server_part(m: MachineView)
    ensures
        occurs(
            server_stanza(m),
            "[server.services.\""@ + m.id + "\"]\ntoken = \""@ + m.service_token + "\"\n"@,
        ),
{
    reveal_strlit(")\n[server.services.\"");
    reveal_strlit(")\n");
    reveal_strlit("[server.services.\"");
    reveal_strlit("\"\nbind_addr = \"");
    reveal_strlit("\"\n");
    reveal_strlit("bind_addr = \"");
    assert(")\n"@ + "[server.services.\""@ =~= ")\n[server.services.\""@);
    assert("\"\n"@ + "bind_addr = \""@ =~= "\"\nbind_addr = \""@);
    let head = "\n# "@ + m.name + " ("@ + os_shown(m.os) + ")\n"@;
    let part = "[server.services.\""@ + m.id + "\"]\ntoken = \""@ + m.service_token + "\"\n"@;
    let end = "bind_addr = \""@ + m.bind_addr + ":"@ + decimal_digits(m.port as nat) + "\"\n"@;
    lemma_stands(head, part, end);
    assert(head + part + end =~= server_stanza(m));
}

/// client.toml names the machine's service with its token.
proof fn lemma_client_part(remote_addr: Seq<char>, id: Seq<char>, service_token: Seq<char>)
    ensures
        occurs(
            client_toml(remote_addr, id, service_token),
            "[client.services.\""@ + id + "\"]\ntoken = \""@ + service_token + "\"\n"@,
        ),
{
    reveal_strlit("\"\n\n[client.services.\"");
    reveal_strlit("\"\n\n");
    reveal_strlit("[client.services.\"");
    reveal_strlit("\"\nlocal_addr = \"127.0.0.1:22\"\n");
    reveal_strlit("\"\n");
    reveal_strlit("local_addr = \"127.0.0.1:22\"\n");
    assert("\"\n\n"@ + "[client.services.\""@ =~= "\"\n\n[client.services.\""@);
    assert("\"\n"@ + "local_addr = \"127.0.0.1:22\"\n"@
        =~= "\"\nlocal_addr = \"127.0.0.1:22\"\n"@);
    let head = "# Managed by omni — refresh with `omni update`.\n[client]\nremote_addr = \""@
        + remote_addr + "\"\n\n"@;
    let part = "[client.services.\""@ + id + "\"]\ntoken = \""@ + service_token + "\"\n"@;
    let end = "local_addr = \"127.0.0.1:22\"\n"@;
    lemma_stands(head, part, end);
    assert(head + part + end =~= client_toml(remote_addr, id, service_token));
}

/// Both ends of a tunnel agree: server.toml has a stanza for every live machine,
/// and client.toml one for its machine, under the same id with the same token.
pub proof fn law_server_and_client_agree(
    bind_addr: Seq<char>,
    remote_addr: Seq<char>,
    ms: Seq<MachineView>,
    i: int,
)
    requires
        0 <= i < ms.len(),
        !ms[i].deleted,
    ensures
        occurs(server_toml(bind_addr, ms), server_stanza(ms[i])),
        occurs(
            server_stanza(ms[i]),
            "[server.services.\""@ + ms[i].id + "\"]\ntoken = \""@ + ms[i].service_token + "\"\n"@,
        ),
        occurs(
            client_toml(remote_addr, ms[i].id, ms[i].service_token),
            "[client.services.\""@ + ms[i].id + "\"]\ntoken = \""@ + ms[i].service_token + "\"\n"@,
        ),
{
    let m = ms[i];
    let e = Seq::<char>::empty();
    lemma_stanza_listed(ms, i);
    lemma_stands_within(server_head(bind_addr), server_stanzas(ms), e, server_stanza(m));
    assert(server_head(bind_addr) + server_stanzas(ms) + e =~= server_toml(bind_addr, ms));
    lemma_server_part(m);
    lemma_client_part(remote_addr, m.id, m.service_token);
}

// -------------------------------------------------------------------- names ---
/// A stripped text is a part of the text and neither starts nor ends with what
/// was stripped.
proof fn lemma_strip_both(s: Seq<char>, p: Strip)
    ensures
        strip_both(s, p).len() <= s.len(),
        forall|i: int|
            0 <= i < strip_both(s, p).len() ==> s.contains(#[trigger] strip_both(s, p)[i]),
        strip_both(s, p).len() > 0 ==> !p.takes(strip_both(s, p)[0]) && !p.takes(
            strip_both(s, p).last(),
        ),
{
    lemma_strip_front(s, p);
    let t = strip_front(s, p);
    lemma_strip_back(t, p);
    let r = strip_both(s, p);
    assert forall|i: int| 0 <= i < r.len() implies s.contains(#[trigger] r[i]) by {
        assert(r[i] == t[i]);
        assert(s.contains(t[i]));
    }
}

proof fn lemma_strip_front(s: Seq<char>, p: Strip)
    ensures
        strip_front(s, p).len() <= s.len(),
        forall|i: int|
            0 <= i < strip_front(s, p).len() ==> s.contains(#[trigger] strip_front(s, p)[i]),
        strip_front(s, p).len() > 0 ==> !p.takes(strip_front(s, p)[0]),
    decreases s.len(),
{
    if s.len() > 0 && p.takes(s[0]) {
        let rest = s.drop_first();
        lemma_strip_front(rest, p);
        let r = strip_front(s, p);
        assert forall|i: int| 0 <= i < r.len() implies s.contains(#[trigger] r[i]) by {
            assert(rest.contains(strip_front(rest, p)[i]));
            let k = choose|k: int| 0 <= k < rest.len() && rest[k] == r[i];
            assert(s[k + 1] == r[i]);
        }
    }
}

proof fn lemma_strip_back(s: Seq<char>, p: Strip)
    ensures
        strip_back(s, p).len() <= s.len(),
        forall|i: int| 0 <= i < strip_back(s, p).len() ==> #[trigger] strip_back(s, p)[i] == s[i],
        strip_back(s, p).len() > 0 ==> !p.takes(strip_back(s, p).last()),
    decreases s.len(),
{
    if s.len() > 0 && p.takes(s.last()) {
        lemma_strip_back(s.drop_last(), p);
    }
}

/// A name that is safe to quote in a shell word and in a TOML string.
pub open spec fn is_safe_name(name: Seq<char>) -> bool {
    &&& 0 < name.len() <= 64
    &&& forall|i: int| 0 <= i < name.len() ==> is_safe(#[trigger] name[i])
    &&& name[0] != '-'
    &&& name.last() != '-'
}

/// Whatever a name was made of, it is safe: not empty, at most 64 characters, all
/// of them letters, digits, `-`, `_` or `.`, and no hyphen at its ends.
pub proof fn law_names_are_safe(raw: Seq<char>, fallback: Seq<char>)
    requires
        fallback.len() == 4,
        is_hex(fallback),
    ensures
        is_safe_name(sanitized(raw, fallback)),
{
    let start = safe_start(strip_both(raw, Strip::White));
    lemma_strip_both(start, Strip::Only('-'));
    let c = cleaned(raw);
    if c.len() > 0 {
        assert forall|i: int| 0 <= i < c.len() implies is_safe(#[trigger] c[i]) by {
            assert(start.contains(c[i]));
            let k = choose|k: int| 0 <= k < start.len() && start[k] == c[i];
        }
    } else {
        reveal_strlit("machine-");
        let name = "machine-"@ + fallback;
        assert forall|i: int| 0 <= i < name.len() implies is_safe(#[trigger] name[i]) by {
            if i >= 8 {
                assert(is_hex_digit(fallback[i - 8]));
            }
        }
        assert(is_hex_digit(fallback[3]));
    }
}

/// A safe name is taken as it is, so that making a name safe twice is making it
/// safe once.
pub proof fn law_safe_names_stay(name: Seq<char>, fallback: Seq<char>)
    requires
        is_safe_name(name),
    ensures
        sanitized(name, fallback) == name,
{
    assert(is_safe(name[0]));
    assert(is_safe(name.last()));
    assert(strip_front(name, Strip::White) == name);
    assert(strip_back(name, Strip::White) == name);
    assert forall|i: int| 0 <= i < name.len() implies made_safe(#[trigger] name[i]) == name[i] by {
        assert(is_safe(name[i]));
    }
    assert(safe_start(name) =~= name);
}

/// The ids that are drawn can be shown short, by their first eight characters.
pub proof fn law_drawn_ids_shorten(id: Seq<char>)
    requires
        is_uuid(id),
    ensures
        can_shorten(id),
        shortened(id) == id.take(8),
{
    assert forall|i: int| 0 <= i < id.len() implies 0 <= #[trigger] (id[i] as nat) < 128 by {
        assert(if is_uuid_hyphen(i) {
            id[i] == '-'
        } else {
            is_hex_digit(id[i])
        });
    }
    vstd::utf8::is_ascii_chars_encode_utf8(id);
    vstd::utf8::is_ascii_chars_encode_utf8(id.take(8));
    let bytes = encode_utf8(id);
    vstd::utf8::encode_utf8_valid_utf8(id);
    vstd::utf8::is_char_boundary_iff_not_is_continuation_byte(bytes, 8);
    assert(bytes.subrange(0, 8) =~= encode_utf8(id.take(8)));
    vstd::utf8::encode_utf8_decode_utf8(id.take(8));
    assert(id[8] == '-');
}

// ---------------------------------------------------------------- staleness ---
/// A machine heard of in second `heard` is stale exactly when more than
/// `threshold` seconds have passed since.
pub proof fn law_stale_after_threshold(
    m: MachineView,
    heard: i64,
    threshold: i64,
    now: Moment,
)
    requires
        m.last_seen is Some,
        is_stamp(m.last_seen->0, heard),
        in_four_digit_years(heard),
        now.valid(),
        now.nanos < 1_000_000_000,
        heard <= now.secs,
    ensures
        silence(m, now) == now.secs - heard,
        is_stale(m, threshold, now) <==> now.secs - heard > threshold,
{
}

/// A machine heard of at most `threshold` seconds ago is not stale, in whatever year
/// that was.
pub proof fn law_not_stale_within_threshold(
    m: MachineView,
    heard: i64,
    threshold: i64,
    now: Moment,
)
    requires
        m.last_seen is Some,
        is_stamp(m.last_seen->0, heard),
        now.from_clock(),
        threshold >= 0,
        now.secs - heard <= threshold,
    ensures
        !is_stale(m, threshold, now),
{
}

/// A heartbeat brings a machine back: the first sweep within the threshold takes the
/// marker of a machine marked down away again, and Termix is told its bare name.
pub proof fn law_heartbeat_brings_a_machine_back(
    reg: RegistryView,
    m: MachineView,
    ts: Seq<char>,
    heard: i64,
    threshold: i64,
    now: Moment,
)
    requires
        reg.wf(),
        machine_where(reg.machines, live_with_id(m.id)) == Some(m),
        m.marked_stale,
        is_stamp(ts, heard),
        now.from_clock(),
        threshold >= 0,
        now.secs - heard <= threshold,
    ensures
        ({
            let heard_of = MachineView { last_seen: Some(ts), ..m };
            let seen = with_row(reg, m.id, seen_at(ts));
            let after = with_row(seen, m.id, marked(false));
            let up = MachineView { marked_stale: false, ..heard_of };
            &&& machine_where(seen.machines, live_with_id(m.id)) == Some(heard_of)
            &&& flip(seen.machines, heard_of, threshold, now) == Some(false)
            &&& machine_where(after.machines, live_with_id(m.id)) == Some(up)
            &&& display_name(up) == m.name
        }),
{
    let heard_of = MachineView { last_seen: Some(ts), ..m };
    let seen = with_row(reg, m.id, seen_at(ts));
    lemma_first_index(reg.machines, live_with_id(m.id));
    lemma_live_row_changed(reg, m, seen_at(ts));
    law_not_stale_within_threshold(heard_of, heard, threshold, now);
    lemma_live_row_changed(seen, heard_of, marked(false));
}

/// Changing the row of a live machine in other than its id and its standing leads
/// to the changed row, and keeps ids, ports and names apart.
proof fn lemma_live_row_changed(
    reg: RegistryView,
    m: MachineView,
    f: spec_fn(MachineView) -> MachineView,
)
    requires
        reg.wf(),
        machine_where(reg.machines, live_with_id(m.id)) == Some(m),
        f(m).id == m.id,
        f(m).name == m.name,
        f(m).port == m.port,
        !f(m).deleted,
    ensures
        with_row(reg, m.id, f).wf(),
        machine_where(with_row(reg, m.id, f).machines, live_with_id(m.id)) == Some(f(m)),
{
    let ms = reg.machines;
    lemma_first_index(ms, live_with_id(m.id));
    let i = first_index(ms, live_with_id(m.id))->0;
    lemma_update_own_row(reg, i, m);
    let after = with_row(reg, m.id, f).machines;
    assert forall|j: int| 0 <= j < i implies !live_with_id(m.id)(#[trigger] after[j]) by {
        assert(after[j] == ms[j]);
    }
    lemma_is_first_index(after, live_with_id(m.id), i);
}

/// What a row says after a sweep over machines among which it is or is not.
pub open spec fn swept_row(
    row: MachineView,
    included: bool,
    threshold: i64,
    now: Moment,
) -> MachineView {
    if included {
        MachineView { marked_stale: is_stale(row, threshold, now), ..row }
    } else {
        row
    }
}

/// A sweep over some live machines, each once, sets their markers.
proof fn lemma_swept(reg: RegistryView, ms: Seq<MachineView>, threshold: i64, now: Moment)
    requires
        reg.wf(),
        forall|k: int|
            0 <= k < ms.len() ==> !(#[trigger] ms[k]).deleted && reg.machines.contains(ms[k]),
        forall|a: int, b: int|
            0 <= a < b < ms.len() ==> (#[trigger] ms[a]).port < (#[trigger] ms[b]).port,
    ensures
        swept(reg, ms, threshold, now).tokens == reg.tokens,
        swept(reg, ms, threshold, now).machines.len() == reg.machines.len(),
        forall|i: int|
            0 <= i < reg.machines.len() ==> #[trigger] swept(
                reg,
                ms,
                threshold,
                now,
            ).machines[i] == swept_row(
                reg.machines[i],
                ms.contains(reg.machines[i]),
                threshold,
                now,
            ),
    decreases ms.len(),
{
    if ms.len() > 0 {
        let rows = reg.machines;
        let past = ms.drop_last();
        let m = ms.last();
        let n = ms.len() - 1;
        assert forall|k: int| 0 <= k < past.len() implies !(#[trigger] past[k]).deleted
            && rows.contains(past[k]) by {
            assert(past[k] == ms[k]);
        }
        lemma_swept(reg, past, threshold, now);
        let so_far = swept(reg, past, threshold, now);
        assert(ms[n] == m);
        let at = choose|at: int| 0 <= at < rows.len() && rows[at] == m;
        assert(!past.contains(m)) by {
            if past.contains(m) {
                let k = choose|k: int| 0 <= k < past.len() && past[k] == m;
                assert(ms[k].port < ms[n].port);
            }
        }
        assert(so_far.machines[at] == m);
        assert forall|j: int| 0 <= j < at implies !with_id(m.id)(
            #[trigger] so_far.machines[j],
        ) by {
            assert(rows[j].id != rows[at].id);
        }
        lemma_is_first_index(so_far.machines, with_id(m.id), at);
        lemma_is_first_index(so_far.machines, live_with_id(m.id), at);
        let after = swept(reg, ms, threshold, now);
        let stale = is_stale(m, threshold, now);
        assert forall|i: int| 0 <= i < rows.len() implies #[trigger] after.machines[i]
            == swept_row(rows[i], ms.contains(rows[i]), threshold, now) by {
            assert(so_far.machines[i] == swept_row(
                rows[i],
                past.contains(rows[i]),
                threshold,
                now,
            ));
            if i == at {
                assert(ms.contains(rows[i]));
                assert(after.machines[i] =~= MachineView { marked_stale: stale, ..m });
            } else {
                assert(rows[i] != m) by {
                    if i < at {
                        assert(rows[i].id != rows[at].id);
                    } else {
                        assert(rows[at].id != rows[i].id);
                    }
                }
                assert(ms.contains(rows[i]) == past.contains(rows[i])) by {
                    if ms.contains(rows[i]) {
                        let k = choose|k: int| 0 <= k < ms.len() && ms[k] == rows[i];
                        assert(past[k] == rows[i]);
                    }
                    if past.contains(rows[i]) {
                        let k = choose|k: int| 0 <= k < past.len() && past[k] == rows[i];
                        assert(ms[k] == rows[i]);
                    }
                }
            }
        }
    }
}

/// A sweep over the live machines sets the marker of every one of them to whether it
/// is stale, and changes nothing else.
pub proof fn law_sweep_marks_exactly_the_stale(
    reg: RegistryView,
    listing: Seq<MachineView>,
    threshold: i64,
    now: Moment,
)
    requires
        reg.wf(),
        is_live_listing(reg.machines, listing),
    ensures
        ({
            let after = swept(reg, listing, threshold, now);
            &&& after.tokens == reg.tokens
            &&& after.machines.len() == reg.machines.len()
            &&& forall|i: int|
                0 <= i < reg.machines.len() ==> #[trigger] after.machines[i] == swept_row(
                    reg.machines[i],
                    !reg.machines[i].deleted,
                    threshold,
                    now,
                )
            &&& forall|i: int|
                0 <= i < after.machines.len() && !(#[trigger] after.machines[i]).deleted
                    ==> after.machines[i].marked_stale == is_stale(
                    after.machines[i],
                    threshold,
                    now,
                )
        }),
{
    lemma_swept(reg, listing, threshold, now);
    assert forall|i: int| 0 <= i < reg.machines.len() implies listing.contains(
        #[trigger] reg.machines[i],
    ) == !reg.machines[i].deleted by {
        if listing.contains(reg.machines[i]) {
            let k = choose|k: int| 0 <= k < listing.len() && listing[k] == reg.machines[i];
            assert(!listing[k].deleted);
        }
    }
}

/// A sweep over some live machines, each once, tells of those whose marker is wrong.
proof fn lemma_flips(reg: RegistryView, ms: Seq<MachineView>, threshold: i64, now: Moment)
    requires
        reg.wf(),
        forall|k: int|
            0 <= k < ms.len() ==> !(#[trigger] ms[k]).deleted && reg.machines.contains(ms[k]),
        forall|a: int, b: int|
            0 <= a < b < ms.len() ==> (#[trigger] ms[a]).port < (#[trigger] ms[b]).port,
    ensures
        forall|k: int, stale: bool| #[trigger]
            flips(reg, ms, threshold, now).contains((k, stale)) <==> {
                &&& 0 <= k < ms.len()
                &&& stale == is_stale(ms[k], threshold, now)
                &&& stale != ms[k].marked_stale
            },
    decreases ms.len(),
{
    if ms.len() > 0 {
        let rows = reg.machines;
        let past = ms.drop_last();
        let n = ms.len() - 1;
        let m = ms[n];
        assert forall|k: int| 0 <= k < past.len() implies !(#[trigger] past[k]).deleted
            && rows.contains(past[k]) by {
            assert(past[k] == ms[k]);
        }
        lemma_flips(reg, past, threshold, now);
        lemma_swept(reg, past, threshold, now);
        let so_far = swept(reg, past, threshold, now).machines;
        let at = choose|at: int| 0 <= at < rows.len() && rows[at] == m;
        assert(live_with_id(m.id)(so_far[at]));
        lemma_first_index(so_far, live_with_id(m.id));
        let told = flips(reg, past, threshold, now);
        let all = flips(reg, ms, threshold, now);
        let wrong = is_stale(m, threshold, now) != m.marked_stale;
        assert forall|k: int, stale: bool| #[trigger] all.contains((k, stale)) <==> {
            &&& 0 <= k < ms.len()
            &&& stale == is_stale(ms[k], threshold, now)
            &&& stale != ms[k].marked_stale
        } by {
            if wrong {
                assert(all == told.push((n, is_stale(m, threshold, now))));
                assert(all[told.len() as int] == (n, is_stale(m, threshold, now)));
                if told.contains((k, stale)) {
                    let x = choose|x: int| 0 <= x < told.len() && told[x] == (k, stale);
                    assert(all[x] == (k, stale));
                }
                if all.contains((k, stale)) && k != n {
                    let x = choose|x: int| 0 <= x < all.len() && all[x] == (k, stale);
                    assert(told[x] == (k, stale));
                }
            } else {
                assert(all == told);
            }
            assert(0 <= k < n ==> past[k] == ms[k]);
            assert(told.contains((k, stale)) <==> {
                &&& 0 <= k < past.len()
                &&& stale == is_stale(past[k], threshold, now)
                &&& stale != past[k].marked_stale
            });
        }
    }
}

/// A sweep over the live machines tells of exactly those whose marker was wrong, and
/// of what it now says.
pub proof fn law_sweep_tells_of_every_flip(
    reg: RegistryView,
    listing: Seq<MachineView>,
    threshold: i64,
    now: Moment,
)
    requires
        reg.wf(),
        is_live_listing(reg.machines, listing),
    ensures
        forall|k: int, stale: bool| #[trigger]
            flips(reg, listing, threshold, now).contains((k, stale)) <==> {
                &&& 0 <= k < listing.len()
                &&& stale == is_stale(listing[k], threshold, now)
                &&& stale != listing[k].marked_stale
            },
{
    lemma_flips(reg, listing, threshold, now);
}

/// Sweeping the whole fleet twice at one time is sweeping it once.
pub proof fn law_second_sweep_changes_nothing(
    reg: RegistryView,
    listing: Seq<MachineView>,
    again: Seq<MachineView>,
    threshold: i64,
    now: Moment,
)
    requires
        reg.wf(),
        is_live_listing(reg.machines, listing),
        is_live_listing(swept(reg, listing, threshold, now).machines, again),
    ensures
        swept(reg, listing, threshold, now).wf(),
        swept(swept(reg, listing, threshold, now), again, threshold, now) == swept(
            reg,
            listing,
            threshold,
            now,
        ),
{
    law_sweep_marks_exactly_the_stale(reg, listing, threshold, now);
    let after = swept(reg, listing, threshold, now);
    assert(after.wf()) by {
        assert forall|i: int| 0 <= i < reg.machines.len() implies {
            &&& (#[trigger] after.machines[i]).id == reg.machines[i].id
            &&& after.machines[i].port == reg.machines[i].port
            &&& after.machines[i].name == reg.machines[i].name
            &&& after.machines[i].deleted == reg.machines[i].deleted
        } by {}
    }
    law_sweep_marks_exactly_the_stale(after, again, threshold, now);
    let twice = swept(after, again, threshold, now);
    assert forall|i: int| 0 <= i < after.machines.len() implies #[trigger] twice.machines[i]
        == after.machines[i] by {
        assert(twice.machines[i] =~= after.machines[i]);
    }
    assert(twice.machines =~= after.machines);
    assert(twice =~= after);
}

/// Sweeping one machine twice at one time is sweeping it once: the marker that a sweep set does
/// not flip again.
pub proof fn law_sweep_settles(
    reg: RegistryView,
    m: MachineView,
    threshold: i64,
    now: Moment,
)
    requires
        reg.wf(),
        machine_where(reg.machines, live_with_id(m.id)) == Some(m),
        flip(reg.machines, m, threshold, now) is Some,
    ensures
        ({
            let stale = flip(reg.machines, m, threshold, now)->0;
            let after = with_row(reg, m.id, marked(stale)).machines;
            &&& machine_where(after, live_with_id(m.id)) == Some(
                MachineView { marked_stale: stale, ..m },
            )
            &&& flip(after, MachineView { marked_stale: stale, ..m }, threshold, now) is None
        }),
{
    let ms = reg.machines;
    lemma_first_index(ms, live_with_id(m.id));
    let i = first_index(ms, live_with_id(m.id))->0;
    lemma_update_own_row(reg, i, m);
    let stale = flip(ms, m, threshold, now)->0;
    let after = with_row(reg, m.id, marked(stale)).machines;
    assert forall|j: int| 0 <= j < i implies !live_with_id(m.id)(#[trigger] after[j]) by {
        assert(after[j] == ms[j]);
    }
    lemma_is_first_index(after, live_with_id(m.id), i);
}

/// A machine that calls in with good credentials is noted as seen then, and
/// nothing else changes; a call that is refused changes nothing at all.
pub proof fn law_calls_only_note_the_time(
    reg: RegistryView,
    id: Option<Seq<char>>,
    secret: Option<Seq<char>>,
    now: Seq<char>,
)
    requires
        reg.wf(),
    ensures
        admitted(reg.machines, id, secret) is Err ==> after_call(reg, id, secret, now) == reg,
        admitted(reg.machines, id, secret) matches Ok(m) ==> {
            &&& first_index(reg.machines, with_id(m.id)) matches Some(i)
            &&& reg.machines[i] == m
            &&& after_call(reg, id, secret, now).machines == reg.machines.update(
                i,
                MachineView { last_seen: Some(now), ..m },
            )
            &&& after_call(reg, id, secret, now).tokens == reg.tokens
        },
{
    if let Ok(m) = admitted(reg.machines, id, secret) {
        lemma_first_index(reg.machines, live_with_id(id->0));
        let i = first_index(reg.machines, live_with_id(id->0))->0;
        lemma_update_own_row(reg, i, m);
    }
}

// ------------------------------------------------------------------- Termix ---
/// Storing the id of a host undoes nothing that was written since the machine was
/// read: every row but that machine's stays as it is, and that row differs in the
/// host's id at most.
pub proof fn law_storing_a_host_undoes_nothing(
    reg: RegistryView,
    read: MachineView,
    host_id: Seq<char>,
    i: int,
)
    requires
        0 <= i < reg.machines.len(),
    ensures
        host_stored(reg, read, host_id).tokens == reg.tokens,
        host_stored(reg, read, host_id).machines.len() == reg.machines.len(),
        reg.machines[i].id != read.id ==> host_stored(reg, read, host_id).machines[i]
            == reg.machines[i],
        (MachineView {
            termix_host_id: reg.machines[i].termix_host_id,
            ..host_stored(reg, read, host_id).machines[i]
        }) == reg.machines[i],
        pinned(reg, host_stored(reg, read, host_id)),
{
    lemma_first_index(reg.machines, with_id(read.id));
}

/// How many requests an upsert may still send after the one under way.
pub open spec fn requests_left(at: Upsert) -> nat {
    match at {
        Upsert::Read => 2,
        Upsert::Write => 1,
        Upsert::Create => 0,
    }
}

/// An upsert ends: each answer either ends it or leaves fewer requests to send.
pub proof fn law_upsert_ends(
    termix: Termix,
    at: Upsert,
    id: Seq<char>,
    p: HostPayload,
    reply: Reply,
)
    ensures
        upsert_step(termix, at, id, p, reply) matches UpsertStepView::Send(next, _)
            ==> requests_left(next) < requests_left(at),
{
}

/// Updates are idempotent on the host: one that Termix accepts ends with the id it
/// started with.
pub proof fn law_update_keeps_the_host(
    termix: Termix,
    id: Seq<char>,
    p: HostPayload,
    reply: Reply,
)
    requires
        reply.ok(),
    ensures
        upsert_step(termix, Upsert::Write, id, p, reply) == UpsertStepView::Done(
            Ok::<Seq<char>, Seq<char>>(id),
        ),
{
}

/// Toggles flipped in the UI survive an update: of what was read, only the name,
/// the address and the port are set.
pub proof fn law_toggles_survive(ms: MemberViews, p: HostPayload, key: Seq<char>)
    requires
        key != "ip"@,
        key != "name"@,
        key != "port"@,
    ensures
        member(owned_members(ms, p), key) == member(ms, key),
{
    let one = with_member(ms, "ip"@, json_text(p.ip@));
    let two = with_member(one, "name"@, json_text(p.name@));
    lemma_with_member(ms, "ip"@, json_text(p.ip@));
    lemma_with_member(one, "name"@, json_text(p.name@));
    lemma_with_member(two, "port"@, decimal_digits(p.port as nat));
}

/// What omni owns of a host is what it says of it.
pub proof fn law_owned_members_are_set(ms: MemberViews, p: HostPayload)
    ensures
        member(owned_members(ms, p), "ip"@) == Some(json_text(p.ip@)),
        member(owned_members(ms, p), "name"@) == Some(json_text(p.name@)),
        member(owned_members(ms, p), "port"@) == Some(decimal_digits(p.port as nat)),
{
    reveal_strlit("ip");
    reveal_strlit("name");
    reveal_strlit("port");
    assert("ip"@.len() != "name"@.len());
    assert("ip"@.len() != "port"@.len());
    assert("name"@[0] != "port"@[0]);
    let one = with_member(ms, "ip"@, json_text(p.ip@));
    let two = with_member(one, "name"@, json_text(p.name@));
    lemma_with_member(ms, "ip"@, json_text(p.ip@));
    lemma_with_member(one, "name"@, json_text(p.name@));
    lemma_with_member(two, "port"@, decimal_digits(p.port as nat));
}

// ----------------------------------------------------------------- refusals ---
/// Who enrolls with a token that is not good is told so, as the caller's fault;
/// who is refused for want of ports is told nothing but that it failed.
pub proof fn law_refused_enrollments_are_answered(subject: Seq<char>)
    ensures
        enroll_refusal(DbError::BadToken.says(subject)) == plain(
            403,
            "enrollment token is invalid, expired, or already used"@ + "\n"@,
        ),
        enroll_refusal(DbError::PortsExhausted.says(subject)) == plain(500, "internal error\n"@),
{
    let bad = "enrollment token is invalid, expired, or already used"@;
    let full = "port space exhausted"@;
    let token = "token"@;
    reveal_strlit("enrollment token is invalid, expired, or already used");
    reveal_strlit("port space exhausted");
    reveal_strlit("token");
    assert(bad.subrange(11, 16) =~= token);
    assert(stands_at(bad, token, 11));
    assert forall|at: int| !stands_at(full, token, at) by {
        if stands_at(full, token, at) {
            let here = full.subrange(at, at + 5);
            assert(here[0] == full[at] && here[1] == full[at + 1] && here[2] == full[at + 2]);
            assert(full[at] == 't' && full[at + 1] == 'o');
        }
    }
}

} // verus!
