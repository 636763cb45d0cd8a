//! Laws on what is done at the time that the clock gives, and with what is drawn by
//! chance: whatever time and draw they are, it is what is done at that time and with
//! that draw.

use crate::clock::{
    age_at, age_secs, in_four_digit_years, is_some_stamp, is_stamp, now_rfc3339, opt_secs,
    rfc3339, rfc3339_moment, Moment, MAX_SECS,
};
use crate::config::Config;
use crate::db::{
    consume_token, consumed, consumed_hint, first_index, insert_token, lemma_first_index,
    live_machines, live_with_id, machine_views, opt_str, opt_text, result_hint, token_added,
    touch_last_seen, with_id, DbError, Machine, MachineView, Registry, RegistryView,
};
use crate::effects::{lemma_token_used, live_at, row_set, token_used};
use crate::laws::{
    law_calls_only_note_the_time, law_sweep_marks_exactly_the_stale,
    law_sweep_tells_of_every_flip, swept_row,
};
use crate::ops::{
    age_shown, detail, flip, flip_views, flips, heading, human_age, lines, listing, ls, ls_line,
    show, stale_sweep, sweep, swept, Fresh,
};
use crate::outcomes::{lemma_shows, shows};
use crate::random::{is_hex_digit, is_uuid};
use crate::serve::{
    admitted, after_call, get_config, heartbeat, machine_auth, render_config_reply, HttpReply,
    HttpReplyView,
};
use crate::text::{trim_both, Strip};
use crate::util::{rand_hex, sanitize_name, sanitized, sha256_text};
use crate::wording::{hex_value, lemma_named, named};
use vstd::prelude::*;

verus! {

// ----------------------------------------------------------------- registry ---
/// A machine that is noted as seen just now gets the time of some second since 1970,
/// and nothing else changes.
pub proof fn law_seen_is_seen_now(reg: &mut Registry, id: &str, i: int)
    requires
        old(reg)@.wf(),
        call_ensures(touch_last_seen, (reg, id), ()),
    ensures
        0 <= i < old(reg)@.machines.len() && old(reg)@.machines[i].id == id@ ==> exists|ts: Seq<char>|
            {
                &&& #[trigger] is_some_stamp(ts)
                &&& row_set(
                    old(reg)@,
                    final(reg)@,
                    i,
                    MachineView { last_seen: Some(ts), ..old(reg)@.machines[i] },
                )
            },
        (forall|j: int|
            0 <= j < old(reg)@.machines.len() ==> (#[trigger] old(reg)@.machines[j]).id != id@)
            ==> final(reg)@ == old(reg)@,
{
    let ms = old(reg)@.machines;
    lemma_first_index(ms, with_id(id@));
    if 0 <= i < ms.len() && ms[i].id == id@ {
        assert(with_id(id@)(ms[i]));
        let k = first_index(ms, with_id(id@))->0;
        if k < i {
            assert(ms[k].id != ms[i].id);
        }
        assert(k == i);
    }
}

/// A token is used at the time of some second since 1970.
pub proof fn law_tokens_are_used_now(
    reg: &mut Registry,
    token: &str,
    r: Result<Option<String>, DbError>,
)
    requires
        old(reg)@.wf(),
        call_ensures(consume_token, (reg, token), r),
    ensures
        exists|now: Seq<char>|
            {
                &&& #[trigger] is_some_stamp(now)
                &&& token_used(old(reg)@, final(reg)@, sha256_text(token@), now, result_hint(r))
            },
{
    let now = choose|now: Seq<char>| #[trigger]
        is_some_stamp(now) && final(reg)@ == consumed(old(reg)@, token@, now) && result_hint(r)
            == consumed_hint(old(reg)@, token@, now);
    lemma_token_used(old(reg)@, sha256_text(token@), now);
}

/// A token that is added now, under a fresh id, is unused, and expires the seconds
/// asked for after it was made.
pub proof fn law_tokens_are_minted_now(
    reg: &mut Registry,
    hash: &str,
    hint: Option<&str>,
    ttl: i64,
    r: Result<(), DbError>,
)
    requires
        old(reg)@.wf(),
        call_ensures(insert_token, (reg, hash, hint, ttl), r),
    ensures
        r is Err ==> final(reg)@ == old(reg)@ && (r->Err_0 is ExpiryOutOfRange || r->Err_0
            is DuplicateTokenId),
        r is Ok ==> exists|secs: i64|
            {
                let row = final(reg)@.tokens.last();
                &&& final(reg)@.machines == old(reg)@.machines
                &&& final(reg)@.tokens == old(reg)@.tokens.push(row)
                &&& is_uuid(row.id)
                &&& row.token_hash == hash@ && row.name_hint == opt_str(hint) && row.used_at is None
                &&& 0 <= secs && row.created_at == #[trigger] rfc3339(secs)
                &&& row.expires_at == rfc3339((secs + ttl) as i64) && secs + ttl <= MAX_SECS
            },
{
    let (id, secs) = choose|id: Seq<char>, secs: i64|
        is_uuid(id) && 0 <= secs <= MAX_SECS && match #[trigger] token_added(
            old(reg)@,
            id,
            hash@,
            opt_str(hint),
            ttl as int,
            secs as int,
        ) {
            Ok(next) => r is Ok && final(reg)@ == next && is_stamp(
                final(reg)@.tokens.last().expires_at,
                (secs + ttl) as i64,
            ),
            Err(e) => r == Err::<(), DbError>(e) && final(reg)@ == old(reg)@,
        };
    if r is Ok {
        assert(final(reg)@.tokens.last().created_at == rfc3339(secs));
    }
}

// ------------------------------------------------- GET /config, POST /heartbeat ---
/// A call admits and refuses as `machine_auth` does; who is admitted gets its own
/// configuration or `ok` and is noted as seen at the time of some second since 1970;
/// who is refused gets the refusal and changes nothing.
pub proof fn law_calls_are_answered_now(
    reg: &mut Registry,
    beat: &mut Registry,
    cfg: &Config,
    id: Option<&str>,
    secret: Option<&str>,
    r: HttpReply,
    b: HttpReply,
    auth: Result<Machine, HttpReply>,
    own: HttpReply,
)
    requires
        old(reg)@.wf(),
        old(beat)@ == old(reg)@,
        call_ensures(get_config, (reg, cfg, id, secret), r),
        call_ensures(heartbeat, (beat, id, secret), b),
        call_ensures(machine_auth, (&*old(reg), id, secret), auth),
        auth matches Ok(m) ==> call_ensures(render_config_reply, (cfg, &m), own),
    ensures
        auth matches Err(e) ==> {
            &&& r@ == e@ && b@ == e@
            &&& final(reg)@ == old(reg)@ && final(beat)@ == old(reg)@
        },
        auth matches Ok(m) ==> {
            &&& r@ == own@
            &&& b.status == 200 && b.body@ == "ok\n"@
            &&& noted(old(reg)@, final(reg)@, m@)
            &&& noted(old(reg)@, final(beat)@, m@)
        },
{
    if let Ok(m) = auth {
        assert(admitted(old(reg)@.machines, opt_str(id), opt_str(secret)) == Ok::<
            MachineView,
            HttpReplyView,
        >(m@));
        let one = choose|now: Seq<char>| #[trigger]
            is_some_stamp(now) && final(reg)@ == after_call(
                old(reg)@,
                opt_str(id),
                opt_str(secret),
                now,
            );
        let two = choose|now: Seq<char>| #[trigger]
            is_some_stamp(now) && final(beat)@ == after_call(
                old(reg)@,
                opt_str(id),
                opt_str(secret),
                now,
            );
        lemma_noted(old(reg)@, id, secret, one, m@);
        lemma_noted(old(reg)@, id, secret, two, m@);
    }
}

/// The live machine `m` was noted as seen at the time of some second since 1970, and
/// nothing else changed.
pub open spec fn noted(before: RegistryView, after: RegistryView, m: MachineView) -> bool {
    exists|i: int, now: Seq<char>|
        {
            &&& #[trigger] live_at(before, i)
            &&& before.machines[i] == m
            &&& #[trigger] is_some_stamp(now)
            &&& row_set(before, after, i, MachineView { last_seen: Some(now), ..m })
        }
}

proof fn lemma_noted(
    before: RegistryView,
    id: Option<&str>,
    secret: Option<&str>,
    now: Seq<char>,
    m: MachineView,
)
    requires
        before.wf(),
        is_some_stamp(now),
        admitted(before.machines, opt_str(id), opt_str(secret)) == Ok::<MachineView, HttpReplyView>(m),
    ensures
        noted(before, after_call(before, opt_str(id), opt_str(secret), now), m),
{
    law_calls_only_note_the_time(before, opt_str(id), opt_str(secret), now);
    let ms = before.machines;
    lemma_first_index(ms, live_with_id(id->0@));
    lemma_first_index(ms, with_id(m.id));
    let i = first_index(ms, with_id(m.id))->0;
    assert(live_at(before, i));
}

// ---------------------------------------------------------------- staleness ---
/// More than `threshold` seconds before `now` the machine was last heard of, by a
/// heartbeat or else by its enrollment; one whose time cannot be read counts as heard
/// of at `now`.
pub open spec fn silent(m: MachineView, threshold: i64, now: Moment) -> bool {
    let heard = match m.last_seen {
        Some(ts) => ts,
        None => m.enrolled_at,
    };
    match age_at(heard, now) {
        Some(age) => age > threshold,
        None => 0 > threshold,
    }
}

/// A sweep of one machine sets its marker to whether it is silent for too long now, and
/// tells of it where it flipped.
pub proof fn law_a_sweep_goes_by_the_clock(
    reg: &mut Registry,
    m: &Machine,
    threshold: i64,
    r: Option<bool>,
    i: int,
)
    requires
        old(reg)@.wf(),
        call_ensures(stale_sweep, (reg, m, threshold), r),
        live_at(old(reg)@, i),
        old(reg)@.machines[i] == m@,
    ensures
        exists|now: Moment|
            {
                let stale = #[trigger] silent(m@, threshold, now);
                &&& now.from_clock()
                &&& r == (if stale == m.marked_stale {
                    None
                } else {
                    Some(stale)
                })
                &&& row_set(
                    old(reg)@,
                    final(reg)@,
                    i,
                    MachineView { marked_stale: stale, ..old(reg)@.machines[i] },
                )
            },
{
    let ms = old(reg)@.machines;
    lemma_first_index(ms, live_with_id(m.id@));
    lemma_first_index(ms, with_id(m.id@));
    assert(live_with_id(m.id@)(ms[i]));
    assert(with_id(m.id@)(ms[i]));
    let k = first_index(ms, with_id(m.id@))->0;
    if k < i {
        assert(ms[k].id != ms[i].id);
    }
    assert(k == i);
    assert(ms.update(i, ms[i]) =~= ms);
    let now = choose|now: Moment|
        now.from_clock() && r == #[trigger] flip(old(reg)@.machines, m@, threshold, now);
    let stale = silent(m@, threshold, now);
    assert(r is None ==> (MachineView { marked_stale: stale, ..ms[i] }) =~= ms[i]);
}

/// A sweep of the fleet goes by one time of the clock: every live machine ends up marked
/// exactly where it is silent for too long then, nothing else changes, and exactly the
/// machines whose marker was wrong are told.
pub proof fn law_a_sweep_of_all_goes_by_the_clock(
    reg: &mut Registry,
    ms: &Vec<Machine>,
    threshold: i64,
    told: Vec<(usize, bool)>,
)
    requires
        old(reg)@.wf(),
        call_ensures(live_machines, (&*old(reg),), *ms),
        call_ensures(sweep, (reg, ms, threshold), told),
    ensures
        exists|now: Moment|
            {
                &&& #[trigger] now.from_clock()
                &&& final(reg)@.tokens == old(reg)@.tokens
                &&& final(reg)@.machines.len() == old(reg)@.machines.len()
                &&& forall|i: int|
                    0 <= i < old(reg)@.machines.len() ==> #[trigger] final(reg)@.machines[i] == (
                    if old(reg)@.machines[i].deleted {
                        old(reg)@.machines[i]
                    } else {
                        MachineView {
                            marked_stale: silent(old(reg)@.machines[i], threshold, now),
                            ..old(reg)@.machines[i]
                        }
                    })
                &&& forall|j: int|
                    0 <= j < told@.len() ==> {
                        let t = #[trigger] told@[j];
                        &&& t.0 < ms@.len()
                        &&& t.1 == silent(ms@[t.0 as int]@, threshold, now)
                        &&& t.1 != ms@[t.0 as int].marked_stale
                    }
                &&& forall|k: int|
                    0 <= k < ms@.len() && silent((#[trigger] ms@[k])@, threshold, now)
                        != ms@[k].marked_stale ==> exists|j: int|
                        0 <= j < told@.len() && (#[trigger] told@[j]).0 == k
            },
{
    let views = machine_views(ms@);
    let before = old(reg)@;
    let now = choose|now: Moment|
        now.from_clock() && final(reg)@ == swept(before, views, threshold, now) && flip_views(told@)
            == #[trigger] flips(before, views, threshold, now);
    law_sweep_marks_exactly_the_stale(before, views, threshold, now);
    law_sweep_tells_of_every_flip(before, views, threshold, now);
    let all = flips(before, views, threshold, now);
    assert forall|i: int| 0 <= i < before.machines.len() implies #[trigger] final(reg)@.machines[i]
        == (if before.machines[i].deleted {
        before.machines[i]
    } else {
        MachineView {
            marked_stale: silent(before.machines[i], threshold, now),
            ..before.machines[i]
        }
    }) by {
        assert(final(reg)@.machines[i] == swept_row(
            before.machines[i],
            !before.machines[i].deleted,
            threshold,
            now,
        ));
    }
    let t = flip_views(told@);
    assert forall|j: int| 0 <= j < told@.len() implies ({
        let x = #[trigger] told@[j];
        &&& x.0 < ms@.len()
        &&& x.1 == silent(ms@[x.0 as int]@, threshold, now)
        &&& x.1 != ms@[x.0 as int].marked_stale
    }) by {
        assert(t[j] == (told@[j].0 as int, told@[j].1));
        assert(all.contains(t[j]));
        assert(all.contains((told@[j].0 as int, told@[j].1)));
        assert(views[told@[j].0 as int] == ms@[told@[j].0 as int]@);
    }
    assert forall|k: int| 0 <= k < ms@.len() && silent((#[trigger] ms@[k])@, threshold, now)
        != ms@[k].marked_stale implies exists|j: int|
        0 <= j < told@.len() && (#[trigger] told@[j]).0 == k by {
        let stale = silent(ms@[k]@, threshold, now);
        assert(views[k] == ms@[k]@);
        assert(all.contains((k, stale)));
        let j = choose|j: int| 0 <= j < t.len() && t[j] == (k, stale);
        assert(told@[j].0 == k);
    }
}

// ------------------------------------------------------------------ listing ---
/// The listing goes by one time of the clock: a heading, and then for every machine, in
/// their order, its line with the age of its last heartbeat at that time.
pub proof fn law_listing_goes_by_the_clock(
    machines: &Vec<Machine>,
    connected: &Vec<bool>,
    out: Vec<String>,
    head: String,
)
    requires
        machines@.len() == connected@.len(),
        call_ensures(ls, (machines, connected), out),
        call_ensures(heading, (), head),
    ensures
        machines@.len() == 0 ==> out@.len() == 1 && out@[0]@
            == "no machines enrolled — mint a token with `omni token new`"@,
        machines@.len() > 0 ==> out@.len() == machines@.len() + 1 && out@[0]@ == head@,
        machines@.len() > 0 ==> exists|now: Moment|
            {
                &&& #[trigger] now.from_clock()
                &&& forall|i: int|
                    0 <= i < machines@.len() ==> (#[trigger] out@[i + 1])@ == ls_line(
                        machines@[i]@,
                        connected@[i],
                        age_shown(opt_text(machines@[i].last_seen), now),
                    )
            },
{
    let all = lines(out@);
    let views = machine_views(machines@);
    assert(all.len() == out@.len());
    let now = choose|now: Moment|
        now.from_clock() && all == #[trigger] listing(views, connected@, now);
    assert(all[0] == out@[0]@);
    if machines@.len() > 0 {
        assert forall|i: int| 0 <= i < machines@.len() implies (#[trigger] out@[i + 1])@ == ls_line(
            machines@[i]@,
            connected@[i],
            age_shown(opt_text(machines@[i].last_seen), now),
        ) by {
            assert(all[i + 1] == out@[i + 1]@);
            assert(views[i] == machines@[i]@);
        }
    }
}

/// What is shown of a machine says its fields, and its age at some time of the clock.
pub proof fn law_show_goes_by_the_clock(m: &Machine, connected: bool, out: Vec<String>)
    requires
        call_ensures(show, (m, connected), out),
    ensures
        exists|now: Moment|
            now.from_clock() && shows(
                *m,
                connected,
                #[trigger] age_shown(opt_text(m.last_seen), now),
                out@,
            ),
{
    let now = choose|now: Moment|
        now.from_clock() && lines(out@) == detail(
            m@,
            connected,
            #[trigger] age_shown(m@.last_seen, now),
        );
    lemma_shows(*m, connected, age_shown(m@.last_seen, now), out@);
}

/// The age of a text is `None`, and shown as `never`, exactly where there is no time or
/// it cannot be read; the age of a second that the clock wrote is the seconds from then
/// to now.
pub proof fn law_ages_go_by_the_clock(ts: &str, age: Option<i64>, some: String, none: String)
    requires
        call_ensures(age_secs, (ts,), age),
        call_ensures(human_age, (Some(ts),), some),
        call_ensures(human_age, (None,), none),
    ensures
        none@ == "never"@,
        age is None <==> rfc3339_moment(ts@) is None,
        rfc3339_moment(ts@) is None ==> some@ == "never"@,
        exists|now: Moment|
            now.from_clock() && some@ == #[trigger] age_shown(Some(ts@), now),
        forall|written: i64|
            #![trigger is_stamp(ts@, written)]
            is_stamp(ts@, written) && in_four_digit_years(written) ==> exists|now: Moment|
                {
                    &&& #[trigger] now.from_clock()
                    &&& written <= now.secs ==> age == Some((now.secs - written) as i64)
                    &&& written > now.secs ==> age is Some && age->0 <= 0
                },
{
    let now = choose|now: Moment|
        now.from_clock() && opt_secs(age) == #[trigger] age_at(ts@, now);
    assert(now.from_clock());
}

// -------------------------------------------------------------------- draws ---
/// Random hexadecimal has two digits for every byte, each with a value.
pub proof fn law_draws_are_hexadecimal(bytes: usize, s: String)
    requires
        2 * bytes <= isize::MAX,
        call_ensures(rand_hex, (bytes,), s),
    ensures
        s@.len() == 2 * bytes,
        forall|i: int| 0 <= i < s@.len() ==> 0 <= hex_value(#[trigger] s@[i]) < 16,
{
}

/// What enrolling draws afresh is as long as it has to be to be hard to guess, and
/// hexadecimal; the id is a UUID, and the time is some second since 1970.
pub proof fn law_draws_are_long(f: Fresh)
    requires
        call_ensures(Fresh::draw, (), f),
    ensures
        f.secret@.len() == 64 && f.service_token@.len() == 64 && f.fallback@.len() == 4,
        forall|i: int| 0 <= i < 64 ==> 0 <= hex_value(#[trigger] f.secret@[i]) < 16,
        forall|i: int| 0 <= i < 64 ==> 0 <= hex_value(#[trigger] f.service_token@[i]) < 16,
        forall|i: int| 0 <= i < 4 ==> 0 <= hex_value(#[trigger] f.fallback@[i]) < 16,
        is_uuid(f.id@),
        is_some_stamp(f.now@),
{
}

/// The time that the clock writes is that of some second since 1970, and where it has a
/// year of four digits it reads back.
pub proof fn law_the_clock_reads_back(ts: String)
    requires
        call_ensures(now_rfc3339, (), ts),
    ensures
        exists|secs: i64|
            {
                &&& 0 <= secs <= MAX_SECS
                &&& ts@ == #[trigger] rfc3339(secs)
                &&& in_four_digit_years(secs) ==> rfc3339_moment(ts@) == Some(
                    Moment { secs, nanos: 0 },
                )
            },
{
    let secs = choose|secs: i64| 0 <= secs <= MAX_SECS && #[trigger] is_stamp(ts@, secs);
    assert(ts@ == rfc3339(secs));
}

/// A display name keeps what is safe of what was asked for; where nothing is left, it
/// is `machine-` and four random hexadecimal digits.
pub proof fn law_names_are_made_safe(raw: &str, t: &str, name: String)
    requires
        call_ensures(sanitize_name, (raw,), name),
        call_ensures(trim_both, (raw, Strip::White), t),
    ensures
        exists|fallback: Seq<char>|
            {
                &&& fallback.len() == 4
                &&& forall|i: int| 0 <= i < 4 ==> 0 <= hex_value(#[trigger] fallback[i]) < 16
                &&& #[trigger] named(t@, fallback, name@)
            },
{
    let fallback = choose|fallback: Seq<char>|
        fallback.len() == 4 && (forall|i: int|
            0 <= i < 4 ==> is_hex_digit(#[trigger] fallback[i])) && name@
            == sanitized(raw@, fallback);
    lemma_named(raw@, fallback);
}

} // verus!
