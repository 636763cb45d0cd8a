//! Laws on what the operations do to the registry, row by row and field by field.

use crate::clock::{age_secs_at, is_stamp, rfc3339, Moment, MAX_SECS, MIN_SECS};
use crate::config::Config;
use crate::db::{
    add_token, auth_by_hash, auth_machine, borrow_opt, consume_hash_at, consume_token_at,
    consumed, consumed_by_hash, consumed_hint, copy_opt, find_machine, first_index, found,
    highest_port, hint_by_hash, ids_clash, insert_machine, insert_token_at, lemma_filter_order,
    lemma_first_index, lemma_highest_port, live_machines, live_with_id, live_with_id_prefix,
    live_with_name, machine_by_id, machine_by_name, machine_views, mark_deleted, names_clash,
    next_port, opt_str, opt_text, own_opt, ports_clash, result_hint, result_machine,
    row_to_machine, set_termix_host, standing, token_added, token_ids_clash, token_views,
    touch_last_seen_at, update_machine, usable, with_id, DbError, Machine, MachineRow,
    MachineView, Registry, RegistryView, Token, TokenView,
};
use crate::laws::{
    law_calls_only_note_the_time, law_sweep_marks_exactly_the_stale,
    law_sweep_tells_of_every_flip, swept_row,
};
use crate::ops::{
    chosen_name, enroll, enroll_with, enrollment, flip_views, flips, is_enrolled, is_hex,
    lemma_found_is_live, place, placed, rename, rename_to, renamed, rm, set_exposure, set_stale,
    stale_at, stale_by_age, stale_sweep_at, stored, sweep_at, sync_termix_host, termix_host,
    token_new, token_text, Enrolled, Fresh, RenameError, RenameErrorView, TOKEN_TTL_SECS,
};
use crate::outcomes::begins;
use crate::random::is_uuid;
use crate::rathole::{client_toml, render_client_toml};
use crate::serve::{
    admitted, get_config_at, heartbeat_at, machine_auth, render_config_reply, HttpReply,
    HttpReplyView,
};
use crate::termix::HostPayload;
use crate::text::{strip_both, white_space, Strip};
use crate::util::{sanitize_name_or, sanitized, sha256_text};
use crate::wording::{lemma_precedes, lemma_prefix_ci, lemma_trimmed, precedes, same_letter, taken};
use vstd::prelude::*;

verus! {

/// The registry is sound exactly where no two machines share an id or a port, deleted
/// ones counted, no two live ones share a name, and no two tokens share an id.
pub proof fn law_the_registry_is_sound(reg: RegistryView)
    ensures
        reg.wf() <==> {
            &&& forall|i: int, j: int|
                0 <= i < reg.machines.len() && 0 <= j < reg.machines.len() && i != j ==> (
                #[trigger] reg.machines[i]).id != (#[trigger] reg.machines[j]).id
                    && reg.machines[i].port != reg.machines[j].port
            &&& forall|i: int, j: int| #[trigger]
                live_at(reg, i) && #[trigger] live_at(reg, j) && i != j ==> reg.machines[i].name
                    != reg.machines[j].name
            &&& forall|i: int, j: int|
                0 <= i < reg.tokens.len() && 0 <= j < reg.tokens.len() && i != j ==> (
                #[trigger] reg.tokens[i]).id != (#[trigger] reg.tokens[j]).id
        },
{
    if reg.wf() {
        assert forall|i: int, j: int|
            0 <= i < reg.machines.len() && 0 <= j < reg.machines.len() && i != j implies (
        #[trigger] reg.machines[i]).id != (#[trigger] reg.machines[j]).id && reg.machines[i].port
            != reg.machines[j].port by {
            if i < j {
            } else {
                assert(reg.machines[j].id != reg.machines[i].id);
            }
        }
        assert forall|i: int, j: int| #[trigger] live_at(reg, i) && #[trigger] live_at(reg, j) && i
            != j implies reg.machines[i].name != reg.machines[j].name by {
            if i < j {
                assert(reg.machines[i].name != reg.machines[j].name);
            } else {
                assert(reg.machines[j].name != reg.machines[i].name);
            }
        }
        assert forall|i: int, j: int|
            0 <= i < reg.tokens.len() && 0 <= j < reg.tokens.len() && i != j implies (
        #[trigger] reg.tokens[i]).id != (#[trigger] reg.tokens[j]).id by {
            if i < j {
            } else {
                assert(reg.tokens[j].id != reg.tokens[i].id);
            }
        }
    } else if (forall|i: int, j: int| #[trigger]
        live_at(reg, i) && #[trigger] live_at(reg, j) && i != j ==> reg.machines[i].name
            != reg.machines[j].name) {
        assert forall|i: int, j: int|
            0 <= i < j < reg.machines.len() && !reg.machines[i].deleted && !reg.machines[j].deleted implies (
        #[trigger] reg.machines[i]).name != (#[trigger] reg.machines[j]).name by {
            assert(live_at(reg, i) && live_at(reg, j));
        }
    }
}

// ------------------------------------------------------------------- lookup ---
/// A live machine stands at `i`.
pub open spec fn live_at(reg: RegistryView, i: int) -> bool {
    0 <= i < reg.machines.len() && !reg.machines[i].deleted
}

/// The id of the machine at `i` starts with `needle`, ASCII case aside.
pub open spec fn id_starts(reg: RegistryView, i: int, needle: Seq<char>) -> bool {
    let id = reg.machines[i].id;
    needle.len() <= id.len() && forall|k: int|
        0 <= k < needle.len() ==> same_letter(id[k], #[trigger] needle[k])
}

/// A live machine is found by its id and by its name, and only a live one is.
pub proof fn law_live_machines_are_looked_up(
    reg: &Registry,
    id: &str,
    name: &str,
    by_id: Option<Machine>,
    by_name: Option<Machine>,
)
    requires
        reg@.wf(),
        call_ensures(machine_by_id, (reg, id), by_id),
        call_ensures(machine_by_name, (reg, name), by_name),
    ensures
        by_id matches Some(m) ==> reg@.machines.contains(m@) && !m.deleted && m.id@ == id@,
        by_id is None ==> forall|i: int| #[trigger] live_at(reg@, i) ==> reg@.machines[i].id != id@,
        by_name matches Some(m) ==> reg@.machines.contains(m@) && !m.deleted && m.name@ == name@,
        by_name is None ==> forall|i: int| #[trigger]
            live_at(reg@, i) ==> reg@.machines[i].name != name@,
{
    let ms = reg@.machines;
    lemma_first_index(ms, live_with_id(id@));
    lemma_first_index(ms, live_with_name(name@));
    assert forall|i: int| by_id is None && #[trigger] live_at(reg@, i) implies ms[i].id != id@ by {
        assert(!live_with_id(id@)(ms[i]));
    }
    assert forall|i: int| by_name is None && #[trigger] live_at(reg@, i) implies ms[i].name
        != name@ by {
        assert(!live_with_name(name@)(ms[i]));
    }
    if let Some(m) = by_id {
        let i = first_index(ms, live_with_id(id@))->0;
        assert(ms[i] == m@);
    }
    if let Some(m) = by_name {
        let i = first_index(ms, live_with_name(name@))->0;
        assert(ms[i] == m@);
    }
}

/// A lookup goes by the exact name, then by the exact id, then by a prefix of the id
/// that one live machine has; it says whether none or several have it.
pub proof fn law_lookups_go_name_id_prefix(
    reg: &Registry,
    needle: &str,
    r: Result<Machine, DbError>,
    i: int,
)
    requires
        reg@.wf(),
        call_ensures(find_machine, (reg, needle), r),
        live_at(reg@, i),
    ensures
        reg@.machines[i].name == needle@ ==> r is Ok && r->Ok_0@ == reg@.machines[i],
        (forall|j: int| #[trigger] live_at(reg@, j) ==> reg@.machines[j].name != needle@)
            && reg@.machines[i].id == needle@ ==> r is Ok && r->Ok_0@ == reg@.machines[i],
        (forall|j: int| #[trigger]
            live_at(reg@, j) ==> reg@.machines[j].name != needle@ && reg@.machines[j].id != needle@) ==> {
            &&& id_starts(reg@, i, needle@) && (forall|j: int| #[trigger]
                live_at(reg@, j) && j != i ==> !id_starts(reg@, j, needle@)) ==> r is Ok
                && r->Ok_0@ == reg@.machines[i]
            &&& id_starts(reg@, i, needle@) && (exists|j: int| #[trigger]
                live_at(reg@, j) && j != i && id_starts(reg@, j, needle@)) ==> r is Err
                && r->Err_0 is Ambiguous && r->Err_0->Ambiguous_0 >= 2
        },
        r matches Ok(m) ==> reg@.machines.contains(m@) && !m.deleted,
        (r is Err && r->Err_0 is NoMatch) ==> !id_starts(reg@, i, needle@) && reg@.machines[i].name
            != needle@,
        r is Err ==> r->Err_0 is NoMatch || r->Err_0 is Ambiguous,
{
    let ms = reg@.machines;
    let n = needle@;
    let p = live_with_id_prefix(n);
    lemma_first_index(ms, live_with_name(n));
    lemma_first_index(ms, live_with_id(n));
    let at = lemma_filter_order(ms, p);
    let kept = ms.filter(p);
    assert forall|j: int| 0 <= j < ms.len() implies p(#[trigger] ms[j]) == (live_at(reg@, j)
        && id_starts(reg@, j, n)) by {
        lemma_prefix_ci(ms[j].id, n);
    }
    if ms[i].name == n {
        assert(live_with_name(n)(ms[i]));
        let k = first_index(ms, live_with_name(n))->0;
        if k < i {
            assert(ms[k].name != ms[i].name);
        }
        assert(k == i);
    }
    if first_index(ms, live_with_name(n)) is Some {
        let k = first_index(ms, live_with_name(n))->0;
        assert(live_at(reg@, k));
        assert(ms.contains(ms[k]));
    } else if first_index(ms, live_with_id(n)) is Some {
        let k = first_index(ms, live_with_id(n))->0;
        assert(live_at(reg@, k));
        assert(ms.contains(ms[k]));
        if ms[i].id == n {
            if k < i {
                assert(ms[k].id != ms[i].id);
            } else if i < k {
                assert(ms[i].id != ms[k].id);
            }
        }
    } else {
        assert(ms[i].id != n) by {
            assert(!live_with_id(n)(ms[i]));
        }
        assert(ms[i].name != n) by {
            assert(!live_with_name(n)(ms[i]));
        }
        if p(ms[i]) {
            assert(at.contains(i));
            let x = choose|x: int| 0 <= x < at.len() && at[x] == i;
            if exists|j: int| #[trigger] live_at(reg@, j) && j != i && id_starts(reg@, j, n) {
                let j = choose|j: int| #[trigger] live_at(reg@, j) && j != i && id_starts(reg@, j, n);
                assert(p(ms[j]));
                assert(at.contains(j));
                let y = choose|y: int| 0 <= y < at.len() && at[y] == j;
                assert(x != y);
                assert(kept.len() >= 2);
            } else {
                assert(kept.len() == 1) by {
                    if kept.len() > 1 {
                        assert(at[0] < at[1]);
                        assert(p(ms[at[0]]) && p(ms[at[1]]));
                        assert(live_at(reg@, at[0]) && live_at(reg@, at[1]));
                    }
                }
                assert(kept[0] == ms[i]);
            }
        }
        if kept.len() == 1 {
            assert(kept[0] == ms[at[0]]);
            assert(ms.contains(kept[0]));
        }
    }
}

/// The listing has every live machine once and no other, by ascending port.
pub proof fn law_listing_has_the_live_machines(reg: &Registry, out: Vec<Machine>)
    requires
        reg@.wf(),
        call_ensures(live_machines, (reg,), out),
    ensures
        forall|i: int, j: int|
            0 <= i < j < out@.len() ==> (#[trigger] out@[i]).port < (#[trigger] out@[j]).port,
        forall|k: int|
            0 <= k < out@.len() ==> !(#[trigger] out@[k]).deleted && reg@.machines.contains(
                out@[k]@,
            ),
        forall|i: int| #[trigger]
            live_at(reg@, i) ==> exists|k: int|
                0 <= k < out@.len() && (#[trigger] out@[k])@ == reg@.machines[i],
{
    let v = machine_views(out@);
    assert forall|i: int, j: int| 0 <= i < j < out@.len() implies (#[trigger] out@[i]).port < (
    #[trigger] out@[j]).port by {
        assert(v[i].port < v[j].port);
    }
    assert forall|k: int| 0 <= k < out@.len() implies !(#[trigger] out@[k]).deleted
        && reg@.machines.contains(out@[k]@) by {
        assert(v[k] == out@[k]@);
    }
    assert forall|i: int| #[trigger] live_at(reg@, i) implies exists|k: int|
        0 <= k < out@.len() && (#[trigger] out@[k])@ == reg@.machines[i] by {
        assert(v.contains(reg@.machines[i]));
        let k = choose|k: int| 0 <= k < v.len() && v[k] == reg@.machines[i];
        assert(out@[k]@ == v[k]);
    }
}

/// The first machine gets the port that the settings start at, every later one the
/// port right above the highest ever given, deleted machines counted; where that is
/// no port, none is given.
pub proof fn law_ports_count_up(reg: &Registry, port_start: u16, r: Result<u16, DbError>)
    requires
        call_ensures(next_port, (reg, port_start), r),
    ensures
        reg@.machines.len() == 0 ==> r == Ok::<u16, DbError>(port_start),
        r matches Ok(p) ==> forall|i: int|
            0 <= i < reg@.machines.len() ==> (#[trigger] reg@.machines[i]).port < p,
        reg@.machines.len() > 0 && r is Ok ==> exists|i: int|
            0 <= i < reg@.machines.len() && (#[trigger] reg@.machines[i]).port + 1 == r->Ok_0,
        r is Err ==> r->Err_0 is PortsExhausted && exists|i: int|
            0 <= i < reg@.machines.len() && (#[trigger] reg@.machines[i]).port == 0xffff,
{
    lemma_highest_port(reg@.machines);
    if reg@.machines.len() > 0 {
        let ms = reg@.machines;
        let i = choose|i: int|
            0 <= i < ms.len() && (#[trigger] ms[i]).port == highest_port(ms);
        assert(ms[i].port == highest_port(ms));
    }
}

// ------------------------------------------------------------------ writing ---
/// Only the row at `i` changed, and it is now `row`.
pub open spec fn row_set(before: RegistryView, after: RegistryView, i: int, row: MachineView) -> bool {
    &&& 0 <= i < before.machines.len()
    &&& after.machines == before.machines.update(i, row)
    &&& after.tokens == before.tokens
}

/// A machine is added where its id and its port are new and its name is free, as it
/// was given but live and not stale; else nothing changes and the error says what is
/// taken.
pub proof fn law_adding_a_machine(reg: &mut Registry, m: &Machine, r: Result<(), DbError>)
    requires
        old(reg)@.wf(),
        call_ensures(insert_machine, (reg, m), r),
    ensures
        ({
            let ms = old(reg)@.machines;
            let id_taken = exists|i: int| 0 <= i < ms.len() && (#[trigger] ms[i]).id == m.id@;
            let port_taken = exists|i: int| 0 <= i < ms.len() && (#[trigger] ms[i]).port == m.port;
            let name_taken = exists|i: int| #[trigger]
                live_at(old(reg)@, i) && ms[i].name == m.name@;
            &&& r is Ok <==> !id_taken && !port_taken && !name_taken
            &&& r is Err ==> final(reg)@ == old(reg)@
            &&& r is Err ==> match r->Err_0 {
                DbError::DuplicateId => id_taken,
                DbError::DuplicatePort => port_taken,
                DbError::DuplicateName => name_taken,
                _ => false,
            }
            &&& r is Ok ==> final(reg)@.tokens == old(reg)@.tokens && final(reg)@.machines.len()
                == ms.len() + 1 && final(reg)@.machines.drop_last() == ms
            &&& r is Ok ==> {
                let row = final(reg)@.machines.last();
                &&& row.id == m.id@ && row.name == m.name@ && row.port == m.port
                &&& row.service_token == m.service_token@ && row.secret_hash == m.secret_hash@
                &&& row.bind_addr == m.bind_addr@ && row.termix_host_id == opt_text(m.termix_host_id)
                &&& row.os == opt_text(m.os) && row.enrolled_at == m.enrolled_at@
                &&& row.last_seen == opt_text(m.last_seen)
                &&& !row.deleted && !row.marked_stale
            }
        }),
{
    let ms = old(reg)@.machines;
    lemma_first_index(ms, with_id(m.id@));
    lemma_first_index(ms, live_with_name(m.name@));
    assert forall|i: int| 0 <= i < ms.len() implies with_id(m.id@)(#[trigger] ms[i]) == (ms[i].id
        == m.id@) by {}
    assert forall|i: int| 0 <= i < ms.len() implies live_with_name(m.name@)(#[trigger] ms[i]) == (
    live_at(old(reg)@, i) && ms[i].name == m.name@) by {}
    if let Some(i) = first_index(ms, live_with_name(m.name@)) {
        assert(live_at(old(reg)@, i));
    }
    if let Some(i) = first_index(ms, with_id(m.id@)) {
        assert(ms[i].id == m.id@);
    }
    if r is Ok {
        assert(final(reg)@.machines.drop_last() =~= ms);
    }
}

/// An update reaches the row with the machine's id and sets all of it but the id, the
/// port, the time of enrollment and whether it is deleted; it fails where there is no
/// such row, or where a live one would share its name.
pub proof fn law_updating_a_machine(reg: &mut Registry, m: &Machine, r: Result<(), DbError>)
    requires
        old(reg)@.wf(),
        call_ensures(update_machine, (reg, m), r),
    ensures
        r is Err ==> final(reg)@ == old(reg)@,
        (r is Err && r->Err_0 is NotFoundForUpdate) <==> forall|i: int|
            0 <= i < old(reg)@.machines.len() ==> (#[trigger] old(reg)@.machines[i]).id != m.id@,
        r is Err ==> r->Err_0 is NotFoundForUpdate || (r->Err_0 is DuplicateName && exists|j: int|
            #[trigger] live_at(old(reg)@, j) && old(reg)@.machines[j].name == m.name@
                && old(reg)@.machines[j].id != m.id@),
        r is Ok ==> exists|i: int|
            {
                let was = old(reg)@.machines[i];
                let row = final(reg)@.machines[i];
                &&& #[trigger] row_set(old(reg)@, final(reg)@, i, final(reg)@.machines[i])
                &&& was.id == m.id@ && row.id == was.id && row.port == was.port
                &&& row.enrolled_at == was.enrolled_at && row.deleted == was.deleted
                &&& row.name == m.name@ && row.service_token == m.service_token@
                &&& row.secret_hash == m.secret_hash@ && row.bind_addr == m.bind_addr@
                &&& row.termix_host_id == opt_text(m.termix_host_id) && row.os == opt_text(m.os)
                &&& row.last_seen == opt_text(m.last_seen) && row.marked_stale == m.marked_stale
            },
{
    let ms = old(reg)@.machines;
    lemma_first_index(ms, with_id(m.id@));
    match first_index(ms, with_id(m.id@)) {
        None => {
            assert forall|i: int| 0 <= i < ms.len() implies (#[trigger] ms[i]).id != m.id@ by {
                assert(!with_id(m.id@)(ms[i]));
            }
        },
        Some(i) => {
            assert(ms[i].id == m.id@);
            if r is Ok {
                assert(row_set(old(reg)@, final(reg)@, i, final(reg)@.machines[i]));
            } else {
                let j = choose|j: int|
                    0 <= j < ms.len() && j != i && !(#[trigger] ms[j]).deleted && ms[j].name
                        == m.name@;
                assert(live_at(old(reg)@, j));
                if j < i {
                    assert(ms[j].id != ms[i].id);
                } else {
                    assert(ms[i].id != ms[j].id);
                }
            }
        },
    }
}

/// A heartbeat, a revocation and a stored host id each change one field of the row
/// with that id, and nothing where there is none.
pub proof fn law_marks_change_one_field(
    seen: &mut Registry,
    gone: &mut Registry,
    hosted: &mut Registry,
    id: &str,
    ts: &str,
    host_id: &str,
    r: Result<(), DbError>,
    i: int,
)
    requires
        old(seen)@.wf(),
        old(gone)@ == old(seen)@,
        old(hosted)@ == old(seen)@,
        call_ensures(touch_last_seen_at, (seen, id, ts), ()),
        call_ensures(mark_deleted, (gone, id), ()),
        call_ensures(set_termix_host, (hosted, id, host_id), r),
    ensures
        0 <= i < old(seen)@.machines.len() && old(seen)@.machines[i].id == id@ ==> {
            let was = old(seen)@.machines[i];
            &&& row_set(old(seen)@, final(seen)@, i, MachineView { last_seen: Some(ts@), ..was })
            &&& row_set(old(seen)@, final(gone)@, i, MachineView { deleted: true, ..was })
            &&& row_set(
                old(seen)@,
                final(hosted)@,
                i,
                MachineView { termix_host_id: Some(host_id@), ..was },
            )
            &&& r is Ok
        },
        (forall|j: int|
            0 <= j < old(seen)@.machines.len() ==> (#[trigger] old(seen)@.machines[j]).id != id@) ==> {
            &&& final(seen)@ == old(seen)@
            &&& final(gone)@ == old(seen)@
            &&& final(hosted)@ == old(seen)@
            &&& r is Err && r->Err_0 is NotFoundForUpdate
        },
{
    let ms = old(seen)@.machines;
    lemma_first_index(ms, with_id(id@));
    if 0 <= i < ms.len() && ms[i].id == id@ {
        assert(with_id(id@)(ms[i]));
        let k = first_index(ms, with_id(id@))->0;
        if k < i {
            assert(ms[k].id != ms[i].id);
        }
        assert(k == i);
    }
}

/// A machine is let in by the hash of its secret, or by its secret, exactly where it
/// is live; else it is refused as unknown or for its secret.
pub proof fn law_secrets_let_in(
    reg: &Registry,
    id: &str,
    secret: &str,
    hash: &str,
    r: Result<Machine, DbError>,
    h: Result<Machine, DbError>,
)
    requires
        reg@.wf(),
        call_ensures(auth_machine, (reg, id, secret), r),
        call_ensures(auth_by_hash, (reg, id, hash), h),
    ensures
        hash@ == sha256_text(secret@) ==> result_machine(r) == result_machine(h),
        h matches Ok(m) ==> reg@.machines.contains(m@) && !m.deleted && m.id@ == id@
            && m.secret_hash@ == hash@,
        h is Err ==> match h->Err_0 {
            DbError::UnknownMachine => forall|i: int| #[trigger]
                live_at(reg@, i) ==> reg@.machines[i].id != id@,
            DbError::BadSecret => exists|i: int| #[trigger]
                live_at(reg@, i) && reg@.machines[i].id == id@ && reg@.machines[i].secret_hash
                    != hash@,
            _ => false,
        },
        forall|i: int| #[trigger]
            live_at(reg@, i) && reg@.machines[i].id == id@ && reg@.machines[i].secret_hash == hash@
                ==> h is Ok,
{
    let ms = reg@.machines;
    lemma_first_index(ms, live_with_id(id@));
    match first_index(ms, live_with_id(id@)) {
        Some(k) => {
            assert(live_at(reg@, k));
            assert(ms.contains(ms[k]));
            assert forall|i: int| #[trigger] live_at(reg@, i) && ms[i].id == id@ implies i == k by {
                if i < k {
                    assert(ms[i].id != ms[k].id);
                } else if k < i {
                    assert(ms[k].id != ms[i].id);
                }
            }
        },
        None => {
            assert forall|i: int| #[trigger] live_at(reg@, i) implies ms[i].id != id@ by {
                assert(!live_with_id(id@)(ms[i]));
            }
        },
    }
}

// ------------------------------------------------------------------- tokens ---
/// A token that was used, or that has not expired at `now`.
pub open spec fn alive(now: Seq<char>) -> spec_fn(TokenView) -> bool {
    |t: TokenView| t.used_at is Some || !precedes(t.expires_at, now)
}

/// A token with this hash that was never used and has not expired at `now`.
pub open spec fn good(t: TokenView, hash: Seq<char>, now: Seq<char>) -> bool {
    t.token_hash == hash && t.used_at is None && !precedes(t.expires_at, now)
}

/// What an attempt to use a token does: tokens that expired unused are dropped, the
/// one that is good, if there is one, is marked as used now and gives its hint, and
/// everything else stays.
pub open spec fn token_used(
    before: RegistryView,
    after: RegistryView,
    hash: Seq<char>,
    now: Seq<char>,
    r: Result<Option<Seq<char>>, DbError>,
) -> bool {
    let left = before.tokens.filter(alive(now));
    &&& after.machines == before.machines
    &&& match r {
        Ok(hint) => exists|k: int|
            {
                &&& 0 <= k < left.len()
                &&& #[trigger] good(left[k], hash, now)
                &&& hint == left[k].name_hint
                &&& after.tokens == left.update(k, TokenView { used_at: Some(now), ..left[k] })
            },
        Err(e) => {
            &&& e is BadToken
            &&& after.tokens == left
            &&& forall|i: int|
                0 <= i < before.tokens.len() ==> !good(#[trigger] before.tokens[i], hash, now)
        },
    }
}

/// Consuming a token by its hash is using it.
pub proof fn lemma_token_used(reg: RegistryView, hash: Seq<char>, now: Seq<char>)
    ensures
        token_used(
            reg,
            consumed_by_hash(reg, hash, now),
            hash,
            now,
            hint_by_hash(reg, hash, now),
        ),
{
    assert forall|t: TokenView| #[trigger] standing(now)(t) == alive(now)(t) by {
        lemma_precedes(t.expires_at, now);
    }
    assert(standing(now) =~= alive(now));
    let left = reg.tokens.filter(alive(now));
    let at = lemma_filter_order(reg.tokens, alive(now));
    lemma_first_index(left, usable(hash, now));
    assert forall|k: int| 0 <= k < left.len() implies usable(hash, now)(#[trigger] left[k]) == good(
        left[k],
        hash,
        now,
    ) by {
        lemma_precedes(left[k].expires_at, now);
    }
    match first_index(left, usable(hash, now)) {
        Some(k) => {
            assert(good(left[k], hash, now));
        },
        None => {
            assert forall|i: int| 0 <= i < reg.tokens.len() implies !good(
                #[trigger] reg.tokens[i],
                hash,
                now,
            ) by {
                if good(reg.tokens[i], hash, now) {
                    assert(alive(now)(reg.tokens[i]));
                    assert(at.contains(i));
                    let k = choose|k: int| 0 <= k < at.len() && at[k] == i;
                    assert(good(left[k], hash, now));
                }
            }
        },
    }
}

/// Using a token marks that token and drops what expired, by its text or by its hash.
pub proof fn law_using_a_token(
    reg: &mut Registry,
    token: &str,
    now: &str,
    r: Result<Option<String>, DbError>,
    by_hash: &mut Registry,
    hash: &str,
    h: Result<Option<String>, DbError>,
)
    requires
        old(reg)@.wf(),
        old(by_hash)@.wf(),
        call_ensures(consume_token_at, (reg, token, now), r),
        call_ensures(consume_hash_at, (by_hash, hash, now), h),
    ensures
        token_used(old(reg)@, final(reg)@, sha256_text(token@), now@, result_hint(r)),
        token_used(old(by_hash)@, final(by_hash)@, hash@, now@, result_hint(h)),
{
    lemma_token_used(old(reg)@, sha256_text(token@), now@);
    lemma_token_used(old(by_hash)@, hash@, now@);
}

/// A token is added at the end, unused, as it was given; it expires the seconds asked
/// for after it was made.
pub proof fn law_minting_adds_a_token(
    reg: &mut Registry,
    id: &str,
    hash: &str,
    hint: Option<&str>,
    ttl: i64,
    now: Moment,
    r: Result<(), DbError>,
)
    requires
        old(reg)@.wf(),
        now.valid(),
        call_ensures(insert_token_at, (reg, id, hash, hint, ttl, now), r),
    ensures
        r is Err ==> final(reg)@ == old(reg)@,
        r is Err ==> match r->Err_0 {
            DbError::ExpiryOutOfRange => now.secs + ttl < MIN_SECS || now.secs + ttl > MAX_SECS,
            DbError::DuplicateTokenId => exists|i: int|
                0 <= i < old(reg)@.tokens.len() && (#[trigger] old(reg)@.tokens[i]).id == id@,
            _ => false,
        },
        r is Ok ==> {
            let row = final(reg)@.tokens.last();
            &&& final(reg)@.machines == old(reg)@.machines
            &&& final(reg)@.tokens == old(reg)@.tokens.push(row)
            &&& row.id == id@ && row.token_hash == hash@ && row.name_hint == opt_str(hint)
            &&& row.used_at is None
            &&& row.created_at == rfc3339(now.secs)
            &&& MIN_SECS <= now.secs + ttl <= MAX_SECS
            &&& row.expires_at == rfc3339((now.secs + ttl) as i64)
        },
{
}

/// A token is added as it was given, unless its id is taken.
pub proof fn law_adding_a_token(
    reg: &mut Registry,
    id: &str,
    hash: &str,
    hint: Option<&str>,
    created_at: String,
    expires_at: String,
    r: Result<(), DbError>,
)
    requires
        old(reg)@.wf(),
        call_ensures(add_token, (reg, id, hash, hint, created_at, expires_at), r),
    ensures
        r is Err <==> exists|i: int|
            0 <= i < old(reg)@.tokens.len() && (#[trigger] old(reg)@.tokens[i]).id == id@,
        r is Err ==> r->Err_0 is DuplicateTokenId && final(reg)@ == old(reg)@,
        r is Ok ==> {
            let row = final(reg)@.tokens.last();
            &&& final(reg)@.machines == old(reg)@.machines
            &&& final(reg)@.tokens == old(reg)@.tokens.push(row)
            &&& row.id == id@ && row.token_hash == hash@ && row.name_hint == opt_str(hint)
            &&& row.created_at == created_at@ && row.expires_at == expires_at@ && row.used_at is None
        },
{
}

// ---------------------------------------------------------------- beginning ---
/// A new registry holds nothing, and hands out what it holds.
pub proof fn law_a_new_registry_is_empty(reg: Registry, ms: &Vec<Machine>, ts: &Vec<Token>)
    requires
        call_ensures(Registry::new, (), reg),
        call_ensures(Registry::machines, (&reg,), ms),
        call_ensures(Registry::tokens, (&reg,), ts),
    ensures
        reg@.wf(),
        ms@.len() == 0,
        ts@.len() == 0,
{
    assert(machine_views(ms@).len() == ms@.len());
    assert(token_views(ts@).len() == ts@.len());
}

// --------------------------------------------------------------------- rows ---
/// What is stored of a machine reads back as that machine.
pub proof fn law_rows_read_back(row: MachineRow, m: Machine, was: MachineView)
    requires
        call_ensures(row_to_machine, (row,), m),
        row.id@ == was.id && row.name@ == was.name && row.port == was.port,
        row.service_token@ == was.service_token && row.secret_hash@ == was.secret_hash,
        row.bind_addr@ == was.bind_addr && opt_text(row.termix_host_id) == was.termix_host_id,
        opt_text(row.os) == was.os && row.enrolled_at@ == was.enrolled_at,
        opt_text(row.last_seen) == was.last_seen,
        was.deleted <==> row.deleted != 0,
        was.marked_stale <==> row.marked_stale != 0,
    ensures
        m@ == was,
        m.id@ == row.id@ && m.port == row.port && m.deleted == (row.deleted != 0),
        m.marked_stale == (row.marked_stale != 0),
{
}

/// A port is stored as a number of which the low sixteen bits count; of the texts,
/// each is taken as it is.
pub proof fn law_rows_are_taken_as_they_are(row: MachineRow, m: Machine)
    requires
        call_ensures(row_to_machine, (row,), m),
    ensures
        m.port == row.port as int % 0x1_0000,
        m.id@ == row.id@ && m.name@ == row.name@ && m.service_token@ == row.service_token@,
        m.secret_hash@ == row.secret_hash@ && m.bind_addr@ == row.bind_addr@ && m.enrolled_at@
            == row.enrolled_at@,
        same_text(m.termix_host_id, row.termix_host_id),
        same_text(m.os, row.os),
        same_text(m.last_seen, row.last_seen),
{
    assert(m@.os == opt_text(row.os) && m@.last_seen == opt_text(row.last_seen));
}

/// Both are texts with the same characters, or both are none.
pub open spec fn same_text(a: Option<String>, b: Option<String>) -> bool {
    match (a, b) {
        (Some(x), Some(y)) => x@ == y@,
        (None, None) => true,
        _ => false,
    }
}

/// A copy of a machine or of a token says the same in every field.
pub proof fn law_copies_are_whole(m: &Machine, n: Machine, t: &Token, u: Token)
    requires
        call_ensures(Machine::clone, (m,), n),
        call_ensures(Token::clone, (t,), u),
    ensures
        n.id@ == m.id@ && n.name@ == m.name@ && n.port == m.port,
        n.service_token@ == m.service_token@ && n.secret_hash@ == m.secret_hash@,
        n.bind_addr@ == m.bind_addr@ && n.enrolled_at@ == m.enrolled_at@,
        same_text(n.termix_host_id, m.termix_host_id) && same_text(n.os, m.os),
        same_text(n.last_seen, m.last_seen),
        n.deleted == m.deleted && n.marked_stale == m.marked_stale,
        u.id@ == t.id@ && u.token_hash@ == t.token_hash@,
        u.created_at@ == t.created_at@ && u.expires_at@ == t.expires_at@,
        same_text(u.name_hint, t.name_hint) && same_text(u.used_at, t.used_at),
{
    assert(n@.id == m@.id && u@.id == t@.id);
    assert(n@.os == m@.os && n@.last_seen == m@.last_seen && n@.termix_host_id == m@.termix_host_id);
    assert(u@.name_hint == t@.name_hint && u@.used_at == t@.used_at);
}

/// An optional text that is borrowed, owned or copied stays that text.
pub proof fn law_optional_texts_stay(
    o: Option<&str>,
    owned: Option<String>,
    copy: Option<String>,
    back: Option<&str>,
)
    requires
        call_ensures(own_opt, (o,), owned),
        call_ensures(copy_opt, (&owned,), copy),
        call_ensures(borrow_opt, (&owned,), back),
    ensures
        o is None ==> owned is None && copy is None && back is None,
        o matches Some(s) ==> {
            &&& owned is Some && owned->0@ == s@
            &&& copy is Some && copy->0@ == s@
            &&& back is Some && back->0@ == s@
        },
{
}

/// Two rows break the constraint that this failure names.
pub open spec fn breaks(rows: RegistryView, e: DbError) -> bool {
    match e {
        DbError::DuplicateId => exists|i: int, j: int|
            0 <= i < j < rows.machines.len() && (#[trigger] rows.machines[i]).id == (
            #[trigger] rows.machines[j]).id,
        DbError::DuplicatePort => exists|i: int, j: int|
            0 <= i < j < rows.machines.len() && (#[trigger] rows.machines[i]).port == (
            #[trigger] rows.machines[j]).port,
        DbError::DuplicateName => exists|i: int, j: int|
            i < j && #[trigger] live_at(rows, i) && #[trigger] live_at(rows, j) && rows.machines[i].name
                == rows.machines[j].name,
        DbError::DuplicateTokenId => exists|i: int, j: int|
            0 <= i < j < rows.tokens.len() && (#[trigger] rows.tokens[i]).id == (
            #[trigger] rows.tokens[j]).id,
        _ => false,
    }
}

/// Rows are taken exactly where they keep the constraints, and then as they are; else
/// the error names a constraint that they break.
pub proof fn law_rows_must_keep_the_constraints(
    machines: Vec<Machine>,
    tokens: Vec<Token>,
    r: Result<Registry, DbError>,
)
    requires
        call_ensures(Registry::from_rows, (machines, tokens), r),
    ensures
        ({
            let rows = RegistryView {
                machines: machine_views(machines@),
                tokens: token_views(tokens@),
            };
            &&& r is Ok <==> rows.wf()
            &&& r is Ok ==> r->Ok_0@ == rows
            &&& r is Err ==> breaks(rows, r->Err_0)
        }),
{
    let ms = machine_views(machines@);
    let ts = token_views(tokens@);
    let rows = RegistryView { machines: ms, tokens: ts };
    if r is Ok {
        assert(r->Ok_0@ =~= rows);
    } else if r->Err_0 is DuplicateName {
        let (i, j) = choose|i: int, j: int|
            0 <= i < j < ms.len() && !ms[i].deleted && !ms[j].deleted && (#[trigger] ms[i]).name == (
            #[trigger] ms[j]).name;
        assert(live_at(rows, i) && live_at(rows, j));
    }
    if rows.wf() {
        assert(!ids_clash(ms)) by {
            assert forall|i: int, j: int| 0 <= i < j < ms.len() implies (#[trigger] ms[i]).id != (
            #[trigger] ms[j]).id by {}
        }
        assert(!ports_clash(ms));
        assert(!names_clash(ms));
        assert(!token_ids_clash(ts));
    }
}

// ---------------------------------------------------------------- enrolling ---
/// `m` entered the registry under its name with the secrets just drawn. A live machine
/// of that name keeps its id, its port, its exposure, its host and the time of its
/// enrollment, and its operating system unless one is named; else a machine is added
/// on loopback, with a new id and the next port.
pub open spec fn entered(
    before: RegistryView,
    after: RegistryView,
    port_start: u16,
    os: Option<Seq<char>>,
    f: Fresh,
    hash: Seq<char>,
    m: MachineView,
) -> bool {
    &&& m.service_token == f.service_token@
    &&& m.secret_hash == hash
    &&& m.last_seen == Some(f.now@)
    &&& !m.deleted && !m.marked_stale
    &&& after.tokens == before.tokens
    &&& if exists|i: int| #[trigger] live_at(before, i) && before.machines[i].name == m.name {
        exists|i: int|
            {
                let was = before.machines[i];
                &&& #[trigger] live_at(before, i)
                &&& was.name == m.name && was.id == m.id && was.port == m.port
                &&& was.bind_addr == m.bind_addr && was.termix_host_id == m.termix_host_id
                &&& was.enrolled_at == m.enrolled_at
                &&& m.os == (if os is Some {
                    os
                } else {
                    was.os
                })
                &&& after.machines == before.machines.update(i, m)
            }
    } else {
        &&& m.id == f.id@
        &&& m.bind_addr == "127.0.0.1"@
        &&& m.termix_host_id is None
        &&& m.os == os
        &&& m.enrolled_at == f.now@
        &&& after.machines == before.machines.push(m)
        &&& forall|i: int| 0 <= i < before.machines.len() ==> (#[trigger] before.machines[i]).port
            < m.port
        &&& before.machines.len() == 0 ==> m.port == port_start
        &&& before.machines.len() > 0 ==> exists|i: int|
            0 <= i < before.machines.len() && (#[trigger] before.machines[i]).port + 1 == m.port
    }
}

/// Placing a machine enters it.
pub proof fn lemma_entered(
    reg: RegistryView,
    port_start: u16,
    name: Seq<char>,
    os: Option<Seq<char>>,
    f: Fresh,
    hash: Seq<char>,
)
    ensures
        placed(reg, port_start, name, os, f, hash).1 matches Ok(m) ==> m.name == name && entered(
            reg,
            placed(reg, port_start, name, os, f, hash).0,
            port_start,
            os,
            f,
            hash,
            m,
        ),
        placed(reg, port_start, name, os, f, hash).1 is Err ==> placed(
            reg,
            port_start,
            name,
            os,
            f,
            hash,
        ).0 == reg,
        placed(reg, port_start, name, os, f, hash).1 matches Err(e) ==> (e is PortsExhausted && exists|
            i: int,
        | 0 <= i < reg.machines.len() && (#[trigger] reg.machines[i]).port == 0xffff) || (
        e is DuplicateId && exists|i: int|
            0 <= i < reg.machines.len() && (#[trigger] reg.machines[i]).id == f.id@),
{
    let ms = reg.machines;
    lemma_first_index(ms, live_with_name(name));
    lemma_first_index(ms, with_id(f.id@));
    lemma_highest_port(ms);
    match first_index(ms, live_with_name(name)) {
        Some(i) => {
            assert(live_at(reg, i));
        },
        None => {
            assert forall|i: int| #[trigger] live_at(reg, i) implies ms[i].name != name by {
                assert(!live_with_name(name)(ms[i]));
            }
            if ms.len() > 0 {
                let i = choose|i: int|
                    0 <= i < ms.len() && (#[trigger] ms[i]).port == highest_port(ms);
                assert(ms[i].port == highest_port(ms));
            }
            if first_index(ms, with_id(f.id@)) is Some {
                let i = first_index(ms, with_id(f.id@))->0;
                assert(ms[i].id == f.id@);
            }
            if let Ok(m) = placed(reg, port_start, name, os, f, hash).1 {
                assert(MachineView { deleted: false, marked_stale: false, ..m } =~= m);
            }
        },
    }
}

/// Entering a machine under a name updates the live machine of that name or adds one.
pub proof fn law_placing_updates_or_adds(
    reg: &mut Registry,
    port_start: u16,
    name: String,
    os: Option<&str>,
    f: &Fresh,
    hash: String,
    r: Result<Machine, DbError>,
)
    requires
        old(reg)@.wf(),
        call_ensures(place, (reg, port_start, name, os, f, hash), r),
    ensures
        r matches Ok(m) ==> m.name@ == name@ && entered(
            old(reg)@,
            final(reg)@,
            port_start,
            opt_str(os),
            *f,
            hash@,
            m@,
        ),
        r is Err ==> final(reg)@ == old(reg)@,
{
    lemma_entered(old(reg)@, port_start, name@, opt_str(os), *f, hash@);
}

/// The name asked for, unless it is blank, else what the token suggests, else
/// `machine`.
pub open spec fn wanted_name(name: Option<Seq<char>>, hint: Option<Seq<char>>, s: Seq<char>) -> bool {
    let asked = name is Some && exists|i: int|
        0 <= i < name->0.len() && !white_space(#[trigger] name->0[i]);
    &&& asked ==> s == name->0
    &&& !asked && hint is Some ==> s == hint->0
    &&& !asked && hint is None ==> s == "machine"@
}

proof fn lemma_wanted_name(name: Option<Seq<char>>, hint: Option<Seq<char>>)
    ensures
        wanted_name(name, hint, chosen_name(name, hint)),
{
    if let Some(n) = name {
        let (from, to) = lemma_trimmed(n, Strip::White);
        if strip_both(n, Strip::White).len() > 0 {
            assert(!taken(Strip::White, n[from]));
        } else {
            assert forall|i: int| 0 <= i < n.len() implies white_space(#[trigger] n[i]) by {
                assert(taken(Strip::White, n[i]));
            }
        }
    }
}

/// What an enrollment does, where it draws `f`: a good token is used up, the machine it
/// buys is entered under the name wanted, and the caller gets that machine, its secret
/// and its client.toml; without a good token no machine changes.
pub open spec fn enrolled_right(
    before: RegistryView,
    after: RegistryView,
    cfg: Config,
    token: Seq<char>,
    name: Option<Seq<char>>,
    os: Option<Seq<char>>,
    f: Fresh,
    r: Result<Enrolled, DbError>,
) -> bool {
    let hash = sha256_text(token);
    let found_good = exists|i: int|
        0 <= i < before.tokens.len() && good(#[trigger] before.tokens[i], hash, f.now@);
    &&& !found_good ==> r is Err && r->Err_0 is BadToken && token_used(
        before,
        after,
        hash,
        f.now@,
        Err(DbError::BadToken),
    )
    &&& found_good ==> exists|hint: Option<Seq<char>>, spent: RegistryView, source: Seq<char>|
        {
            &&& #[trigger] token_used(before, spent, hash, f.now@, Ok(hint))
            &&& #[trigger] wanted_name(name, hint, source)
            &&& r matches Ok(e) ==> {
                &&& e.secret@ == f.secret@
                &&& e.machine@.name == sanitized(source, f.fallback@)
                &&& entered(
                    spent,
                    after,
                    cfg.port_start,
                    os,
                    f,
                    sha256_text(f.secret@),
                    e.machine@,
                )
                &&& e.client_toml@ == client_toml(
                    cfg.rathole.remote_addr@,
                    e.machine@.id,
                    e.machine@.service_token,
                )
            }
            &&& r matches Err(e) ==> {
                &&& after == spent
                &&& (e is PortsExhausted && exists|i: int|
                    0 <= i < before.machines.len() && (#[trigger] before.machines[i]).port == 0xffff)
                    || (e is DuplicateId && exists|i: int|
                    0 <= i < before.machines.len() && (#[trigger] before.machines[i]).id == f.id@)
            }
        }
}

proof fn lemma_enrolled_right(
    before: RegistryView,
    after: RegistryView,
    cfg: Config,
    token: Seq<char>,
    name: Option<Seq<char>>,
    os: Option<Seq<char>>,
    f: Fresh,
    r: Result<Enrolled, DbError>,
)
    requires
        before.wf(),
        after == enrollment(before, cfg.port_start, token, name, os, f).0,
        match enrollment(before, cfg.port_start, token, name, os, f).1 {
            Ok(m) => r matches Ok(e) && is_enrolled(e, m, f, cfg),
            Err(e) => r == Err::<Enrolled, DbError>(e),
        },
    ensures
        enrolled_right(before, after, cfg, token, name, os, f, r),
{
    let hash = sha256_text(token);
    let now = f.now@;
    lemma_token_used(before, hash, now);
    let spent = consumed(before, token, now);
    match consumed_hint(before, token, now) {
        Err(_) => {},
        Ok(hint) => {
            let left = before.tokens.filter(alive(now));
            let k = choose|k: int| 0 <= k < left.len() && #[trigger] good(left[k], hash, now);
            let at = lemma_filter_order(before.tokens, alive(now));
            assert(good(before.tokens[at[k]], hash, now));
            let source = chosen_name(name, hint);
            lemma_wanted_name(name, hint);
            lemma_entered(
                spent,
                cfg.port_start,
                sanitized(source, f.fallback@),
                os,
                f,
                sha256_text(f.secret@),
            );
            assert(token_used(before, spent, hash, now, Ok(hint)));
            assert(wanted_name(name, hint, source));
        },
    }
}

/// A good token buys a name, a port and fresh secrets.
pub proof fn law_a_token_buys_an_enrollment(
    reg: &mut Registry,
    cfg: &Config,
    token: &str,
    name: Option<&str>,
    os: Option<&str>,
    f: Fresh,
    r: Result<Enrolled, DbError>,
)
    requires
        old(reg)@.wf(),
        call_ensures(enroll_with, (reg, cfg, token, name, os, f), r),
    ensures
        enrolled_right(
            old(reg)@,
            final(reg)@,
            *cfg,
            token@,
            opt_str(name),
            opt_str(os),
            f,
            r,
        ),
{
    lemma_enrolled_right(
        old(reg)@,
        final(reg)@,
        *cfg,
        token@,
        opt_str(name),
        opt_str(os),
        f,
        r,
    );
}

/// Enrolling draws its secrets afresh: 32 bytes for each of the two, a random id.
pub proof fn law_enrolling_draws_afresh(
    reg: &mut Registry,
    cfg: &Config,
    token: &str,
    name: Option<&str>,
    os: Option<&str>,
    r: Result<Enrolled, DbError>,
)
    requires
        old(reg)@.wf(),
        call_ensures(enroll, (reg, cfg, token, name, os), r),
    ensures
        exists|f: Fresh|
            {
                &&& f.secret@.len() == 64 && f.service_token@.len() == 64 && f.fallback@.len() == 4
                &&& f.id@.len() == 36
                &&& #[trigger] enrolled_right(
                    old(reg)@,
                    final(reg)@,
                    *cfg,
                    token@,
                    opt_str(name),
                    opt_str(os),
                    f,
                    r,
                )
            },
{
    let f = choose|f: Fresh|
        f.drawn() && final(reg)@ == (#[trigger] enrollment(
            old(reg)@,
            cfg.port_start,
            token@,
            opt_str(name),
            opt_str(os),
            f,
        )).0 && match enrollment(
            old(reg)@,
            cfg.port_start,
            token@,
            opt_str(name),
            opt_str(os),
            f,
        ).1 {
            Ok(m) => r matches Ok(e) && is_enrolled(e, m, f, *cfg),
            Err(e) => r == Err::<Enrolled, DbError>(e),
        };
    lemma_enrolled_right(
        old(reg)@,
        final(reg)@,
        *cfg,
        token@,
        opt_str(name),
        opt_str(os),
        f,
        r,
    );
}

/// The client.toml that enrolling hands out is the one rendered for that machine.
pub proof fn law_enrolling_hands_out_its_client_toml(
    reg: &mut Registry,
    cfg: &Config,
    token: &str,
    name: Option<&str>,
    os: Option<&str>,
    f: Fresh,
    e: Enrolled,
    toml: String,
)
    requires
        old(reg)@.wf(),
        call_ensures(enroll_with, (reg, cfg, token, name, os, f), Ok(e)),
        call_ensures(render_client_toml, (cfg, &e.machine), toml),
    ensures
        e.client_toml@ == toml@,
{
}

/// Minting prints the token and keeps its hash only: the new row, unused and with the
/// name asked for, expires a quarter of an hour after it was made.
pub proof fn law_minted_tokens_are_kept_hashed(
    reg: &mut Registry,
    cfg: &Config,
    name: Option<&str>,
    r: Result<String, DbError>,
)
    requires
        old(reg)@.wf(),
        call_ensures(token_new, (reg, cfg, name), r),
    ensures
        r is Err ==> final(reg)@ == old(reg)@,
        r matches Ok(text) ==> exists|token: Seq<char>, secs: i64|
            {
                let row = final(reg)@.tokens.last();
                &&& token.len() == 32
                &&& final(reg)@.machines == old(reg)@.machines
                &&& final(reg)@.tokens == old(reg)@.tokens.push(row)
                &&& row.token_hash == #[trigger] sha256_text(token)
                &&& row.name_hint == opt_str(name) && row.used_at is None
                &&& row.created_at == #[trigger] rfc3339(secs)
                &&& row.expires_at == rfc3339((secs + 15 * 60) as i64)
                &&& secs >= 0 && secs + 15 * 60 <= MAX_SECS
                &&& text@.len() >= 32 && text@.skip(text@.len() - 32) == token
            },
{
    if let Ok(text) = r {
        let (token, id, secs) = choose|token: Seq<char>, id: Seq<char>, secs: i64|
            token.len() == 32 && is_hex(token) && is_uuid(id) && 0 <= secs <= MAX_SECS
                && match #[trigger] token_added(
                old(reg)@,
                id,
                sha256_text(token),
                opt_str(name),
                TOKEN_TTL_SECS as int,
                secs as int,
            ) {
                Ok(next) => r is Ok && r->Ok_0@ == token_text(*cfg, token) && final(reg)@ == next
                    && is_stamp(
                    final(reg)@.tokens.last().expires_at,
                    (secs + TOKEN_TTL_SECS) as i64,
                ),
                Err(e) => r == Err::<String, DbError>(e) && final(reg)@ == old(reg)@,
            };
        assert(text@.skip(text@.len() - 32) =~= token);
        let row = final(reg)@.tokens.last();
        assert(row.token_hash == sha256_text(token));
        assert(row.created_at == rfc3339(secs));
    }
}

// -------------------------------------------------------------------- verbs ---
/// A revocation marks the row of the machine that is found as deleted, and nothing
/// else; what is handed back is that machine as it was.
pub proof fn law_revoking_marks_one_row(
    reg: &mut Registry,
    needle: &str,
    r: Result<Machine, DbError>,
    looked_up: Result<Machine, DbError>,
)
    requires
        old(reg)@.wf(),
        call_ensures(rm, (reg, needle), r),
        call_ensures(find_machine, (&*old(reg), needle), looked_up),
    ensures
        result_machine(r) == result_machine(looked_up),
        r is Err ==> final(reg)@ == old(reg)@,
        r matches Ok(m) ==> exists|i: int| #[trigger]
            live_at(old(reg)@, i) && old(reg)@.machines[i] == m@ && row_set(
                old(reg)@,
                final(reg)@,
                i,
                MachineView { deleted: true, ..m@ },
            ),
{
    lemma_found_is_live(old(reg)@, needle@);
    if let Ok(m) = r {
        let i = first_index(old(reg)@.machines, with_id(m@.id))->0;
        assert(found(old(reg)@.machines, needle@) == Ok::<MachineView, DbError>(m@));
        assert(final(reg)@ == stored(old(reg)@, MachineView { deleted: true, ..m@ }));
        assert(live_at(old(reg)@, i));
    }
}

/// Exposing binds the machine that is found on every address and unexposing on
/// loopback; nothing else of it changes.
pub proof fn law_exposure_is_the_bind_address(
    reg: &mut Registry,
    needle: &str,
    exposed: bool,
    r: Result<Machine, DbError>,
    looked_up: Result<Machine, DbError>,
)
    requires
        old(reg)@.wf(),
        call_ensures(set_exposure, (reg, needle, exposed), r),
        call_ensures(find_machine, (&*old(reg), needle), looked_up),
    ensures
        r is Ok <==> looked_up is Ok,
        r matches Err(e) ==> looked_up == Err::<Machine, DbError>(e) && final(reg)@ == old(reg)@,
        r matches Ok(m) ==> {
            &&& m.bind_addr@ == (if exposed {
                "0.0.0.0"@
            } else {
                "127.0.0.1"@
            })
            &&& (MachineView { bind_addr: looked_up->Ok_0@.bind_addr, ..m@ }) == looked_up->Ok_0@
            &&& exists|i: int| #[trigger]
                live_at(old(reg)@, i) && old(reg)@.machines[i] == looked_up->Ok_0@ && row_set(
                    old(reg)@,
                    final(reg)@,
                    i,
                    m@,
                )
        },
{
    lemma_found_is_live(old(reg)@, needle@);
    if let Ok(m) = r {
        let was = looked_up->Ok_0@;
        let i = first_index(old(reg)@.machines, with_id(was.id))->0;
        assert(found(old(reg)@.machines, needle@) == Ok::<MachineView, DbError>(was));
        assert(final(reg)@ == stored(old(reg)@, m@));
        assert(live_at(old(reg)@, i));
        assert((MachineView { bind_addr: was.bind_addr, ..m@ }) =~= was);
    }
}

/// A rename is refused where no machine is found, as the lookup says, and where
/// another live machine has the name; it succeeds everywhere else.
pub proof fn law_renames_are_refused_for_a_reason(
    reg: &mut Registry,
    needle: &str,
    name: &str,
    r: Result<Machine, RenameError>,
    looked_up: Result<Machine, DbError>,
)
    requires
        old(reg)@.wf(),
        call_ensures(rename_to, (reg, needle, name), r),
        call_ensures(find_machine, (&*old(reg), needle), looked_up),
    ensures
        r is Ok ==> looked_up is Ok && looked_up->Ok_0.id@ == r->Ok_0.id@,
        looked_up matches Err(e) ==> r is Err && r->Err_0@ == RenameErrorView::Db(e),
        looked_up matches Ok(m) ==> {
            let taken = exists|i: int| #[trigger]
                live_at(old(reg)@, i) && old(reg)@.machines[i].name == name@
                    && old(reg)@.machines[i].id != m.id@;
            &&& r is Err <==> taken
            &&& r is Err ==> exists|i: int| #[trigger]
                live_at(old(reg)@, i) && old(reg)@.machines[i].name == name@
                    && old(reg)@.machines[i].id != m.id@ && r->Err_0@ == RenameErrorView::Taken(
                    old(reg)@.machines[i].id,
                )
        },
{
    let ms = old(reg)@.machines;
    lemma_found_is_live(old(reg)@, needle@);
    lemma_first_index(ms, live_with_name(name@));
    if let Ok(m) = looked_up {
        assert(found(ms, needle@) == Ok::<MachineView, DbError>(m@));
        if let Some(k) = first_index(ms, live_with_name(name@)) {
            assert(live_at(old(reg)@, k));
            assert forall|i: int| #[trigger] live_at(old(reg)@, i) && ms[i].name == name@ implies i
                == k by {
                if i < k {
                    assert(ms[i].name != ms[k].name);
                } else if k < i {
                    assert(ms[k].name != ms[i].name);
                }
            }
        } else {
            assert forall|i: int| #[trigger] live_at(old(reg)@, i) implies ms[i].name != name@ by {
                assert(!live_with_name(name@)(ms[i]));
            }
        }
    }
}

/// Renaming at random is renaming to a safe name: where something is left of the name
/// asked for, to that.
pub proof fn law_renaming_makes_the_name_safe(
    reg: &mut Registry,
    needle: &str,
    new_name: &str,
    r: Result<Machine, RenameError>,
    fallback: &str,
    name: String,
)
    requires
        old(reg)@.wf(),
        call_ensures(rename, (reg, needle, new_name), r),
        call_ensures(sanitize_name_or, (new_name, fallback), name),
        !begins(name@, "machine-"@),
    ensures
        r matches Ok(m) ==> m.name@ == name@ && exists|i: int| #[trigger]
            live_at(old(reg)@, i) && row_set(old(reg)@, final(reg)@, i, m@) && (MachineView {
                name: old(reg)@.machines[i].name,
                ..m@
            }) == old(reg)@.machines[i],
        r is Err ==> final(reg)@ == old(reg)@,
{
    reveal_strlit("machine-");
    let plain = "machine-"@ + fallback@;
    assert(plain.take(8) =~= "machine-"@);
    let drawn = choose|drawn: Seq<char>|
        drawn.len() == 4 && is_hex(drawn) && match renamed(
            old(reg)@.machines,
            needle@,
            #[trigger] sanitized(new_name@, drawn),
        ) {
            Ok(m) => r is Ok && r->Ok_0@ == m && final(reg)@ == stored(old(reg)@, m),
            Err(e) => r is Err && r->Err_0@ == e && final(reg)@ == old(reg)@,
        };
    assert(sanitized(new_name@, drawn) == name@);
    lemma_found_is_live(old(reg)@, needle@);
    if let Ok(m) = r {
        let ms = old(reg)@.machines;
        let was = found(ms, needle@)->Ok_0;
        let i = first_index(ms, with_id(was.id))->0;
        assert(renamed(ms, needle@, name@) == Ok::<MachineView, RenameErrorView>(m@));
        assert(live_at(old(reg)@, i));
        assert((MachineView { name: was.name, ..m@ }) =~= was);
        assert(row_set(old(reg)@, final(reg)@, i, m@));
    }
}

// ------------------------------------------------------------------- Termix ---
/// Termix is told of a live machine under its name, marked where it is down, at
/// loopback and its port; of no other machine is it told.
pub proof fn law_termix_is_told_of_the_live(
    reg: &Registry,
    id: &str,
    r: Option<(Machine, HostPayload)>,
    by_id: Option<Machine>,
)
    requires
        call_ensures(termix_host, (reg, id), r),
        call_ensures(machine_by_id, (reg, id), by_id),
    ensures
        r is Some <==> by_id is Some,
        r matches Some(x) ==> {
            &&& x.0@ == by_id->0@
            &&& x.1.name@ == (if x.0.marked_stale {
                x.0.name@ + " (down)"@
            } else {
                x.0.name@
            })
            &&& x.1.ip@ == "127.0.0.1"@
            &&& x.1.port == x.0.port
        },
{
}

/// The id of a host is stored in the machine's row where it is news, and nothing else
/// is touched.
pub proof fn law_host_ids_are_stored(
    reg: &mut Registry,
    m: &Machine,
    host_id: &str,
    r: Result<(), DbError>,
    i: int,
)
    requires
        old(reg)@.wf(),
        call_ensures(sync_termix_host, (reg, m, host_id), r),
    ensures
        opt_text(m.termix_host_id) == Some(host_id@) ==> r is Ok && final(reg)@ == old(reg)@,
        opt_text(m.termix_host_id) != Some(host_id@) && 0 <= i < old(reg)@.machines.len() && old(
            reg,
        )@.machines[i].id == m.id@ ==> r is Ok && row_set(
            old(reg)@,
            final(reg)@,
            i,
            MachineView { termix_host_id: Some(host_id@), ..old(reg)@.machines[i] },
        ),
        r is Err ==> final(reg)@ == old(reg)@ && r->Err_0 is NotFoundForUpdate && forall|j: int|
            0 <= j < old(reg)@.machines.len() ==> (#[trigger] old(reg)@.machines[j]).id != m.id@,
{
    let ms = old(reg)@.machines;
    lemma_first_index(ms, with_id(m.id@));
    if 0 <= i < ms.len() && ms[i].id == m.id@ {
        assert(with_id(m.id@)(ms[i]));
        let k = first_index(ms, with_id(m.id@))->0;
        if k < i {
            assert(ms[k].id != ms[i].id);
        }
        assert(k == i);
    }
    if first_index(ms, with_id(m.id@)) is None {
        assert forall|j: int| 0 <= j < ms.len() implies (#[trigger] ms[j]).id != m.id@ by {
            assert(!with_id(m.id@)(ms[j]));
        }
    }
}

// ---------------------------------------------------------------- staleness ---
/// A machine is stale exactly where it was last heard of, by a heartbeat or else by
/// its enrollment, more than the threshold ago; one whose time cannot be read counts
/// as heard of just now.
pub proof fn law_stale_is_silent_too_long(
    m: &Machine,
    threshold: i64,
    now: Moment,
    r: bool,
    ts: &str,
    age: Option<i64>,
    by_age: bool,
)
    requires
        now.valid(),
        call_ensures(stale_at, (m, threshold, now), r),
        ts@ == (match m.last_seen {
            Some(t) => t@,
            None => m.enrolled_at@,
        }),
        call_ensures(age_secs_at, (ts, now), age),
        call_ensures(stale_by_age, (age, threshold), by_age),
    ensures
        r == by_age,
        age matches Some(a) ==> r == (a > threshold),
        age is None ==> r == (threshold < 0),
{
}

/// A marker is set where it differs and the machine is still live; only the marker
/// changes, and what is told is what it now says.
pub proof fn law_markers_flip_where_they_differ(
    reg: &mut Registry,
    m: &Machine,
    stale: bool,
    r: Option<bool>,
    i: int,
)
    requires
        old(reg)@.wf(),
        call_ensures(set_stale, (reg, m, stale), r),
    ensures
        stale == m.marked_stale ==> r is None,
        r is None ==> final(reg)@ == old(reg)@,
        r matches Some(told) ==> told == stale && stale != m.marked_stale,
        live_at(old(reg)@, i) && old(reg)@.machines[i].id == m.id@ && stale != m.marked_stale ==> r
            is Some && row_set(
            old(reg)@,
            final(reg)@,
            i,
            MachineView { marked_stale: stale, ..old(reg)@.machines[i] },
        ),
        (forall|j: int| #[trigger] live_at(old(reg)@, j) ==> old(reg)@.machines[j].id != m.id@)
            ==> r is None,
{
    let ms = old(reg)@.machines;
    lemma_first_index(ms, live_with_id(m.id@));
    lemma_first_index(ms, with_id(m.id@));
    if live_at(old(reg)@, i) && ms[i].id == m.id@ {
        assert(live_with_id(m.id@)(ms[i]));
        assert(with_id(m.id@)(ms[i]));
        let k = first_index(ms, with_id(m.id@))->0;
        if k < i {
            assert(ms[k].id != ms[i].id);
        }
        assert(k == i);
    }
    if let Some(k) = first_index(ms, live_with_id(m.id@)) {
        assert(live_at(old(reg)@, k));
    }
}

/// A sweep of one machine sets its marker to whether it is stale.
pub proof fn law_a_sweep_sets_the_marker(
    reg: &mut Registry,
    m: &Machine,
    threshold: i64,
    now: Moment,
    r: Option<bool>,
    stale: bool,
    i: int,
)
    requires
        old(reg)@.wf(),
        now.valid(),
        call_ensures(stale_sweep_at, (reg, m, threshold, now), r),
        call_ensures(stale_at, (m, threshold, now), stale),
        live_at(old(reg)@, i),
        old(reg)@.machines[i] == m@,
    ensures
        r is Some <==> stale != m.marked_stale,
        r matches Some(told) ==> told == stale,
        row_set(
            old(reg)@,
            final(reg)@,
            i,
            MachineView { marked_stale: stale, ..old(reg)@.machines[i] },
        ),
{
    let ms = old(reg)@.machines;
    lemma_first_index(ms, live_with_id(m.id@));
    lemma_first_index(ms, with_id(m.id@));
    assert(live_with_id(m.id@)(ms[i]));
    assert(with_id(m.id@)(ms[i]));
    let k = first_index(ms, with_id(m.id@))->0;
    if k < i {
        assert(ms[k].id != ms[i].id);
    }
    assert(k == i);
    assert(r is None ==> (MachineView { marked_stale: stale, ..ms[i] }) =~= ms[i]);
    assert(ms.update(i, ms[i]) =~= ms);
}

/// A sweep of the fleet leaves every live machine marked exactly where it is stale,
/// changes nothing else, and tells of exactly the machines whose marker was wrong.
pub proof fn law_a_sweep_sets_every_marker(
    reg: &mut Registry,
    ms: &Vec<Machine>,
    threshold: i64,
    now: Moment,
    told: Vec<(usize, bool)>,
    k: int,
    stale: bool,
)
    requires
        old(reg)@.wf(),
        now.valid(),
        call_ensures(live_machines, (&*old(reg),), *ms),
        call_ensures(sweep_at, (reg, ms, threshold, now), told),
        0 <= k < ms@.len(),
        call_ensures(stale_at, (&ms@[k], threshold, now), stale),
    ensures
        final(reg)@.tokens == old(reg)@.tokens,
        final(reg)@.machines.len() == old(reg)@.machines.len(),
        forall|i: int|
            0 <= i < old(reg)@.machines.len() ==> (MachineView {
                marked_stale: old(reg)@.machines[i].marked_stale,
                ..#[trigger] final(reg)@.machines[i]
            }) == old(reg)@.machines[i],
        forall|i: int|
            0 <= i < old(reg)@.machines.len() && old(reg)@.machines[i] == ms@[k]@
                ==> (#[trigger] final(reg)@.machines[i]).marked_stale == stale,
        (exists|j: int| 0 <= j < told@.len() && (#[trigger] told@[j]).0 == k) <==> stale
            != ms@[k].marked_stale,
        forall|j: int|
            0 <= j < told@.len() && (#[trigger] told@[j]).0 == k ==> told@[j].1 == stale,
{
    let views = machine_views(ms@);
    let before = old(reg)@;
    law_sweep_marks_exactly_the_stale(before, views, threshold, now);
    law_sweep_tells_of_every_flip(before, views, threshold, now);
    let all = flips(before, views, threshold, now);
    let t = flip_views(told@);
    assert(views[k] == ms@[k]@);
    assert forall|i: int| 0 <= i < before.machines.len() implies (MachineView {
        marked_stale: before.machines[i].marked_stale,
        ..#[trigger] final(reg)@.machines[i]
    }) == before.machines[i] by {
        assert(final(reg)@.machines[i] == swept_row(
            before.machines[i],
            !before.machines[i].deleted,
            threshold,
            now,
        ));
        assert((MachineView {
            marked_stale: before.machines[i].marked_stale,
            ..final(reg)@.machines[i]
        }) =~= before.machines[i]);
    }
    assert forall|i: int|
        0 <= i < before.machines.len() && before.machines[i] == ms@[k]@ implies (
    #[trigger] final(reg)@.machines[i]).marked_stale == stale by {
        assert(!views[k].deleted);
        assert(final(reg)@.machines[i] == swept_row(
            before.machines[i],
            !before.machines[i].deleted,
            threshold,
            now,
        ));
    }
    assert forall|j: int| 0 <= j < told@.len() && (#[trigger] told@[j]).0 == k implies told@[j].1
        == stale && stale != ms@[k].marked_stale by {
        assert(t[j] == (told@[j].0 as int, told@[j].1));
        assert(all.contains(t[j]));
        assert(all.contains((k, told@[j].1)));
    }
    if stale != ms@[k].marked_stale {
        assert(all.contains((k, stale)));
        let j = choose|j: int| 0 <= j < t.len() && t[j] == (k, stale);
        assert(told@[j].0 == k);
    }
}

// ------------------------------------------------- GET /config, POST /heartbeat ---
/// Whether the headers of a call show a live machine's id and its secret.
pub open spec fn shows_credentials(
    reg: RegistryView,
    i: int,
    id: Option<&str>,
    secret: Option<&str>,
) -> bool {
    &&& live_at(reg, i)
    &&& id is Some && id->0@ == reg.machines[i].id
    &&& secret is Some && sha256_text(secret->0@) == reg.machines[i].secret_hash
}

/// A call that shows a machine's id and secret is that machine's; a header that is
/// missing is asked for, and any other credentials are refused without a word on what
/// is wrong with them.
pub proof fn law_calls_are_admitted_by_credentials(
    reg: &Registry,
    id: Option<&str>,
    secret: Option<&str>,
    r: Result<Machine, HttpReply>,
    i: int,
)
    requires
        reg@.wf(),
        call_ensures(machine_auth, (reg, id, secret), r),
    ensures
        shows_credentials(reg@, i, id, secret) ==> r is Ok && r->Ok_0@ == reg@.machines[i],
        r is Ok ==> exists|j: int| #[trigger]
            shows_credentials(reg@, j, id, secret) && r->Ok_0@ == reg@.machines[j],
        id is None || secret is None ==> r is Err && r->Err_0.status == 401 && r->Err_0.body@
            == "missing X-Omni-Machine / X-Omni-Secret headers\n"@,
        id is Some && secret is Some && r is Err ==> r->Err_0.status == 403 && r->Err_0.body@
            == "bad machine credentials\n"@,
{
    if id is Some && secret is Some {
        let ms = reg@.machines;
        lemma_first_index(ms, live_with_id(id->0@));
        if let Some(k) = first_index(ms, live_with_id(id->0@)) {
            assert(r is Ok ==> shows_credentials(reg@, k, id, secret));
            if shows_credentials(reg@, i, id, secret) {
                if i < k {
                    assert(ms[i].id != ms[k].id);
                } else if k < i {
                    assert(ms[k].id != ms[i].id);
                }
            }
        } else if live_at(reg@, i) {
            assert(!live_with_id(id->0@)(ms[i]));
        }
    }
}

/// `GET /config` and `POST /heartbeat` admit and refuse as `machine_auth` does; who is
/// admitted gets its own configuration or `ok`, and is noted as seen now; who is
/// refused gets the refusal and changes nothing.
pub proof fn law_calls_answer_and_note_the_time(
    reg: &mut Registry,
    beat: &mut Registry,
    cfg: &Config,
    id: Option<&str>,
    secret: Option<&str>,
    now: &str,
    r: HttpReply,
    b: HttpReply,
    auth: Result<Machine, HttpReply>,
    own: HttpReply,
)
    requires
        old(reg)@.wf(),
        old(beat)@ == old(reg)@,
        call_ensures(get_config_at, (reg, cfg, id, secret, now), r),
        call_ensures(heartbeat_at, (beat, id, secret, now), b),
        call_ensures(machine_auth, (&*old(reg), id, secret), auth),
        auth matches Ok(m) ==> call_ensures(render_config_reply, (cfg, &m), own),
    ensures
        final(beat)@ == final(reg)@,
        auth matches Err(e) ==> r@ == e@ && b@ == e@ && final(reg)@ == old(reg)@,
        auth matches Ok(m) ==> {
            &&& r@ == own@
            &&& b.status == 200 && b.body@ == "ok\n"@
            &&& exists|i: int| #[trigger]
                live_at(old(reg)@, i) && old(reg)@.machines[i] == m@ && row_set(
                    old(reg)@,
                    final(reg)@,
                    i,
                    MachineView { last_seen: Some(now@), ..m@ },
                )
        },
{
    law_calls_only_note_the_time(old(reg)@, opt_str(id), opt_str(secret), now@);
    if let Ok(m) = auth {
        let ms = old(reg)@.machines;
        assert(admitted(ms, opt_str(id), opt_str(secret)) == Ok::<
            MachineView,
            HttpReplyView,
        >(m@));
        lemma_first_index(ms, live_with_id(id->0@));
        lemma_first_index(ms, with_id(m@.id));
        let i = first_index(ms, with_id(m@.id))->0;
        assert(live_at(old(reg)@, i));
        assert(row_set(old(reg)@, final(reg)@, i, MachineView { last_seen: Some(now@), ..m@ }));
    }
}

} // verus!
