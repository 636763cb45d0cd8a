//! Laws on what is sent to Termix and on how its answers are taken.

use crate::config::TermixCfg;
use crate::json::{
    json_leaf, json_object, json_text, member_views, object_text, quoted_members_text,
    set_member, with_member, with_quoted_keys, write_object, write_quoted, Leaf, LeafView,
    MemberViews,
};
use crate::outcomes::{begins, lemma_spells, spells};
use crate::termix::{
    delete_result, found_view, host_id_created, host_payload, owned_members, pick_host_id,
    ping_result, truncate, upsert_step, HostPayload, Method, Reply, Request, Termix, Upsert,
    UpsertStep,
};
use crate::text::{decimal_digits, strip_both, Strip};
use crate::wording::{lemma_strip_back_is, lemma_trimmed, trimmed, without_end};
use vstd::prelude::*;

verus! {

// ----------------------------------------------------------------- requests ---
/// A request goes to a path of the Termix that is configured, with its key.
pub open spec fn goes_to(r: Request, t: Termix, method: Method, path: Seq<char>) -> bool {
    &&& r.method == method
    &&& r.url@ == t.base@ + path
    &&& r.authorization@ == "Bearer "@ + t.api_key@
}

/// Termix is reached at the address configured, without slashes at its end, and with
/// the key configured.
pub proof fn law_termix_is_reached_as_configured(cfg: &TermixCfg, t: Termix)
    requires
        call_ensures(Termix::new, (cfg,), t),
    ensures
        without_end(cfg.url@, '/', t.base@),
        t.api_key@ == cfg.api_key@,
{
    lemma_strip_back_is(cfg.url@, '/');
}

/// A ping asks for the list of hosts, a deletion for the host to go; neither has a
/// body.
pub proof fn law_pings_and_deletions_are_bare(t: &Termix, id: &str, ping: Request, gone: Request)
    requires
        call_ensures(Termix::ping, (t,), ping),
        call_ensures(Termix::delete_host, (t, id), gone),
    ensures
        goes_to(ping, *t, Method::Get, "/ssh/db/host"@),
        ping.body is None,
        goes_to(gone, *t, Method::Delete, "/ssh/db/host/"@ + id@),
        gone.body is None,
{
    assert(ping@.url == ping.url@ && gone@.url == gone.url@);
}

/// An upsert of a known host starts by reading it, one of an unknown host creates it.
pub proof fn law_upserts_start_with_what_is_known(
    t: &Termix,
    id: &str,
    p: &HostPayload,
    known: (Upsert, Request),
    unknown: (Upsert, Request),
)
    requires
        call_ensures(Termix::upsert_host, (t, Some(id), p), known),
        call_ensures(Termix::upsert_host, (t, None, p), unknown),
    ensures
        known.0 == Upsert::Read,
        goes_to(known.1, *t, Method::Get, "/ssh/db/host/"@ + id@),
        known.1.body is None,
        unknown.0 == Upsert::Create,
        goes_to(unknown.1, *t, Method::Post, "/host/enroll"@),
        unknown.1.body is Some,
        is_host_text(unknown.1.body->0@, Seq::empty(), *p),
{
    assert(known.1@.url == known.1.url@ && unknown.1@.url == unknown.1.url@);
    lemma_host_text(Seq::empty(), *p);
}

/// `body` is the JSON object of a host that had the members `found`, with what omni
/// says of it: its address, its name and its port.
pub open spec fn is_host_text(body: Seq<char>, found: MemberViews, p: HostPayload) -> bool {
    exists|ms: MemberViews|
        {
            &&& body == #[trigger] object_text(ms)
            &&& owns(ms, p)
            &&& others_kept(found, ms)
        }
}

/// The members say the address, the name and the port of the host.
pub open spec fn owns(ms: MemberViews, p: HostPayload) -> bool {
    &&& says_member(ms, "ip"@, json_text(p.ip@))
    &&& says_member(ms, "name"@, json_text(p.name@))
    &&& exists|digits: Seq<char>|
        #[trigger] says_member(ms, "port"@, digits) && spells(digits, p.port as int)
}

/// The first member with this key says `value`.
pub open spec fn says_member(ms: MemberViews, key: Seq<char>, value: Seq<char>) -> bool {
    exists|i: int|
        {
            &&& 0 <= i < ms.len()
            &&& #[trigger] ms[i] == (key, value)
            &&& forall|j: int| 0 <= j < i ==> (#[trigger] ms[j]).0 != key
        }
}

/// Every member but the address, the name and the port stands where it stood, and
/// says what it said; no other is added.
pub open spec fn others_kept(found: MemberViews, ms: MemberViews) -> bool {
    &&& found.len() <= ms.len()
    &&& forall|i: int| 0 <= i < found.len() ==> (#[trigger] ms[i]).0 == found[i].0
    &&& forall|i: int|
        0 <= i < found.len() && !is_owned(found[i].0) ==> #[trigger] ms[i] == found[i]
    &&& forall|i: int| found.len() <= i < ms.len() ==> is_owned((#[trigger] ms[i]).0)
}

/// The members that omni sets.
pub open spec fn is_owned(key: Seq<char>) -> bool {
    key == "ip"@ || key == "name"@ || key == "port"@
}

/// Setting a member changes it in place, or adds it at the end.
proof fn lemma_with_member_is(ms: MemberViews, key: Seq<char>, value: Seq<char>) -> (at: int)
    ensures
        0 <= at <= ms.len(),
        forall|j: int| 0 <= j < at ==> (#[trigger] ms[j]).0 != key,
        at < ms.len() ==> ms[at].0 == key,
        with_member(ms, key, value) == (if at < ms.len() {
            ms.update(at, (key, value))
        } else {
            ms.push((key, value))
        }),
    decreases ms.len(),
{
    let out = with_member(ms, key, value);
    if ms.len() == 0 {
        assert(out =~= ms.push((key, value)));
        0
    } else if ms[0].0 == key {
        assert(out =~= ms.update(0, (key, value)));
        0
    } else {
        let rest = ms.drop_first();
        let k = lemma_with_member_is(rest, key, value);
        let at = k + 1;
        assert forall|j: int| 0 <= j < at implies (#[trigger] ms[j]).0 != key by {
            if j > 0 {
                assert(rest[j - 1] == ms[j]);
            }
        }
        if at < ms.len() {
            assert(rest[k] == ms[at]);
            assert(out =~= ms.update(at, (key, value)));
        } else {
            assert(out =~= ms.push((key, value)));
        }
        at
    }
}

proof fn lemma_set_keeps(
    ms: MemberViews,
    key: Seq<char>,
    value: Seq<char>,
    other: Seq<char>,
    was: Seq<char>,
)
    requires
        other != key,
        says_member(ms, other, was),
    ensures
        says_member(with_member(ms, key, value), other, was),
{
    let at = lemma_with_member_is(ms, key, value);
    let out = with_member(ms, key, value);
    let i = choose|i: int|
        0 <= i < ms.len() && #[trigger] ms[i] == (other, was) && forall|j: int|
            0 <= j < i ==> (#[trigger] ms[j]).0 != other;
    assert(out[i] == ms[i]);
    assert forall|j: int| 0 <= j < i implies (#[trigger] out[j]).0 != other by {
        assert(out[j].0 == ms[j].0 || j == at);
        assert(ms[j].0 != other);
    }
}

proof fn lemma_set_says(ms: MemberViews, key: Seq<char>, value: Seq<char>)
    ensures
        says_member(with_member(ms, key, value), key, value),
        others_but(ms, with_member(ms, key, value), key),
{
    let at = lemma_with_member_is(ms, key, value);
    let out = with_member(ms, key, value);
    assert(out[at] == (key, value));
    assert forall|j: int| 0 <= j < at implies (#[trigger] out[j]).0 != key by {
        assert(out[j] == ms[j]);
    }
}

/// Every member but the one with this key stands where it stood, and says what it
/// said; no other is added.
pub open spec fn others_but(ms: MemberViews, out: MemberViews, key: Seq<char>) -> bool {
    &&& ms.len() <= out.len() <= ms.len() + 1
    &&& forall|i: int| 0 <= i < ms.len() ==> (#[trigger] out[i]).0 == ms[i].0
    &&& forall|i: int| 0 <= i < ms.len() && ms[i].0 != key ==> #[trigger] out[i] == ms[i]
    &&& out.len() > ms.len() ==> out.last().0 == key
}

proof fn lemma_host_text(found: MemberViews, p: HostPayload)
    ensures
        is_host_text(object_text(owned_members(found, p)), found, p),
{
    lemma_owned(found, p);
}

proof fn lemma_owned(found: MemberViews, p: HostPayload)
    ensures
        owns(owned_members(found, p), p),
        others_kept(found, owned_members(found, p)),
{
    reveal_strlit("ip");
    reveal_strlit("name");
    reveal_strlit("port");
    assert("ip"@.len() != "name"@.len() && "ip"@.len() != "port"@.len());
    assert("name"@[0] != "port"@[0]);
    let digits = decimal_digits(p.port as nat);
    lemma_spells(p.port as nat);
    let (ip, name) = (json_text(p.ip@), json_text(p.name@));
    let one = with_member(found, "ip"@, ip);
    let two = with_member(one, "name"@, name);
    let ms = with_member(two, "port"@, digits);
    lemma_set_says(found, "ip"@, ip);
    lemma_set_says(one, "name"@, name);
    lemma_set_says(two, "port"@, digits);
    lemma_set_keeps(one, "name"@, name, "ip"@, ip);
    lemma_set_keeps(two, "port"@, digits, "ip"@, ip);
    lemma_set_keeps(two, "port"@, digits, "name"@, name);
    assert forall|i: int| 0 <= i < found.len() implies (#[trigger] ms[i]).0 == found[i].0 by {
        assert(one[i].0 == found[i].0);
        assert(two[i].0 == one[i].0);
    }
    assert forall|i: int| 0 <= i < found.len() && !is_owned(found[i].0) implies #[trigger] ms[i]
        == found[i] by {
        assert(one[i] == found[i]);
        assert(two[i] == one[i]);
    }
    assert forall|i: int| found.len() <= i < ms.len() implies is_owned((#[trigger] ms[i]).0) by {
        if i < two.len() {
            assert(ms[i].0 == two[i].0);
            if i < one.len() {
                assert(two[i].0 == one[i].0);
                assert(one.last() == one[i]);
            } else {
                assert(two.last() == two[i]);
            }
        } else {
            assert(ms.last() == ms[i]);
        }
    }
    assert(says_member(ms, "port"@, digits));
    assert(others_kept(found, ms));
    assert(owned_members(found, p) == ms);
}

/// A host that was read is written back to itself with the address, the name and the
/// port that omni says, and with everything else as it was.
pub proof fn law_hosts_are_written_back_whole(
    t: &Termix,
    id: &str,
    found: Vec<(String, String)>,
    p: &HostPayload,
    r: Request,
)
    requires
        call_ensures(Termix::write_back, (t, id, found, p), r),
    ensures
        goes_to(r, *t, Method::Put, "/ssh/db/host/"@ + id@),
        r.body is Some,
        is_host_text(r.body->0@, member_views(found@), *p),
{
    assert(r@.url == r.url@);
    lemma_host_text(member_views(found@), *p);
}

/// Setting a member gives it that value, in its place or at the end, and leaves every
/// other as it was.
pub proof fn law_members_are_set(v: &mut Vec<(String, String)>, key: &str, value: String)
    requires
        call_ensures(set_member, (v, key, value), ()),
    ensures
        says_member(member_views(final(v)@), key@, value@),
        others_but(member_views(old(v)@), member_views(final(v)@), key@),
{
    lemma_set_says(member_views(old(v)@), key@, value@);
}

/// A host's members get the address, the name and the port that omni says, and keep
/// everything else.
pub proof fn law_hosts_are_told_their_own(v: &mut Vec<(String, String)>, p: &HostPayload)
    requires
        call_ensures(host_payload, (v, p), ()),
    ensures
        owns(member_views(final(v)@), *p),
        others_kept(member_views(old(v)@), member_views(final(v)@)),
{
    lemma_owned(member_views(old(v)@), *p);
}

/// An object is written as its members between braces, joined by commas: one without
/// members is empty, and a member more comes before the closing brace.
pub proof fn law_objects_are_written_member_by_member(
    none: &Vec<(String, String)>,
    one: &Vec<(String, String)>,
    some: &Vec<(String, String)>,
    more: &Vec<(String, String)>,
    m: (String, String),
    empty: String,
    single: String,
    before: String,
    after: String,
)
    requires
        none@.len() == 0,
        call_ensures(write_object, (none,), empty),
        one@ == seq![m],
        call_ensures(write_object, (one,), single),
        some@.len() > 0,
        more@ == some@.push(m),
        call_ensures(write_object, (some,), before),
        call_ensures(write_object, (more,), after),
    ensures
        empty@ == "{}"@,
        single@ == "{"@ + json_text(m.0@) + ":"@ + m.1@ + "}"@,
        before@.last() == '}',
        after@ == before@.drop_last() + ","@ + json_text(m.0@) + ":"@ + m.1@ + "}"@,
{
    reveal_strlit("{");
    reveal_strlit("}");
    reveal_strlit("{}");
    let (a, b) = (member_views(some@), member_views(more@));
    let o = member_views(one@);
    assert(with_quoted_keys(member_views(none@)).len() == 0);
    assert(empty@ =~= "{}"@);
    assert(with_quoted_keys(o).len() == 1);
    assert(with_quoted_keys(o)[0] == (json_text(m.0@), m.1@));
    assert(single@ =~= "{"@ + json_text(m.0@) + ":"@ + m.1@ + "}"@);
    let (qa, qb) = (with_quoted_keys(a), with_quoted_keys(b));
    assert(qb.drop_last() =~= qa);
    assert(qb.last() == (json_text(m.0@), m.1@));
    assert(qb.len() > 1);
    assert(before@.drop_last() =~= "{"@ + quoted_members_text(qa));
    assert(after@ =~= before@.drop_last() + ","@ + json_text(m.0@) + ":"@ + m.1@ + "}"@);
}

/// Members whose keys are quoted already are written as they are.
pub proof fn law_quoted_members_are_written_as_they_are(
    plain: &Vec<(String, String)>,
    quoted: &Vec<(String, String)>,
    a: String,
    b: String,
)
    requires
        plain@.len() == quoted@.len(),
        forall|i: int|
            0 <= i < plain@.len() ==> (#[trigger] quoted@[i]).0@ == json_text(plain@[i].0@)
                && quoted@[i].1@ == plain@[i].1@,
        call_ensures(write_object, (plain,), a),
        call_ensures(write_quoted, (quoted,), b),
    ensures
        a@ == b@,
{
    assert(with_quoted_keys(member_views(plain@)) =~= member_views(quoted@));
}

// ------------------------------------------------------------------ answers ---
/// An answer is one of success where its code is in the two hundreds.
pub proof fn law_success_is_in_the_two_hundreds(reply: &Reply, r: bool)
    requires
        call_ensures(Reply::is_success, (reply,), r),
    ensures
        r == (reply.code / 100 == 2),
{
}

/// Termix is there where it answers with success; a host is gone where its deletion
/// succeeds or it was not there. Any other answer is an error that names its status.
pub proof fn law_pings_and_deletions_are_judged(
    reply: &Reply,
    ok: bool,
    ping: Result<(), String>,
    gone: Result<(), String>,
)
    requires
        call_ensures(Reply::is_success, (reply,), ok),
        call_ensures(ping_result, (reply,), ping),
        call_ensures(delete_result, (reply,), gone),
    ensures
        ping is Ok <==> ok,
        gone is Ok <==> ok || reply.code == 404,
        ping matches Err(e) ==> begins(e@, "Termix answered "@ + reply.status@),
        gone matches Err(e) ==> e@ == "Termix host delete failed: "@ + reply.status@,
{
    if let Err(e) = ping {
        let head = "Termix answered "@ + reply.status@;
        assert(e@.take(head.len() as int) =~= head);
    }
}

/// What an answer is cut to for a message: its start, without white space around it,
/// at most two hundred characters and then an ellipsis.
pub proof fn law_messages_are_cut(s: &str, r: String)
    requires
        call_ensures(truncate, (s,), r),
    ensures
        exists|from: int, to: int, whole: Seq<char>|
            {
                &&& #[trigger] trimmed(s@, Strip::White, whole, from, to)
                &&& whole.len() <= 200 ==> r@ == whole
                &&& whole.len() > 200 ==> r@ == whole.take(200) + "…"@
            },
{
    let (from, to) = lemma_trimmed(s@, Strip::White);
    assert(trimmed(s@, Strip::White, strip_both(s@, Strip::White), from, to));
}

/// A host that is read is written back, one that was deleted is made anew, and any
/// other answer ends the update in an error that names its status.
pub proof fn law_reading_a_host_leads_on(
    t: &Termix,
    id: &str,
    p: &HostPayload,
    reply: &Reply,
    ok: bool,
    step: UpsertStep,
    make: (Upsert, Request),
    body: &str,
    cut: String,
)
    requires
        call_ensures(Reply::is_success, (reply,), ok),
        call_ensures(Termix::upsert_host_next, (t, Upsert::Read, id, p, reply), step),
        call_ensures(Termix::upsert_host, (t, None, p), make),
        body@ == reply.body@,
        call_ensures(truncate, (body,), cut),
    ensures
        ok && json_object(reply.body@) is Some ==> {
            &&& step matches UpsertStep::Send(next, r) && next == Upsert::Write && goes_to(
                r,
                *t,
                Method::Put,
                "/ssh/db/host/"@ + id@,
            ) && r.body is Some && is_host_text(r.body->0@, json_object(reply.body@)->0, *p)
        },
        ok && json_object(reply.body@) is None ==> step is Done && step->Done_0 is Err
            && step->Done_0->Err_0@ == "Termix host is not a JSON object: "@ + cut@,
        reply.code == 404 ==> step is Send && step->Send_0 == Upsert::Create && step->Send_1@
            == make.1@,
        !ok && reply.code != 404 ==> step is Done && step->Done_0 is Err && step->Done_0->Err_0@
            == "Termix host update failed: "@ + reply.status@,
{
    if let Some(ms) = json_object(reply.body@) {
        lemma_host_text(ms, *p);
    }
    assert(step@ == upsert_step(*t, Upsert::Read, id@, *p, *reply));
    if let UpsertStep::Send(_, r) = step {
        assert(r@.url == r.url@);
    }
}

/// A host that is written back keeps its id; one that was deleted meanwhile is made
/// anew, and any other answer is an error that names its status.
pub proof fn law_writing_a_host_keeps_its_id(
    t: &Termix,
    id: &str,
    p: &HostPayload,
    reply: &Reply,
    ok: bool,
    step: UpsertStep,
    make: (Upsert, Request),
)
    requires
        call_ensures(Reply::is_success, (reply,), ok),
        call_ensures(Termix::upsert_host_next, (t, Upsert::Write, id, p, reply), step),
        call_ensures(Termix::upsert_host, (t, None, p), make),
    ensures
        ok ==> step is Done && step->Done_0 is Ok && step->Done_0->Ok_0@ == id@,
        reply.code == 404 ==> step is Send && step->Send_0 == Upsert::Create && step->Send_1@
            == make.1@,
        !ok && reply.code != 404 ==> step is Done && step->Done_0 is Err && step->Done_0->Err_0@
            == "Termix host update failed: "@ + reply.status@,
{
    assert(step@ == upsert_step(*t, Upsert::Write, id@, *p, *reply));
}

/// A creation that succeeds gives the id in its answer; any other answer is an error
/// that names its status and what it said.
pub proof fn law_creating_a_host_gives_its_id(
    t: &Termix,
    id: &str,
    p: &HostPayload,
    reply: &Reply,
    body: &str,
    ok: bool,
    step: UpsertStep,
    given: Result<String, String>,
    cut: String,
)
    requires
        call_ensures(Reply::is_success, (reply,), ok),
        call_ensures(Termix::upsert_host_next, (t, Upsert::Create, id, p, reply), step),
        body@ == reply.body@,
        call_ensures(host_id_created, (body,), given),
        call_ensures(truncate, (body,), cut),
    ensures
        step is Done,
        ok && given is Ok ==> step->Done_0 is Ok && step->Done_0->Ok_0@ == given->Ok_0@,
        ok && given is Err ==> step->Done_0 is Err && step->Done_0->Err_0@ == given->Err_0@,
        !ok ==> step->Done_0 is Err && step->Done_0->Err_0@ == "Termix host create failed: "@
            + reply.status@ + " "@ + cut@,
{
    assert(step@ == upsert_step(*t, Upsert::Create, id@, *p, *reply));
}

/// What a value gives as an id: a text as it is, a number as it is written.
pub open spec fn gives_id(leaf: LeafView, id: Seq<char>) -> bool {
    leaf == LeafView::Text(id) || leaf == LeafView::Number(id)
}

/// The id is what the first place that holds anything gives, a text or a number; any
/// other value there is no id, nor is nothing in any of them.
pub proof fn law_the_first_id_counts(
    a: Result<Option<Leaf>, String>,
    b: Result<Option<Leaf>, String>,
    c: Result<Option<Leaf>, String>,
    body: &str,
    r: Result<String, String>,
    leaf: LeafView,
    cut: String,
)
    requires
        call_ensures(pick_host_id, (a, b, c, body), r),
        call_ensures(truncate, (body,), cut),
        found_view(a) == Ok::<Option<LeafView>, Seq<char>>(Some(leaf)) || (found_view(a) == Ok::<
            Option<LeafView>,
            Seq<char>,
        >(None) && (found_view(b) == Ok::<Option<LeafView>, Seq<char>>(Some(leaf)) || (found_view(b)
            == Ok::<Option<LeafView>, Seq<char>>(None) && found_view(c) == Ok::<
            Option<LeafView>,
            Seq<char>,
        >(Some(leaf))))),
    ensures
        r matches Ok(id) ==> gives_id(leaf, id@),
        r matches Err(e) ==> !(leaf is Text) && !(leaf is Number) && e@
            == "Termix create response has no host id: "@ + cut@,
{
}

/// Where there is no place that holds anything, or the answer is no JSON, there is no
/// id, and the error says which.
pub proof fn law_no_id_is_an_error(
    a: Result<Option<Leaf>, String>,
    b: Result<Option<Leaf>, String>,
    c: Result<Option<Leaf>, String>,
    body: &str,
    r: Result<String, String>,
    cut: String,
)
    requires
        call_ensures(pick_host_id, (a, b, c, body), r),
        call_ensures(truncate, (body,), cut),
    ensures
        a matches Err(e) ==> r is Err && r->Err_0@ == "Termix create response is not JSON: "@ + cut@
            + ": "@ + e@,
        a is Ok && a->Ok_0 is None ==> (b matches Err(e) ==> r is Err && r->Err_0@
            == "Termix create response is not JSON: "@ + cut@ + ": "@ + e@),
        a is Ok && a->Ok_0 is None && b is Ok && b->Ok_0 is None ==> (c matches Err(e) ==> r is Err
            && r->Err_0@ == "Termix create response is not JSON: "@ + cut@ + ": "@ + e@),
        a is Ok && a->Ok_0 is None && b is Ok && b->Ok_0 is None && c is Ok && c->Ok_0 is None ==> r
            is Err && r->Err_0@ == "Termix create response has no host id: "@ + cut@,
{
}

/// The id of a host that was made is looked for under `id`, `hostId` and `data.id`, in
/// that order.
pub proof fn law_ids_are_looked_for_in_order(body: &str, r: Result<String, String>, leaf: LeafView)
    requires
        call_ensures(host_id_created, (body,), r),
        json_leaf(body@, "/id"@) == Ok::<Option<LeafView>, Seq<char>>(Some(leaf)) || (json_leaf(
            body@,
            "/id"@,
        ) == Ok::<Option<LeafView>, Seq<char>>(None) && (json_leaf(body@, "/hostId"@) == Ok::<
            Option<LeafView>,
            Seq<char>,
        >(Some(leaf)) || (json_leaf(body@, "/hostId"@) == Ok::<Option<LeafView>, Seq<char>>(None)
            && json_leaf(body@, "/data/id"@) == Ok::<Option<LeafView>, Seq<char>>(Some(leaf))))),
    ensures
        r matches Ok(id) ==> gives_id(leaf, id@),
        r is Err ==> !(leaf is Text) && !(leaf is Number),
{
}

} // verus!
