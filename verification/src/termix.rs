//! Termix API client: which requests to send, and what their answers mean.
//!
//! Hosts are created through the enrollment endpoint. An update reads the host,
//! sets what omni owns and writes it back, so that toggles flipped in the UI
//! survive. Everything else in omni is insulated from Termix behind these
//! functions.

use crate::config::TermixCfg;
use crate::db::opt_text;
use crate::json::{
    json_at, json_leaf, json_members, json_object, json_quote, json_text, member_views, object_text,
    opt_leaf, set_member, with_member, write_object, Leaf, LeafView, MemberViews,
};
use crate::text::{
    chars_of, decimal, decimal_digits, string_of, strip_back, strip_both, trim_both, trim_end,
    Strip,
};
use vstd::prelude::*;

verus! {

/// Where Termix is reached, and with which key.
#[derive(Debug)]
pub struct Termix {
    pub base: String,
    pub api_key: String,
}

#[derive(Debug, Clone, Copy, PartialEq, Eq, Structural)]
pub enum Method {
    Get,
    Put,
    Post,
    Delete,
}

/// A request to send to Termix; a body is JSON.
#[derive(Debug)]
pub struct Request {
    pub method: Method,
    pub url: String,
    pub authorization: String,
    pub body: Option<String>,
}

/// What a request says.
#[verifier::ext_equal]
pub struct RequestView {
    pub method: Method,
    pub url: Seq<char>,
    pub authorization: Seq<char>,
    pub body: Option<Seq<char>>,
}

impl View for Request {
    type V = RequestView;

    open spec fn view(&self) -> RequestView {
        RequestView {
            method: self.method,
            url: self.url@,
            authorization: self.authorization@,
            body: opt_text(self.body),
        }
    }
}

/// An answer of Termix: its status code, that status in words, and its body.
#[derive(Debug)]
pub struct Reply {
    pub code: u16,
    pub status: String,
    pub body: String,
}

impl Reply {
    pub open spec fn ok(self) -> bool {
        200 <= self.code < 300
    }

    /// Whether the status is one of success.
    pub fn is_success(&self) -> (r: bool)
        ensures
            r == self.ok(),
    {
        200 <= self.code && self.code < 300
    }
}

/// What omni says of a host.
#[derive(Debug)]
pub struct HostPayload {
    pub name: String,
    pub ip: String,
    pub port: u16,
}

/// `s` trimmed and cut to 200 characters, with an ellipsis where it was longer.
pub open spec fn truncated(s: Seq<char>) -> Seq<char> {
    let t = strip_both(s, Strip::White);
    if t.len() > 200 {
        t.take(200) + "…"@
    } else {
        t
    }
}

/// Shortens an answer for an error message.
pub fn truncate(s: &str) -> (r: String)
    ensures
        r@ == truncated(s@),
{
    let t = trim_both(s, Strip::White);
    let v = chars_of(t);
    if v.len() > 200 {
        let mut r = string_of(&v, 0, 200);
        assert(v@.subrange(0, 200) =~= v@.take(200));
        r.append("…");
        r
    } else {
        t.to_owned()
    }
}

/// `base` as a request on `path` with this body.
pub open spec fn request(
    termix: Termix,
    method: Method,
    path: Seq<char>,
    body: Option<Seq<char>>,
) -> RequestView {
    RequestView {
        method,
        url: termix.base@ + path,
        authorization: "Bearer "@ + termix.api_key@,
        body,
    }
}

/// The path of one host.
pub open spec fn host_path(id: Seq<char>) -> Seq<char> {
    "/ssh/db/host/"@ + id
}

/// The members that omni owns in a host.
pub open spec fn owned_members(ms: MemberViews, p: HostPayload) -> MemberViews {
    with_member(
        with_member(
            with_member(ms, "ip"@, json_text(p.ip@)),
            "name"@,
            json_text(p.name@),
        ),
        "port"@,
        decimal_digits(p.port as nat),
    )
}

/// How far an upsert has got.
#[derive(Debug, Clone, Copy, PartialEq, Eq, Structural)]
pub enum Upsert {
    /// The host known so far is being read.
    Read,
    /// It is being written back.
    Write,
    /// A new host is being created.
    Create,
}

/// What comes next in an upsert.
#[derive(Debug)]
pub enum UpsertStep {
    Send(Upsert, Request),
    Done(Result<String, String>),
}

/// What comes next in an upsert.
pub enum UpsertStepView {
    Send(Upsert, RequestView),
    Done(Result<Seq<char>, Seq<char>>),
}

impl View for UpsertStep {
    type V = UpsertStepView;

    open spec fn view(&self) -> UpsertStepView {
        match self {
            UpsertStep::Send(u, r) => UpsertStepView::Send(*u, r@),
            UpsertStep::Done(Ok(id)) => UpsertStepView::Done(Ok(id@)),
            UpsertStep::Done(Err(e)) => UpsertStepView::Done(Err(e@)),
        }
    }
}

/// The request that creates a host.
pub open spec fn create_request(termix: Termix, p: HostPayload) -> RequestView {
    request(
        termix,
        Method::Post,
        "/host/enroll"@,
        Some(object_text(owned_members(Seq::empty(), p))),
    )
}

/// The request that writes back host `id`, which was read with these members.
pub open spec fn update_request(
    termix: Termix,
    id: Seq<char>,
    ms: MemberViews,
    p: HostPayload,
) -> RequestView {
    request(termix, Method::Put, host_path(id), Some(object_text(owned_members(ms, p))))
}

/// What is found at a place in a document, or that it is no JSON.
pub type Found = Result<Option<LeafView>, Seq<char>>;

/// The id in the answer `body` to a creation: the text or number found under
/// `id`, else under `hostId`, else under `id` inside `data`.
pub open spec fn id_among(id: Found, host_id: Found, data_id: Found, body: Seq<char>) -> Result<
    Seq<char>,
    Seq<char>,
> {
    match id {
        Err(e) => Err(not_json(body, e)),
        Ok(Some(leaf)) => id_of_leaf(leaf, body),
        Ok(None) => match host_id {
            Err(e) => Err(not_json(body, e)),
            Ok(Some(leaf)) => id_of_leaf(leaf, body),
            Ok(None) => match data_id {
                Err(e) => Err(not_json(body, e)),
                Ok(Some(leaf)) => id_of_leaf(leaf, body),
                Ok(None) => Err(no_host_id(body)),
            },
        },
    }
}

/// The id in the answer to a creation.
pub open spec fn created_id(body: Seq<char>) -> Result<Seq<char>, Seq<char>> {
    id_among(
        json_leaf(body, "/id"@),
        json_leaf(body, "/hostId"@),
        json_leaf(body, "/data/id"@),
        body,
    )
}

pub open spec fn not_json(body: Seq<char>, e: Seq<char>) -> Seq<char> {
    "Termix create response is not JSON: "@ + truncated(body) + ": "@ + e
}

pub open spec fn no_host_id(body: Seq<char>) -> Seq<char> {
    "Termix create response has no host id: "@ + truncated(body)
}

pub open spec fn id_of_leaf(leaf: LeafView, body: Seq<char>) -> Result<Seq<char>, Seq<char>> {
    match leaf {
        LeafView::Text(s) => Ok(s),
        LeafView::Number(n) => Ok(n),
        _ => Err(no_host_id(body)),
    }
}

pub open spec fn update_failed(status: Seq<char>) -> Seq<char> {
    "Termix host update failed: "@ + status
}

/// What the answer `reply` means for an upsert of host `id` at stage `at`.
pub open spec fn upsert_step(
    termix: Termix,
    at: Upsert,
    id: Seq<char>,
    p: HostPayload,
    reply: Reply,
) -> UpsertStepView {
    match at {
        Upsert::Read => if reply.ok() {
            match json_object(reply.body@) {
                Some(ms) => UpsertStepView::Send(Upsert::Write, update_request(termix, id, ms, p)),
                None => UpsertStepView::Done(
                    Err("Termix host is not a JSON object: "@ + truncated(reply.body@)),
                ),
            }
        } else if reply.code == 404 {
            UpsertStepView::Send(Upsert::Create, create_request(termix, p))
        } else {
            UpsertStepView::Done(Err(update_failed(reply.status@)))
        },
        Upsert::Write => if reply.ok() {
            UpsertStepView::Done(Ok(id))
        } else if reply.code == 404 {
            UpsertStepView::Send(Upsert::Create, create_request(termix, p))
        } else {
            UpsertStepView::Done(Err(update_failed(reply.status@)))
        },
        Upsert::Create => if reply.ok() {
            UpsertStepView::Done(created_id(reply.body@))
        } else {
            UpsertStepView::Done(
                Err(
                    "Termix host create failed: "@ + reply.status@ + " "@ + truncated(
                        reply.body@,
                    ),
                ),
            )
        },
    }
}

pub open spec fn result_text(r: Result<String, String>) -> Result<Seq<char>, Seq<char>> {
    match r {
        Ok(s) => Ok(s@),
        Err(e) => Err(e@),
    }
}

pub open spec fn result_unit(r: Result<(), String>) -> Result<(), Seq<char>> {
    match r {
        Ok(_) => Ok(()),
        Err(e) => Err(e@),
    }
}

/// `head` and then `tail`.
fn two(head: &str, tail: &str) -> (s: String)
    ensures
        s@ == head@ + tail@,
{
    let mut s = head.to_owned();
    s.append(tail);
    s
}

/// The id that a value gives, or that there is none.
fn host_id(leaf: Leaf, body: &str) -> (r: Result<String, String>)
    ensures
        result_text(r) == id_of_leaf(leaf@, body@),
{
    match leaf {
        Leaf::Text(s) => Ok(s),
        Leaf::Number(n) => Ok(n),
        _ => {
            let t = truncate(body);
            Err(two("Termix create response has no host id: ", t.as_str()))
        },
    }
}

fn complaint(body: &str, e: &str) -> (s: String)
    ensures
        s@ == not_json(body@, e@),
{
    let t = truncate(body);
    let mut s = two("Termix create response is not JSON: ", t.as_str());
    s.append(": ");
    s.append(e);
    s
}

pub open spec fn found_view(r: Result<Option<Leaf>, String>) -> Found {
    match r {
        Ok(o) => Ok(opt_leaf(o)),
        Err(e) => Err(e@),
    }
}

/// Picks the id of a host among what was found in the answer to its creation.
pub fn pick_host_id(
    id: Result<Option<Leaf>, String>,
    host_id_found: Result<Option<Leaf>, String>,
    data_id: Result<Option<Leaf>, String>,
    body: &str,
) -> (r: Result<String, String>)
    ensures
        result_text(r) == id_among(
            found_view(id),
            found_view(host_id_found),
            found_view(data_id),
            body@,
        ),
{
    match id {
        Err(e) => Err(complaint(body, e.as_str())),
        Ok(Some(leaf)) => host_id(leaf, body),
        Ok(None) => match host_id_found {
            Err(e) => Err(complaint(body, e.as_str())),
            Ok(Some(leaf)) => host_id(leaf, body),
            Ok(None) => match data_id {
                Err(e) => Err(complaint(body, e.as_str())),
                Ok(Some(leaf)) => host_id(leaf, body),
                Ok(None) => {
                    let t = truncate(body);
                    Err(two("Termix create response has no host id: ", t.as_str()))
                },
            },
        },
    }
}

/// Reads the id of a host from the answer to its creation.
pub fn host_id_created(body: &str) -> (r: Result<String, String>)
    ensures
        result_text(r) == created_id(body@),
{
    pick_host_id(
        json_at(body, "/id"),
        json_at(body, "/hostId"),
        json_at(body, "/data/id"),
        body,
    )
}

/// Sets what omni owns among the members of a host.
pub fn host_payload(members: &mut Vec<(String, String)>, p: &HostPayload)
    ensures
        member_views(final(members)@) == owned_members(member_views(old(members)@), *p),
{
    let ip = json_quote(p.ip.as_str());
    set_member(members, "ip", ip);
    let name = json_quote(p.name.as_str());
    set_member(members, "name", name);
    let port = decimal(p.port as u64);
    set_member(members, "port", port);
}

impl Termix {
    /// The client for this configuration.
    pub fn new(cfg: &TermixCfg) -> (t: Termix)
        ensures
            t.base@ == strip_back(cfg.url@, Strip::Only('/')),
            t.api_key@ == cfg.api_key@,
    {
        Termix {
            base: trim_end(cfg.url.as_str(), Strip::Only('/')).to_owned(),
            api_key: cfg.api_key.clone(),
        }
    }

    fn req(&self, method: Method, path: &str, body: Option<String>) -> (r: Request)
        ensures
            r@ == request(*self, method, path@, opt_text(body)),
    {
        Request {
            method,
            url: two(self.base.as_str(), path),
            authorization: two("Bearer ", self.api_key.as_str()),
            body,
        }
    }

    /// The request that tells whether Termix is there.
    pub fn ping(&self) -> (r: Request)
        ensures
            r@ == request(*self, Method::Get, "/ssh/db/host"@, None),
    {
        self.req(Method::Get, "/ssh/db/host", None)
    }

    fn create(&self, p: &HostPayload) -> (r: Request)
        ensures
            r@ == create_request(*self, *p),
    {
        let mut members: Vec<(String, String)> = Vec::new();
        assert(member_views(members@) =~= Seq::empty());
        host_payload(&mut members, p);
        let body = write_object(&members);
        self.req(Method::Post, "/host/enroll", Some(body))
    }

    /// Create or update: the stage at which an upsert starts, and its first request.
    pub fn upsert_host(&self, existing_id: Option<&str>, p: &HostPayload) -> (r: (Upsert, Request))
        ensures
            match existing_id {
                Some(id) => r.0 == Upsert::Read && r.1@ == request(
                    *self,
                    Method::Get,
                    host_path(id@),
                    None,
                ),
                None => r.0 == Upsert::Create && r.1@ == create_request(*self, *p),
            },
    {
        match existing_id {
            Some(id) => {
                let path = two("/ssh/db/host/", id);
                (Upsert::Read, self.req(Method::Get, path.as_str(), None))
            },
            None => (Upsert::Create, self.create(p)),
        }
    }

    /// The request that writes back host `id`, which was read with these members.
    pub fn write_back(&self, id: &str, found: Vec<(String, String)>, p: &HostPayload) -> (r:
        Request)
        ensures
            r@ == update_request(*self, id@, member_views(found@), *p),
    {
        let mut members = found;
        host_payload(&mut members, p);
        let body = write_object(&members);
        let path = two("/ssh/db/host/", id);
        self.req(Method::Put, path.as_str(), Some(body))
    }

    /// What an answer means for an upsert at stage `at`; `id` is the host known
    /// so far. A host deleted in the UI is created anew.
    pub fn upsert_host_next(&self, at: Upsert, id: &str, p: &HostPayload, reply: &Reply) -> (r:
        UpsertStep)
        ensures
            r@ == upsert_step(*self, at, id@, *p, *reply),
    {
        match at {
            Upsert::Read => {
                if reply.is_success() {
                    match json_members(reply.body.as_str()) {
                        Some(found) => UpsertStep::Send(
                            Upsert::Write,
                            self.write_back(id, found, p),
                        ),
                        None => {
                            let t = truncate(reply.body.as_str());
                            UpsertStep::Done(
                                Err(two("Termix host is not a JSON object: ", t.as_str())),
                            )
                        },
                    }
                } else if reply.code == 404 {
                    UpsertStep::Send(Upsert::Create, self.create(p))
                } else {
                    UpsertStep::Done(
                        Err(two("Termix host update failed: ", reply.status.as_str())),
                    )
                }
            },
            Upsert::Write => {
                if reply.is_success() {
                    UpsertStep::Done(Ok(id.to_owned()))
                } else if reply.code == 404 {
                    UpsertStep::Send(Upsert::Create, self.create(p))
                } else {
                    UpsertStep::Done(
                        Err(two("Termix host update failed: ", reply.status.as_str())),
                    )
                }
            },
            Upsert::Create => {
                if reply.is_success() {
                    UpsertStep::Done(host_id_created(reply.body.as_str()))
                } else {
                    let t = truncate(reply.body.as_str());
                    let mut e = two("Termix host create failed: ", reply.status.as_str());
                    e.append(" ");
                    e.append(t.as_str());
                    UpsertStep::Done(Err(e))
                }
            },
        }
    }

    /// The request that deletes a host.
    pub fn delete_host(&self, id: &str) -> (r: Request)
        ensures
            r@ == request(*self, Method::Delete, host_path(id@), None),
    {
        let path = two("/ssh/db/host/", id);
        self.req(Method::Delete, path.as_str(), None)
    }
}

/// Whether Termix is there and lets omni in.
pub fn ping_result(reply: &Reply) -> (r: Result<(), String>)
    ensures
        result_unit(r) == (if reply.ok() {
            Ok::<(), Seq<char>>(())
        } else {
            Err("Termix answered "@ + reply.status@ + " — check termix.url and api_key"@)
        }),
{
    if reply.is_success() {
        Ok(())
    } else {
        let mut e = two("Termix answered ", reply.status.as_str());
        e.append(" — check termix.url and api_key");
        Err(e)
    }
}

/// Whether a host is gone; one that was not there is.
pub fn delete_result(reply: &Reply) -> (r: Result<(), String>)
    ensures
        result_unit(r) == (if reply.ok() || reply.code == 404 {
            Ok::<(), Seq<char>>(())
        } else {
            Err("Termix host delete failed: "@ + reply.status@)
        }),
{
    if reply.is_success() || reply.code == 404 {
        Ok(())
    } else {
        Err(two("Termix host delete failed: ", reply.status.as_str()))
    }
}

} // verus!
