//! The registry: machines and enrollment tokens, and what may be done to them.

use crate::clock::{
    format_rfc3339, is_some_stamp, is_stamp, now_rfc3339, rfc3339, utc_now, Moment, MAX_SECS, MIN_SECS,
};
use crate::random::{is_uuid, new_uuid};
use crate::text::{comes_before, decimal, decimal_digits, has_prefix_ci, same, starts_with_ci, text_lt};
use crate::util::{sha256_hex, sha256_text};
use vstd::prelude::*;

verus! {

#[derive(Debug)]
pub struct Machine {
    pub id: String,
    pub name: String,
    pub port: u16,
    pub service_token: String,
    pub secret_hash: String,
    pub bind_addr: String,
    pub termix_host_id: Option<String>,
    pub os: Option<String>,
    pub enrolled_at: String,
    pub last_seen: Option<String>,
    pub deleted: bool,
    pub marked_stale: bool,
}

/// The characters of an optional text.
pub open spec fn opt_text(o: Option<String>) -> Option<Seq<char>> {
    match o {
        Some(s) => Some(s@),
        None => None,
    }
}

/// The characters of an optional borrowed text.
pub open spec fn opt_str(o: Option<&str>) -> Option<Seq<char>> {
    match o {
        Some(s) => Some(s@),
        None => None,
    }
}

/// A copy of an optional text.
pub fn copy_opt(o: &Option<String>) -> (r: Option<String>)
    ensures
        opt_text(r) == opt_text(*o),
{
    match o {
        Some(s) => Some(s.clone()),
        None => None,
    }
}

/// An optional text, borrowed.
pub fn borrow_opt(o: &Option<String>) -> (r: Option<&str>)
    ensures
        opt_str(r) == opt_text(*o),
{
    match o {
        Some(s) => Some(s.as_str()),
        None => None,
    }
}

/// An optional borrowed text, owned.
pub fn own_opt(o: Option<&str>) -> (r: Option<String>)
    ensures
        opt_text(r) == opt_str(o),
{
    match o {
        Some(s) => Some(s.to_owned()),
        None => None,
    }
}

/// What a machine's row says.
#[verifier::ext_equal]
pub struct MachineView {
    pub id: Seq<char>,
    pub name: Seq<char>,
    pub port: u16,
    pub service_token: Seq<char>,
    pub secret_hash: Seq<char>,
    pub bind_addr: Seq<char>,
    pub termix_host_id: Option<Seq<char>>,
    pub os: Option<Seq<char>>,
    pub enrolled_at: Seq<char>,
    pub last_seen: Option<Seq<char>>,
    pub deleted: bool,
    pub marked_stale: bool,
}

impl View for Machine {
    type V = MachineView;

    open spec fn view(&self) -> MachineView {
        MachineView {
            id: self.id@,
            name: self.name@,
            port: self.port,
            service_token: self.service_token@,
            secret_hash: self.secret_hash@,
            bind_addr: self.bind_addr@,
            termix_host_id: opt_text(self.termix_host_id),
            os: opt_text(self.os),
            enrolled_at: self.enrolled_at@,
            last_seen: opt_text(self.last_seen),
            deleted: self.deleted,
            marked_stale: self.marked_stale,
        }
    }
}

impl Clone for Machine {
    fn clone(&self) -> (m: Machine)
        ensures
            m@ == self@,
    {
        Machine {
            id: self.id.clone(),
            name: self.name.clone(),
            port: self.port,
            service_token: self.service_token.clone(),
            secret_hash: self.secret_hash.clone(),
            bind_addr: self.bind_addr.clone(),
            termix_host_id: copy_opt(&self.termix_host_id),
            os: copy_opt(&self.os),
            enrolled_at: self.enrolled_at.clone(),
            last_seen: copy_opt(&self.last_seen),
            deleted: self.deleted,
            marked_stale: self.marked_stale,
        }
    }
}

/// An enrollment token, hashed at rest.
#[derive(Debug)]
pub struct Token {
    pub id: String,
    pub token_hash: String,
    pub name_hint: Option<String>,
    pub created_at: String,
    pub expires_at: String,
    pub used_at: Option<String>,
}

/// What a token's row says.
#[verifier::ext_equal]
pub struct TokenView {
    pub id: Seq<char>,
    pub token_hash: Seq<char>,
    pub name_hint: Option<Seq<char>>,
    pub created_at: Seq<char>,
    pub expires_at: Seq<char>,
    pub used_at: Option<Seq<char>>,
}

impl View for Token {
    type V = TokenView;

    open spec fn view(&self) -> TokenView {
        TokenView {
            id: self.id@,
            token_hash: self.token_hash@,
            name_hint: opt_text(self.name_hint),
            created_at: self.created_at@,
            expires_at: self.expires_at@,
            used_at: opt_text(self.used_at),
        }
    }
}

impl Clone for Token {
    fn clone(&self) -> (t: Token)
        ensures
            t@ == self@,
    {
        Token {
            id: self.id.clone(),
            token_hash: self.token_hash.clone(),
            name_hint: copy_opt(&self.name_hint),
            created_at: self.created_at.clone(),
            expires_at: self.expires_at.clone(),
            used_at: copy_opt(&self.used_at),
        }
    }
}

pub open spec fn machine_views(v: Seq<Machine>) -> Seq<MachineView> {
    v.map_values(|m: Machine| m@)
}

pub open spec fn token_views(v: Seq<Token>) -> Seq<TokenView> {
    v.map_values(|t: Token| t@)
}

pub open spec fn opt_machine(o: Option<Machine>) -> Option<MachineView> {
    match o {
        Some(m) => Some(m@),
        None => None,
    }
}

/// All rows, in the order in which they were added.
#[verifier::ext_equal]
pub struct RegistryView {
    pub machines: Seq<MachineView>,
    pub tokens: Seq<TokenView>,
}

impl RegistryView {
    /// Ids and ports belong to one machine each, deleted ones counted, and a
    /// name to one live machine; ids belong to one token each.
    pub open spec fn wf(self) -> bool {
        &&& forall|i: int, j: int|
            0 <= i < j < self.machines.len() ==> self.machines[i].id != (
            #[trigger] self.machines[j]).id && (#[trigger] self.machines[i]).port
                != self.machines[j].port
        &&& forall|i: int, j: int|
            0 <= i < j < self.machines.len() && !self.machines[i].deleted
                && !self.machines[j].deleted ==> (#[trigger] self.machines[i]).name != (
            #[trigger] self.machines[j]).name
        &&& forall|i: int, j: int|
            0 <= i < j < self.tokens.len() ==> (#[trigger] self.tokens[i]).id != (
            #[trigger] self.tokens[j]).id
    }
}

/// The rows that the service keeps.
#[derive(Debug)]
pub struct Registry {
    machines: Vec<Machine>,
    tokens: Vec<Token>,
}

impl View for Registry {
    type V = RegistryView;

    closed spec fn view(&self) -> RegistryView {
        RegistryView { machines: machine_views(self.machines@), tokens: token_views(self.tokens@) }
    }
}

/// Why an operation on the registry failed.
#[derive(Debug, Clone, Copy, PartialEq, Eq, Structural)]
pub enum DbError {
    /// No machine matches the name or id given.
    NoMatch,
    /// So many machines match.
    Ambiguous(usize),
    PortsExhausted,
    /// Two machines with one id.
    DuplicateId,
    /// Two machines on one port.
    DuplicatePort,
    /// Two live machines with one name.
    DuplicateName,
    /// Two tokens with one id.
    DuplicateTokenId,
    /// No row to update.
    NotFoundForUpdate,
    UnknownMachine,
    BadSecret,
    BadToken,
    /// The expiry asked for is no date that can be written.
    ExpiryOutOfRange,
}

// ------------------------------------------------------------------- lookup ---
/// The first position of `s` at which `p` holds.
pub open spec fn first_index<A>(s: Seq<A>, p: spec_fn(A) -> bool) -> Option<int>
    decreases s.len(),
{
    if s.len() == 0 {
        None
    } else if p(s[0]) {
        Some(0)
    } else {
        match first_index(s.drop_first(), p) {
            Some(i) => Some(i + 1),
            None => None,
        }
    }
}

/// `first_index` is the least position at which `p` holds.
pub proof fn lemma_first_index<A>(s: Seq<A>, p: spec_fn(A) -> bool)
    ensures
        match first_index(s, p) {
            Some(i) => 0 <= i < s.len() && p(s[i]) && forall|j: int|
                0 <= j < i ==> !p(#[trigger] s[j]),
            None => forall|j: int| 0 <= j < s.len() ==> !p(#[trigger] s[j]),
        },
    decreases s.len(),
{
    if s.len() > 0 && !p(s[0]) {
        let t = s.drop_first();
        lemma_first_index(t, p);
        match first_index(t, p) {
            Some(i) => {
                assert(s[i + 1] == t[i]);
                assert forall|j: int| 0 <= j < i + 1 implies !p(#[trigger] s[j]) by {
                    if j > 0 {
                        assert(s[j] == t[j - 1]);
                    }
                }
            },
            None => {
                assert forall|j: int| 0 <= j < s.len() implies !p(#[trigger] s[j]) by {
                    if j > 0 {
                        assert(s[j] == t[j - 1]);
                    }
                }
            },
        }
    }
}

/// A position at which `p` holds and before which it does not is `first_index`.
pub proof fn lemma_is_first_index<A>(s: Seq<A>, p: spec_fn(A) -> bool, i: int)
    requires
        0 <= i < s.len(),
        p(s[i]),
        forall|j: int| 0 <= j < i ==> !p(#[trigger] s[j]),
    ensures
        first_index(s, p) == Some(i),
{
    lemma_first_index(s, p);
}

/// What `filter` keeps stands in the sequence in the same order: `at` says where.
pub proof fn lemma_filter_order<A>(s: Seq<A>, p: spec_fn(A) -> bool) -> (at: Seq<int>)
    ensures
        at.len() == s.filter(p).len(),
        forall|k: int|
            0 <= k < at.len() ==> 0 <= #[trigger] at[k] < s.len() && s[at[k]] == s.filter(p)[k]
                && p(s[at[k]]),
        forall|k: int, l: int| 0 <= k < l < at.len() ==> #[trigger] at[k] < #[trigger] at[l],
        forall|i: int| 0 <= i < s.len() && p(#[trigger] s[i]) ==> at.contains(i),
    decreases s.len(),
{
    reveal(Seq::filter);
    if s.len() == 0 {
        Seq::empty()
    } else {
        let rest = s.drop_last();
        let at = lemma_filter_order(rest, p);
        let last = s.len() - 1;
        if p(s.last()) {
            let all = at.push(last);
            assert forall|i: int| 0 <= i < s.len() && p(#[trigger] s[i]) implies all.contains(
                i,
            ) by {
                if i < last {
                    assert(rest[i] == s[i]);
                    let k = choose|k: int| 0 <= k < at.len() && at[k] == i;
                    assert(all[k] == i);
                } else {
                    assert(all[at.len() as int] == i);
                }
            }
            all
        } else {
            assert forall|i: int| 0 <= i < s.len() && p(#[trigger] s[i]) implies at.contains(
                i,
            ) by {
                assert(rest[i] == s[i]);
            }
            at
        }
    }
}

/// The machine with this id, deleted or not.
pub open spec fn with_id(id: Seq<char>) -> spec_fn(MachineView) -> bool {
    |m: MachineView| m.id == id
}

/// A live machine with this id.
pub open spec fn live_with_id(id: Seq<char>) -> spec_fn(MachineView) -> bool {
    |m: MachineView| !m.deleted && m.id == id
}

/// A live machine with this name.
pub open spec fn live_with_name(name: Seq<char>) -> spec_fn(MachineView) -> bool {
    |m: MachineView| !m.deleted && m.name == name
}

/// A live machine whose id starts with this text, ASCII case aside.
pub open spec fn live_with_id_prefix(prefix: Seq<char>) -> spec_fn(MachineView) -> bool {
    |m: MachineView| !m.deleted && starts_with_ci(m.id, prefix)
}

/// The first machine for which `p` holds.
pub open spec fn machine_where(
    ms: Seq<MachineView>,
    p: spec_fn(MachineView) -> bool,
) -> Option<MachineView> {
    match first_index(ms, p) {
        Some(i) => Some(ms[i]),
        None => None,
    }
}

/// Where the first live machine with this id stands in `v`.
fn position_of_live_id(v: &Vec<Machine>, id: &str) -> (r: Option<usize>)
    ensures
        match r {
            Some(i) => first_index(machine_views(v@), live_with_id(id@)) == Some(i as int),
            None => first_index(machine_views(v@), live_with_id(id@)) is None,
        },
{
    let ghost ms = machine_views(v@);
    let ghost p = live_with_id(id@);
    proof {
        lemma_first_index(ms, p);
    }
    let mut i: usize = 0;
    while i < v.len()
        invariant
            i <= v@.len(),
            ms == machine_views(v@),
            p == live_with_id(id@),
            forall|j: int| 0 <= j < i ==> !p(#[trigger] ms[j]),
        decreases v@.len() - i,
    {
        if !v[i].deleted && same(v[i].id.as_str(), id) {
            proof {
                lemma_is_first_index(ms, p, i as int);
            }
            return Some(i);
        }
        assert(!p(ms[i as int]));
        i = i + 1;
    }
    proof {
        lemma_first_index(ms, p);
    }
    None
}

/// Where the first machine with this id stands in `v`, deleted or not.
fn position_of_id(v: &Vec<Machine>, id: &str) -> (r: Option<usize>)
    ensures
        match r {
            Some(i) => first_index(machine_views(v@), with_id(id@)) == Some(i as int),
            None => first_index(machine_views(v@), with_id(id@)) is None,
        },
{
    let ghost ms = machine_views(v@);
    let ghost p = with_id(id@);
    let mut i: usize = 0;
    while i < v.len()
        invariant
            i <= v@.len(),
            ms == machine_views(v@),
            p == with_id(id@),
            forall|j: int| 0 <= j < i ==> !p(#[trigger] ms[j]),
        decreases v@.len() - i,
    {
        if same(v[i].id.as_str(), id) {
            proof {
                lemma_is_first_index(ms, p, i as int);
            }
            return Some(i);
        }
        assert(!p(ms[i as int]));
        i = i + 1;
    }
    proof {
        lemma_first_index(ms, p);
    }
    None
}

/// Where the first live machine with this name stands in `v`.
fn position_of_live_name(v: &Vec<Machine>, name: &str) -> (r: Option<usize>)
    ensures
        match r {
            Some(i) => first_index(machine_views(v@), live_with_name(name@)) == Some(i as int),
            None => first_index(machine_views(v@), live_with_name(name@)) is None,
        },
{
    let ghost ms = machine_views(v@);
    let ghost p = live_with_name(name@);
    let mut i: usize = 0;
    while i < v.len()
        invariant
            i <= v@.len(),
            ms == machine_views(v@),
            p == live_with_name(name@),
            forall|j: int| 0 <= j < i ==> !p(#[trigger] ms[j]),
        decreases v@.len() - i,
    {
        if !v[i].deleted && same(v[i].name.as_str(), name) {
            proof {
                lemma_is_first_index(ms, p, i as int);
            }
            return Some(i);
        }
        assert(!p(ms[i as int]));
        i = i + 1;
    }
    proof {
        lemma_first_index(ms, p);
    }
    None
}

/// The live machine with this id.
pub fn machine_by_id(reg: &Registry, id: &str) -> (r: Option<Machine>)
    ensures
        opt_machine(r) == machine_where(reg@.machines, live_with_id(id@)),
{
    proof {
        lemma_first_index(reg@.machines, live_with_id(id@));
    }
    match position_of_live_id(&reg.machines, id) {
        Some(i) => Some(reg.machines[i].clone()),
        None => None,
    }
}

/// The live machine with this name.
pub fn machine_by_name(reg: &Registry, name: &str) -> (r: Option<Machine>)
    ensures
        opt_machine(r) == machine_where(reg@.machines, live_with_name(name@)),
{
    proof {
        lemma_first_index(reg@.machines, live_with_name(name@));
    }
    match position_of_live_name(&reg.machines, name) {
        Some(i) => Some(reg.machines[i].clone()),
        None => None,
    }
}

/// What `needle` names: a live machine by its exact name, else by its exact id,
/// else by a prefix of its id that no other live machine shares.
pub open spec fn found(ms: Seq<MachineView>, needle: Seq<char>) -> Result<MachineView, DbError> {
    let by_prefix = ms.filter(live_with_id_prefix(needle));
    if machine_where(ms, live_with_name(needle)) is Some {
        Ok(machine_where(ms, live_with_name(needle))->0)
    } else if machine_where(ms, live_with_id(needle)) is Some {
        Ok(machine_where(ms, live_with_id(needle))->0)
    } else if by_prefix.len() == 0 {
        Err(DbError::NoMatch)
    } else if by_prefix.len() == 1 {
        Ok(by_prefix[0])
    } else {
        Err(DbError::Ambiguous(by_prefix.len() as usize))
    }
}

pub open spec fn result_machine(r: Result<Machine, DbError>) -> Result<MachineView, DbError> {
    match r {
        Ok(m) => Ok(m@),
        Err(e) => Err(e),
    }
}

/// CLI lookup: exact name, exact id, then unique id prefix.
pub fn find_machine(reg: &Registry, needle: &str) -> (r: Result<Machine, DbError>)
    ensures
        result_machine(r) == found(reg@.machines, needle@),
        r matches Err(DbError::Ambiguous(n)) ==> n == reg@.machines.filter(
            live_with_id_prefix(needle@),
        ).len(),
{
    if let Some(m) = machine_by_name(reg, needle) {
        return Ok(m);
    }
    if let Some(m) = machine_by_id(reg, needle) {
        return Ok(m);
    }
    let ghost ms = reg@.machines;
    let ghost p = live_with_id_prefix(needle@);
    let mut count: usize = 0;
    let mut hit: usize = 0;
    let mut i: usize = 0;
    proof {
        reveal(Seq::filter);
        assert(ms.take(0).filter(p) =~= Seq::<MachineView>::empty());
    }
    while i < reg.machines.len()
        invariant
            i <= reg.machines@.len(),
            count <= i,
            ms == reg@.machines,
            p == live_with_id_prefix(needle@),
            ms.take(i as int).filter(p).len() == count,
            count > 0 ==> hit < ms.len() && ms.take(i as int).filter(p)[0] == ms[hit as int],
        decreases reg.machines@.len() - i,
    {
        proof {
            reveal(Seq::filter);
            assert(ms.take(i + 1).drop_last() =~= ms.take(i as int));
            assert(ms.take(i + 1).last() == ms[i as int]);
        }
        if !reg.machines[i].deleted && has_prefix_ci(reg.machines[i].id.as_str(), needle) {
            if count == 0 {
                hit = i;
            }
            count = count + 1;
        }
        i = i + 1;
    }
    assert(ms.take(i as int) =~= ms);
    if count == 0 {
        Err(DbError::NoMatch)
    } else if count == 1 {
        Ok(reg.machines[hit].clone())
    } else {
        Err(DbError::Ambiguous(count))
    }
}

/// `out` lists the live machines of `ms`, each once, by ascending port.
pub open spec fn is_live_listing(ms: Seq<MachineView>, out: Seq<MachineView>) -> bool {
    &&& forall|i: int, j: int|
        0 <= i < j < out.len() ==> (#[trigger] out[i]).port < (#[trigger] out[j]).port
    &&& forall|i: int| 0 <= i < out.len() ==> !(#[trigger] out[i]).deleted && ms.contains(out[i])
    &&& forall|i: int| 0 <= i < ms.len() && !(#[trigger] ms[i]).deleted ==> out.contains(ms[i])
}

/// The live machines by ascending port.
pub fn live_machines(reg: &Registry) -> (out: Vec<Machine>)
    requires
        reg@.wf(),
    ensures
        is_live_listing(reg@.machines, machine_views(out@)),
{
    let ghost ms = reg@.machines;
    let mut out: Vec<Machine> = Vec::new();
    let mut i: usize = 0;
    assert(machine_views(out@) =~= Seq::<MachineView>::empty());
    while i < reg.machines.len()
        invariant
            reg@.wf(),
            ms == reg@.machines,
            i <= reg.machines@.len(),
            is_live_listing(ms.take(i as int), machine_views(out@)),
        decreases reg.machines@.len() - i,
    {
        let ghost before = machine_views(out@);
        let ghost seen = ms.take(i as int);
        let ghost m = ms[i as int];
        assert(ms.take(i + 1) =~= seen.push(m));
        if !reg.machines[i].deleted {
            let port = reg.machines[i].port;
            let mut at: usize = 0;
            while at < out.len() && out[at].port < port
                invariant
                    at <= out@.len(),
                    before == machine_views(out@),
                    forall|k: int| 0 <= k < at ==> (#[trigger] before[k]).port < port,
                ensures
                    at <= out@.len(),
                    before == machine_views(out@),
                    forall|k: int| 0 <= k < at ==> (#[trigger] before[k]).port < port,
                    at < out@.len() ==> before[at as int].port >= port,
                decreases out@.len() - at,
            {
                at = at + 1;
            }
            out.insert(at, reg.machines[i].clone());
            let ghost after = machine_views(out@);
            proof {
                lemma_listing_insert(ms, i as int, before, at as int);
                assert(after =~= before.insert(at as int, m));
            }
        } else {
            proof {
                let after = machine_views(out@);
                assert forall|k: int| 0 <= k < after.len() implies ms.take(i + 1).contains(
                    #[trigger] after[k],
                ) by {
                    let j = choose|j: int| 0 <= j < seen.len() && seen[j] == after[k];
                    assert(ms.take(i + 1)[j] == after[k]);
                }
                assert forall|j: int| 0 <= j < i + 1 && !(#[trigger] ms.take(
                    i + 1,
                )[j]).deleted implies after.contains(ms.take(i + 1)[j]) by {
                    assert(seen[j] == ms.take(i + 1)[j]);
                }
            }
        }
        i = i + 1;
    }
    assert(ms.take(i as int) =~= ms);
    out
}

/// Inserting the next live machine before the first port above its own keeps
/// the listing.
proof fn lemma_listing_insert(ms: Seq<MachineView>, i: int, before: Seq<MachineView>, at: int)
    requires
        0 <= i < ms.len(),
        forall|a: int, b: int|
            0 <= a < b < ms.len() ==> (#[trigger] ms[a]).port != (#[trigger] ms[b]).port,
        is_live_listing(ms.take(i), before),
        !ms[i].deleted,
        0 <= at <= before.len(),
        forall|k: int| 0 <= k < at ==> (#[trigger] before[k]).port < ms[i].port,
        at < before.len() ==> before[at].port >= ms[i].port,
    ensures
        is_live_listing(ms.take(i + 1), before.insert(at, ms[i])),
{
    let m = ms[i];
    let seen = ms.take(i);
    let now = ms.take(i + 1);
    let after = before.insert(at, m);
    assert forall|k: int| at <= k < before.len() implies (#[trigger] before[k]).port > m.port by {
        let j = choose|j: int| 0 <= j < seen.len() && seen[j] == before[k];
        assert(ms[j].port != ms[i].port);
        if k > at {
            assert(before[at].port < before[k].port);
        }
    }
    assert forall|a: int, b: int| 0 <= a < b < after.len() implies (#[trigger] after[a]).port < (
    #[trigger] after[b]).port by {
        let a0 = if a < at {
            a
        } else {
            a - 1
        };
        let b0 = if b < at {
            b
        } else {
            b - 1
        };
        if a == at {
            assert(after[b] == before[b0]);
        } else if b == at {
            assert(after[a] == before[a0]);
        } else {
            assert(after[a] == before[a0]);
            assert(after[b] == before[b0]);
        }
    }
    assert forall|k: int| 0 <= k < after.len() implies !(#[trigger] after[k]).deleted
        && now.contains(after[k]) by {
        if k == at {
            assert(now[i] == m);
        } else {
            let k0 = if k < at {
                k
            } else {
                k - 1
            };
            assert(after[k] == before[k0]);
            let j = choose|j: int| 0 <= j < seen.len() && seen[j] == before[k0];
            assert(now[j] == after[k]);
        }
    }
    assert forall|j: int| 0 <= j < now.len() && !(#[trigger] now[j]).deleted implies after.contains(
        now[j],
    ) by {
        if j == i {
            assert(after[at] == m);
        } else {
            assert(seen[j] == now[j]);
            let k = choose|k: int| 0 <= k < before.len() && before[k] == seen[j];
            if k < at {
                assert(after[k] == now[j]);
            } else {
                assert(after[k + 1] == now[j]);
            }
        }
    }
}

// ------------------------------------------------------------------- ports ---
/// The highest port in use, deleted machines counted; -1 where there is none.
pub open spec fn highest_port(ms: Seq<MachineView>) -> int
    decreases ms.len(),
{
    if ms.len() == 0 {
        -1
    } else {
        let rest = highest_port(ms.drop_last());
        if ms.last().port > rest {
            ms.last().port as int
        } else {
            rest
        }
    }
}

/// The port after the highest ever given, or `start` where none was given.
pub open spec fn port_after(ms: Seq<MachineView>, start: u16) -> int {
    if ms.len() == 0 {
        start as int
    } else {
        highest_port(ms) + 1
    }
}

/// Every port in use is at most `highest_port`, and that is in use.
pub proof fn lemma_highest_port(ms: Seq<MachineView>)
    ensures
        forall|i: int| 0 <= i < ms.len() ==> (#[trigger] ms[i]).port <= highest_port(ms),
        ms.len() > 0 ==> exists|i: int|
            0 <= i < ms.len() && (#[trigger] ms[i]).port == highest_port(ms),
    decreases ms.len(),
{
    if ms.len() > 0 {
        let rest = ms.drop_last();
        lemma_highest_port(rest);
        assert forall|i: int| 0 <= i < ms.len() implies (#[trigger] ms[i]).port <= highest_port(
            ms,
        ) by {
            if i < rest.len() {
                assert(ms[i] == rest[i]);
            }
        }
        if ms.last().port > highest_port(rest) {
            assert(ms[ms.len() - 1].port == highest_port(ms));
        } else {
            let i = choose|i: int|
                0 <= i < rest.len() && (#[trigger] rest[i]).port == highest_port(rest);
            assert(ms[i].port == highest_port(ms));
        }
    }
}

/// Ports are pinned to ids and never reused: deleted rows keep their port,
/// and allocation only ever counts up.
pub fn next_port(reg: &Registry, port_start: u16) -> (r: Result<u16, DbError>)
    ensures
        r == (if port_after(reg@.machines, port_start) <= 0xffff {
            Ok(port_after(reg@.machines, port_start) as u16)
        } else {
            Err(DbError::PortsExhausted)
        }),
{
    let ghost ms = reg@.machines;
    if reg.machines.len() == 0 {
        return Ok(port_start);
    }
    let mut max: u16 = 0;
    let mut i: usize = 0;
    while i < reg.machines.len()
        invariant
            ms == reg@.machines,
            i <= reg.machines@.len(),
            i > 0 ==> max == highest_port(ms.take(i as int)),
            i == 0 ==> max == 0 && highest_port(ms.take(i as int)) == -1,
        decreases reg.machines@.len() - i,
    {
        assert(ms.take(i + 1).drop_last() =~= ms.take(i as int));
        assert(ms.take(i + 1).last() == ms[i as int]);
        let port = reg.machines[i].port;
        if port > max {
            max = port;
        }
        i = i + 1;
    }
    assert(ms.take(i as int) =~= ms);
    if max == 0xffff {
        Err(DbError::PortsExhausted)
    } else {
        Ok(max + 1)
    }
}

// ------------------------------------------------------------------ writing ---
/// The registry after adding `m`, which starts live and not stale, or the
/// constraint that `m` breaks.
pub open spec fn inserted(reg: RegistryView, m: MachineView) -> Result<RegistryView, DbError> {
    if first_index(reg.machines, with_id(m.id)) is Some {
        Err(DbError::DuplicateId)
    } else if exists|i: int|
        0 <= i < reg.machines.len() && (#[trigger] reg.machines[i]).port == m.port {
        Err(DbError::DuplicatePort)
    } else if first_index(reg.machines, live_with_name(m.name)) is Some {
        Err(DbError::DuplicateName)
    } else {
        Ok(
            RegistryView {
                machines: reg.machines.push(
                    MachineView { deleted: false, marked_stale: false, ..m },
                ),
                ..reg
            },
        )
    }
}

/// Whether some row of `v` has this port.
fn port_in_use(v: &Vec<Machine>, port: u16) -> (r: bool)
    ensures
        r == exists|i: int|
            0 <= i < v@.len() && (#[trigger] machine_views(v@)[i]).port == port,
{
    let ghost ms = machine_views(v@);
    let mut i: usize = 0;
    while i < v.len()
        invariant
            i <= v@.len(),
            ms == machine_views(v@),
            forall|j: int| 0 <= j < i ==> (#[trigger] ms[j]).port != port,
        decreases v@.len() - i,
    {
        if v[i].port == port {
            assert(ms[i as int].port == port);
            return true;
        }
        i = i + 1;
    }
    false
}

/// Adds a machine; it starts live and not stale.
pub fn insert_machine(reg: &mut Registry, m: &Machine) -> (r: Result<(), DbError>)
    requires
        old(reg)@.wf(),
    ensures
        final(reg)@.wf(),
        match inserted(old(reg)@, m@) {
            Ok(next) => r is Ok && final(reg)@ == next,
            Err(e) => r == Err::<(), DbError>(e) && final(reg)@ == old(reg)@,
        },
{
    proof {
        lemma_first_index(reg@.machines, with_id(m@.id));
        lemma_first_index(reg@.machines, live_with_name(m@.name));
    }
    if position_of_id(&reg.machines, m.id.as_str()).is_some() {
        return Err(DbError::DuplicateId);
    }
    if port_in_use(&reg.machines, m.port) {
        return Err(DbError::DuplicatePort);
    }
    if position_of_live_name(&reg.machines, m.name.as_str()).is_some() {
        return Err(DbError::DuplicateName);
    }
    let mut row = m.clone();
    row.deleted = false;
    row.marked_stale = false;
    let ghost before = reg@;
    reg.machines.push(row);
    proof {
        let after = reg@;
        assert(after.machines =~= before.machines.push(row@));
        assert(after.tokens =~= before.tokens);
        let ms = before.machines;
        assert forall|i: int| 0 <= i < ms.len() implies (#[trigger] ms[i]).id != m@.id by {
            assert(!with_id(m@.id)(ms[i]));
        }
        assert forall|i: int| 0 <= i < ms.len() && !(#[trigger] ms[i]).deleted implies ms[i].name
            != m@.name by {
            assert(!live_with_name(m@.name)(ms[i]));
        }
    }
    Ok(())
}

/// Row `row` with what an update by `m` may change: not its port, not when it
/// was enrolled and not whether it is deleted.
pub open spec fn updated_row(row: MachineView, m: MachineView) -> MachineView {
    MachineView {
        name: m.name,
        service_token: m.service_token,
        secret_hash: m.secret_hash,
        bind_addr: m.bind_addr,
        termix_host_id: m.termix_host_id,
        os: m.os,
        last_seen: m.last_seen,
        marked_stale: m.marked_stale,
        ..row
    }
}

/// Another live machine than the one at `i` has this name.
pub open spec fn name_taken(ms: Seq<MachineView>, i: int, name: Seq<char>) -> bool {
    exists|j: int|
        0 <= j < ms.len() && j != i && !(#[trigger] ms[j]).deleted && ms[j].name == name
}

/// The registry after the row with `m`'s id was updated to `m`, or why not.
pub open spec fn updated(reg: RegistryView, m: MachineView) -> Result<RegistryView, DbError> {
    match first_index(reg.machines, with_id(m.id)) {
        None => Err(DbError::NotFoundForUpdate),
        Some(i) => if !reg.machines[i].deleted && name_taken(reg.machines, i, m.name) {
            Err(DbError::DuplicateName)
        } else {
            Ok(
                RegistryView {
                    machines: reg.machines.update(i, updated_row(reg.machines[i], m)),
                    ..reg
                },
            )
        },
    }
}

/// Whether a live machine other than the one at `at` has this name.
fn taken_elsewhere(v: &Vec<Machine>, at: usize, name: &str) -> (r: bool)
    ensures
        r == name_taken(machine_views(v@), at as int, name@),
{
    let ghost ms = machine_views(v@);
    let mut i: usize = 0;
    while i < v.len()
        invariant
            i <= v@.len(),
            ms == machine_views(v@),
            forall|j: int|
                0 <= j < i && j != at && !(#[trigger] ms[j]).deleted ==> ms[j].name != name@,
        decreases v@.len() - i,
    {
        if i != at && !v[i].deleted && same(v[i].name.as_str(), name) {
            assert(ms[i as int].name == name@);
            return true;
        }
        i = i + 1;
    }
    false
}

/// Stores `m` in the row with its id. Its port, the time of its enrollment and
/// whether it is deleted stay as they are.
pub fn update_machine(reg: &mut Registry, m: &Machine) -> (r: Result<(), DbError>)
    requires
        old(reg)@.wf(),
    ensures
        final(reg)@.wf(),
        match updated(old(reg)@, m@) {
            Ok(next) => r is Ok && final(reg)@ == next,
            Err(e) => r == Err::<(), DbError>(e) && final(reg)@ == old(reg)@,
        },
{
    let ghost before = reg@;
    proof {
        lemma_first_index(reg@.machines, with_id(m@.id));
    }
    match position_of_id(&reg.machines, m.id.as_str()) {
        None => Err(DbError::NotFoundForUpdate),
        Some(i) => {
            if !reg.machines[i].deleted && taken_elsewhere(&reg.machines, i, m.name.as_str()) {
                return Err(DbError::DuplicateName);
            }
            let mut row = m.clone();
            row.id = reg.machines[i].id.clone();
            row.port = reg.machines[i].port;
            row.enrolled_at = reg.machines[i].enrolled_at.clone();
            row.deleted = reg.machines[i].deleted;
            reg.machines.set(i, row);
            proof {
                let ms = before.machines;
                assert(row@ =~= updated_row(ms[i as int], m@));
                assert(reg@.machines =~= ms.update(i as int, row@));
                assert(reg@.tokens =~= before.tokens);
                assert forall|a: int, b: int|
                    0 <= a < b < reg@.machines.len() && !reg@.machines[a].deleted
                        && !reg@.machines[b].deleted implies (#[trigger] reg@.machines[a]).name != (
                #[trigger] reg@.machines[b]).name by {
                    assert(ms[a].deleted == reg@.machines[a].deleted);
                    assert(ms[b].deleted == reg@.machines[b].deleted);
                }
            }
            Ok(())
        },
    }
}

/// The registry with `f` applied to the machine with this id, if there is one.
pub open spec fn with_row(
    reg: RegistryView,
    id: Seq<char>,
    f: spec_fn(MachineView) -> MachineView,
) -> RegistryView {
    match first_index(reg.machines, with_id(id)) {
        Some(i) => RegistryView { machines: reg.machines.update(i, f(reg.machines[i])), ..reg },
        None => reg,
    }
}

/// A heartbeat at `ts`.
pub open spec fn seen_at(ts: Seq<char>) -> spec_fn(MachineView) -> MachineView {
    |m: MachineView| MachineView { last_seen: Some(ts), ..m }
}

/// A revocation.
pub open spec fn revoked() -> spec_fn(MachineView) -> MachineView {
    |m: MachineView| MachineView { deleted: true, ..m }
}

/// A Termix host with this id.
pub open spec fn hosted(host_id: Seq<char>) -> spec_fn(MachineView) -> MachineView {
    |m: MachineView| MachineView { termix_host_id: Some(host_id), ..m }
}

/// Stores the id of a machine's Termix host in the row with this id, and nothing
/// else.
pub fn set_termix_host(reg: &mut Registry, id: &str, host_id: &str) -> (r: Result<(), DbError>)
    requires
        old(reg)@.wf(),
    ensures
        final(reg)@.wf(),
        final(reg)@ == with_row(old(reg)@, id@, hosted(host_id@)),
        r == (if first_index(old(reg)@.machines, with_id(id@)) is Some {
            Ok(())
        } else {
            Err::<(), DbError>(DbError::NotFoundForUpdate)
        }),
{
    let ghost before = reg@;
    proof {
        lemma_first_index(reg@.machines, with_id(id@));
    }
    match position_of_id(&reg.machines, id) {
        None => Err(DbError::NotFoundForUpdate),
        Some(i) => {
            let mut row = reg.machines[i].clone();
            row.termix_host_id = Some(host_id.to_owned());
            reg.machines.set(i, row);
            proof {
                assert(row@ =~= hosted(host_id@)(before.machines[i as int]));
                assert(reg@.machines =~= before.machines.update(i as int, row@));
                assert(reg@.tokens =~= before.tokens);
            }
            Ok(())
        },
    }
}

/// Notes that the machine with this id was seen at `ts`.
pub fn touch_last_seen_at(reg: &mut Registry, id: &str, ts: &str)
    requires
        old(reg)@.wf(),
    ensures
        final(reg)@.wf(),
        final(reg)@ == with_row(old(reg)@, id@, seen_at(ts@)),
{
    let ghost before = reg@;
    proof {
        lemma_first_index(reg@.machines, with_id(id@));
    }
    if let Some(i) = position_of_id(&reg.machines, id) {
        let mut row = reg.machines[i].clone();
        row.last_seen = Some(ts.to_owned());
        reg.machines.set(i, row);
        proof {
            assert(row@ =~= seen_at(ts@)(before.machines[i as int]));
            assert(reg@.machines =~= before.machines.update(i as int, row@));
            assert(reg@.tokens =~= before.tokens);
        }
    }
}

/// Notes that the machine with this id was seen just now.
pub fn touch_last_seen(reg: &mut Registry, id: &str)
    requires
        old(reg)@.wf(),
    ensures
        final(reg)@.wf(),
        exists|ts: Seq<char>| #[trigger]
            is_some_stamp(ts) && final(reg)@ == with_row(old(reg)@, id@, seen_at(ts)),
{
    let ts = now_rfc3339();
    touch_last_seen_at(reg, id, ts.as_str());
}

/// Revokes the machine with this id. Its row, and with it its port, stays.
pub fn mark_deleted(reg: &mut Registry, id: &str)
    requires
        old(reg)@.wf(),
    ensures
        final(reg)@.wf(),
        final(reg)@ == with_row(old(reg)@, id@, revoked()),
{
    let ghost before = reg@;
    proof {
        lemma_first_index(reg@.machines, with_id(id@));
    }
    if let Some(i) = position_of_id(&reg.machines, id) {
        let mut row = reg.machines[i].clone();
        row.deleted = true;
        reg.machines.set(i, row);
        proof {
            assert(row@ =~= revoked()(before.machines[i as int]));
            assert(reg@.machines =~= before.machines.update(i as int, row@));
            assert(reg@.tokens =~= before.tokens);
        }
    }
}

/// The live machine with this id if `hash` is what was kept of its secret, or why
/// it is refused.
pub open spec fn authenticated_by_hash(
    ms: Seq<MachineView>,
    id: Seq<char>,
    hash: Seq<char>,
) -> Result<MachineView, DbError> {
    match machine_where(ms, live_with_id(id)) {
        None => Err(DbError::UnknownMachine),
        Some(m) => if m.secret_hash == hash {
            Ok(m)
        } else {
            Err(DbError::BadSecret)
        },
    }
}

/// The live machine with this id if `secret` hashes to what was kept of its
/// secret, or why it is refused.
pub open spec fn authenticated(
    ms: Seq<MachineView>,
    id: Seq<char>,
    secret: Seq<char>,
) -> Result<MachineView, DbError> {
    authenticated_by_hash(ms, id, sha256_text(secret))
}

/// Authenticates a machine by the hash of its secret.
pub fn auth_by_hash(reg: &Registry, id: &str, hash: &str) -> (r: Result<Machine, DbError>)
    ensures
        result_machine(r) == authenticated_by_hash(reg@.machines, id@, hash@),
{
    match machine_by_id(reg, id) {
        None => Err(DbError::UnknownMachine),
        Some(m) => {
            if same(m.secret_hash.as_str(), hash) {
                Ok(m)
            } else {
                Err(DbError::BadSecret)
            }
        },
    }
}

/// Authenticates a machine by its secret.
pub fn auth_machine(reg: &Registry, id: &str, secret: &str) -> (r: Result<Machine, DbError>)
    ensures
        result_machine(r) == authenticated(reg@.machines, id@, secret@),
{
    let hash = sha256_hex(secret);
    auth_by_hash(reg, id, hash.as_str())
}

// ------------------------------------------------------------------- tokens ---
/// A token that can no longer be used: never used, and past its expiry at `now`.
pub open spec fn lapsed(t: TokenView, now: Seq<char>) -> bool {
    t.used_at is None && text_lt(t.expires_at, now)
}

/// A token that still stands at `now`.
pub open spec fn standing(now: Seq<char>) -> spec_fn(TokenView) -> bool {
    |t: TokenView| !lapsed(t, now)
}

/// A token with this hash that can be used at `now`.
pub open spec fn usable(hash: Seq<char>, now: Seq<char>) -> spec_fn(TokenView) -> bool {
    |t: TokenView| t.token_hash == hash && t.used_at is None && !text_lt(t.expires_at, now)
}

/// The registry after an attempt to use the token with this hash at `now`: lapsed
/// tokens are gone, and the token used, if there is one, is marked.
pub open spec fn consumed_by_hash(
    reg: RegistryView,
    hash: Seq<char>,
    now: Seq<char>,
) -> RegistryView {
    let left = reg.tokens.filter(standing(now));
    match first_index(left, usable(hash, now)) {
        Some(i) => RegistryView {
            tokens: left.update(i, TokenView { used_at: Some(now), ..left[i] }),
            ..reg
        },
        None => RegistryView { tokens: left, ..reg },
    }
}

/// The name hint of the token used, or that there is none to use.
pub open spec fn hint_by_hash(
    reg: RegistryView,
    hash: Seq<char>,
    now: Seq<char>,
) -> Result<Option<Seq<char>>, DbError> {
    let left = reg.tokens.filter(standing(now));
    match first_index(left, usable(hash, now)) {
        Some(i) => Ok(left[i].name_hint),
        None => Err(DbError::BadToken),
    }
}

/// The registry after an attempt to use `token` at `now`.
pub open spec fn consumed(reg: RegistryView, token: Seq<char>, now: Seq<char>) -> RegistryView {
    consumed_by_hash(reg, sha256_text(token), now)
}

/// The name hint of `token`, or that it cannot be used at `now`.
pub open spec fn consumed_hint(
    reg: RegistryView,
    token: Seq<char>,
    now: Seq<char>,
) -> Result<Option<Seq<char>>, DbError> {
    hint_by_hash(reg, sha256_text(token), now)
}

pub open spec fn result_hint(r: Result<Option<String>, DbError>) -> Result<
    Option<Seq<char>>,
    DbError,
> {
    match r {
        Ok(h) => Ok(opt_text(h)),
        Err(e) => Err(e),
    }
}

/// The tokens that `filter` keeps have distinct ids where all have.
proof fn lemma_filter_keeps_distinct(ts: Seq<TokenView>, p: spec_fn(TokenView) -> bool)
    requires
        forall|i: int, j: int|
            0 <= i < j < ts.len() ==> (#[trigger] ts[i]).id != (#[trigger] ts[j]).id,
    ensures
        forall|i: int, j: int|
            0 <= i < j < ts.filter(p).len() ==> (#[trigger] ts.filter(p)[i]).id != (
            #[trigger] ts.filter(p)[j]).id,
{
    let at = lemma_filter_order(ts, p);
    let kept = ts.filter(p);
    assert forall|i: int, j: int| 0 <= i < j < kept.len() implies (#[trigger] kept[i]).id != (
    #[trigger] kept[j]).id by {
        assert(at[i] < at[j]);
        assert(ts[at[i]].id != ts[at[j]].id);
    }
}

/// The tokens of `v` that still stand at `now`.
fn drop_lapsed(v: &Vec<Token>, now: &str) -> (kept: Vec<Token>)
    ensures
        token_views(kept@) == token_views(v@).filter(standing(now@)),
{
    let ghost ts = token_views(v@);
    let ghost p = standing(now@);
    let mut kept: Vec<Token> = Vec::new();
    let mut i: usize = 0;
    proof {
        reveal(Seq::filter);
        assert(ts.take(0).filter(p) =~= token_views(kept@));
    }
    while i < v.len()
        invariant
            i <= v@.len(),
            ts == token_views(v@),
            p == standing(now@),
            token_views(kept@) == ts.take(i as int).filter(p),
        decreases v@.len() - i,
    {
        let ghost before = token_views(kept@);
        proof {
            reveal(Seq::filter);
            assert(ts.take(i + 1).drop_last() =~= ts.take(i as int));
            assert(ts.take(i + 1).last() == ts[i as int]);
        }
        if v[i].used_at.is_some() || !comes_before(v[i].expires_at.as_str(), now) {
            kept.push(v[i].clone());
            assert(p(ts[i as int]));
            assert(token_views(kept@) =~= before.push(ts[i as int]));
        } else {
            assert(!p(ts[i as int]));
        }
        i = i + 1;
    }
    assert(ts.take(i as int) =~= ts);
    kept
}

/// Where the first token with this hash that can be used at `now` stands.
fn position_of_usable(v: &Vec<Token>, hash: &str, now: &str) -> (r: Option<usize>)
    ensures
        match r {
            Some(i) => first_index(token_views(v@), usable(hash@, now@)) == Some(i as int),
            None => first_index(token_views(v@), usable(hash@, now@)) is None,
        },
{
    let ghost ts = token_views(v@);
    let ghost p = usable(hash@, now@);
    let mut i: usize = 0;
    while i < v.len()
        invariant
            i <= v@.len(),
            ts == token_views(v@),
            p == usable(hash@, now@),
            forall|j: int| 0 <= j < i ==> !p(#[trigger] ts[j]),
        decreases v@.len() - i,
    {
        if same(v[i].token_hash.as_str(), hash) && v[i].used_at.is_none() && !comes_before(
            v[i].expires_at.as_str(),
            now,
        ) {
            proof {
                lemma_is_first_index(ts, p, i as int);
            }
            return Some(i);
        }
        assert(!p(ts[i as int]));
        i = i + 1;
    }
    proof {
        lemma_first_index(ts, p);
    }
    None
}

/// Uses the token with this hash at the time `now`, an RFC 3339 text.
pub fn consume_hash_at(reg: &mut Registry, hash: &str, now: &str) -> (r: Result<
    Option<String>,
    DbError,
>)
    requires
        old(reg)@.wf(),
    ensures
        final(reg)@.wf(),
        final(reg)@ == consumed_by_hash(old(reg)@, hash@, now@),
        result_hint(r) == hint_by_hash(old(reg)@, hash@, now@),
{
    let ghost before = reg@;
    let ghost left = before.tokens.filter(standing(now@));
    reg.tokens = drop_lapsed(&reg.tokens, now);
    proof {
        lemma_filter_keeps_distinct(before.tokens, standing(now@));
        lemma_first_index(left, usable(hash@, now@));
        assert(reg@.machines =~= before.machines);
    }
    match position_of_usable(&reg.tokens, hash, now) {
        None => Err(DbError::BadToken),
        Some(i) => {
            let hint = copy_opt(&reg.tokens[i].name_hint);
            let mut row = reg.tokens[i].clone();
            row.used_at = Some(now.to_owned());
            reg.tokens.set(i, row);
            proof {
                let next = TokenView { used_at: Some(now@), ..left[i as int] };
                assert(row@ =~= next);
                assert(reg@.tokens =~= left.update(i as int, next));
                assert(reg@.machines =~= before.machines);
            }
            Ok(hint)
        },
    }
}

/// Uses `token` at the time `now`, an RFC 3339 text.
pub fn consume_token_at(reg: &mut Registry, token: &str, now: &str) -> (r: Result<
    Option<String>,
    DbError,
>)
    requires
        old(reg)@.wf(),
    ensures
        final(reg)@.wf(),
        final(reg)@ == consumed(old(reg)@, token@, now@),
        result_hint(r) == consumed_hint(old(reg)@, token@, now@),
{
    let hash = sha256_hex(token);
    consume_hash_at(reg, hash.as_str(), now)
}

/// Single use: marks the token consumed on success. Returns the name hint.
pub fn consume_token(reg: &mut Registry, token: &str) -> (r: Result<Option<String>, DbError>)
    requires
        old(reg)@.wf(),
    ensures
        final(reg)@.wf(),
        exists|now: Seq<char>| #[trigger]
            is_some_stamp(now) && final(reg)@ == consumed(old(reg)@, token@, now) && result_hint(r)
                == consumed_hint(old(reg)@, token@, now),
{
    let now = now_rfc3339();
    consume_token_at(reg, token, now.as_str())
}

/// Some token has this id.
pub open spec fn token_id_taken(ts: Seq<TokenView>, id: Seq<char>) -> bool {
    exists|i: int| 0 <= i < ts.len() && (#[trigger] ts[i]).id == id
}

/// The row of a token that was never used.
pub open spec fn token_row(
    id: Seq<char>,
    hash: Seq<char>,
    hint: Option<Seq<char>>,
    created_at: Seq<char>,
    expires_at: Seq<char>,
) -> TokenView {
    TokenView { id, token_hash: hash, name_hint: hint, created_at, expires_at, used_at: None }
}

/// The row of a token minted in second `now` that lasts for `ttl` seconds.
pub open spec fn minted(
    id: Seq<char>,
    hash: Seq<char>,
    hint: Option<Seq<char>>,
    ttl: int,
    now: int,
) -> TokenView {
    token_row(id, hash, hint, rfc3339(now as i64), rfc3339((now + ttl) as i64))
}

/// Whether some token of `v` has this id.
fn token_id_in_use(v: &Vec<Token>, id: &str) -> (r: bool)
    ensures
        r == token_id_taken(token_views(v@), id@),
{
    let ghost ts = token_views(v@);
    let mut i: usize = 0;
    while i < v.len()
        invariant
            i <= v@.len(),
            ts == token_views(v@),
            forall|j: int| 0 <= j < i ==> (#[trigger] ts[j]).id != id@,
        decreases v@.len() - i,
    {
        if same(v[i].id.as_str(), id) {
            assert(ts[i as int].id == id@);
            return true;
        }
        i = i + 1;
    }
    false
}

/// The registry after adding such a token, or why it cannot be added.
pub open spec fn token_added(
    reg: RegistryView,
    id: Seq<char>,
    hash: Seq<char>,
    hint: Option<Seq<char>>,
    ttl: int,
    now: int,
) -> Result<RegistryView, DbError> {
    if !(MIN_SECS <= now + ttl <= MAX_SECS) {
        Err(DbError::ExpiryOutOfRange)
    } else if token_id_taken(reg.tokens, id) {
        Err(DbError::DuplicateTokenId)
    } else {
        Ok(RegistryView { tokens: reg.tokens.push(minted(id, hash, hint, ttl, now)), ..reg })
    }
}

/// Adds a token that was never used, with the times given as RFC 3339 texts.
pub fn add_token(
    reg: &mut Registry,
    id: &str,
    token_hash: &str,
    name_hint: Option<&str>,
    created_at: String,
    expires_at: String,
) -> (r: Result<(), DbError>)
    requires
        old(reg)@.wf(),
    ensures
        final(reg)@.wf(),
        final(reg)@.machines == old(reg)@.machines,
        if token_id_taken(old(reg)@.tokens, id@) {
            r == Err::<(), DbError>(DbError::DuplicateTokenId) && final(reg)@ == old(reg)@
        } else {
            r is Ok && final(reg)@.tokens == old(reg)@.tokens.push(
                token_row(id@, token_hash@, opt_str(name_hint), created_at@, expires_at@),
            )
        },
{
    if token_id_in_use(&reg.tokens, id) {
        return Err(DbError::DuplicateTokenId);
    }
    let row = Token {
        id: id.to_owned(),
        token_hash: token_hash.to_owned(),
        name_hint: own_opt(name_hint),
        created_at,
        expires_at,
        used_at: None,
    };
    let ghost before = reg@;
    reg.tokens.push(row);
    proof {
        assert(reg@.tokens =~= before.tokens.push(row@));
        assert(reg@.machines =~= before.machines);
        assert(row@ =~= token_row(
            id@,
            token_hash@,
            opt_str(name_hint),
            created_at@,
            expires_at@,
        ));
    }
    Ok(())
}

/// Adds a token under the id `id`, minted at `now`, that lasts for `ttl_secs`.
pub fn insert_token_at(
    reg: &mut Registry,
    id: &str,
    token_hash: &str,
    name_hint: Option<&str>,
    ttl_secs: i64,
    now: Moment,
) -> (r: Result<(), DbError>)
    requires
        old(reg)@.wf(),
        now.valid(),
    ensures
        final(reg)@.wf(),
        match token_added(
            old(reg)@,
            id@,
            token_hash@,
            opt_str(name_hint),
            ttl_secs as int,
            now.secs as int,
        ) {
            Ok(next) => r is Ok && final(reg)@ == next && is_stamp(
                final(reg)@.tokens.last().expires_at,
                (now.secs + ttl_secs) as i64,
            ),
            Err(e) => r == Err::<(), DbError>(e) && final(reg)@ == old(reg)@,
        },
{
    let expiry: i64 = match now.secs.checked_add(ttl_secs) {
        Some(e) => e,
        None => {
            return Err(DbError::ExpiryOutOfRange);
        },
    };
    if expiry < MIN_SECS || expiry > MAX_SECS {
        return Err(DbError::ExpiryOutOfRange);
    }
    let created_at = format_rfc3339(now.secs);
    let expires_at = format_rfc3339(expiry);
    add_token(reg, id, token_hash, name_hint, created_at, expires_at)
}

/// Adds a token minted now, under a fresh id.
pub fn insert_token(
    reg: &mut Registry,
    token_hash: &str,
    name_hint: Option<&str>,
    ttl_secs: i64,
) -> (r: Result<(), DbError>)
    requires
        old(reg)@.wf(),
    ensures
        final(reg)@.wf(),
        exists|id: Seq<char>, secs: i64|
            is_uuid(id) && 0 <= secs <= MAX_SECS && match #[trigger] token_added(
                old(reg)@,
                id,
                token_hash@,
                opt_str(name_hint),
                ttl_secs as int,
                secs as int,
            ) {
                Ok(next) => r is Ok && final(reg)@ == next && is_stamp(
                    final(reg)@.tokens.last().expires_at,
                    (secs + ttl_secs) as i64,
                ),
                Err(e) => r == Err::<(), DbError>(e) && final(reg)@ == old(reg)@,
            },
{
    let id = new_uuid();
    let now = utc_now();
    insert_token_at(reg, id.as_str(), token_hash, name_hint, ttl_secs, now)
}

// --------------------------------------------------------------------- rows ---
/// A machine's row as the database hands it out.
#[derive(Debug)]
pub struct MachineRow {
    pub id: String,
    pub name: String,
    pub port: i64,
    pub service_token: String,
    pub secret_hash: String,
    pub bind_addr: String,
    pub termix_host_id: Option<String>,
    pub os: Option<String>,
    pub enrolled_at: String,
    pub last_seen: Option<String>,
    pub deleted: i64,
    pub marked_stale: i64,
}

/// The machine that a row describes: its port is the low 16 bits of the number
/// stored, and any flag but 0 is set.
pub fn row_to_machine(row: MachineRow) -> (m: Machine)
    ensures
        m@ == (MachineView {
            id: row.id@,
            name: row.name@,
            port: row.port as u16,
            service_token: row.service_token@,
            secret_hash: row.secret_hash@,
            bind_addr: row.bind_addr@,
            termix_host_id: opt_text(row.termix_host_id),
            os: opt_text(row.os),
            enrolled_at: row.enrolled_at@,
            last_seen: opt_text(row.last_seen),
            deleted: row.deleted != 0,
            marked_stale: row.marked_stale != 0,
        }),
        m@.port == row.port as int % 0x1_0000,
{
    let port: i64 = row.port;
    assert(port as u16 == port & 0xffff) by (bit_vector);
    assert(port & 0xffff == port % 0x1_0000) by (bit_vector);
    Machine {
        id: row.id,
        name: row.name,
        port: #[verifier::truncate] (row.port as u16),
        service_token: row.service_token,
        secret_hash: row.secret_hash,
        bind_addr: row.bind_addr,
        termix_host_id: row.termix_host_id,
        os: row.os,
        enrolled_at: row.enrolled_at,
        last_seen: row.last_seen,
        deleted: row.deleted != 0,
        marked_stale: row.marked_stale != 0,
    }
}

/// Two rows share an id.
pub open spec fn ids_clash(ms: Seq<MachineView>) -> bool {
    exists|i: int, j: int|
        0 <= i < j < ms.len() && (#[trigger] ms[i]).id == (#[trigger] ms[j]).id
}

/// Two rows share a port.
pub open spec fn ports_clash(ms: Seq<MachineView>) -> bool {
    exists|i: int, j: int|
        0 <= i < j < ms.len() && (#[trigger] ms[i]).port == (#[trigger] ms[j]).port
}

/// Two live rows share a name.
pub open spec fn names_clash(ms: Seq<MachineView>) -> bool {
    exists|i: int, j: int|
        0 <= i < j < ms.len() && !ms[i].deleted && !ms[j].deleted && (#[trigger] ms[i]).name == (
        #[trigger] ms[j]).name
}

/// Two tokens share an id.
pub open spec fn token_ids_clash(ts: Seq<TokenView>) -> bool {
    exists|i: int, j: int|
        0 <= i < j < ts.len() && (#[trigger] ts[i]).id == (#[trigger] ts[j]).id
}

/// The first constraint that these rows break, if any.
pub open spec fn broken_constraint(ms: Seq<MachineView>, ts: Seq<TokenView>) -> Option<DbError> {
    if ids_clash(ms) {
        Some(DbError::DuplicateId)
    } else if ports_clash(ms) {
        Some(DbError::DuplicatePort)
    } else if names_clash(ms) {
        Some(DbError::DuplicateName)
    } else if token_ids_clash(ts) {
        Some(DbError::DuplicateTokenId)
    } else {
        None
    }
}

/// Which column two machines must not share.
#[derive(Clone, Copy)]
enum Column {
    Id,
    Port,
    LiveName,
}

spec fn shares(c: Column, a: MachineView, b: MachineView) -> bool {
    match c {
        Column::Id => a.id == b.id,
        Column::Port => a.port == b.port,
        Column::LiveName => !a.deleted && !b.deleted && a.name == b.name,
    }
}

/// Whether two rows of `v` share a column that they must not.
fn machines_clash(v: &Vec<Machine>, c: Column) -> (r: bool)
    ensures
        r == exists|i: int, j: int|
            0 <= i < j < v@.len() && shares(
                c,
                #[trigger] machine_views(v@)[i],
                #[trigger] machine_views(v@)[j],
            ),
{
    let ghost ms = machine_views(v@);
    let mut j: usize = 0;
    while j < v.len()
        invariant
            j <= v@.len(),
            ms == machine_views(v@),
            forall|a: int, b: int|
                0 <= a < b < j ==> !shares(c, #[trigger] ms[a], #[trigger] ms[b]),
        decreases v@.len() - j,
    {
        let mut i: usize = 0;
        while i < j
            invariant
                i <= j < v@.len(),
                ms == machine_views(v@),
                forall|a: int| 0 <= a < i ==> !shares(c, #[trigger] ms[a], ms[j as int]),
            decreases j - i,
        {
            let hit = match c {
                Column::Id => v[i].id == v[j].id,
                Column::Port => v[i].port == v[j].port,
                Column::LiveName => !v[i].deleted && !v[j].deleted && v[i].name == v[j].name,
            };
            if hit {
                assert(shares(c, ms[i as int], ms[j as int]));
                return true;
            }
            i = i + 1;
        }
        j = j + 1;
    }
    false
}

/// Whether two tokens of `v` share an id.
fn tokens_clash(v: &Vec<Token>) -> (r: bool)
    ensures
        r == token_ids_clash(token_views(v@)),
{
    let ghost ts = token_views(v@);
    let mut j: usize = 0;
    while j < v.len()
        invariant
            j <= v@.len(),
            ts == token_views(v@),
            forall|a: int, b: int|
                0 <= a < b < j ==> (#[trigger] ts[a]).id != (#[trigger] ts[b]).id,
        decreases v@.len() - j,
    {
        let mut i: usize = 0;
        while i < j
            invariant
                i <= j < v@.len(),
                ts == token_views(v@),
                forall|a: int| 0 <= a < i ==> (#[trigger] ts[a]).id != ts[j as int].id,
            decreases j - i,
        {
            if v[i].id == v[j].id {
                assert(ts[i as int].id == ts[j as int].id);
                return true;
            }
            i = i + 1;
        }
        j = j + 1;
    }
    false
}

impl Registry {
    /// A registry without rows.
    pub fn new() -> (reg: Registry)
        ensures
            reg@.wf(),
            reg@.machines.len() == 0,
            reg@.tokens.len() == 0,
    {
        Registry { machines: Vec::new(), tokens: Vec::new() }
    }

    /// The registry made of stored rows, unless they break a constraint.
    pub fn from_rows(machines: Vec<Machine>, tokens: Vec<Token>) -> (r: Result<Registry, DbError>)
        ensures
            match broken_constraint(machine_views(machines@), token_views(tokens@)) {
                None => r matches Ok(reg) && reg@.wf() && reg@.machines == machine_views(machines@)
                    && reg@.tokens == token_views(tokens@),
                Some(e) => r == Err::<Registry, DbError>(e),
            },
    {
        if machines_clash(&machines, Column::Id) {
            return Err(DbError::DuplicateId);
        }
        if machines_clash(&machines, Column::Port) {
            return Err(DbError::DuplicatePort);
        }
        if machines_clash(&machines, Column::LiveName) {
            return Err(DbError::DuplicateName);
        }
        if tokens_clash(&tokens) {
            return Err(DbError::DuplicateTokenId);
        }
        let reg = Registry { machines, tokens };
        proof {
            let ms = reg@.machines;
            assert(!ids_clash(ms));
            assert(!ports_clash(ms));
            assert(!names_clash(ms));
            assert forall|i: int, j: int| 0 <= i < j < ms.len() implies ms[i].id != (
            #[trigger] ms[j]).id && (#[trigger] ms[i]).port != ms[j].port by {
                assert(!shares(Column::Id, ms[i], ms[j]));
                assert(!shares(Column::Port, ms[i], ms[j]));
            }
        }
        Ok(reg)
    }

    /// The machines' rows, deleted ones too.
    pub fn machines(&self) -> (v: &Vec<Machine>)
        ensures
            machine_views(v@) == self@.machines,
    {
        &self.machines
    }

    /// The tokens' rows.
    pub fn tokens(&self) -> (v: &Vec<Token>)
        ensures
            token_views(v@) == self@.tokens,
    {
        &self.tokens
    }
}

// ----------------------------------------------------------------- messages ---
impl DbError {
    /// What a failure says, where `subject` is the name or id asked for.
    pub open spec fn says(self, subject: Seq<char>) -> Seq<char> {
        match self {
            DbError::NoMatch => "no machine matches '"@ + subject + "' (try `omni ls`)"@,
            DbError::Ambiguous(n) => "'"@ + subject + "' is ambiguous ("@ + decimal_digits(
                n as nat,
            ) + " machines match)"@,
            DbError::PortsExhausted => "port space exhausted"@,
            DbError::DuplicateId => "UNIQUE constraint failed: machines.id"@,
            DbError::DuplicatePort => "UNIQUE constraint failed: machines.port"@,
            DbError::DuplicateName => "UNIQUE constraint failed: machines.name"@,
            DbError::DuplicateTokenId => "UNIQUE constraint failed: tokens.id"@,
            DbError::NotFoundForUpdate => "machine "@ + subject + " not found for update"@,
            DbError::UnknownMachine => "unknown machine"@,
            DbError::BadSecret => "bad machine secret"@,
            DbError::BadToken => "enrollment token is invalid, expired, or already used"@,
            DbError::ExpiryOutOfRange => "token expiry out of range"@,
        }
    }

    /// The failure in words; `subject` is the name or id asked for.
    pub fn message(&self, subject: &str) -> (s: String)
        ensures
            s@ == self.says(subject@),
    {
        match self {
            DbError::NoMatch => {
                let mut s = "no machine matches '".to_owned();
                s.append(subject);
                s.append("' (try `omni ls`)");
                s
            },
            DbError::Ambiguous(n) => {
                let mut s = "'".to_owned();
                s.append(subject);
                s.append("' is ambiguous (");
                let count = decimal(*n as u64);
                s.append(count.as_str());
                s.append(" machines match)");
                s
            },
            DbError::PortsExhausted => "port space exhausted".to_owned(),
            DbError::DuplicateId => "UNIQUE constraint failed: machines.id".to_owned(),
            DbError::DuplicatePort => "UNIQUE constraint failed: machines.port".to_owned(),
            DbError::DuplicateName => "UNIQUE constraint failed: machines.name".to_owned(),
            DbError::DuplicateTokenId => "UNIQUE constraint failed: tokens.id".to_owned(),
            DbError::NotFoundForUpdate => {
                let mut s = "machine ".to_owned();
                s.append(subject);
                s.append(" not found for update");
                s
            },
            DbError::UnknownMachine => "unknown machine".to_owned(),
            DbError::BadSecret => "bad machine secret".to_owned(),
            DbError::BadToken => "enrollment token is invalid, expired, or already used".to_owned(),
            DbError::ExpiryOutOfRange => "token expiry out of range".to_owned(),
        }
    }
}

} // verus!
