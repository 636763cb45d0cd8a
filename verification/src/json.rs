//! What the service reads from JSON documents and writes to them.

use crate::util::hex_char;
use serde_json::value::{RawValue, Value};
use std::collections::BTreeMap;
use vstd::prelude::*;

verus! {

/// A value inside a JSON document, without what is inside a list or an object.
/// A number is kept as `serde_json` writes it.
#[derive(Debug)]
pub enum Leaf {
    Null,
    Flag(bool),
    Number(String),
    Text(String),
    List,
    Object,
}

/// What a value inside a JSON document says.
pub enum LeafView {
    Null,
    Flag(bool),
    Number(Seq<char>),
    Text(Seq<char>),
    List,
    Object,
}

impl View for Leaf {
    type V = LeafView;

    open spec fn view(&self) -> LeafView {
        match self {
            Leaf::Null => LeafView::Null,
            Leaf::Flag(b) => LeafView::Flag(*b),
            Leaf::Number(n) => LeafView::Number(n@),
            Leaf::Text(s) => LeafView::Text(s@),
            Leaf::List => LeafView::List,
            Leaf::Object => LeafView::Object,
        }
    }
}

pub open spec fn opt_leaf(o: Option<Leaf>) -> Option<LeafView> {
    match o {
        Some(l) => Some(l@),
        None => None,
    }
}

/// The value to which the JSON pointer `pointer` leads in the document `text`,
/// if any; what `serde_json` says against `text` where it is no JSON.
pub uninterp spec fn json_leaf(text: Seq<char>, pointer: Seq<char>) -> Result<
    Option<LeafView>,
    Seq<char>,
>;

/// `serde_json::from_str` and `Value::pointer`: the value at `pointer` in the
/// document `text`, or the parser's complaint. The result is named.
#[verifier::external_body]
pub(crate) fn json_at(text: &str, pointer: &str) -> (r: Result<Option<Leaf>, String>)
    ensures
        match r {
            Ok(o) => json_leaf(text@, pointer@) == Ok::<Option<LeafView>, Seq<char>>(opt_leaf(o)),
            Err(e) => json_leaf(text@, pointer@) == Err::<Option<LeafView>, Seq<char>>(e@),
        },
{
    let doc = match serde_json::from_str::<Value>(text) {
        Ok(doc) => doc,
        Err(e) => return Err(e.to_string()),
    };
    Ok(match doc.pointer(pointer) {
        None => None,
        Some(Value::Null) => Some(Leaf::Null),
        Some(Value::Bool(b)) => Some(Leaf::Flag(*b)),
        Some(Value::Number(n)) => Some(Leaf::Number(n.to_string())),
        Some(Value::String(s)) => Some(Leaf::Text(s.clone())),
        Some(Value::Array(_)) => Some(Leaf::List),
        Some(Value::Object(_)) => Some(Leaf::Object),
    })
}

/// The members of a JSON object: their keys, and their values as they are written.
pub type MemberViews = Seq<(Seq<char>, Seq<char>)>;

pub open spec fn member_views(v: Seq<(String, String)>) -> MemberViews {
    v.map_values(|m: (String, String)| (m.0@, m.1@))
}

/// The members of the JSON object `text`, each key once, values as written;
/// `None` where `text` is no JSON object.
pub uninterp spec fn json_object(text: Seq<char>) -> Option<Seq<(Seq<char>, Seq<char>)>>;

/// `serde_json::from_str` into a map of raw values: the members of the JSON
/// object `text`, values untouched. The result is named.
#[verifier::external_body]
pub(crate) fn json_members(text: &str) -> (r: Option<Vec<(String, String)>>)
    ensures
        match r {
            Some(v) => json_object(text@) == Some(member_views(v@)),
            None => json_object(text@) is None,
        },
{
    let map = serde_json::from_str::<BTreeMap<String, Box<RawValue>>>(text).ok()?;
    Some(map.into_iter().map(|(k, v)| (k, v.get().to_owned())).collect())
}

/// What stands for `c` inside a JSON string literal: a quotation mark, a backslash and
/// the control characters are escaped, all else stands for itself.
pub open spec fn json_char(c: char) -> Seq<char> {
    if c == '"' || c == '\\' {
        seq!['\\', c]
    } else if c == '\u{8}' {
        seq!['\\', 'b']
    } else if c == '\t' {
        seq!['\\', 't']
    } else if c == '\n' {
        seq!['\\', 'n']
    } else if c == '\u{c}' {
        seq!['\\', 'f']
    } else if c == '\r' {
        seq!['\\', 'r']
    } else if 0x20 > c as int {
        seq!['\\', 'u', '0', '0', hex_char(c as int / 16), hex_char(c as int % 16)]
    } else {
        seq![c]
    }
}

/// What stands for `s` inside a JSON string literal.
pub open spec fn json_chars(s: Seq<char>) -> Seq<char>
    decreases s.len(),
{
    if s.len() == 0 {
        Seq::empty()
    } else {
        json_chars(s.drop_last()) + json_char(s.last())
    }
}

/// The JSON string literal for `s`.
pub open spec fn json_text(s: Seq<char>) -> Seq<char> {
    seq!['"'] + json_chars(s) + seq!['"']
}

/// `Value::to_string` on a text: the JSON string literal for `s`, between quotation
/// marks, with the short escapes of JSON where it has one and `\u00` and two small
/// hexadecimal digits for the other characters below the space.
#[verifier::external_body]
pub(crate) fn json_quote(s: &str) -> (q: String)
    ensures
        q@ == json_text(s@),
{
    Value::from(s).to_string()
}

/// Members whose keys are quoted already, joined by commas.
pub open spec fn quoted_members_text(ms: MemberViews) -> Seq<char>
    decreases ms.len(),
{
    if ms.len() == 0 {
        Seq::empty()
    } else if ms.len() == 1 {
        ms[0].0 + ":"@ + ms[0].1
    } else {
        quoted_members_text(ms.drop_last()) + ","@ + ms.last().0 + ":"@ + ms.last().1
    }
}

/// The members with their keys quoted.
pub open spec fn with_quoted_keys(ms: MemberViews) -> MemberViews {
    ms.map_values(|m: (Seq<char>, Seq<char>)| (json_text(m.0), m.1))
}

/// The JSON object with these members.
pub open spec fn object_text(ms: MemberViews) -> Seq<char> {
    "{"@ + quoted_members_text(with_quoted_keys(ms)) + "}"@
}

/// Writes the JSON object with these members, whose keys are quoted already.
pub fn write_quoted(v: &Vec<(String, String)>) -> (s: String)
    ensures
        s@ == "{"@ + quoted_members_text(member_views(v@)) + "}"@,
{
    let ghost ms = member_views(v@);
    let mut s = "{".to_owned();
    let mut i: usize = 0;
    assert(s@ =~= "{"@ + quoted_members_text(ms.take(0)));
    while i < v.len()
        invariant
            i <= v@.len(),
            ms == member_views(v@),
            s@ == "{"@ + quoted_members_text(ms.take(i as int)),
        decreases v@.len() - i,
    {
        assert(ms.take(i + 1).drop_last() =~= ms.take(i as int));
        assert(ms.take(i + 1).last() == ms[i as int]);
        if i > 0 {
            s.append(",");
        }
        s.append(v[i].0.as_str());
        s.append(":");
        s.append(v[i].1.as_str());
        i = i + 1;
        assert(s@ =~= "{"@ + quoted_members_text(ms.take(i as int)));
    }
    assert(ms.take(i as int) =~= ms);
    s.append("}");
    s
}

/// Writes the JSON object with these members.
pub fn write_object(v: &Vec<(String, String)>) -> (s: String)
    ensures
        s@ == object_text(member_views(v@)),
{
    let ghost ms = member_views(v@);
    let mut quoted: Vec<(String, String)> = Vec::new();
    let mut i: usize = 0;
    while i < v.len()
        invariant
            i <= v@.len(),
            ms == member_views(v@),
            member_views(quoted@) == with_quoted_keys(ms.take(i as int)),
        decreases v@.len() - i,
    {
        let ghost before = member_views(quoted@);
        quoted.push((json_quote(v[i].0.as_str()), v[i].1.clone()));
        assert(member_views(quoted@) =~= before.push((json_text(ms[i as int].0), ms[i as int].1)));
        i = i + 1;
        assert(member_views(quoted@) =~= with_quoted_keys(ms.take(i as int)));
    }
    assert(ms.take(i as int) =~= ms);
    write_quoted(&quoted)
}

/// What the first member with this key says.
pub open spec fn member(ms: MemberViews, key: Seq<char>) -> Option<Seq<char>>
    decreases ms.len(),
{
    if ms.len() == 0 {
        None
    } else if ms[0].0 == key {
        Some(ms[0].1)
    } else {
        member(ms.drop_first(), key)
    }
}

/// The members with the value at `key` replaced by `value`, or added at the end.
pub open spec fn with_member(ms: MemberViews, key: Seq<char>, value: Seq<char>) -> MemberViews
    decreases ms.len(),
{
    if ms.len() == 0 {
        seq![(key, value)]
    } else if ms[0].0 == key {
        seq![(key, value)] + ms.drop_first()
    } else {
        seq![ms[0]] + with_member(ms.drop_first(), key, value)
    }
}

/// Setting a member gives it that value and leaves every other as it was.
pub proof fn lemma_with_member(ms: MemberViews, key: Seq<char>, value: Seq<char>)
    ensures
        member(with_member(ms, key, value), key) == Some(value),
        forall|other: Seq<char>|
            other != key ==> #[trigger] member(with_member(ms, key, value), other) == member(
                ms,
                other,
            ),
    decreases ms.len(),
{
    let out = with_member(ms, key, value);
    if ms.len() == 0 {
        assert(out.drop_first().len() == 0);
    } else if ms[0].0 == key {
        assert(out.drop_first() =~= ms.drop_first());
    } else {
        lemma_with_member(ms.drop_first(), key, value);
        assert(out.drop_first() =~= with_member(ms.drop_first(), key, value));
    }
    assert forall|other: Seq<char>| other != key implies #[trigger] member(out, other) == member(
        ms,
        other,
    ) by {
        assert(member(out, other) == (if out[0].0 == other {
            Some(out[0].1)
        } else {
            member(out.drop_first(), other)
        }));
    }
}

proof fn lemma_with_member_at(ms: MemberViews, key: Seq<char>, value: Seq<char>, at: int)
    requires
        0 <= at <= ms.len(),
        forall|j: int| 0 <= j < at ==> (#[trigger] ms[j]).0 != key,
        at < ms.len() ==> ms[at].0 == key,
    ensures
        with_member(ms, key, value) == (if at < ms.len() {
            ms.update(at, (key, value))
        } else {
            ms.push((key, value))
        }),
    decreases ms.len(),
{
    let out = with_member(ms, key, value);
    if ms.len() == 0 {
        assert(out =~= ms.push((key, value)));
    } else if at == 0 {
        assert(out =~= ms.update(0, (key, value)));
    } else {
        let rest = ms.drop_first();
        assert forall|j: int| 0 <= j < at - 1 implies (#[trigger] rest[j]).0 != key by {
            assert(rest[j] == ms[j + 1]);
        }
        lemma_with_member_at(rest, key, value, at - 1);
        if at < ms.len() {
            assert(out =~= ms.update(at, (key, value)));
        } else {
            assert(out =~= ms.push((key, value)));
        }
    }
}

/// Sets the member `key` to `value`.
pub fn set_member(v: &mut Vec<(String, String)>, key: &str, value: String)
    ensures
        member_views(final(v)@) == with_member(member_views(old(v)@), key@, value@),
{
    let ghost ms = member_views(v@);
    let wanted = key.to_owned();
    let mut at: usize = 0;
    while at < v.len() && v[at].0 != wanted
        invariant
            at <= v@.len(),
            wanted@ == key@,
            ms == member_views(v@),
            forall|j: int| 0 <= j < at ==> (#[trigger] ms[j]).0 != key@,
        ensures
            at <= v@.len(),
            ms == member_views(v@),
            forall|j: int| 0 <= j < at ==> (#[trigger] ms[j]).0 != key@,
            at < v@.len() ==> ms[at as int].0 == key@,
        decreases v@.len() - at,
    {
        at = at + 1;
    }
    proof {
        lemma_with_member_at(ms, key@, value@, at as int);
    }
    if at < v.len() {
        v.set(at, (wanted, value));
        assert(member_views(v@) =~= ms.update(at as int, (key@, value@)));
    } else {
        v.push((wanted, value));
        assert(member_views(v@) =~= ms.push((key@, value@)));
    }
}

} // verus!
