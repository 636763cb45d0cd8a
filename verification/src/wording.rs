//! Laws on the texts that the service writes and reads: the installer, messages,
//! configuration files.

use crate::config::Config;
use crate::db::{machine_views, Machine, MachineView};
use crate::digest::sha256;
use crate::ops::token_one_liner;
use crate::outcomes::{
    begins, field, lemma_field, lemma_field_here, lemma_field_past, lemma_one_line_joined,
    lemma_spells, number, one_line, spells,
};
use crate::rathole::{
    after_last_colon, client_toml, control_port, os_shown, render_client_toml,
    render_server_toml, server_stanza,
};
use crate::serve::{enroll_error, install_sh, HttpReply};
use crate::text::{
    ascii_lower, comes_before, contains, decimal_digits, digits_value, has_prefix_ci, is_digit,
    is_white_space, occurs, parse_u16, replace_all, replaced, stands_at, starts_with,
    starts_with_ci, strip_back, strip_both, strip_front, text_lt, to_ascii_lower, trim_both,
    trim_end, u16_digits, u16_spelled, white_space, Strip,
};
use crate::util::{cleaned, hex, safe_start, sanitize_name_or, sanitized, sha256_hex, to_hex};
use vstd::prelude::*;
use vstd::utf8::encode_utf8;

verus! {

// ---------------------------------------------------------------- searching ---
/// `s` holds `x` somewhere.
pub open spec fn mentions(s: Seq<char>, x: Seq<char>) -> bool {
    exists|at: int| 0 <= at <= s.len() && #[trigger] begins(s.skip(at), x)
}

/// To mention a text is to have it stand somewhere.
pub proof fn lemma_mentions(s: Seq<char>, x: Seq<char>)
    ensures
        mentions(s, x) == occurs(s, x),
{
    if occurs(s, x) {
        let at = choose|at: int| stands_at(s, x, at);
        assert(s.skip(at).take(x.len() as int) =~= s.subrange(at, at + x.len()));
        assert(begins(s.skip(at), x));
    }
    if mentions(s, x) {
        let at = choose|at: int| 0 <= at <= s.len() && #[trigger] begins(s.skip(at), x);
        assert(s.skip(at).take(x.len() as int) =~= s.subrange(at, at + x.len()));
        assert(stands_at(s, x, at));
    }
}

/// Searching finds a text exactly where it stands, and a start exactly at the start.
pub proof fn law_searching_is_exact(hay: &str, needle: &str, held: bool, first: bool)
    requires
        call_ensures(contains, (hay, needle), held),
        call_ensures(starts_with, (hay, needle), first),
    ensures
        held == mentions(hay@, needle@),
        first == begins(hay@, needle@),
{
    lemma_mentions(hay@, needle@);
    if needle@.len() <= hay@.len() {
        assert(hay@.subrange(0, needle@.len() as int) =~= hay@.take(needle@.len() as int));
    }
}

/// Lexicographic order: `a` comes before `b` where it is a proper start of it, or
/// where the first character in which they differ is the smaller one.
pub open spec fn precedes(a: Seq<char>, b: Seq<char>) -> bool {
    exists|k: int|
        {
            &&& 0 <= k <= a.len()
            &&& k < b.len()
            &&& #[trigger] a.take(k) == b.take(k)
            &&& k < a.len() ==> a[k] < b[k]
        }
}

/// To precede is to come first in lexicographic order.
pub proof fn lemma_precedes(a: Seq<char>, b: Seq<char>)
    ensures
        text_lt(a, b) == precedes(a, b),
    decreases a.len(),
{
    if b.len() == 0 {
    } else if a.len() == 0 {
        assert(a.take(0) =~= b.take(0));
    } else if a[0] == b[0] {
        let (x, y) = (a.drop_first(), b.drop_first());
        lemma_precedes(x, y);
        if precedes(x, y) {
            let k = choose|k: int|
                0 <= k <= x.len() && k < y.len() && #[trigger] x.take(k) == y.take(k) && (k < x.len()
                    ==> x[k] < y[k]);
            assert forall|i: int| 0 <= i < k + 1 implies a[i] == b[i] by {
                if i > 0 {
                    assert(x.take(k)[i - 1] == y.take(k)[i - 1]);
                }
            }
            assert(a.take(k + 1) =~= b.take(k + 1));
        }
        if precedes(a, b) {
            let k = choose|k: int|
                0 <= k <= a.len() && k < b.len() && #[trigger] a.take(k) == b.take(k) && (k < a.len()
                    ==> a[k] < b[k]);
            assert(k > 0);
            assert forall|i: int| 0 <= i < k - 1 implies x[i] == y[i] by {
                assert(a.take(k)[i + 1] == b.take(k)[i + 1]);
            }
            assert(x.take(k - 1) =~= y.take(k - 1));
        }
    } else {
        assert(a.take(0) =~= b.take(0));
        if precedes(a, b) {
            let k = choose|k: int|
                0 <= k <= a.len() && k < b.len() && #[trigger] a.take(k) == b.take(k) && (k < a.len()
                    ==> a[k] < b[k]);
            if k > 0 {
                assert(a.take(k)[0] == b.take(k)[0]);
            }
        }
    }
}

/// Texts are ordered as words in a dictionary are.
pub proof fn law_texts_are_ordered(a: &str, b: &str, r: bool)
    requires
        call_ensures(comes_before, (a, b), r),
    ensures
        r == precedes(a@, b@),
{
    lemma_precedes(a@, b@);
}

// ---------------------------------------------------------------- replacing ---
proof fn lemma_replaced_none(s: Seq<char>, from: Seq<char>, to: Seq<char>)
    requires
        from.len() > 0,
        !occurs(s, from),
    ensures
        replaced(s, from, to) == s,
    decreases s.len(),
{
    if s.len() > 0 {
        let rest = s.drop_first();
        assert(!stands_at(s, from, 0));
        assert(!occurs(rest, from)) by {
            if occurs(rest, from) {
                let at = choose|at: int| stands_at(rest, from, at);
                assert(rest.subrange(at, at + from.len()) =~= s.subrange(
                    at + 1,
                    at + 1 + from.len(),
                ));
                assert(stands_at(s, from, at + 1));
            }
        }
        lemma_replaced_none(rest, from, to);
        assert(seq![s[0]] + rest =~= s);
    }
}

proof fn lemma_replaced_first(a: Seq<char>, b: Seq<char>, from: Seq<char>, to: Seq<char>)
    requires
        from.len() > 0,
        forall|at: int| stands_at(a + from + b, from, at) ==> at >= a.len(),
    ensures
        replaced(a + from + b, from, to) == a + to + replaced(b, from, to),
    decreases a.len(),
{
    let s = a + from + b;
    if a.len() == 0 {
        assert(s.subrange(0, from.len() as int) =~= from);
        assert(stands_at(s, from, 0));
        assert(s.skip(from.len() as int) =~= b);
        assert(a + to + replaced(b, from, to) =~= to + replaced(b, from, to));
    } else {
        let rest = a.drop_first();
        assert(!stands_at(s, from, 0));
        assert(s.drop_first() =~= rest + from + b);
        assert forall|at: int| stands_at(rest + from + b, from, at) implies at >= rest.len() by {
            assert((rest + from + b).subrange(at, at + from.len()) =~= s.subrange(
                at + 1,
                at + 1 + from.len(),
            ));
            assert(stands_at(s, from, at + 1));
        }
        lemma_replaced_first(rest, b, from, to);
        assert(seq![s[0]] + (rest + to + replaced(b, from, to)) =~= a + to + replaced(b, from, to));
    }
}

/// Replacing leaves a text in which nothing is to be replaced as it is.
pub proof fn law_replacing_nothing(s: &str, from: &str, to: &str, r: String)
    requires
        from@.len() > 0,
        !mentions(s@, from@),
        call_ensures(replace_all, (s, from, to), r),
    ensures
        r@ == s@,
{
    lemma_mentions(s@, from@);
    lemma_replaced_none(s@, from@, to@);
}

/// Replacing puts the new text where the old one stands first, keeps what is before
/// it, and goes on behind it.
pub proof fn law_replacing_step_by_step(
    s: &str,
    from: &str,
    to: &str,
    r: String,
    before: Seq<char>,
    behind: &str,
    rest: String,
)
    requires
        from@.len() > 0,
        s@ == before + from@ + behind@,
        forall|at: int| stands_at(s@, from@, at) ==> at >= before.len(),
        call_ensures(replace_all, (s, from, to), r),
        call_ensures(replace_all, (behind, from, to), rest),
    ensures
        r@ == before + to@ + rest@,
{
    lemma_replaced_first(before, behind@, from@, to@);
}

// ----------------------------------------------------------- GET /install.sh ---
/// A script with one placeholder and, once it is filled in, no other.
proof fn lemma_one_placeholder(a: Seq<char>, b: Seq<char>, from: Seq<char>, to: Seq<char>)
    requires
        from.len() > 0,
        forall|at: int| stands_at(a + from + b, from, at) ==> at == a.len(),
    ensures
        replaced(a + from + b, from, to) == a + to + b,
{
    lemma_replaced_first(a, b, from, to);
    assert(!occurs(b, from)) by {
        if occurs(b, from) {
            let at = choose|at: int| stands_at(b, from, at);
            let s = a + from + b;
            let there = a.len() + from.len() + at;
            assert(b.subrange(at, at + from.len()) =~= s.subrange(there, there + from.len()));
            assert(stands_at(s, from, there));
        }
    }
    lemma_replaced_none(b, from, to);
}

/// The installer fetches the version of rathole that the settings pin: it stands
/// wherever the script has the placeholder for it.
pub proof fn law_installer_has_the_pinned_version(
    cfg: &Config,
    script: &str,
    r: HttpReply,
    a: Seq<char>,
    b: Seq<char>,
)
    requires
        call_ensures(install_sh, (cfg, script), r),
        script@ == a + "__RATHOLE_VERSION__"@ + b,
        forall|at: int| stands_at(script@, "__RATHOLE_VERSION__"@, at) ==> at == a.len(),
        !mentions(script@, "__OMNI_URL__"@),
        !mentions(a + cfg.rathole.version@ + b, "__HERDR_INSTALL_URL__"@),
    ensures
        r.status == 200,
        r.body@ == a + cfg.rathole.version@ + b,
{
    reveal_strlit("__OMNI_URL__");
    reveal_strlit("__RATHOLE_VERSION__");
    reveal_strlit("__HERDR_INSTALL_URL__");
    lemma_mentions(script@, "__OMNI_URL__"@);
    lemma_replaced_none(script@, "__OMNI_URL__"@, cfg.trimmed_url());
    lemma_one_placeholder(a, b, "__RATHOLE_VERSION__"@, cfg.rathole.version@);
    let two = a + cfg.rathole.version@ + b;
    lemma_mentions(two, "__HERDR_INSTALL_URL__"@);
    lemma_replaced_none(two, "__HERDR_INSTALL_URL__"@, cfg.herdr.install_url@);
}

/// The installer calls this service where it is reached: the public address, without
/// slashes at its end, stands wherever the script has the placeholder for it.
pub proof fn law_installer_has_the_public_url(
    cfg: &Config,
    script: &str,
    r: HttpReply,
    a: Seq<char>,
    b: Seq<char>,
    url: &str,
)
    requires
        call_ensures(install_sh, (cfg, script), r),
        call_ensures(Config::public_url_trimmed, (cfg,), url),
        script@ == a + "__OMNI_URL__"@ + b,
        forall|at: int| stands_at(script@, "__OMNI_URL__"@, at) ==> at == a.len(),
        !mentions(a + url@ + b, "__RATHOLE_VERSION__"@),
        !mentions(a + url@ + b, "__HERDR_INSTALL_URL__"@),
    ensures
        r.status == 200,
        r.body@ == a + url@ + b,
{
    reveal_strlit("__OMNI_URL__");
    reveal_strlit("__RATHOLE_VERSION__");
    reveal_strlit("__HERDR_INSTALL_URL__");
    lemma_one_placeholder(a, b, "__OMNI_URL__"@, url@);
    let one = a + url@ + b;
    lemma_mentions(one, "__RATHOLE_VERSION__"@);
    lemma_mentions(one, "__HERDR_INSTALL_URL__"@);
    lemma_replaced_none(one, "__RATHOLE_VERSION__"@, cfg.rathole.version@);
    lemma_replaced_none(one, "__HERDR_INSTALL_URL__"@, cfg.herdr.install_url@);
}

/// The installer offers Herdr from where the settings say.
pub proof fn law_installer_has_the_herdr_url(
    cfg: &Config,
    script: &str,
    r: HttpReply,
    a: Seq<char>,
    b: Seq<char>,
)
    requires
        call_ensures(install_sh, (cfg, script), r),
        script@ == a + "__HERDR_INSTALL_URL__"@ + b,
        forall|at: int| stands_at(script@, "__HERDR_INSTALL_URL__"@, at) ==> at == a.len(),
        !mentions(script@, "__OMNI_URL__"@),
        !mentions(script@, "__RATHOLE_VERSION__"@),
    ensures
        r.status == 200,
        r.body@ == a + cfg.herdr.install_url@ + b,
{
    reveal_strlit("__OMNI_URL__");
    reveal_strlit("__RATHOLE_VERSION__");
    reveal_strlit("__HERDR_INSTALL_URL__");
    lemma_mentions(script@, "__OMNI_URL__"@);
    lemma_mentions(script@, "__RATHOLE_VERSION__"@);
    lemma_replaced_none(script@, "__OMNI_URL__"@, cfg.trimmed_url());
    lemma_replaced_none(script@, "__RATHOLE_VERSION__"@, cfg.rathole.version@);
    lemma_one_placeholder(a, b, "__HERDR_INSTALL_URL__"@, cfg.herdr.install_url@);
}

/// Any number of placeholders is filled in: what is served is the script after the
/// public address, then the pinned version, then the Herdr installer were put in
/// wherever their placeholders stand.
pub proof fn law_installer_is_filled_in_everywhere(
    cfg: &Config,
    script: &str,
    r: HttpReply,
    url: &str,
    one: String,
    with_url: &str,
    two: String,
    with_version: &str,
    three: String,
    version_slot: &str,
    url_slot: &str,
    herdr_slot: &str,
    version: &str,
    herdr: &str,
)
    requires
        call_ensures(install_sh, (cfg, script), r),
        call_ensures(Config::public_url_trimmed, (cfg,), url),
        url_slot@ == "__OMNI_URL__"@,
        version_slot@ == "__RATHOLE_VERSION__"@,
        herdr_slot@ == "__HERDR_INSTALL_URL__"@,
        version@ == cfg.rathole.version@,
        herdr@ == cfg.herdr.install_url@,
        call_ensures(replace_all, (script, url_slot, url), one),
        with_url@ == one@,
        call_ensures(replace_all, (with_url, version_slot, version), two),
        with_version@ == two@,
        call_ensures(replace_all, (with_version, herdr_slot, herdr), three),
    ensures
        r.body@ == three@,
        r.headers@.len() == 1,
        r.headers@[0].0@ == "content-type"@ && r.headers@[0].1@ == "text/x-shellscript"@,
{
    let v = r@.headers;
    assert(v.len() == 1);
    assert(v[0] == (r.headers@[0].0@, r.headers@[0].1@));
}

// ----------------------------------------------------------------- refusals ---
/// Whoever is refused is told why exactly where the reason speaks of a token; of any
/// other failure the answer gives nothing away.
pub proof fn law_only_token_problems_are_told(msg: &str, r: HttpReply)
    requires
        call_ensures(enroll_error, (msg,), r),
    ensures
        mentions(msg@, "token"@) ==> r.status == 403 && r.body@ == msg@.push('\n'),
        !mentions(msg@, "token"@) ==> r.status == 500 && r.body@ == "internal error\n"@,
        r.headers@.len() == 0,
{
    lemma_mentions(msg@, "token"@);
    reveal_strlit("\n");
    assert("\n"@ =~= seq!['\n']);
    assert(msg@ + "\n"@ =~= msg@.push('\n'));
    assert(r@.headers.len() == 0);
}

// ----------------------------------------------------------------- trimming ---
/// `r` is `s` without the longest end made of `c`.
pub open spec fn without_end(s: Seq<char>, c: char, r: Seq<char>) -> bool {
    &&& begins(s, r)
    &&& forall|i: int| r.len() <= i < s.len() ==> #[trigger] s[i] == c
    &&& r.len() > 0 ==> r.last() != c
}

/// Stripping the end leaves the text without that end.
pub proof fn lemma_strip_back_is(s: Seq<char>, c: char)
    ensures
        without_end(s, c, strip_back(s, Strip::Only(c))),
    decreases s.len(),
{
    if s.len() > 0 && s.last() == c {
        let t = s.drop_last();
        lemma_strip_back_is(t, c);
        let r = strip_back(t, Strip::Only(c));
        assert(s.take(r.len() as int) =~= t.take(r.len() as int));
        assert forall|i: int| r.len() <= i < s.len() implies #[trigger] s[i] == c by {
            if i < t.len() {
                assert(t[i] == s[i]);
            }
        }
    } else {
        assert(s.take(s.len() as int) =~= s);
    }
}

/// The public address loses the slashes at its end and nothing else.
pub proof fn law_public_url_loses_its_slashes(cfg: &Config, url: &str)
    requires
        call_ensures(Config::public_url_trimmed, (cfg,), url),
    ensures
        without_end(cfg.public_url@, '/', url@),
{
    lemma_strip_back_is(cfg.public_url@, '/');
}

/// The one-liner that enrolls a machine fetches the installer from this service and
/// hands it the token, at its very end.
pub proof fn law_one_liner_hands_over_the_token(cfg: &Config, token: &str, s: String, url: &str)
    requires
        call_ensures(token_one_liner, (cfg, token), s),
        call_ensures(Config::public_url_trimmed, (cfg,), url),
    ensures
        exists|head: Seq<char>|
            s@ == #[trigger] (head + "curl -fsSL "@) + url@ + "/install.sh | sudo sh -s -- "@
                + token@ && begins(head, "token (single-use, expires in 15 min):"@),
{
    reveal_strlit("token (single-use, expires in 15 min):\n\n  curl -fsSL ");
    reveal_strlit("token (single-use, expires in 15 min):\n\n  ");
    reveal_strlit("token (single-use, expires in 15 min):");
    reveal_strlit("curl -fsSL ");
    let head = "token (single-use, expires in 15 min):\n\n  "@;
    assert(head + "curl -fsSL "@ =~= "token (single-use, expires in 15 min):\n\n  curl -fsSL "@);
    assert(head.take("token (single-use, expires in 15 min):"@.len() as int)
        =~= "token (single-use, expires in 15 min):"@);
}

/// `c` is taken off by a trim.
pub open spec fn taken(p: Strip, c: char) -> bool {
    match p {
        Strip::White => white_space(c),
        Strip::Only(x) => c == x,
    }
}

/// `r` is `s` from `from` to `to`; what is left off is what the trim takes, and it
/// leaves off all of it.
pub open spec fn trimmed(s: Seq<char>, p: Strip, r: Seq<char>, from: int, to: int) -> bool {
    &&& 0 <= from <= to <= s.len()
    &&& r == s.subrange(from, to)
    &&& forall|i: int| 0 <= i < from ==> taken(p, #[trigger] s[i])
    &&& forall|i: int| to <= i < s.len() ==> taken(p, #[trigger] s[i])
    &&& from < to ==> !taken(p, s[from]) && !taken(p, s[to - 1])
}

proof fn lemma_strip_front_at(s: Seq<char>, p: Strip) -> (k: int)
    ensures
        0 <= k <= s.len(),
        strip_front(s, p) == s.skip(k),
        forall|i: int| 0 <= i < k ==> taken(p, #[trigger] s[i]),
        k < s.len() ==> !taken(p, s[k]),
    decreases s.len(),
{
    if s.len() > 0 && p.takes(s[0]) {
        let t = s.drop_first();
        let k = lemma_strip_front_at(t, p);
        assert(t.skip(k) =~= s.skip(k + 1));
        assert forall|i: int| 0 <= i < k + 1 implies taken(p, #[trigger] s[i]) by {
            if i > 0 {
                assert(t[i - 1] == s[i]);
            }
        }
        k + 1
    } else {
        assert(s.skip(0) =~= s);
        0
    }
}

proof fn lemma_strip_back_at(s: Seq<char>, p: Strip) -> (k: int)
    ensures
        0 <= k <= s.len(),
        strip_back(s, p) == s.take(k),
        forall|i: int| k <= i < s.len() ==> taken(p, #[trigger] s[i]),
        k > 0 ==> !taken(p, s[k - 1]),
    decreases s.len(),
{
    if s.len() > 0 && p.takes(s.last()) {
        let t = s.drop_last();
        let k = lemma_strip_back_at(t, p);
        assert(t.take(k) =~= s.take(k));
        assert forall|i: int| k <= i < s.len() implies taken(p, #[trigger] s[i]) by {
            if i < t.len() {
                assert(t[i] == s[i]);
            }
        }
        k
    } else {
        assert(s.take(s.len() as int) =~= s);
        s.len() as int
    }
}

/// Stripping both ends leaves the text trimmed.
pub proof fn lemma_trimmed(s: Seq<char>, p: Strip) -> (at: (int, int))
    ensures
        trimmed(s, p, strip_both(s, p), at.0, at.1),
{
    let a = lemma_strip_front_at(s, p);
    let t = strip_front(s, p);
    let b = lemma_strip_back_at(t, p);
    assert(t.take(b) =~= s.subrange(a, a + b));
    assert forall|i: int| a + b <= i < s.len() implies taken(p, #[trigger] s[i]) by {
        assert(t[i - a] == s[i]);
    }
    if b > 0 {
        assert(t[b - 1] == s[a + b - 1]);
    }
    (a, a + b)
}

/// A trim takes off what it is to take at both ends, all of it and nothing else.
pub proof fn law_trims_are_exact(s: &str, p: Strip, r: &str)
    requires
        call_ensures(trim_both, (s, p), r),
    ensures
        exists|from: int, to: int| trimmed(s@, p, r@, from, to),
{
    let (from, to) = lemma_trimmed(s@, p);
}

/// A trim of the end takes off what it is to take there, all of it and nothing else.
pub proof fn law_end_trims_are_exact(s: &str, p: Strip, r: &str)
    requires
        call_ensures(trim_end, (s, p), r),
    ensures
        begins(s@, r@),
        forall|i: int| r@.len() <= i < s@.len() ==> taken(p, #[trigger] s@[i]),
        r@.len() > 0 ==> !taken(p, r@.last()),
{
    let k = lemma_strip_back_at(s@, p);
    assert(s@.take(k) =~= r@);
}

/// White space is what Unicode calls so: the blanks of ASCII and its line breaks, the
/// next line, and the spaces and separators beyond.
pub proof fn law_white_space_is_blank(c: char, r: bool, p: Strip, hit: bool)
    requires
        call_ensures(is_white_space, (c,), r),
        call_ensures(Strip::hits, (&p, c), hit),
    ensures
        r <==> {
            let n = c as int;
            ||| c == ' ' || c == '\t' || c == '\n' || c == '\r' || n == 0x0b || n == 0x0c
            ||| n == 0x85 || n == 0xa0 || n == 0x1680 || 0x2000 <= n <= 0x200a
            ||| n == 0x2028 || n == 0x2029 || n == 0x202f || n == 0x205f || n == 0x3000
        },
        p is White ==> hit == r,
        p matches Strip::Only(x) ==> hit == (c == x),
{
}

/// Only a capital letter of ASCII becomes another: the small one.
pub proof fn law_only_capitals_are_lowered(c: char, r: char)
    requires
        call_ensures(to_ascii_lower, (c,), r),
    ensures
        'A' <= c <= 'Z' ==> r as int == c as int + 32,
        !('A' <= c <= 'Z') ==> r == c,
{
}

// ------------------------------------------------------------------- names ---
/// What a character becomes in a display name.
pub open spec fn in_name(c: char) -> char {
    if 'a' <= c <= 'z' || 'A' <= c <= 'Z' || '0' <= c <= '9' || c == '-' || c == '_' || c == '.' {
        c
    } else {
        '-'
    }
}

/// `name` is made of the characters of `t`, in their order: those of the first 64,
/// unsafe ones turned into hyphens, without the hyphens at either end; where nothing is
/// left, it is `machine-` and the fallback.
pub open spec fn named(t: Seq<char>, fallback: Seq<char>, name: Seq<char>) -> bool {
    let n: int = if t.len() < 64 {
        t.len() as int
    } else {
        64
    };
    ||| name == "machine-"@ + fallback && forall|i: int|
        0 <= i < n ==> in_name(#[trigger] t[i]) == '-'
    ||| exists|from: int|
        {
            &&& 0 <= from < from + name.len() <= n
            &&& forall|i: int| 0 <= i < name.len() ==> name[i] == in_name(#[trigger] t[from + i])
            &&& forall|i: int|
                0 <= i < from || from + name.len() <= i < n ==> in_name(#[trigger] t[i]) == '-'
            &&& #[trigger] in_name(t[from]) != '-'
            &&& in_name(t[from + name.len() - 1]) != '-'
        }
}

/// A display name keeps what is safe of what was asked for, without the white space
/// around it.
pub proof fn law_names_keep_what_is_safe(raw: &str, fallback: &str, t: &str, name: String)
    requires
        call_ensures(sanitize_name_or, (raw, fallback), name),
        call_ensures(trim_both, (raw, Strip::White), t),
    ensures
        named(t@, fallback@, name@),
{
    lemma_named(raw@, fallback@);
}

/// A sanitized name is made of what was asked for.
pub proof fn lemma_named(raw: Seq<char>, fallback: Seq<char>)
    ensures
        named(strip_both(raw, Strip::White), fallback, sanitized(raw, fallback)),
{
    let t = strip_both(raw, Strip::White);
    let name = sanitized(raw, fallback);
    let n: int = if t.len() < 64 {
        t.len() as int
    } else {
        64
    };
    let w = safe_start(t);
    assert(forall|i: int| 0 <= i < n ==> w[i] == in_name(#[trigger] t[i]));
    let (from, to) = lemma_trimmed(w, Strip::Only('-'));
    let c = cleaned(raw);
    assert(c == w.subrange(from, to));
    if c.len() == 0 {
        assert forall|i: int| 0 <= i < n implies in_name(#[trigger] t[i]) == '-' by {
            assert(w[i] == in_name(t[i]));
            if i < from {
                assert(taken(Strip::Only('-'), w[i]));
            } else {
                assert(taken(Strip::Only('-'), w[i]));
            }
        }
    } else {
        assert(name == c);
        assert forall|i: int| 0 <= i < name.len() implies name[i] == in_name(
            #[trigger] t[from + i],
        ) by {
            assert(w[from + i] == in_name(t[from + i]));
        }
        assert forall|i: int| 0 <= i < from || from + name.len() <= i < n implies in_name(
            #[trigger] t[i],
        ) == '-' by {
            assert(w[i] == in_name(t[i]));
            assert(taken(Strip::Only('-'), w[i]));
        }
        assert(w[from] == in_name(t[from]));
        assert(w[to - 1] == in_name(t[to - 1]));
    }
}

// ----------------------------------------------------------------- numbers ---
/// The value of a small hexadecimal digit.
pub open spec fn hex_value(c: char) -> int {
    if '0' <= c <= '9' {
        c as int - '0' as int
    } else {
        c as int - 'a' as int + 10
    }
}

/// Two small hexadecimal digits give each byte back.
pub open spec fn is_hex_of(s: Seq<char>, bytes: Seq<u8>) -> bool {
    &&& s.len() == 2 * bytes.len()
    &&& forall|i: int|
        0 <= i < s.len() ==> '0' <= #[trigger] s[i] <= '9' || 'a' <= s[i] <= 'f'
    &&& forall|i: int|
        0 <= i < bytes.len() ==> 16 * hex_value(s[2 * i]) + hex_value(s[2 * i + 1])
            == #[trigger] bytes[i]
}

proof fn lemma_is_hex_of(bytes: Seq<u8>)
    ensures
        is_hex_of(hex(bytes), bytes),
{
    let s = hex(bytes);
    assert forall|i: int| 0 <= i < bytes.len() implies 16 * hex_value(s[2 * i]) + hex_value(
        s[2 * i + 1],
    ) == #[trigger] bytes[i] by {
        assert((2 * i) / 2 == i && (2 * i) % 2 == 0);
        assert((2 * i + 1) / 2 == i && (2 * i + 1) % 2 == 1);
    }
}

/// Bytes written in hexadecimal read back.
pub proof fn law_hex_reads_back(bytes: &[u8], s: String)
    requires
        call_ensures(to_hex, (bytes,), s),
    ensures
        is_hex_of(s@, bytes@),
{
    lemma_is_hex_of(bytes@);
}

/// What is kept of a secret is the SHA-256 digest of its UTF-8 bytes, all of them.
pub proof fn law_secrets_are_kept_hashed(secret: &str, s: String)
    requires
        call_ensures(sha256_hex, (secret,), s),
    ensures
        is_hex_of(s@, sha256(encode_utf8(secret@))),
        s@.len() == 64,
{
    lemma_is_hex_of(sha256(encode_utf8(secret@)));
}

/// The digits that a number is read from: an optional plus sign is passed over.
pub open spec fn behind_plus(s: Seq<char>) -> Seq<char> {
    if begins(s, seq!['+']) {
        s.skip(1)
    } else {
        s
    }
}

/// `d` is a number of 16 bits, leading zeros allowed.
pub open spec fn reads_as(d: Seq<char>, n: int) -> bool {
    &&& d.len() > 0
    &&& forall|i: int| 0 <= i < d.len() ==> '0' <= #[trigger] d[i] <= '9'
    &&& number(d) == n
    &&& n <= 0xffff
}

proof fn lemma_number_is(s: Seq<char>)
    requires
        forall|i: int| 0 <= i < s.len() ==> '0' <= #[trigger] s[i] <= '9',
    ensures
        number(s) == digits_value(s),
    decreases s.len(),
{
    if s.len() > 0 {
        lemma_number_is(s.drop_last());
        assert('0' <= s[s.len() - 1]);
    }
}

proof fn lemma_u16_reading(s: Seq<char>)
    ensures
        u16_spelled(s) matches Some(n) ==> reads_as(behind_plus(s), n as int),
        u16_spelled(s) is None ==> forall|n: int| !reads_as(behind_plus(s), n),
{
    let d = behind_plus(s);
    if s.len() > 0 {
        assert(s.drop_first() =~= s.skip(1));
        assert(s.take(1) =~= seq![s[0]]);
        assert(seq!['+'][0] == '+');
        if s[0] == '+' {
            assert(s.take(1) =~= seq!['+']);
        } else {
            assert(s.take(1)[0] != seq!['+'][0]);
        }
    }
    assert(u16_spelled(s) == u16_digits(d));
    assert forall|n: int| u16_spelled(s) is None implies !reads_as(d, n) by {
        if reads_as(d, n) {
            assert forall|i: int| 0 <= i < d.len() implies is_digit(d[i]) by {
                assert('0' <= d[i] <= '9');
            }
            lemma_number_is(d);
        }
    }
    if u16_spelled(s) is Some {
        assert forall|i: int| 0 <= i < d.len() implies '0' <= #[trigger] d[i] <= '9' by {
            assert(is_digit(d[i]));
        }
        lemma_number_is(d);
    }
}

/// A number is read exactly where decimal digits, with or without a plus sign, spell
/// one of 16 bits.
pub proof fn law_numbers_are_read(s: &str, r: Option<u16>)
    requires
        call_ensures(parse_u16, (s,), r),
    ensures
        r matches Some(n) ==> reads_as(behind_plus(s@), n as int),
        r is None ==> forall|n: int| !reads_as(behind_plus(s@), n),
{
    lemma_u16_reading(s@);
}

/// The control port is the number behind the last colon of the address that rathole
/// binds, or 2333 where none stands there.
pub proof fn law_control_port_ends_the_address(cfg: &Config, p: u16, host: Seq<char>, tail: Seq<char>)
    requires
        call_ensures(control_port, (cfg,), p),
        !tail.contains(':'),
        cfg.rathole.bind_addr@ == host + seq![':'] + tail || (host.len() == 0
            && cfg.rathole.bind_addr@ == tail),
    ensures
        reads_as(behind_plus(tail), p as int) || (p == 2333 && forall|n: int|
            !reads_as(behind_plus(tail), n)),
{
    lemma_after_colon(cfg.rathole.bind_addr@, tail);
    lemma_u16_reading(tail);
}

proof fn lemma_after_colon(s: Seq<char>, tail: Seq<char>)
    requires
        !tail.contains(':'),
        s == tail || (s.len() > tail.len() && s.skip(s.len() - tail.len()) == tail && s[s.len()
            - tail.len() - 1] == ':') || exists|host: Seq<char>| s == #[trigger] (host + seq![':'])
            + tail,
    ensures
        after_last_colon(s) == tail,
    decreases tail.len(),
{
    if tail.len() == 0 {
        if s.len() > 0 {
            assert(s.last() == ':') by {
                if exists|host: Seq<char>| s == #[trigger] (host + seq![':']) + tail {
                    let host = choose|host: Seq<char>| s == #[trigger] (host + seq![':']) + tail;
                    assert(s.last() == ':');
                }
            }
        }
        assert(tail =~= Seq::<char>::empty());
    } else {
        assert(tail.contains(tail.last()));
        assert(s.last() == tail.last()) by {
            if s != tail {
                if exists|host: Seq<char>| s == #[trigger] (host + seq![':']) + tail {
                } else {
                    assert(s.skip(s.len() - tail.len()).last() == s.last());
                }
            }
        }
        let (s0, t0) = (s.drop_last(), tail.drop_last());
        assert(!t0.contains(':')) by {
            if t0.contains(':') {
                let i = choose|i: int| 0 <= i < t0.len() && t0[i] == ':';
                assert(tail[i] == ':');
            }
        }
        if s == tail {
            assert(s0 == t0);
        } else if exists|host: Seq<char>| s == #[trigger] (host + seq![':']) + tail {
            let host = choose|host: Seq<char>| s == #[trigger] (host + seq![':']) + tail;
            assert(s0 =~= (host + seq![':']) + t0);
        } else {
            assert(s0.skip(s0.len() - t0.len()) =~= t0);
        }
        lemma_after_colon(s0, t0);
        assert(tail =~= t0.push(tail.last()));
    }
}

/// Letters are the same but for ASCII case.
pub open spec fn same_letter(a: char, b: char) -> bool {
    ||| a == b
    ||| 'A' <= a <= 'Z' && b as int == a as int + 32
    ||| 'A' <= b <= 'Z' && a as int == b as int + 32
}

/// A prefix matches where each of its characters is the same, ASCII case aside.
pub proof fn law_prefixes_ignore_case_only(s: &str, prefix: &str, r: bool)
    requires
        call_ensures(has_prefix_ci, (s, prefix), r),
    ensures
        r == (prefix@.len() <= s@.len() && forall|i: int|
            0 <= i < prefix@.len() ==> same_letter(s@[i], #[trigger] prefix@[i])),
{
    lemma_prefix_ci(s@, prefix@);
}

/// To start with a prefix, case aside, is to have its letters one by one.
pub proof fn lemma_prefix_ci(s: Seq<char>, prefix: Seq<char>)
    ensures
        starts_with_ci(s, prefix) == (prefix.len() <= s.len() && forall|i: int|
            0 <= i < prefix.len() ==> same_letter(s[i], #[trigger] prefix[i])),
{
    assert forall|a: char, b: char| same_letter(a, b) == (#[trigger] ascii_lower(a)
        == #[trigger] ascii_lower(b)) by {}
    if starts_with_ci(s, prefix) {
        assert forall|i: int| 0 <= i < prefix.len() implies same_letter(s[i], #[trigger] prefix[i]) by {
            assert(ascii_lower(s[i]) == ascii_lower(prefix[i]));
        }
    }
    if prefix.len() <= s.len() && forall|i: int|
        0 <= i < prefix.len() ==> same_letter(s[i], #[trigger] prefix[i]) {
        assert forall|i: int| 0 <= i < prefix.len() implies ascii_lower(s[i]) == ascii_lower(
            #[trigger] prefix[i],
        ) by {
            assert(same_letter(s[i], prefix[i]));
        }
    }
}

// ------------------------------------------------------- rathole's settings ---
/// The line `key = "value"` with what stands behind the key.
pub open spec fn quoted(value: Seq<char>) -> Seq<char> {
    value.push('"')
}

proof fn lemma_quoted(value: Seq<char>)
    requires
        one_line(value),
    ensures
        one_line(quoted(value)),
{
    lemma_one_line_joined(value, seq!['"']);
    assert(value + seq!['"'] =~= quoted(value));
}

proof fn lemma_client_lines(remote: Seq<char>, id: Seq<char>, token: Seq<char>)
    ensures
        ({
            let nl = seq!['\n'];
            let local = "local_addr = \""@ + quoted("127.0.0.1:22"@) + nl + Seq::<char>::empty();
            let secret = "token = \""@ + quoted(token) + nl + local;
            let service = "[client.services.\""@ + (id + "\"]"@) + nl + secret;
            let blank = Seq::<char>::empty() + nl + service;
            let addr = "remote_addr = \""@ + quoted(remote) + nl + blank;
            let table = "[client]"@ + Seq::<char>::empty() + nl + addr;
            client_toml(remote, id, token) == "# Managed by omni — refresh with `omni update`."@
                + Seq::<char>::empty() + nl + table
        }),
{
    let nl = seq!['\n'];
    let q = seq!['"'];
    let e = Seq::<char>::empty();
    reveal_strlit("# Managed by omni — refresh with `omni update`.\n[client]\nremote_addr = \"");
    reveal_strlit("# Managed by omni — refresh with `omni update`.");
    reveal_strlit("[client]");
    reveal_strlit("remote_addr = \"");
    reveal_strlit("\"\n\n[client.services.\"");
    reveal_strlit("[client.services.\"");
    reveal_strlit("\"]\ntoken = \"");
    reveal_strlit("\"]");
    reveal_strlit("token = \"");
    reveal_strlit("\"\nlocal_addr = \"127.0.0.1:22\"\n");
    reveal_strlit("local_addr = \"");
    reveal_strlit("127.0.0.1:22");
    let head = "# Managed by omni — refresh with `omni update`."@;
    assert("# Managed by omni — refresh with `omni update`.\n[client]\nremote_addr = \""@ =~= head + nl
        + "[client]"@ + nl + "remote_addr = \""@);
    assert("\"\n\n[client.services.\""@ =~= q + nl + nl + "[client.services.\""@);
    assert("\"]\ntoken = \""@ =~= "\"]"@ + nl + "token = \""@);
    assert("\"\nlocal_addr = \"127.0.0.1:22\"\n"@ =~= q + nl + ("local_addr = \""@ + quoted(
        "127.0.0.1:22"@,
    )) + nl);
    let local = "local_addr = \""@ + quoted("127.0.0.1:22"@) + nl + e;
    let secret = "token = \""@ + quoted(token) + nl + local;
    let service = "[client.services.\""@ + (id + "\"]"@) + nl + secret;
    let front = head + nl + "[client]"@ + nl + "remote_addr = \""@;
    let t1 = front + remote + (q + nl + nl + "[client.services.\""@) + id;
    let t2 = t1 + ("\"]"@ + nl + "token = \""@);
    assert(t2 + token + (q + nl + ("local_addr = \""@ + quoted("127.0.0.1:22"@)) + nl) =~= t2 + (quoted(
        token,
    ) + nl + local));
    assert(t2 + (quoted(token) + nl + local) =~= t1 + ("\"]"@ + nl + secret));
    assert(t1 + ("\"]"@ + nl + secret) =~= front + (quoted(remote) + nl + (e + nl + service)));
    assert(front + (quoted(remote) + nl + (e + nl + service)) =~= head + e + nl + ("[client]"@ + e + nl + (
    "remote_addr = \""@ + quoted(remote) + nl + (e + nl + service))));
}

/// A client dials the address that the settings give, under its own id and with its
/// own token, and forwards to the SSH port of its machine.
pub proof fn law_client_toml_reads_back(cfg: &Config, m: &Machine, toml: String)
    requires
        call_ensures(render_client_toml, (cfg, m), toml),
        one_line(cfg.rathole.remote_addr@),
        one_line(m.id@),
        one_line(m.service_token@),
    ensures
        field(toml@, "remote_addr = \""@) == Some(quoted(cfg.rathole.remote_addr@)),
        field(toml@, "[client.services.\""@) == Some(m.id@ + "\"]"@),
        field(toml@, "token = \""@) == Some(quoted(m.service_token@)),
        field(toml@, "local_addr = \""@) == Some(quoted("127.0.0.1:22"@)),
{
    let (remote, id, token) = (cfg.rathole.remote_addr@, m.id@, m.service_token@);
    lemma_client_lines(remote, id, token);
    let nl = seq!['\n'];
    let e = Seq::<char>::empty();
    let local = "local_addr = \""@ + quoted("127.0.0.1:22"@) + nl + e;
    let secret = "token = \""@ + quoted(token) + nl + local;
    let service = "[client.services.\""@ + (id + "\"]"@) + nl + secret;
    let blank = e + nl + service;
    let addr = "remote_addr = \""@ + quoted(remote) + nl + blank;
    let table = "[client]"@ + e + nl + addr;
    let head = "# Managed by omni — refresh with `omni update`."@;
    reveal_strlit("# Managed by omni — refresh with `omni update`.");
    reveal_strlit("[client]");
    reveal_strlit("remote_addr = \"");
    reveal_strlit("[client.services.\"");
    reveal_strlit("\"]");
    reveal_strlit("token = \"");
    reveal_strlit("local_addr = \"");
    reveal_strlit("127.0.0.1:22");
    lemma_quoted(remote);
    lemma_quoted(token);
    lemma_quoted("127.0.0.1:22"@);
    lemma_one_line_joined(id, "\"]"@);
    let k1 = "remote_addr = \""@;
    let k2 = "[client.services.\""@;
    let k3 = "token = \""@;
    let k4 = "local_addr = \""@;
    lemma_field_past(head, e, table, k1, 0);
    lemma_field_past("[client]"@, e, addr, k1, 0);
    lemma_field_here(k1, quoted(remote), blank);
    lemma_field_past(head, e, table, k2, 0);
    lemma_field_past("[client]"@, e, addr, k2, 7);
    lemma_field_past(k1, quoted(remote), blank, k2, 0);
    lemma_field(e, service, k2);
    lemma_field_here(k2, id + "\"]"@, secret);
    lemma_field_past(head, e, table, k3, 0);
    lemma_field_past("[client]"@, e, addr, k3, 0);
    lemma_field_past(k1, quoted(remote), blank, k3, 0);
    lemma_field(e, service, k3);
    lemma_field_past(k2, id + "\"]"@, secret, k3, 0);
    lemma_field_here(k3, quoted(token), local);
    lemma_field_past(head, e, table, k4, 0);
    lemma_field_past("[client]"@, e, addr, k4, 0);
    lemma_field_past(k1, quoted(remote), blank, k4, 0);
    lemma_field(e, service, k4);
    lemma_field_past(k2, id + "\"]"@, secret, k4, 0);
    lemma_field_past(k3, quoted(token), local, k4, 0);
    lemma_field_here(k4, quoted("127.0.0.1:22"@), e);
}

proof fn lemma_stanza_lines(m: MachineView)
    ensures
        ({
            let nl = seq!['\n'];
            let e = Seq::<char>::empty();
            let bound = m.bind_addr + seq![':'] + decimal_digits(m.port as nat);
            let bind = "bind_addr = \""@ + quoted(bound) + nl + e;
            let secret = "token = \""@ + quoted(m.service_token) + nl + bind;
            let service = "[server.services.\""@ + (m.id + "\"]"@) + nl + secret;
            let title = "# "@ + (m.name + " ("@ + os_shown(m.os) + ")"@) + nl + service;
            server_stanza(m) == e + nl + title
        }),
{
    let nl = seq!['\n'];
    let q = seq!['"'];
    let e = Seq::<char>::empty();
    let digits = decimal_digits(m.port as nat);
    reveal_strlit("\n# ");
    reveal_strlit("# ");
    reveal_strlit(")\n[server.services.\"");
    reveal_strlit(")");
    reveal_strlit("[server.services.\"");
    reveal_strlit("\"]\ntoken = \"");
    reveal_strlit("\"]");
    reveal_strlit("token = \"");
    reveal_strlit("\"\nbind_addr = \"");
    reveal_strlit("bind_addr = \"");
    reveal_strlit(":");
    reveal_strlit("\"\n");
    assert("\n# "@ =~= nl + "# "@);
    assert(")\n[server.services.\""@ =~= ")"@ + nl + "[server.services.\""@);
    assert("\"]\ntoken = \""@ =~= "\"]"@ + nl + "token = \""@);
    assert("\"\nbind_addr = \""@ =~= q + nl + "bind_addr = \""@);
    assert(":"@ =~= seq![':']);
    assert("\"\n"@ =~= q + nl);
    let bound = m.bind_addr + seq![':'] + digits;
    let bind = "bind_addr = \""@ + quoted(bound) + nl + e;
    let secret = "token = \""@ + quoted(m.service_token) + nl + bind;
    let service = "[server.services.\""@ + (m.id + "\"]"@) + nl + secret;
    let name = m.name + " ("@ + os_shown(m.os);
    let t1 = (nl + "# "@) + m.name + " ("@ + os_shown(m.os) + (")"@ + nl + "[server.services.\""@)
        + m.id;
    let t2 = t1 + ("\"]"@ + nl + "token = \""@) + m.service_token;
    assert(t2 + (q + nl + "bind_addr = \""@) + m.bind_addr + seq![':'] + digits + (q + nl) =~= t2 + (q + nl
        + bind));
    assert(t2 + (q + nl + bind) =~= t1 + ("\"]"@ + nl + secret));
    assert(t1 + ("\"]"@ + nl + secret) =~= e + nl + ("# "@ + (name + ")"@) + nl + service));
}

/// A stanza of server.toml reads back: the service is under the machine's id, with
/// its token, bound to its address and its port.
pub proof fn lemma_stanza_reads_back(m: MachineView)
    requires
        one_line(m.name) && one_line(m.id) && one_line(m.service_token) && one_line(m.bind_addr),
        m.os matches Some(os) ==> one_line(os),
    ensures
        field(server_stanza(m), "[server.services.\""@) == Some(m.id + "\"]"@),
        field(server_stanza(m), "token = \""@) == Some(quoted(m.service_token)),
        exists|digits: Seq<char>|
            spells(digits, m.port as int) && field(server_stanza(m), "bind_addr = \""@) == Some(
                quoted(#[trigger] (m.bind_addr + seq![':'] + digits)),
            ),
{
    lemma_stanza_lines(m);
    let nl = seq!['\n'];
    let e = Seq::<char>::empty();
    let digits = decimal_digits(m.port as nat);
    lemma_spells(m.port as nat);
    let bound = m.bind_addr + seq![':'] + digits;
    let bind = "bind_addr = \""@ + quoted(bound) + nl + e;
    let secret = "token = \""@ + quoted(m.service_token) + nl + bind;
    let service = "[server.services.\""@ + (m.id + "\"]"@) + nl + secret;
    let name = m.name + " ("@ + os_shown(m.os) + ")"@;
    let title = "# "@ + name + nl + service;
    reveal_strlit("# ");
    reveal_strlit(" (");
    reveal_strlit(")");
    reveal_strlit("?");
    reveal_strlit("[server.services.\"");
    reveal_strlit("\"]");
    reveal_strlit("token = \"");
    reveal_strlit("bind_addr = \"");
    assert(one_line(digits)) by {
        if digits.contains('\n') {
            let i = choose|i: int| 0 <= i < digits.len() && digits[i] == '\n';
            assert('0' <= digits[i]);
        }
    }
    lemma_one_line_joined(m.name, " ("@);
    lemma_one_line_joined(m.name + " ("@, os_shown(m.os));
    lemma_one_line_joined(m.name + " ("@ + os_shown(m.os), ")"@);
    lemma_one_line_joined(m.bind_addr, seq![':']);
    lemma_one_line_joined(m.bind_addr + seq![':'], digits);
    lemma_quoted(bound);
    lemma_quoted(m.service_token);
    lemma_one_line_joined(m.id, "\"]"@);
    let k1 = "[server.services.\""@;
    let k2 = "token = \""@;
    let k3 = "bind_addr = \""@;
    lemma_field(e, title, k1);
    lemma_field_past("# "@, name, service, k1, 0);
    lemma_field_here(k1, m.id + "\"]"@, secret);
    lemma_field(e, title, k2);
    lemma_field_past("# "@, name, service, k2, 0);
    lemma_field_past(k1, m.id + "\"]"@, secret, k2, 0);
    lemma_field_here(k2, quoted(m.service_token), bind);
    lemma_field(e, title, k3);
    lemma_field_past("# "@, name, service, k3, 0);
    lemma_field_past(k1, m.id + "\"]"@, secret, k3, 0);
    lemma_field_past(k2, quoted(m.service_token), bind, k3, 0);
    lemma_field_here(k3, quoted(bound), e);
}

/// server.toml holds for every live machine, in their order, one stanza that reads
/// back, and none for a deleted one: a machine more makes it longer by its stanza or
/// leaves it as it is.
pub proof fn law_server_toml_has_every_live_machine(
    cfg: &Config,
    some: &[Machine],
    more: &[Machine],
    m: Machine,
    before: String,
    after: String,
)
    requires
        call_ensures(render_server_toml, (cfg, some), before),
        call_ensures(render_server_toml, (cfg, more), after),
        more@ == some@.push(m),
        one_line(m.name@) && one_line(m.id@) && one_line(m.service_token@) && one_line(m.bind_addr@),
        m.os matches Some(os) ==> one_line(os@),
    ensures
        m.deleted ==> after@ == before@,
        !m.deleted ==> exists|stanza: Seq<char>|
            {
                &&& after@ == #[trigger] (before@ + stanza)
                &&& field(stanza, "[server.services.\""@) == Some(m.id@ + "\"]"@)
                &&& field(stanza, "token = \""@) == Some(quoted(m.service_token@))
                &&& exists|digits: Seq<char>|
                    spells(digits, m.port as int) && field(stanza, "bind_addr = \""@) == Some(
                        quoted(#[trigger] (m.bind_addr@ + seq![':'] + digits)),
                    )
            },
{
    let (a, b) = (machine_views(some@), machine_views(more@));
    assert(b.drop_last() =~= a);
    assert(b.last() == m@);
    if !m.deleted {
        lemma_stanza_reads_back(m@);
        assert(after@ =~= before@ + server_stanza(m@));
    }
}

/// The server.toml of an empty fleet binds the address that the settings give.
pub proof fn law_server_toml_binds_the_control_address(cfg: &Config, none: &[Machine], out: String)
    requires
        call_ensures(render_server_toml, (cfg, none), out),
        none@.len() == 0,
        one_line(cfg.rathole.bind_addr@),
    ensures
        field(out@, "bind_addr = \""@) == Some(quoted(cfg.rathole.bind_addr@)),
{
    let bind = cfg.rathole.bind_addr@;
    let nl = seq!['\n'];
    let q = seq!['"'];
    let e = Seq::<char>::empty();
    let head = "# Managed by omni — hand edits are overwritten. Run `omni sync` to regenerate."@;
    let k = "bind_addr = \""@;
    reveal_strlit("# Managed by omni — hand edits are overwritten. Run `omni sync` to regenerate.\n");
    reveal_strlit("# Managed by omni — hand edits are overwritten. Run `omni sync` to regenerate.");
    reveal_strlit("[server]\n");
    reveal_strlit("[server]");
    reveal_strlit("bind_addr = \"");
    reveal_strlit("\"\n");
    assert("# Managed by omni — hand edits are overwritten. Run `omni sync` to regenerate.\n"@ =~= head
        + nl);
    assert("[server]\n"@ =~= "[server]"@ + nl);
    assert("\"\n"@ =~= q + nl);
    let last = k + quoted(bind) + nl + e;
    let table = "[server]"@ + e + nl + last;
    assert(out@ =~= head + e + nl + table);
    lemma_quoted(bind);
    lemma_field_past(head, e, table, k, 0);
    lemma_field_past("[server]"@, e, last, k, 0);
    lemma_field_here(k, quoted(bind), e);
}

} // verus!
