//! Secrets, their hashes, and names that are safe to quote.

pub use crate::clock::{age_secs, now_rfc3339};
use crate::digest::{sha256, sha256_digest};
use crate::random::{is_hex_digit, random_bytes};
use crate::text::{chars_of, string_of, strip_both, trim_both, Strip};
use vstd::prelude::*;
use vstd::utf8::encode_utf8;

verus! {

/// The small hexadecimal digit of value `d`.
pub open spec fn hex_char(d: int) -> char {
    if d < 10 {
        ('0' as int + d) as char
    } else {
        ('a' as int + d - 10) as char
    }
}

/// Two small hexadecimal digits for each byte.
pub open spec fn hex(bytes: Seq<u8>) -> Seq<char> {
    Seq::new(
        2 * bytes.len(),
        |i: int|
            hex_char(
                if i % 2 == 0 {
                    bytes[i / 2] as int / 16
                } else {
                    bytes[i / 2] as int % 16
                },
            ),
    )
}

fn hex_digit(d: u8) -> (c: char)
    requires
        d < 16,
    ensures
        c == hex_char(d as int),
{
    if d < 10 {
        (48u8 + d) as char
    } else {
        (87u8 + d) as char
    }
}

/// Writes bytes in hexadecimal.
pub fn to_hex(bytes: &[u8]) -> (s: String)
    ensures
        s@ == hex(bytes@),
{
    let mut s = String::new();
    let mut i: usize = 0;
    while i < bytes.len()
        invariant
            i <= bytes@.len(),
            s@ == hex(bytes@.take(i as int)),
        decreases bytes@.len() - i,
    {
        s.push(hex_digit(bytes[i] / 16));
        s.push(hex_digit(bytes[i] % 16));
        i = i + 1;
        assert(s@ =~= hex(bytes@.take(i as int)));
    }
    assert(bytes@.take(i as int) =~= bytes@);
    s
}

/// Every character of `hex` is a small hexadecimal digit.
pub proof fn lemma_hex_digits(bytes: Seq<u8>)
    ensures
        hex(bytes).len() == 2 * bytes.len(),
        forall|i: int| 0 <= i < hex(bytes).len() ==> is_hex_digit(#[trigger] hex(bytes)[i]),
{
}

/// `n` random bytes in hexadecimal.
pub fn rand_hex(bytes: usize) -> (s: String)
    requires
        2 * bytes <= isize::MAX,
    ensures
        s@.len() == 2 * bytes,
        forall|i: int| 0 <= i < s@.len() ==> is_hex_digit(#[trigger] s@[i]),
{
    let b = random_bytes(bytes);
    proof {
        lemma_hex_digits(b@);
    }
    to_hex(b.as_slice())
}

/// The SHA-256 digest of a text's UTF-8 bytes, in hexadecimal.
pub open spec fn sha256_text(input: Seq<char>) -> Seq<char> {
    hex(sha256(encode_utf8(input)))
}

/// Hashes a text; secrets are kept in this form only.
pub fn sha256_hex(input: &str) -> (s: String)
    ensures
        s@ == sha256_text(input@),
        s@.len() == 64,
{
    let d = sha256_digest(input.as_bytes());
    to_hex(d.as_slice())
}

/// Letters, digits and `-`, `_`, `.`: safe in a shell word and in a TOML string.
pub open spec fn is_safe(c: char) -> bool {
    ||| 'a' <= c <= 'z'
    ||| 'A' <= c <= 'Z'
    ||| '0' <= c <= '9'
    ||| c == '-'
    ||| c == '_'
    ||| c == '.'
}

pub open spec fn made_safe(c: char) -> char {
    if is_safe(c) {
        c
    } else {
        '-'
    }
}

fn safe_char(c: char) -> (r: char)
    ensures
        r == made_safe(c),
{
    if ('a' <= c && c <= 'z') || ('A' <= c && c <= 'Z') || ('0' <= c && c <= '9') || c == '-' || c
        == '_' || c == '.' {
        c
    } else {
        '-'
    }
}

/// The first 64 characters of `s` made safe.
pub open spec fn safe_start(s: Seq<char>) -> Seq<char> {
    Seq::new(
        if s.len() < 64 {
            s.len()
        } else {
            64
        },
        |i: int| made_safe(s[i]),
    )
}

/// `raw` trimmed, made safe, cut at 64 characters, without hyphens at its ends.
/// May be empty.
pub open spec fn cleaned(raw: Seq<char>) -> Seq<char> {
    strip_both(safe_start(strip_both(raw, Strip::White)), Strip::Only('-'))
}

/// The display name made of `raw`; `machine-` and `fallback` where nothing is left.
pub open spec fn sanitized(raw: Seq<char>, fallback: Seq<char>) -> Seq<char> {
    if cleaned(raw).len() == 0 {
        "machine-"@ + fallback
    } else {
        cleaned(raw)
    }
}

/// Makes a display name of `raw`, or of `fallback` where nothing of `raw` is left.
pub fn sanitize_name_or(raw: &str, fallback: &str) -> (name: String)
    ensures
        name@ == sanitized(raw@, fallback@),
{
    let v = chars_of(trim_both(raw, Strip::White));
    let mut out: Vec<char> = Vec::new();
    while out.len() < v.len() && out.len() < 64
        invariant
            out@.len() <= v@.len(),
            out@.len() <= 64,
            forall|i: int| 0 <= i < out@.len() ==> out@[i] == made_safe(v@[i]),
        decreases v@.len() - out@.len(),
    {
        out.push(safe_char(v[out.len()]));
    }
    assert(out@ =~= safe_start(v@));
    let all = string_of(&out, 0, out.len());
    assert(all@ =~= out@);
    let clean = trim_both(all.as_str(), Strip::Only('-'));
    if clean.is_empty() {
        let mut name = "machine-".to_owned();
        name.append(fallback);
        name
    } else {
        clean.to_owned()
    }
}

/// Display names come from hostnames and CLI args; keep them shell- and
/// TOML-safe since they end up quoted in state files and config.
pub fn sanitize_name(raw: &str) -> (name: String)
    ensures
        cleaned(raw@).len() > 0 ==> name@ == cleaned(raw@),
        exists|fallback: Seq<char>|
            fallback.len() == 4 && (forall|i: int|
                0 <= i < 4 ==> is_hex_digit(#[trigger] fallback[i])) && name@ == sanitized(
                raw@,
                fallback,
            ),
{
    let fallback = rand_hex(2);
    let name = sanitize_name_or(raw, fallback.as_str());
    assert(name@ == sanitized(raw@, fallback@));
    name
}

} // verus!
