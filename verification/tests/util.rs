use omni::clock::{
    age_secs, age_secs_at, now_rfc3339, Moment, FIRST_STAMP, LAST_STAMP, MAX_SECS, MIN_SECS,
};
use omni::db::{insert_token_at, Registry};
use omni::util::{rand_hex, sanitize_name, sanitize_name_or, sha256_hex, to_hex};

fn at(secs: i64, nanos: u32) -> Moment {
    Moment { secs, nanos }
}

#[test]
fn bytes_become_hexadecimal() {
    assert_eq!(to_hex(&[]), "");
    assert_eq!(to_hex(&[0x00, 0x0f, 0xa5, 0xff]), "000fa5ff");
}

#[test]
fn texts_are_hashed() {
    assert_eq!(
        sha256_hex("abc"),
        "ba7816bf8f01cfea414140de5dae2223b00361a396177a9cb410ff61f20015ad"
    );
    assert_eq!(
        sha256_hex(""),
        "e3b0c44298fc1c149afbf4c8996fb92427ae41e4649b934ca495991b7852b855"
    );
}

#[test]
fn random_hex_has_its_length() {
    let a = rand_hex(32);
    let b = rand_hex(32);
    assert_eq!(a.len(), 64);
    assert!(a.chars().all(|c| matches!(c, '0'..='9' | 'a'..='f')));
    assert_ne!(a, b);
    assert_eq!(rand_hex(0), "");
}

#[test]
fn names_are_made_safe() {
    assert_eq!(sanitize_name("  my laptop "), "my-laptop");
    assert_eq!(sanitize_name("web.01_a"), "web.01_a");
    assert_eq!(sanitize_name("--x--"), "x");
    assert_eq!(sanitize_name("caf\u{e9} \"x\"\n; rm"), "caf---x----rm");
    assert_eq!(sanitize_name(&"a".repeat(80)), "a".repeat(64));
    assert_eq!(sanitize_name(&format!("{}-b", "a".repeat(63))), "a".repeat(63));
    assert_eq!(sanitize_name_or("", "beef"), "machine-beef");
    assert_eq!(sanitize_name_or(" !!! ", "beef"), "machine-beef");
}

#[test]
fn blank_names_get_a_random_one() {
    let name = sanitize_name("   ");
    assert_eq!(name.len(), "machine-".len() + 4);
    assert!(name.starts_with("machine-"));
}

#[test]
fn safe_names_are_kept() {
    for raw in [" a b ", "--", "x", "sp\u{3000}ace", "...", "-_-"] {
        let once = sanitize_name_or(raw, "0a1b");
        assert_eq!(sanitize_name_or(&once, "ffff"), once);
    }
}

#[test]
fn now_is_the_current_time() {
    let ts = now_rfc3339();
    assert_eq!(ts.len(), 20);
    assert!(ts.ends_with('Z'));
    let age = age_secs(&ts).unwrap();
    assert!((0..=5).contains(&age));
    let theirs = chrono::Utc::now().timestamp();
    let ours = chrono::DateTime::parse_from_rfc3339(&ts).unwrap().timestamp();
    assert!((theirs - ours).abs() <= 5);
}

#[test]
fn ages_are_whole_seconds_towards_zero() {
    assert_eq!(age_secs_at("1970-01-01T00:01:40Z", at(110, 0)), Some(10));
    assert_eq!(age_secs_at("1970-01-01T00:01:40Z", at(110, 999_999_999)), Some(10));
    assert_eq!(age_secs_at("1970-01-01T00:01:40Z", at(99, 500_000_000)), Some(0));
    assert_eq!(age_secs_at("1970-01-01T00:01:40Z", at(98, 500_000_000)), Some(-1));
    assert_eq!(age_secs_at("1970-01-01T02:01:40.250+02:00", at(101, 0)), Some(0));
}

#[test]
fn leap_seconds_count_once_they_have_passed() {
    let leap = "1970-01-01T00:00:60.500Z";
    assert_eq!(age_secs_at(leap, at(59, 0)), Some(-1));
    assert_eq!(age_secs_at(leap, at(60, 0)), Some(0));
    assert_eq!(age_secs_at(leap, at(61, 0)), Some(1));
    assert_eq!(age_secs_at(leap, at(86_400, 0)), Some(86_339));
}

#[test]
fn unreadable_times_have_no_age() {
    assert_eq!(age_secs_at("", at(0, 0)), None);
    assert_eq!(age_secs_at("yesterday", at(0, 0)), None);
    assert_eq!(age_secs_at("1970-01-01", at(0, 0)), None);
    assert_eq!(age_secs("never"), None);
}

#[test]
fn years_of_five_digits_do_not_read_back() {
    for (secs, text) in
        [(LAST_STAMP + 1, "+10000-01-01T00:00:00Z"), (FIRST_STAMP - 1, "-0001-12-31T23:59:59Z")]
    {
        let mut reg = Registry::new();
        insert_token_at(&mut reg, "t", "h", None, 0, at(secs, 0)).unwrap();
        assert_eq!(reg.tokens()[0].created_at, text);
        assert_eq!(age_secs_at(text, at(secs, 0)), None);
    }
}

#[test]
fn calendar_limits_are_those_of_chrono() {
    assert_eq!(MIN_SECS, chrono::DateTime::<chrono::Utc>::MIN_UTC.timestamp());
    assert_eq!(MAX_SECS, chrono::DateTime::<chrono::Utc>::MAX_UTC.timestamp());
    assert!(chrono::DateTime::from_timestamp(MIN_SECS, 0).is_some());
    assert!(chrono::DateTime::from_timestamp(MAX_SECS, 999_999_999).is_some());
    assert_eq!(age_secs_at("0000-01-01T00:00:00Z", at(FIRST_STAMP, 0)), Some(0));
    assert_eq!(age_secs_at("9999-12-31T23:59:59Z", at(LAST_STAMP, 0)), Some(0));
}
