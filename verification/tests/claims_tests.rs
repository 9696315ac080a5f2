use pasetogen::claims::{BuildError, ClaimSpec, CustomClaim, build, parse_custom_claim};
use pasetogen::serialize::to_json;

fn base_spec() -> ClaimSpec {
    ClaimSpec {
        iss: None,
        sub: None,
        aud: None,
        exp: None,
        nbf: None,
        iat: None,
        jti: None,
        claim: Vec::new(),
        expires_in: None,
        assertion: None,
    }
}

fn rfc3339(secs: i64) -> String {
    time::OffsetDateTime::from_unix_timestamp(secs)
        .unwrap()
        .format(&time::format_description::well_known::Rfc3339)
        .unwrap()
}

#[test]
fn custom_claim_splits_at_first_equals() {
    let c = parse_custom_claim("role=admin");
    assert_eq!(c.0, "role");
    assert_eq!(c.1, Some(String::from("admin")));

    let c = parse_custom_claim("a=b=c");
    assert_eq!(c.0, "a");
    assert_eq!(c.1, Some(String::from("b=c")));

    let c = parse_custom_claim("=v");
    assert_eq!(c.0, "");
    assert_eq!(c.1, Some(String::from("v")));
}

#[test]
fn bare_custom_claim_has_no_value() {
    let c = parse_custom_claim("beta");
    assert_eq!(c.0, "beta");
    assert_eq!(c.1, None);
}

#[test]
fn subject_with_relative_expiry() {
    // spec {sub: "alice", expires_in: "1h"} at a fixed current time
    let now: u64 = 1_600_000_000;
    let mut cfg = base_spec();
    cfg.sub = Some(String::from("alice"));
    cfg.expires_in = Some(String::from("1h"));
    let cs = build(&cfg, now).expect("the build must work");
    assert!(!cs.is_non_expiring());
    assert_eq!(cs.len(), 2);
    assert_eq!(cs.get_claim("exp"), Some(Some(rfc3339(1_600_003_600))));
    assert_eq!(cs.get_claim("sub"), Some(Some(String::from("alice"))));
    assert_eq!(cs.entry_at(0).0, "exp");
    assert_eq!(cs.entry_at(1).0, "sub");
}

#[test]
fn relative_expiry_overrides_explicit() {
    let now: u64 = 1_600_000_000;
    let mut cfg = base_spec();
    cfg.exp = Some(String::from("2019-01-01T00:00:00Z"));
    cfg.expires_in = Some(String::from("2h"));
    let cs = build(&cfg, now).expect("the build must work");
    assert_eq!(cs.get_claim("exp"), Some(Some(rfc3339(1_600_007_200))));
    assert!(!cs.is_non_expiring());
}

#[test]
fn explicit_expiry_taken_verbatim() {
    let mut cfg = base_spec();
    cfg.exp = Some(String::from("2030-01-01T00:00:00+02:00"));
    let cs = build(&cfg, 0).expect("the build must work");
    assert_eq!(
        cs.get_claim("exp"),
        Some(Some(String::from("2030-01-01T00:00:00+02:00")))
    );
    assert!(!cs.is_non_expiring());
}

#[test]
fn no_expiry_options_flagged_non_expiring() {
    let mut cfg = base_spec();
    cfg.iss = Some(String::from("me"));
    let cs = build(&cfg, 0).expect("the build must work");
    assert!(cs.is_non_expiring());
    assert!(!cs.contains_claim("exp"));
    assert_eq!(cs.get_claim("iss"), Some(Some(String::from("me"))));
}

#[test]
fn unparsable_expiry_rejected() {
    let mut cfg = base_spec();
    cfg.exp = Some(String::from("tomorrow"));
    assert_eq!(build(&cfg, 0).unwrap_err(), BuildError::InvalidTimestamp);
}

#[test]
fn unparsable_duration_rejected() {
    let mut cfg = base_spec();
    cfg.expires_in = Some(String::from("three hours-ish"));
    assert_eq!(build(&cfg, 0).unwrap_err(), BuildError::InvalidDuration);
}

#[test]
fn overflowing_duration_rejected() {
    let mut cfg = base_spec();
    cfg.expires_in = Some(String::from("100000000000years"));
    assert_eq!(build(&cfg, 0).unwrap_err(), BuildError::InvalidDuration);
}

#[test]
fn unparsable_issued_at_rejected() {
    let mut cfg = base_spec();
    cfg.iat = Some(String::from("not a time"));
    assert_eq!(build(&cfg, 0).unwrap_err(), BuildError::InvalidTimestamp);
}

#[test]
fn unparsable_not_before_rejected() {
    let mut cfg = base_spec();
    cfg.nbf = Some(String::from("not a time"));
    assert_eq!(build(&cfg, 0).unwrap_err(), BuildError::InvalidTimestamp);
}

#[test]
fn time_claims_taken_when_valid() {
    let mut cfg = base_spec();
    cfg.iat = Some(String::from("2020-09-13T12:26:40Z"));
    cfg.nbf = Some(String::from("2020-09-13T12:26:40Z"));
    let cs = build(&cfg, 0).expect("the build must work");
    assert_eq!(
        cs.get_claim("iat"),
        Some(Some(String::from("2020-09-13T12:26:40Z")))
    );
    assert_eq!(
        cs.get_claim("nbf"),
        Some(Some(String::from("2020-09-13T12:26:40Z")))
    );
}

#[test]
fn registered_names_reserved() {
    for name in ["iss", "sub", "aud", "exp", "nbf", "iat", "jti"] {
        let mut cfg = base_spec();
        cfg.claim = vec![CustomClaim(String::from(name), Some(String::from("x")))];
        assert_eq!(
            build(&cfg, 0).unwrap_err(),
            BuildError::ReservedClaimName,
            "{} must be reserved",
            name
        );
    }
}

#[test]
fn custom_claims_merged() {
    // spec {claim: ["role=admin", "beta"]}
    let mut cfg = base_spec();
    cfg.claim = vec![parse_custom_claim("role=admin"), parse_custom_claim("beta")];
    let cs = build(&cfg, 0).expect("the build must work");
    assert_eq!(cs.get_claim("role"), Some(Some(String::from("admin"))));
    assert_eq!(cs.get_claim("beta"), Some(None));
    assert_eq!(cs.get_claim("gamma"), None);
}

#[test]
fn duplicate_custom_name_last_wins() {
    let mut cfg = base_spec();
    cfg.claim = vec![
        parse_custom_claim("a=1"),
        parse_custom_claim("b=2"),
        parse_custom_claim("a=3"),
    ];
    let cs = build(&cfg, 0).expect("the build must work");
    assert_eq!(cs.len(), 2);
    assert_eq!(cs.get_claim("a"), Some(Some(String::from("3"))));
    assert_eq!(cs.get_claim("b"), Some(Some(String::from("2"))));
    assert_eq!(cs.entry_at(0).0, "a");
    assert_eq!(cs.entry_at(1).0, "b");
}

#[test]
fn same_spec_serializes_identically() {
    let now: u64 = 1_600_000_000;
    let mut cfg = base_spec();
    cfg.sub = Some(String::from("alice"));
    cfg.expires_in = Some(String::from("30m"));
    cfg.claim = vec![parse_custom_claim("role=admin"), parse_custom_claim("beta")];
    let a = build(&cfg, now).expect("the build must work");
    let b = build(&cfg, now).expect("the build must work");
    assert_eq!(to_json(&a), to_json(&b));
}

#[test]
fn serialized_form_is_canonical() {
    let mut cfg = base_spec();
    cfg.sub = Some(String::from("alice"));
    cfg.claim = vec![parse_custom_claim("beta")];
    let cs = build(&cfg, 0).expect("the build must work");
    assert_eq!(to_json(&cs), "{\"sub\":\"alice\",\"beta\":null}");
}

#[test]
fn serialized_text_is_escaped() {
    let mut cfg = base_spec();
    cfg.sub = Some(String::from("a\"b\\c\nd\u{1}e"));
    let cs = build(&cfg, 0).expect("the build must work");
    assert_eq!(to_json(&cs), "{\"sub\":\"a\\\"b\\\\c\\nd\\u0001e\"}");
}

#[test]
fn empty_spec_serializes_to_empty_object() {
    let cfg = base_spec();
    let cs = build(&cfg, 0).expect("the build must work");
    assert_eq!(cs.len(), 0);
    assert!(cs.is_non_expiring());
    assert_eq!(to_json(&cs), "{}");
}
