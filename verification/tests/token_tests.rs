use base64::Engine;
use pasetogen::claims::ClaimSpec;
use pasetogen::keys::resolve_key;
use pasetogen::seal::generate_token;

fn tok_spec() -> ClaimSpec {
    ClaimSpec {
        iss: None,
        sub: None,
        aud: None,
        exp: None,
        nbf: None,
        iat: None,
        jti: None,
        claim: Vec::new(),
        expires_in: None,
        assertion: None,
    }
}

fn now_secs() -> u64 {
    std::time::SystemTime::now()
        .duration_since(std::time::UNIX_EPOCH)
        .unwrap()
        .as_secs()
}

fn test_key() -> pasetogen::keys::LocalKey {
    let bytes: Vec<u8> = (100u8..132).collect();
    let encoded = base64::engine::general_purpose::STANDARD.encode(&bytes);
    resolve_key(&encoded).unwrap()
}

#[test]
fn token_decrypts_to_the_claims() {
    let key = test_key();
    let mut cfg = tok_spec();
    cfg.sub = Some(String::from("alice"));
    cfg.expires_in = Some(String::from("1h"));
    let token = generate_token(&key, &cfg, now_secs()).expect("sealing must work");
    assert!(token.starts_with("v4.local."));

    let pkey = pasetors::keys::SymmetricKey::<pasetors::version4::V4>::from(
        key.as_bytes().as_slice(),
    )
    .unwrap();
    let untrusted =
        pasetors::token::UntrustedToken::<pasetors::Local, pasetors::version4::V4>::try_from(
            token.as_str(),
        )
        .unwrap();
    let mut rules = pasetors::claims::ClaimsValidationRules::new();
    rules.disable_valid_at();
    let trusted = pasetors::local::decrypt(&pkey, &untrusted, &rules, None, None)
        .expect("the token must decrypt under the same key");
    assert!(trusted.payload().contains("\"sub\":\"alice\""));
    assert!(trusted.payload().contains("\"exp\":"));
}

#[test]
fn wrong_key_fails_to_decrypt() {
    let key = test_key();
    let mut cfg = tok_spec();
    cfg.sub = Some(String::from("alice"));
    cfg.expires_in = Some(String::from("1h"));
    let token = generate_token(&key, &cfg, now_secs()).expect("sealing must work");

    let other: Vec<u8> = (0u8..32).collect();
    let pkey =
        pasetors::keys::SymmetricKey::<pasetors::version4::V4>::from(other.as_slice()).unwrap();
    let untrusted =
        pasetors::token::UntrustedToken::<pasetors::Local, pasetors::version4::V4>::try_from(
            token.as_str(),
        )
        .unwrap();
    let mut rules = pasetors::claims::ClaimsValidationRules::new();
    rules.disable_valid_at();
    assert!(pasetors::local::decrypt(&pkey, &untrusted, &rules, None, None).is_err());
}

#[test]
fn assertion_is_bound_into_the_token() {
    let key = test_key();
    let mut cfg = tok_spec();
    cfg.sub = Some(String::from("alice"));
    cfg.expires_in = Some(String::from("1h"));
    cfg.assertion = Some(String::from("request-77"));
    let token = generate_token(&key, &cfg, now_secs()).expect("sealing must work");

    let pkey = pasetors::keys::SymmetricKey::<pasetors::version4::V4>::from(
        key.as_bytes().as_slice(),
    )
    .unwrap();
    let untrusted =
        pasetors::token::UntrustedToken::<pasetors::Local, pasetors::version4::V4>::try_from(
            token.as_str(),
        )
        .unwrap();
    let mut rules = pasetors::claims::ClaimsValidationRules::new();
    rules.disable_valid_at();
    // without the assertion, or with another, decryption must fail
    assert!(pasetors::local::decrypt(&pkey, &untrusted, &rules, None, None).is_err());
    assert!(
        pasetors::local::decrypt(&pkey, &untrusted, &rules, None, Some(b"request-78")).is_err()
    );
    assert!(
        pasetors::local::decrypt(&pkey, &untrusted, &rules, None, Some(b"request-77")).is_ok()
    );
}

#[test]
fn non_expiring_token_round_trips() {
    let key = test_key();
    let mut cfg = tok_spec();
    cfg.iss = Some(String::from("issuer-1"));
    cfg.claim = vec![pasetogen::claims::parse_custom_claim("role=admin")];
    let token = generate_token(&key, &cfg, now_secs()).expect("sealing must work");

    let pkey = pasetors::keys::SymmetricKey::<pasetors::version4::V4>::from(
        key.as_bytes().as_slice(),
    )
    .unwrap();
    let untrusted =
        pasetors::token::UntrustedToken::<pasetors::Local, pasetors::version4::V4>::try_from(
            token.as_str(),
        )
        .unwrap();
    let mut rules = pasetors::claims::ClaimsValidationRules::new();
    rules.disable_valid_at();
    rules.allow_non_expiring();
    let trusted = pasetors::local::decrypt(&pkey, &untrusted, &rules, None, None)
        .expect("the token must decrypt under the same key");
    assert!(trusted.payload().contains("\"iss\":\"issuer-1\""));
    assert!(trusted.payload().contains("\"role\":\"admin\""));
    assert!(!trusted.payload().contains("\"exp\""));
}

#[test]
fn build_failure_surfaces_before_sealing() {
    let key = test_key();
    let mut cfg = tok_spec();
    cfg.exp = Some(String::from("whenever"));
    assert_eq!(
        generate_token(&key, &cfg, now_secs()).unwrap_err(),
        pasetogen::claims::BuildError::InvalidTimestamp
    );
}
