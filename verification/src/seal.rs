//! Sealing a claim set into a token, and fresh key generation, through the
//! version 4 local encryption primitive.

use vstd::prelude::*;
use pasetors::keys::Generate;
use crate::claims::{BuildError, ClaimSet, ClaimSpec, build, build_spec};
use crate::keys::KEY_LEN;
use crate::serialize::to_json;

verus! {

#[verifier::external_type_specification]
#[verifier::external_body]
pub struct ExV4(pasetors::version4::V4);

#[verifier::external_type_specification]
#[verifier::external_body]
#[verifier::reject_recursive_types(V)]
pub struct ExSymmetricKey<V>(pasetors::keys::SymmetricKey<V>);

#[verifier::external_type_specification]
#[verifier::external_body]
pub struct ExClaims(pasetors::claims::Claims);

/// Relies on pasetors' `SymmetricKey::from`: it accepts exactly the byte
/// sequences of the version's key length.
#[verifier::external_body]
fn v4_key_from(bytes: &[u8]) -> (r: Option<
    pasetors::keys::SymmetricKey<pasetors::version4::V4>,
>)
    requires
        bytes@.len() == KEY_LEN,
    ensures
        r is Some,
{
    pasetors::keys::SymmetricKey::from(bytes).ok()
}

/// Relies on pasetors' `SymmetricKey::generate`: key material drawn from
/// the system's secure random generator; nothing is promised of it.
#[verifier::external_body]
fn v4_generate() -> Option<pasetors::keys::SymmetricKey<pasetors::version4::V4>> {
    pasetors::keys::SymmetricKey::<pasetors::version4::V4>::generate().ok()
}

/// Relies on pasetors' `SymmetricKey::as_bytes`: a version 4 local key
/// always holds exactly the version's key length in bytes.
#[verifier::external_body]
fn v4_key_bytes(k: &pasetors::keys::SymmetricKey<pasetors::version4::V4>) -> (r: Vec<u8>)
    ensures
        r@.len() == KEY_LEN,
{
    k.as_bytes().to_vec()
}

/// Relies on pasetors' `Claims::from_string`: parsing a claims payload out
/// of JSON text; nothing is promised of the outcome.
#[verifier::external_body]
fn claims_from_json(json: &str) -> Option<pasetors::claims::Claims> {
    pasetors::claims::Claims::from_string(json).ok()
}

/// Relies on pasetors' `local::encrypt`: sealing the claims with the key
/// and the optional implicit assertion; the token text depends on a fresh
/// random nonce, so nothing is promised of it.
#[verifier::external_body]
fn v4_encrypt(
    key: &pasetors::keys::SymmetricKey<pasetors::version4::V4>,
    claims: &pasetors::claims::Claims,
    assertion: Option<&[u8]>,
) -> Option<String> {
    pasetors::local::encrypt(key, claims, None, assertion).ok()
}

/// Hand the key, the serialized claim set, and the optional implicit
/// assertion to the encryption primitive; its token text comes back
/// verbatim.
///
/// The operation validates nothing itself: the only failure is the
/// primitive's own rejection, surfaced as `PrimitiveFailure`.
pub fn assemble(key: &crate::keys::LocalKey, claims: &ClaimSet, assertion: Option<&str>) -> (r: Result<
    String,
    BuildError,
>)
    requires
        key.wf(),
    ensures
        r is Err ==> r == Err::<String, BuildError>(BuildError::PrimitiveFailure),
{
    let json = to_json(claims);
    let pkey = match v4_key_from(key.as_bytes().as_slice()) {
        Some(k) => k,
        None => {
            return Err(BuildError::PrimitiveFailure);
        },
    };
    let pclaims = match claims_from_json(json.as_str()) {
        Some(c) => c,
        None => {
            return Err(BuildError::PrimitiveFailure);
        },
    };
    let assertion_bytes: Option<&[u8]> = match assertion {
        Some(s) => Some(s.as_bytes()),
        None => None,
    };
    match v4_encrypt(&pkey, &pclaims, assertion_bytes) {
        Some(token) => Ok(token),
        None => Err(BuildError::PrimitiveFailure),
    }
}

/// Build the claim set for a spec at the injected current time and seal it
/// with the key.
///
/// Build failures surface exactly as [`build_spec`] says; after a
/// successful build the result is the primitive's token text, or its
/// rejection as `PrimitiveFailure`.
pub fn generate_token(key: &crate::keys::LocalKey, cfg: &ClaimSpec, now: u64) -> (r: Result<
    String,
    BuildError,
>)
    requires
        key.wf(),
    ensures
        (match build_spec(*cfg, now) {
            Err(e) => r == Err::<String, BuildError>(e),
            Ok(_) => r is Ok || r == Err::<String, BuildError>(BuildError::PrimitiveFailure),
        }),
{
    let claims = match build(cfg, now) {
        Ok(c) => c,
        Err(e) => {
            return Err(e);
        },
    };
    let assertion: Option<&str> = match &cfg.assertion {
        Some(s) => Some(s.as_str()),
        None => None,
    };
    assemble(key, &claims, assertion)
}

/// A fresh symmetric key from the primitive's secure random generator, or
/// none when the generator fails.
pub fn generate_key() -> (r: Option<crate::keys::LocalKey>)
    ensures
        r is Some ==> r->0.wf(),
{
    match v4_generate() {
        Some(k) => {
            let bytes = v4_key_bytes(&k);
            match crate::keys::LocalKey::from_bytes(bytes) {
                Ok(sk) => Some(sk),
                Err(_) => None,
            }
        },
        None => None,
    }
}

} // verus!
