//! The claims model: claim specs, claim sets, and the assembly rules that
//! merge registered and custom claims under the reserved-name and
//! expiry-precedence rules.

use vstd::prelude::*;
use crate::strutil::str_eq_chars;
use crate::timefmt::{
    MAX_UNIX_SECS, duration_secs_of, format_timestamp, parse_duration_secs, rfc3339_of,
    rfc3339_parses, timestamp_parses,
};

verus! {

/// A claim set entry at the specification level: a name and an optional
/// text value (`None` stands for a present name with a null value).
pub type EntryV = (Seq<char>, Option<Seq<char>>);

/// A single caller-supplied claim: a name and an optional text value.
///
/// A bare name stands for a present claim with a null value.
#[derive(Clone, Debug)]
pub struct CustomClaim(pub String, pub Option<String>);

impl View for CustomClaim {
    type V = EntryV;

    open spec fn view(&self) -> EntryV {
        (self.0@, match self.1 {
            Some(s) => Some(s@),
            None => None,
        })
    }
}

impl DeepView for CustomClaim {
    type V = EntryV;

    open spec fn deep_view(&self) -> EntryV {
        self@
    }
}

/// Failures of claim set assembly and sealing.
#[derive(Clone, Copy, Debug, PartialEq, Eq, Structural)]
pub enum BuildError {
    /// An `exp`, `nbf` or `iat` text did not parse as absolute-time text.
    InvalidTimestamp,
    /// A relative-expiry text did not parse as a duration, or the computed
    /// expiry lies beyond the representable range.
    InvalidDuration,
    /// A custom claim bears a registered claim name.
    ReservedClaimName,
    /// The encryption primitive rejected its input.
    PrimitiveFailure,
}

impl BuildError {
    /// A short description of the failure, for reporting at the boundary.
    pub fn message(&self) -> String {
        match self {
            BuildError::InvalidTimestamp => String::from_str(
                "invalid timestamp: expected an RFC 3339 date-time",
            ),
            BuildError::InvalidDuration => String::from_str(
                "invalid duration: expected a parsable, representable duration",
            ),
            BuildError::ReservedClaimName => String::from_str(
                "reserved claim name: custom claims must not use a registered name",
            ),
            BuildError::PrimitiveFailure => String::from_str(
                "the encryption primitive rejected its input",
            ),
        }
    }
}

/// Whether a name is one of the registered claim names.
pub open spec fn is_registered(name: Seq<char>) -> bool {
    ||| name == "iss"@
    ||| name == "sub"@
    ||| name == "aud"@
    ||| name == "exp"@
    ||| name == "nbf"@
    ||| name == "iat"@
    ||| name == "jti"@
}

/// Decide whether a name is a registered claim name.
pub fn is_registered_name(name: &str) -> (r: bool)
    ensures
        r == is_registered(name@),
{
    str_eq_chars(name, "iss") || str_eq_chars(name, "sub") || str_eq_chars(name, "aud")
        || str_eq_chars(name, "exp") || str_eq_chars(name, "nbf") || str_eq_chars(name, "iat")
        || str_eq_chars(name, "jti")
}

/// The position of the first occurrence of `c` in `s`, if any.
pub open spec fn find_char(s: Seq<char>, c: char) -> Option<int>
    decreases s.len(),
{
    if s.len() == 0 {
        None
    } else if s[0] == c {
        Some(0)
    } else {
        match find_char(s.drop_first(), c) {
            Some(i) => Some(i + 1),
            None => None,
        }
    }
}

proof fn lemma_find_char_first(s: Seq<char>, c: char, i: int)
    requires
        0 <= i < s.len(),
        s[i] == c,
        forall|j: int| 0 <= j < i ==> s[j] != c,
    ensures
        find_char(s, c) == Some(i),
    decreases i,
{
    if i > 0 {
        lemma_find_char_first(s.drop_first(), c, i - 1);
    }
}

proof fn lemma_find_char_none(s: Seq<char>, c: char)
    requires
        forall|j: int| 0 <= j < s.len() ==> s[j] != c,
    ensures
        find_char(s, c) is None,
    decreases s.len(),
{
    if s.len() > 0 {
        lemma_find_char_none(s.drop_first(), c);
    }
}

/// How a single claim token splits: at the first `=` when one occurs, with
/// everything after it as the value; a token without `=` is a bare name.
pub open spec fn parse_custom_claim_spec(s: Seq<char>) -> EntryV {
    match find_char(s, '=') {
        Some(i) => (s.take(i), Some(s.skip(i + 1))),
        None => (s, None),
    }
}

/// Parse a claim token of the form `key=value` or bare `key`.
///
/// The split happens at the first `=`; a token without `=` yields a claim
/// with a null value. Parsing never fails.
pub fn parse_custom_claim(arg: &str) -> (r: CustomClaim)
    ensures
        r@ == parse_custom_claim_spec(arg@),
{
    let n = arg.unicode_len();
    for i in 0..n
        invariant
            n == arg@.len(),
            forall|j: int| 0 <= j < i ==> arg@[j] != '=',
    {
        if arg.get_char(i) == '=' {
            let name = arg.substring_char(0, i);
            let value = arg.substring_char(i + 1, n);
            proof {
                lemma_find_char_first(arg@, '=', i as int);
                assert(arg@.subrange(0, i as int) =~= arg@.take(i as int));
                assert(arg@.subrange(i + 1, n as int) =~= arg@.skip(i + 1));
            }
            return CustomClaim(String::from_str(name), Some(String::from_str(value)));
        }
    }
    proof {
        lemma_find_char_none(arg@, '=');
    }
    CustomClaim(String::from_str(arg), None)
}

/// The value of the first entry carrying `name`, if any.
pub open spec fn lookup(entries: Seq<EntryV>, name: Seq<char>) -> Option<Option<Seq<char>>>
    decreases entries.len(),
{
    if entries.len() == 0 {
        None
    } else if entries[0].0 == name {
        Some(entries[0].1)
    } else {
        lookup(entries.drop_first(), name)
    }
}

/// Insert-or-replace: a name already present keeps its position and takes
/// the new value; an absent one is appended.
pub open spec fn upsert(entries: Seq<EntryV>, e: EntryV) -> Seq<EntryV>
    decreases entries.len(),
{
    if entries.len() == 0 {
        seq![e]
    } else if entries[0].0 == e.0 {
        seq![e] + entries.drop_first()
    } else {
        seq![entries[0]] + upsert(entries.drop_first(), e)
    }
}

/// No two entries share a name.
pub open spec fn unique_names(entries: Seq<EntryV>) -> bool {
    forall|i: int, j: int| 0 <= i < j < entries.len() ==> entries[i].0 != entries[j].0
}

/// Merge custom claims into the entries: a registered name is rejected, all
/// others are inserted in caller order, the last occurrence of a name
/// winning.
pub open spec fn merge_customs(entries: Seq<EntryV>, customs: Seq<EntryV>) -> Result<
    Seq<EntryV>,
    BuildError,
>
    decreases customs.len(),
{
    if customs.len() == 0 {
        Ok(entries)
    } else if is_registered(customs[0].0) {
        Err(BuildError::ReservedClaimName)
    } else {
        merge_customs(upsert(entries, customs[0]), customs.drop_first())
    }
}

proof fn lemma_upsert_lookup(entries: Seq<EntryV>, e: EntryV, name: Seq<char>)
    ensures
        lookup(upsert(entries, e), name) == (if name == e.0 {
            Some(e.1)
        } else {
            lookup(entries, name)
        }),
    decreases entries.len(),
{
    if entries.len() == 0 {
        let r = seq![e];
        assert(upsert(entries, e) == r);
        assert(r[0] == e);
        assert(r.drop_first() =~= Seq::<EntryV>::empty());
        if name == e.0 {
            assert(lookup(r, name) == Some(e.1));
        } else {
            assert(lookup(r, name) == lookup(r.drop_first(), name));
            assert(lookup(r, name) is None);
            assert(lookup(entries, name) is None);
        }
    } else if entries[0].0 == e.0 {
        let r = seq![e] + entries.drop_first();
        assert(upsert(entries, e) == r);
        assert(r[0] == e);
        assert(r.drop_first() =~= entries.drop_first());
        if name == e.0 {
            assert(lookup(r, name) == Some(e.1));
        } else {
            assert(lookup(r, name) == lookup(entries.drop_first(), name));
            assert(lookup(entries, name) == lookup(entries.drop_first(), name));
        }
    } else {
        let r = seq![entries[0]] + upsert(entries.drop_first(), e);
        assert(upsert(entries, e) == r);
        assert(r[0] == entries[0]);
        assert(r.len() > 0);
        assert(r.drop_first() =~= upsert(entries.drop_first(), e));
        lemma_upsert_lookup(entries.drop_first(), e, name);
        if name == entries[0].0 {
            assert(lookup(r, name) == Some(entries[0].1));
            assert(lookup(entries, name) == Some(entries[0].1));
        } else {
            assert(lookup(r, name) == lookup(upsert(entries.drop_first(), e), name));
            assert(lookup(entries, name) == lookup(entries.drop_first(), name));
        }
    }
}

proof fn lemma_upsert_names(entries: Seq<EntryV>, e: EntryV, k: int)
    requires
        0 <= k < upsert(entries, e).len(),
    ensures
        upsert(entries, e)[k].0 == e.0 || exists|m: int|
            0 <= m < entries.len() && entries[m].0 == #[trigger] upsert(entries, e)[k].0,
    decreases entries.len(),
{
    if entries.len() == 0 {
        assert(upsert(entries, e)[k] == e);
    } else if entries[0].0 == e.0 {
        let r = seq![e] + entries.drop_first();
        if k > 0 {
            assert(r[k] == entries.drop_first()[k - 1]);
            assert(entries[k] == r[k]);
        }
    } else {
        let r = seq![entries[0]] + upsert(entries.drop_first(), e);
        if k == 0 {
            assert(r[0] == entries[0]);
        } else {
            assert(r[k] == upsert(entries.drop_first(), e)[k - 1]);
            lemma_upsert_names(entries.drop_first(), e, k - 1);
            if upsert(entries.drop_first(), e)[k - 1].0 != e.0 {
                let m = choose|m: int|
                    0 <= m < entries.drop_first().len() && entries.drop_first()[m].0 == upsert(
                        entries.drop_first(),
                        e,
                    )[k - 1].0;
                assert(entries[m + 1] == entries.drop_first()[m]);
            }
        }
    }
}

proof fn lemma_upsert_unique(entries: Seq<EntryV>, e: EntryV)
    requires
        unique_names(entries),
    ensures
        unique_names(upsert(entries, e)),
    decreases entries.len(),
{
    if entries.len() == 0 {
        assert(upsert(entries, e) =~= seq![e]);
    } else if entries[0].0 == e.0 {
        let r = seq![e] + entries.drop_first();
        assert forall|i: int, j: int| 0 <= i < j < r.len() implies r[i].0 != r[j].0 by {
            assert(r[j] == entries[j]);
            if i > 0 {
                assert(r[i] == entries[i]);
            } else {
                assert(r[0].0 == entries[0].0);
            }
        }
    } else {
        let u = upsert(entries.drop_first(), e);
        let r = seq![entries[0]] + u;
        assert forall|i: int, j: int|
            0 <= i < j < entries.drop_first().len() implies entries.drop_first()[i].0
            != entries.drop_first()[j].0 by {
            assert(entries.drop_first()[i] == entries[i + 1]);
            assert(entries.drop_first()[j] == entries[j + 1]);
        }
        lemma_upsert_unique(entries.drop_first(), e);
        assert forall|i: int, j: int| 0 <= i < j < r.len() implies r[i].0 != r[j].0 by {
            if i == 0 {
                assert(r[j] == u[j - 1]);
                lemma_upsert_names(entries.drop_first(), e, j - 1);
                if u[j - 1].0 != e.0 {
                    let m = choose|m: int|
                        0 <= m < entries.drop_first().len() && entries.drop_first()[m].0 == u[j
                            - 1].0;
                    assert(entries[m + 1] == entries.drop_first()[m]);
                }
            } else {
                assert(r[i] == u[i - 1]);
                assert(r[j] == u[j - 1]);
            }
        }
    }
}

proof fn lemma_merge_ok_no_reserved(entries: Seq<EntryV>, customs: Seq<EntryV>)
    requires
        merge_customs(entries, customs) is Ok,
    ensures
        forall|i: int| 0 <= i < customs.len() ==> !is_registered(#[trigger] customs[i].0),
    decreases customs.len(),
{
    if customs.len() > 0 {
        lemma_merge_ok_no_reserved(upsert(entries, customs[0]), customs.drop_first());
        assert forall|i: int|
            0 <= i < customs.len() implies !is_registered(#[trigger] customs[i].0) by {
            if i > 0 {
                assert(customs.drop_first()[i - 1] == customs[i]);
            }
        }
    }
}

proof fn lemma_merge_err_reserved(entries: Seq<EntryV>, customs: Seq<EntryV>)
    requires
        exists|i: int| 0 <= i < customs.len() && is_registered(#[trigger] customs[i].0),
    ensures
        merge_customs(entries, customs) == Err::<Seq<EntryV>, BuildError>(
            BuildError::ReservedClaimName,
        ),
    decreases customs.len(),
{
    if !is_registered(customs[0].0) {
        let i = choose|i: int| 0 <= i < customs.len() && is_registered(#[trigger] customs[i].0);
        assert(customs.drop_first()[i - 1] == customs[i]);
        lemma_merge_err_reserved(upsert(entries, customs[0]), customs.drop_first());
    }
}

proof fn lemma_merge_preserves_absent(entries: Seq<EntryV>, customs: Seq<EntryV>, name: Seq<char>)
    requires
        merge_customs(entries, customs) is Ok,
        forall|j: int| 0 <= j < customs.len() ==> (#[trigger] customs[j].0) != name,
    ensures
        lookup(merge_customs(entries, customs)->Ok_0, name) == lookup(entries, name),
    decreases customs.len(),
{
    if customs.len() > 0 {
        lemma_upsert_lookup(entries, customs[0], name);
        assert forall|j: int|
            0 <= j < customs.drop_first().len() implies (#[trigger] customs.drop_first()[j].0)
            != name by {
            assert(customs.drop_first()[j] == customs[j + 1]);
        }
        lemma_merge_preserves_absent(upsert(entries, customs[0]), customs.drop_first(), name);
    }
}

proof fn lemma_merge_unique(entries: Seq<EntryV>, customs: Seq<EntryV>)
    requires
        unique_names(entries),
        merge_customs(entries, customs) is Ok,
    ensures
        unique_names(merge_customs(entries, customs)->Ok_0),
    decreases customs.len(),
{
    if customs.len() > 0 {
        lemma_upsert_unique(entries, customs[0]);
        lemma_merge_unique(upsert(entries, customs[0]), customs.drop_first());
    }
}

proof fn lemma_merge_last_wins(entries: Seq<EntryV>, customs: Seq<EntryV>, i: int)
    requires
        merge_customs(entries, customs) is Ok,
        0 <= i < customs.len(),
        forall|j: int| i < j < customs.len() ==> (#[trigger] customs[j].0) != customs[i].0,
    ensures
        lookup(merge_customs(entries, customs)->Ok_0, customs[i].0) == Some(customs[i].1),
    decreases customs.len(),
{
    if i == 0 {
        lemma_upsert_lookup(entries, customs[0], customs[0].0);
        assert forall|j: int|
            0 <= j < customs.drop_first().len() implies (#[trigger] customs.drop_first()[j].0)
            != customs[0].0 by {
            assert(customs.drop_first()[j] == customs[j + 1]);
        }
        lemma_merge_preserves_absent(upsert(entries, customs[0]), customs.drop_first(), customs[0].0);
    } else {
        assert forall|j: int|
            i - 1 < j < customs.drop_first().len() implies (#[trigger] customs.drop_first()[j].0)
            != customs.drop_first()[i - 1].0 by {
            assert(customs.drop_first()[j] == customs[j + 1]);
            assert(customs.drop_first()[i - 1] == customs[i]);
        }
        assert(customs.drop_first()[i - 1] == customs[i]);
        lemma_merge_last_wins(upsert(entries, customs[0]), customs.drop_first(), i - 1);
    }
}

proof fn lemma_lookup_push(entries: Seq<EntryV>, e: EntryV, name: Seq<char>)
    ensures
        lookup(entries.push(e), name) == (if lookup(entries, name) is Some {
            lookup(entries, name)
        } else if e.0 == name {
            Some(e.1)
        } else {
            None::<Option<Seq<char>>>
        }),
    decreases entries.len(),
{
    let r = entries.push(e);
    if entries.len() == 0 {
        assert(r[0] == e);
        assert(r.drop_first() =~= Seq::<EntryV>::empty());
    } else {
        assert(r[0] == entries[0]);
        assert(r.drop_first() =~= entries.drop_first().push(e));
        lemma_lookup_push(entries.drop_first(), e, name);
    }
}

proof fn lemma_registered_literals_distinct()
    ensures
        is_registered("iss"@) && is_registered("sub"@) && is_registered("aud"@) && is_registered(
            "exp"@,
        ) && is_registered("nbf"@) && is_registered("iat"@) && is_registered("jti"@),
        "iss"@ != "sub"@ && "iss"@ != "aud"@ && "iss"@ != "exp"@ && "iss"@ != "nbf"@ && "iss"@
            != "iat"@ && "iss"@ != "jti"@,
        "sub"@ != "aud"@ && "sub"@ != "exp"@ && "sub"@ != "nbf"@ && "sub"@ != "iat"@ && "sub"@
            != "jti"@,
        "aud"@ != "exp"@ && "aud"@ != "nbf"@ && "aud"@ != "iat"@ && "aud"@ != "jti"@,
        "exp"@ != "nbf"@ && "exp"@ != "iat"@ && "exp"@ != "jti"@,
        "nbf"@ != "iat"@ && "nbf"@ != "jti"@,
        "iat"@ != "jti"@,
{
    reveal_strlit("iss");
    reveal_strlit("sub");
    reveal_strlit("aud");
    reveal_strlit("exp");
    reveal_strlit("nbf");
    reveal_strlit("iat");
    reveal_strlit("jti");
    assert("iss"@[0] == 'i');
    assert("sub"@[0] == 's');
    assert("aud"@[0] == 'a');
    assert("exp"@[0] == 'e');
    assert("nbf"@[0] == 'n');
    assert("iat"@[0] == 'i');
    assert("jti"@[0] == 'j');
    assert("iss"@[1] == 's');
    assert("iat"@[1] == 'a');
}

/// What the caller asks for: optional registered claims, an optional
/// relative-expiry duration text, an optional implicit assertion, and the
/// custom claims in caller order.
#[derive(Clone, Debug)]
pub struct ClaimSpec {
    /// Issuer (`iss`), taken verbatim.
    pub iss: Option<String>,
    /// Subject (`sub`), taken verbatim.
    pub sub: Option<String>,
    /// Audience (`aud`), taken verbatim.
    pub aud: Option<String>,
    /// Explicit absolute expiry (`exp`) as absolute-time text.
    pub exp: Option<String>,
    /// Not-before (`nbf`) as absolute-time text.
    pub nbf: Option<String>,
    /// Issued-at (`iat`) as absolute-time text.
    pub iat: Option<String>,
    /// Token identifier (`jti`), taken verbatim.
    pub jti: Option<String>,
    /// Custom claims, in caller order.
    pub claim: Vec<CustomClaim>,
    /// Relative expiry as duration text; takes precedence over `exp`.
    pub expires_in: Option<String>,
    /// Implicit assertion bound into the encryption, not stored in the token.
    pub assertion: Option<String>,
}

/// How the expiry options resolve: a supplied relative duration wins and
/// yields the formatted `now + duration` instant; otherwise a supplied
/// absolute expiry text is validated and taken verbatim; otherwise the claim
/// set is non-expiring (`Ok(None)`).
pub open spec fn expiry_of(cfg: ClaimSpec, now: u64) -> Result<Option<Seq<char>>, BuildError> {
    if cfg.expires_in is Some {
        match duration_secs_of(cfg.expires_in->0@) {
            Some(d) => if now + d <= MAX_UNIX_SECS {
                Ok(Some(rfc3339_of((now + d) as u64)))
            } else {
                Err(BuildError::InvalidDuration)
            },
            None => Err(BuildError::InvalidDuration),
        }
    } else if cfg.exp is Some {
        if rfc3339_parses(cfg.exp->0@) {
            Ok(Some(cfg.exp->0@))
        } else {
            Err(BuildError::InvalidTimestamp)
        }
    } else {
        Ok(None)
    }
}

/// The registered entries of the claim set, in canonical order: the resolved
/// expiry first, then audience, subject, issuer, identifier, issued-at and
/// not-before, each present exactly when supplied.
pub open spec fn registered_entries(cfg: ClaimSpec, expv: Option<Seq<char>>) -> Seq<EntryV> {
    let s0 = Seq::<EntryV>::empty();
    let s1 = if expv is Some {
        s0.push(("exp"@, Some(expv->0)))
    } else {
        s0
    };
    let s2 = if cfg.aud is Some {
        s1.push(("aud"@, Some(cfg.aud->0@)))
    } else {
        s1
    };
    let s3 = if cfg.sub is Some {
        s2.push(("sub"@, Some(cfg.sub->0@)))
    } else {
        s2
    };
    let s4 = if cfg.iss is Some {
        s3.push(("iss"@, Some(cfg.iss->0@)))
    } else {
        s3
    };
    let s5 = if cfg.jti is Some {
        s4.push(("jti"@, Some(cfg.jti->0@)))
    } else {
        s4
    };
    let s6 = if cfg.iat is Some {
        s5.push(("iat"@, Some(cfg.iat->0@)))
    } else {
        s5
    };
    if cfg.nbf is Some {
        s6.push(("nbf"@, Some(cfg.nbf->0@)))
    } else {
        s6
    }
}

/// Whether the supplied time claims are valid absolute-time text.
pub open spec fn time_claims_ok(cfg: ClaimSpec) -> bool {
    &&& (cfg.iat is Some ==> rfc3339_parses(cfg.iat->0@))
    &&& (cfg.nbf is Some ==> rfc3339_parses(cfg.nbf->0@))
}

/// The whole build: resolve the expiry, validate the time claims (issued-at
/// before not-before), assemble the registered entries, and merge the custom
/// claims. The boolean of the result is the non-expiring marker.
pub open spec fn build_spec(cfg: ClaimSpec, now: u64) -> Result<(Seq<EntryV>, bool), BuildError> {
    match expiry_of(cfg, now) {
        Err(e) => Err(e),
        Ok(expv) => if cfg.iat is Some && !rfc3339_parses(cfg.iat->0@) {
            Err(BuildError::InvalidTimestamp)
        } else if cfg.nbf is Some && !rfc3339_parses(cfg.nbf->0@) {
            Err(BuildError::InvalidTimestamp)
        } else {
            match merge_customs(registered_entries(cfg, expv), cfg.claim.deep_view()) {
                Err(e) => Err(e),
                Ok(entries) => Ok((entries, expv is None)),
            }
        },
    }
}

proof fn lemma_registered_props(cfg: ClaimSpec, expv: Option<Seq<char>>)
    ensures
        unique_names(registered_entries(cfg, expv)),
        lookup(registered_entries(cfg, expv), "exp"@) == (match expv {
            Some(t) => Some(Some(t)),
            None => None::<Option<Seq<char>>>,
        }),
{
    lemma_registered_literals_distinct();
    let s0 = Seq::<EntryV>::empty();
    let s1 = if expv is Some {
        s0.push(("exp"@, Some(expv->0)))
    } else {
        s0
    };
    let s2 = if cfg.aud is Some {
        s1.push(("aud"@, Some(cfg.aud->0@)))
    } else {
        s1
    };
    let s3 = if cfg.sub is Some {
        s2.push(("sub"@, Some(cfg.sub->0@)))
    } else {
        s2
    };
    let s4 = if cfg.iss is Some {
        s3.push(("iss"@, Some(cfg.iss->0@)))
    } else {
        s3
    };
    let s5 = if cfg.jti is Some {
        s4.push(("jti"@, Some(cfg.jti->0@)))
    } else {
        s4
    };
    let s6 = if cfg.iat is Some {
        s5.push(("iat"@, Some(cfg.iat->0@)))
    } else {
        s5
    };
    let s7 = if cfg.nbf is Some {
        s6.push(("nbf"@, Some(cfg.nbf->0@)))
    } else {
        s6
    };
    assert(forall|k: int| 0 <= k < s1.len() ==> (#[trigger] s1[k].0) == "exp"@);
    assert(forall|k: int|
        0 <= k < s2.len() ==> (#[trigger] s2[k].0) == "exp"@ || s2[k].0 == "aud"@);
    assert(forall|k: int|
        0 <= k < s3.len() ==> (#[trigger] s3[k].0) == "exp"@ || s3[k].0 == "aud"@ || s3[k].0
            == "sub"@);
    assert(forall|k: int|
        0 <= k < s4.len() ==> (#[trigger] s4[k].0) == "exp"@ || s4[k].0 == "aud"@ || s4[k].0
            == "sub"@ || s4[k].0 == "iss"@);
    assert(forall|k: int|
        0 <= k < s5.len() ==> (#[trigger] s5[k].0) == "exp"@ || s5[k].0 == "aud"@ || s5[k].0
            == "sub"@ || s5[k].0 == "iss"@ || s5[k].0 == "jti"@);
    assert(forall|k: int|
        0 <= k < s6.len() ==> (#[trigger] s6[k].0) == "exp"@ || s6[k].0 == "aud"@ || s6[k].0
            == "sub"@ || s6[k].0 == "iss"@ || s6[k].0 == "jti"@ || s6[k].0 == "iat"@);
    assert(s1.len() <= 1);
    assert(unique_names(s1));
    assert(unique_names(s2));
    assert(unique_names(s3));
    assert(unique_names(s4));
    assert(unique_names(s5));
    assert(unique_names(s6));
    assert(unique_names(s7));
    lemma_lookup_push(s0, ("exp"@, Some(expv->0)), "exp"@);
    lemma_lookup_push(s1, ("aud"@, Some(cfg.aud->0@)), "exp"@);
    lemma_lookup_push(s2, ("sub"@, Some(cfg.sub->0@)), "exp"@);
    lemma_lookup_push(s3, ("iss"@, Some(cfg.iss->0@)), "exp"@);
    lemma_lookup_push(s4, ("jti"@, Some(cfg.jti->0@)), "exp"@);
    lemma_lookup_push(s5, ("iat"@, Some(cfg.iat->0@)), "exp"@);
    lemma_lookup_push(s6, ("nbf"@, Some(cfg.nbf->0@)), "exp"@);
    assert(registered_entries(cfg, expv) == s7);
}

proof fn lemma_lookup_first(entries: Seq<EntryV>, name: Seq<char>, j: int)
    requires
        0 <= j < entries.len(),
        entries[j].0 == name,
        forall|k: int| 0 <= k < j ==> (#[trigger] entries[k].0) != name,
    ensures
        lookup(entries, name) == Some(entries[j].1),
    decreases j,
{
    if j > 0 {
        assert(entries.drop_first()[j - 1] == entries[j]);
        assert forall|k: int|
            0 <= k < j - 1 implies (#[trigger] entries.drop_first()[k].0) != name by {
            assert(entries.drop_first()[k] == entries[k + 1]);
        }
        lemma_lookup_first(entries.drop_first(), name, j - 1);
    }
}

proof fn lemma_lookup_none(entries: Seq<EntryV>, name: Seq<char>)
    requires
        forall|k: int| 0 <= k < entries.len() ==> (#[trigger] entries[k].0) != name,
    ensures
        lookup(entries, name) is None,
    decreases entries.len(),
{
    if entries.len() > 0 {
        assert forall|k: int|
            0 <= k < entries.drop_first().len() implies (#[trigger] entries.drop_first()[k].0)
            != name by {
            assert(entries.drop_first()[k] == entries[k + 1]);
        }
        lemma_lookup_none(entries.drop_first(), name);
    }
}

proof fn lemma_upsert_update(entries: Seq<EntryV>, e: EntryV, j: int)
    requires
        0 <= j < entries.len(),
        entries[j].0 == e.0,
        forall|k: int| 0 <= k < j ==> (#[trigger] entries[k].0) != e.0,
    ensures
        upsert(entries, e) == entries.update(j, e),
    decreases j,
{
    if j == 0 {
        assert(seq![e] + entries.drop_first() =~= entries.update(0, e));
    } else {
        assert(entries.drop_first()[j - 1] == entries[j]);
        assert forall|k: int|
            0 <= k < j - 1 implies (#[trigger] entries.drop_first()[k].0) != e.0 by {
            assert(entries.drop_first()[k] == entries[k + 1]);
        }
        lemma_upsert_update(entries.drop_first(), e, j - 1);
        assert(seq![entries[0]] + entries.drop_first().update(j - 1, e) =~= entries.update(j, e));
    }
}

proof fn lemma_upsert_push_absent(entries: Seq<EntryV>, e: EntryV)
    requires
        forall|k: int| 0 <= k < entries.len() ==> (#[trigger] entries[k].0) != e.0,
    ensures
        upsert(entries, e) == entries.push(e),
    decreases entries.len(),
{
    if entries.len() == 0 {
        assert(seq![e] =~= entries.push(e));
    } else {
        assert forall|k: int|
            0 <= k < entries.drop_first().len() implies (#[trigger] entries.drop_first()[k].0)
            != e.0 by {
            assert(entries.drop_first()[k] == entries[k + 1]);
        }
        lemma_upsert_push_absent(entries.drop_first(), e);
        assert(seq![entries[0]] + entries.drop_first().push(e) =~= entries.push(e));
    }
}

/// An assembled claim set: an ordered list of uniquely named entries and
/// the non-expiring marker.
#[derive(Debug)]
pub struct ClaimSet {
    entries: Vec<CustomClaim>,
    non_expiring: bool,
}

impl View for ClaimSet {
    type V = Seq<EntryV>;

    closed spec fn view(&self) -> Seq<EntryV> {
        self.entries.deep_view()
    }
}

impl ClaimSet {
    /// Whether the set was deliberately built without an expiry entry.
    pub closed spec fn spec_non_expiring(&self) -> bool {
        self.non_expiring
    }

    /// Well-formedness: no two entries share a name.
    pub open spec fn wf(&self) -> bool {
        unique_names(self@)
    }

    /// Whether the set was deliberately built without an expiry entry.
    pub fn is_non_expiring(&self) -> (r: bool)
        ensures
            r == self.spec_non_expiring(),
    {
        self.non_expiring
    }

    /// Number of entries.
    pub fn len(&self) -> (r: usize)
        ensures
            r == self@.len(),
    {
        self.entries.len()
    }

    /// The entry at a position, in claim set order.
    pub fn entry_at(&self, i: usize) -> (r: &CustomClaim)
        requires
            i < self@.len(),
        ensures
            r@ == self@[i as int],
    {
        &self.entries[i]
    }

    /// The value of the claim `name`: `None` when the claim is absent,
    /// `Some(None)` for a present claim with a null value, `Some(Some(text))`
    /// otherwise.
    pub fn get_claim(&self, name: &str) -> (r: Option<Option<String>>)
        ensures
            (match r {
                None => lookup(self@, name@) is None,
                Some(None) => lookup(self@, name@) == Some(None::<Seq<char>>),
                Some(Some(s)) => lookup(self@, name@) == Some(Some(s@)),
            }),
    {
        let n = self.entries.len();
        for i in 0..n
            invariant
                n == self@.len(),
                n == self.entries@.len(),
                forall|k: int| 0 <= k < i ==> (#[trigger] self@[k].0) != name@,
        {
            if str_eq_chars(self.entries[i].0.as_str(), name) {
                proof {
                    lemma_lookup_first(self@, name@, i as int);
                }
                return match &self.entries[i].1 {
                    Some(s) => Some(Some(s.clone())),
                    None => Some(None),
                };
            }
        }
        proof {
            lemma_lookup_none(self@, name@);
        }
        None
    }

    /// Whether the claim `name` is present.
    pub fn contains_claim(&self, name: &str) -> (r: bool)
        ensures
            r == (lookup(self@, name@) is Some),
    {
        match self.get_claim(name) {
            Some(_) => true,
            None => false,
        }
    }
}

fn upsert_into(entries: &mut Vec<CustomClaim>, e: CustomClaim)
    ensures
        final(entries).deep_view() == upsert(old(entries).deep_view(), e@),
{
    let n = entries.len();
    for j in 0..n
        invariant
            entries@ == old(entries)@,
            n == entries@.len(),
            forall|k: int| 0 <= k < j ==> (#[trigger] entries.deep_view()[k].0) != e@.0,
    {
        if str_eq_chars(entries[j].0.as_str(), e.0.as_str()) {
            proof {
                lemma_upsert_update(entries.deep_view(), e@, j as int);
            }
            entries.remove(j);
            entries.insert(j, e);
            proof {
                assert(entries@ =~= old(entries)@.update(j as int, entries@[j as int]));
                assert(entries.deep_view() =~~= old(entries).deep_view().update(j as int, e@));
            }
            return ;
        }
    }
    proof {
        lemma_upsert_push_absent(entries.deep_view(), e@);
    }
    entries.push(e);
    proof {
        assert(entries.deep_view() =~~= old(entries).deep_view().push(e@));
    }
}

/// Assemble the claim set a spec asks for, with `now` as the single
/// authoritative current time (Unix seconds) for the whole build.
///
/// The result is exactly what [`build_spec`] says: the expiry options
/// resolve with the relative duration taking precedence, supplied time
/// claims must parse as absolute-time text, and custom claims merge in
/// caller order with registered names rejected.
pub fn build(cfg: &ClaimSpec, now: u64) -> (r: Result<ClaimSet, BuildError>)
    ensures
        (match r {
            Ok(cs) => build_spec(*cfg, now) == Ok::<(Seq<EntryV>, bool), BuildError>(
                (cs@, cs.spec_non_expiring()),
            ) && cs.wf(),
            Err(e) => build_spec(*cfg, now) == Err::<(Seq<EntryV>, bool), BuildError>(e),
        }),
{
    let mut entries: Vec<CustomClaim> = Vec::new();
    let mut non_expiring = false;
    if let Some(dtext) = &cfg.expires_in {
        match parse_duration_secs(dtext.as_str()) {
            Some(d) => {
                if d <= MAX_UNIX_SECS && now <= MAX_UNIX_SECS - d {
                    let t = format_timestamp(now + d);
                    proof {
                        assert(expiry_of(*cfg, now) == Ok::<Option<Seq<char>>, BuildError>(
                            Some(t@),
                        ));
                    }
                    entries.push(CustomClaim(String::from_str("exp"), Some(t)));
                } else {
                    return Err(BuildError::InvalidDuration);
                }
            },
            None => {
                return Err(BuildError::InvalidDuration);
            },
        }
    } else if let Some(x) = &cfg.exp {
        if timestamp_parses(x.as_str()) {
            proof {
                assert(expiry_of(*cfg, now) == Ok::<Option<Seq<char>>, BuildError>(Some(x@)));
            }
            entries.push(CustomClaim(String::from_str("exp"), Some(x.clone())));
        } else {
            return Err(BuildError::InvalidTimestamp);
        }
    } else {
        non_expiring = true;
        proof {
            assert(expiry_of(*cfg, now) == Ok::<Option<Seq<char>>, BuildError>(
                None::<Seq<char>>,
            ));
        }
    }
    let ghost expv: Option<Seq<char>> = expiry_of(*cfg, now)->Ok_0;
    if let Some(v) = &cfg.aud {
        entries.push(CustomClaim(String::from_str("aud"), Some(v.clone())));
    }
    if let Some(v) = &cfg.sub {
        entries.push(CustomClaim(String::from_str("sub"), Some(v.clone())));
    }
    if let Some(v) = &cfg.iss {
        entries.push(CustomClaim(String::from_str("iss"), Some(v.clone())));
    }
    if let Some(v) = &cfg.jti {
        entries.push(CustomClaim(String::from_str("jti"), Some(v.clone())));
    }
    if let Some(v) = &cfg.iat {
        if !timestamp_parses(v.as_str()) {
            return Err(BuildError::InvalidTimestamp);
        }
        entries.push(CustomClaim(String::from_str("iat"), Some(v.clone())));
    }
    if let Some(v) = &cfg.nbf {
        if !timestamp_parses(v.as_str()) {
            return Err(BuildError::InvalidTimestamp);
        }
        entries.push(CustomClaim(String::from_str("nbf"), Some(v.clone())));
    }
    proof {
        assert(entries.deep_view() =~~= registered_entries(*cfg, expv));
        lemma_registered_props(*cfg, expv);
    }
    let ghost base: Seq<EntryV> = entries.deep_view();
    let ghost customs: Seq<EntryV> = cfg.claim.deep_view();
    proof {
        assert(customs.skip(0) =~= customs);
    }
    let m: usize = cfg.claim.len();
    let mut idx: usize = 0;
    while idx < m
        invariant
            idx <= m,
            m == cfg.claim@.len(),
            customs == cfg.claim.deep_view(),
            customs.len() == m,
            base == registered_entries(*cfg, expv),
            expiry_of(*cfg, now) == Ok::<Option<Seq<char>>, BuildError>(expv),
            time_claims_ok(*cfg),
            non_expiring == (expv is None),
            unique_names(entries.deep_view()),
            merge_customs(base, customs) == merge_customs(
                entries.deep_view(),
                customs.skip(idx as int),
            ),
        decreases m - idx,
    {
        let c = &cfg.claim[idx];
        proof {
            assert(customs[idx as int] == c@);
            assert(customs.skip(idx as int)[0] == customs[idx as int]);
        }
        if is_registered_name(c.0.as_str()) {
            return Err(BuildError::ReservedClaimName);
        }
        let e = CustomClaim(
            c.0.clone(),
            match &c.1 {
                Some(s) => Some(s.clone()),
                None => None,
            },
        );
        proof {
            assert(e@ == c@);
            lemma_upsert_unique(entries.deep_view(), e@);
        }
        upsert_into(&mut entries, e);
        proof {
            assert(customs.skip(idx as int).drop_first() =~= customs.skip(idx as int + 1));
        }
        idx += 1;
    }
    proof {
        assert(customs.skip(m as int) =~= Seq::<EntryV>::empty());
        assert(merge_customs(base, customs) == Ok::<Seq<EntryV>, BuildError>(
            entries.deep_view(),
        ));
    }
    Ok(ClaimSet { entries, non_expiring })
}

/// Precedence law: when a relative expiry duration is supplied and usable,
/// a successful build carries the formatted `now + duration` instant as its
/// expiry entry — never the explicit absolute expiry text, even when both
/// are supplied — and the non-expiring marker is unset.
pub proof fn lemma_relative_expiry_precedence(cfg: ClaimSpec, now: u64, d: u64)
    requires
        cfg.expires_in is Some,
        duration_secs_of(cfg.expires_in->0@) == Some(d),
        now + d <= MAX_UNIX_SECS,
        build_spec(cfg, now) is Ok,
    ensures
        lookup(build_spec(cfg, now)->Ok_0.0, "exp"@) == Some(Some(rfc3339_of((now + d) as u64))),
        !build_spec(cfg, now)->Ok_0.1,
{
    let expv = Some(rfc3339_of((now + d) as u64));
    assert(expiry_of(cfg, now) == Ok::<Option<Seq<char>>, BuildError>(expv));
    let reg = registered_entries(cfg, expv);
    let customs = cfg.claim.deep_view();
    lemma_registered_props(cfg, expv);
    lemma_registered_literals_distinct();
    lemma_merge_ok_no_reserved(reg, customs);
    assert forall|j: int| 0 <= j < customs.len() implies (#[trigger] customs[j].0) != "exp"@ by {
        assert(!is_registered(customs[j].0));
    }
    lemma_merge_preserves_absent(reg, customs, "exp"@);
}

/// Omitted expiry law: with neither expiry option supplied, a successful
/// build carries no expiry entry and its non-expiring marker is set.
pub proof fn lemma_non_expiring(cfg: ClaimSpec, now: u64)
    requires
        cfg.expires_in is None,
        cfg.exp is None,
        build_spec(cfg, now) is Ok,
    ensures
        lookup(build_spec(cfg, now)->Ok_0.0, "exp"@) is None,
        build_spec(cfg, now)->Ok_0.1,
{
    let expv = None::<Seq<char>>;
    assert(expiry_of(cfg, now) == Ok::<Option<Seq<char>>, BuildError>(expv));
    let reg = registered_entries(cfg, expv);
    let customs = cfg.claim.deep_view();
    lemma_registered_props(cfg, expv);
    lemma_registered_literals_distinct();
    lemma_merge_ok_no_reserved(reg, customs);
    assert forall|j: int| 0 <= j < customs.len() implies (#[trigger] customs[j].0) != "exp"@ by {
        assert(!is_registered(customs[j].0));
    }
    lemma_merge_preserves_absent(reg, customs, "exp"@);
}

/// Reserved-name law: a spec holding a custom claim with a registered name
/// never builds; when the expiry and time-claim steps pass, the failure is
/// precisely the reserved-name error.
pub proof fn lemma_reserved_name_rejected(cfg: ClaimSpec, now: u64, i: int)
    requires
        0 <= i < cfg.claim.deep_view().len(),
        is_registered(cfg.claim.deep_view()[i].0),
    ensures
        build_spec(cfg, now) is Err,
        expiry_of(cfg, now) is Ok && time_claims_ok(cfg) ==> build_spec(cfg, now) == Err::<
            (Seq<EntryV>, bool),
            BuildError,
        >(BuildError::ReservedClaimName),
{
    let customs = cfg.claim.deep_view();
    if expiry_of(cfg, now) is Ok && time_claims_ok(cfg) {
        let expv = expiry_of(cfg, now)->Ok_0;
        assert(0 <= i < customs.len() && is_registered(customs[i].0));
        lemma_merge_err_reserved(registered_entries(cfg, expv), customs);
    }
}

/// Custom claim law: a successful build contains `key → value` for a
/// `key=value` entry and `key → null` for a bare `key`; for a repeated
/// custom name, the last occurrence wins.
pub proof fn lemma_custom_claim_present(cfg: ClaimSpec, now: u64, i: int)
    requires
        build_spec(cfg, now) is Ok,
        0 <= i < cfg.claim.deep_view().len(),
        forall|j: int|
            i < j < cfg.claim.deep_view().len() ==> (#[trigger] cfg.claim.deep_view()[j].0)
                != cfg.claim.deep_view()[i].0,
    ensures
        lookup(build_spec(cfg, now)->Ok_0.0, cfg.claim.deep_view()[i].0) == Some(
            cfg.claim.deep_view()[i].1,
        ),
{
    let customs = cfg.claim.deep_view();
    let expv = expiry_of(cfg, now)->Ok_0;
    lemma_merge_last_wins(registered_entries(cfg, expv), customs, i);
}

} // verus!
