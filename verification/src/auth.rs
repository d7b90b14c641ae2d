use vstd::prelude::*;

use crate::codec::{b64url_decode, b64url_decoded, find_char, lemma_find_char_finds, lemma_find_char_skip};
use crate::store::{KeyEntryV, VerificationKeyCache, lookup_multikey};

verus! {

/// Why an authentication attempt failed. None of these is surfaced to the
/// caller individually: access control collapses them all into its deny
/// branch.
#[derive(Clone, Copy, Debug, PartialEq, Eq, Structural)]
pub enum AuthError {
    MissingAuthorization,
    InvalidToken,
    ContentDecodeError,
    UnsupportedAlgorithm,
    InvalidResource,
    InvalidAudience,
    TokenExpired,
    TokenIssuedInFuture,
    VerificationMethodNotFound,
    InvalidSignature,
    SignatureInvalid,
}

/// The claims asserted by a compact signed credential.
pub struct JwtClaims {
    pub iss: String,
    pub aud: String,
    pub lxm: String,
    pub exp: i64,
    pub iat: i64,
}

/// What serde_json makes of a credential header: the `alg` member of the
/// bytes parsed as a JSON object, or `None` where the bytes do not parse
/// into an object with a string `alg`. A function of the bytes alone.
pub uninterp spec fn jwt_header_alg_of(b: Seq<u8>) -> Option<Seq<char>>;

/// What serde_json makes of a credential claims object: its `iss`, `aud`
/// and `lxm` strings and its `exp` and `iat` integers, in that order, or
/// `None` where the bytes do not parse into an object carrying all five.
/// A function of the bytes alone.
pub uninterp spec fn jwt_claims_of(b: Seq<u8>) -> Option<(Seq<char>, Seq<char>, Seq<char>, int, int)>;

/// Relies on serde_json's `from_slice` and `Value` accessors: parses the
/// bytes as a JSON object and hands out its `alg` string.
#[verifier::external_body]
fn parse_header_alg(bytes: &Vec<u8>) -> (r: Option<String>)
    ensures
        r is Some <==> jwt_header_alg_of(bytes@) is Some,
        r is Some ==> r.unwrap()@ == jwt_header_alg_of(bytes@).unwrap(),
{
    let value: serde_json::Value = serde_json::from_slice(bytes).ok()?;
    Some(value.get("alg")?.as_str()?.to_string())
}

/// Relies on serde_json's `from_slice` and `Value` accessors: parses the
/// bytes as a JSON object and hands out its `iss`, `aud` and `lxm` strings
/// and its `exp` and `iat` integers.
#[verifier::external_body]
fn parse_claims(bytes: &Vec<u8>) -> (r: Option<JwtClaims>)
    ensures
        r is Some <==> jwt_claims_of(bytes@) is Some,
        r is Some ==> (jwt_claims_of(bytes@).unwrap()) == (
            r.unwrap().iss@,
            r.unwrap().aud@,
            r.unwrap().lxm@,
            r.unwrap().exp as int,
            r.unwrap().iat as int,
        ),
{
    let value: serde_json::Value = serde_json::from_slice(bytes).ok()?;
    Some(JwtClaims {
        iss: value.get("iss")?.as_str()?.to_string(),
        aud: value.get("aud")?.as_str()?.to_string(),
        lxm: value.get("lxm")?.as_str()?.to_string(),
        exp: value.get("exp")?.as_i64()?,
        iat: value.get("iat")?.as_i64()?,
    })
}

// ---------------------------------------------------------------------------
// Token shape
// ---------------------------------------------------------------------------

/// How a credential text splits on `.`: exactly three non-empty parts, or
/// nothing.
pub open spec fn spec_split_token(s: Seq<char>) -> Option<(Seq<char>, Seq<char>, Seq<char>)> {
    let i1 = find_char(s, '.', 0);
    if i1 < 0 {
        None
    } else {
        let i2 = find_char(s, '.', i1 + 1);
        if i2 < 0 {
            None
        } else if find_char(s, '.', i2 + 1) >= 0 {
            None
        } else if i1 == 0 || i2 == i1 + 1 || i2 == s.len() - 1 {
            None
        } else {
            Some((s.subrange(0, i1), s.subrange(i1 + 1, i2), s.subrange(i2 + 1, s.len() as int)))
        }
    }
}

/// Split a credential into its header, claims and signature segments: the
/// text must hold exactly two dots, none of them at either end or adjacent.
pub fn split_token<'a>(token: &'a str) -> (r: Option<(&'a str, &'a str, &'a str)>)
    ensures
        r is Some <==> spec_split_token(token@) is Some,
        r is Some ==> r.unwrap().0@ == spec_split_token(token@).unwrap().0,
        r is Some ==> r.unwrap().1@ == spec_split_token(token@).unwrap().1,
        r is Some ==> r.unwrap().2@ == spec_split_token(token@).unwrap().2,
{
    let n = token.unicode_len();
    let mut i: usize = 0;
    let mut d1: usize = n;
    let mut d2: usize = n;
    let mut third: bool = false;
    while i < n
        invariant
            n == token@.len(),
            0 <= i <= n,
            d1 <= n,
            d2 <= n,
            d1 == n ==> d2 == n && !third && forall|j: int| 0 <= j < i ==> token@[j] != '.',
            d1 < n ==> d1 < i && token@[d1 as int] == '.' && forall|j: int|
                0 <= j < d1 ==> token@[j] != '.',
            d1 < n && d2 == n ==> !third && forall|j: int| d1 < j < i ==> token@[j] != '.',
            d2 < n ==> d1 < d2 < i && token@[d2 as int] == '.' && forall|j: int|
                d1 < j < d2 ==> token@[j] != '.',
            d2 < n && !third ==> forall|j: int| d2 < j < i ==> token@[j] != '.',
            third ==> d2 < n && exists|j: int| d2 < j < i && token@[j] == '.',
        decreases n - i,
    {
        let c = token.get_char(i);
        if c == '.' {
            if d1 == n {
                d1 = i;
            } else if d2 == n {
                d2 = i;
            } else {
                third = true;
            }
        }
        i = i + 1;
    }
    if d1 == n {
        proof {
            lemma_find_char_skip(token@, '.', 0, n as int);
        }
        return None;
    }
    proof {
        lemma_find_char_skip(token@, '.', 0, d1 as int);
        assert(find_char(token@, '.', 0) == d1 as int);
    }
    if d2 == n {
        proof {
            lemma_find_char_skip(token@, '.', d1 + 1, n as int);
        }
        return None;
    }
    proof {
        lemma_find_char_skip(token@, '.', d1 + 1, d2 as int);
        assert(find_char(token@, '.', d1 + 1) == d2 as int);
    }
    if third {
        proof {
            let j = choose|j: int| d2 < j < n && token@[j] == '.';
            lemma_find_char_finds(token@, '.', d2 + 1, j);
        }
        return None;
    }
    proof {
        lemma_find_char_skip(token@, '.', d2 + 1, n as int);
        assert(find_char(token@, '.', d2 + 1) == -1);
    }
    if d1 == 0 || d2 == d1 + 1 || d2 == n - 1 {
        return None;
    }
    let header = token.substring_char(0, d1);
    let claims = token.substring_char(d1 + 1, d2);
    let signature = token.substring_char(d2 + 1, n);
    Some((header, claims, signature))
}

// ---------------------------------------------------------------------------
// The authentication protocol
// ---------------------------------------------------------------------------

/// The token carried by an `Authorization` header value, which must start
/// with the `Bearer ` scheme prefix.
pub open spec fn spec_strip_bearer(h: Seq<char>) -> Option<Seq<char>> {
    if h.len() >= 7 && h.subrange(0, 7) == "Bearer "@ {
        Some(h.subrange(7, h.len() as int))
    } else {
        None
    }
}

fn strip_bearer<'a>(value: &'a str) -> (r: Option<&'a str>)
    ensures
        r is Some <==> spec_strip_bearer(value@) is Some,
        r is Some ==> r.unwrap()@ == spec_strip_bearer(value@).unwrap(),
{
    let prefix = "Bearer ";
    proof {
        reveal_strlit("Bearer ");
    }
    let n = value.unicode_len();
    if n < 7 {
        return None;
    }
    let mut i: usize = 0;
    while i < 7
        invariant
            0 <= i <= 7,
            n == value@.len(),
            n >= 7,
            prefix@ == "Bearer "@,
            prefix@.len() == 7,
            forall|j: int| 0 <= j < i ==> value@[j] == prefix@[j],
        decreases 7 - i,
    {
        if value.get_char(i) != prefix.get_char(i) {
            proof {
                assert(value@.subrange(0, 7)[i as int] != "Bearer "@[i as int]);
            }
            return None;
        }
        i = i + 1;
    }
    proof {
        assert(value@.subrange(0, 7) =~= "Bearer "@);
    }
    Some(value.substring_char(7, n))
}

/// The audience this deployment expects: its externally visible base
/// identifier in the `did:web` method.
pub open spec fn spec_audience(base: Seq<char>) -> Seq<char> {
    "did:web:"@ + base
}

/// The capability this endpoint requires a credential to name.
pub open spec fn expected_method() -> Seq<char> {
    "app.bsky.feed.getFeedSkeleton"@
}

/// A credential ready for its final step: everything checked except the
/// elliptic-curve signature itself.
pub struct AuthReady {
    pub did: String,
    pub multikey: String,
    pub signature: Vec<u8>,
    pub signing_input: String,
}

pub struct AuthReadyV {
    pub did: Seq<char>,
    pub multikey: Seq<char>,
    pub signature: Seq<u8>,
    pub signing_input: Seq<char>,
}

impl View for AuthReady {
    type V = AuthReadyV;

    open spec fn view(&self) -> AuthReadyV {
        AuthReadyV {
            did: self.did@,
            multikey: self.multikey@,
            signature: self.signature@,
            signing_input: self.signing_input@,
        }
    }
}

pub open spec fn opt_str_view(o: Option<&str>) -> Option<Seq<char>> {
    match o {
        None => None,
        Some(s) => Some(s@),
    }
}

/// The whole protocol short of the signature check, as a function of the
/// cached keys, the deployment base, the clock and the header value.
pub open spec fn spec_authenticate(
    keys: Seq<KeyEntryV>,
    base: Seq<char>,
    now: i64,
    authorization: Option<Seq<char>>,
) -> Result<AuthReadyV, AuthError> {
    match authorization {
        None => Err(AuthError::MissingAuthorization),
        Some(h) => match spec_strip_bearer(h) {
            None => Err(AuthError::MissingAuthorization),
            Some(tok) => match spec_split_token(tok) {
                None => Err(AuthError::InvalidToken),
                Some(parts) => match b64url_decoded(parts.0) {
                    None => Err(AuthError::ContentDecodeError),
                    Some(hb) => match jwt_header_alg_of(hb) {
                        None => Err(AuthError::ContentDecodeError),
                        Some(alg) => match b64url_decoded(parts.1) {
                            None => Err(AuthError::ContentDecodeError),
                            Some(cb) => match jwt_claims_of(cb) {
                                None => Err(AuthError::ContentDecodeError),
                                Some(c) => if alg != "ES256K"@ {
                                    Err(AuthError::UnsupportedAlgorithm)
                                } else if c.2 != expected_method() {
                                    Err(AuthError::InvalidResource)
                                } else if c.1 != spec_audience(base) {
                                    Err(AuthError::InvalidAudience)
                                } else if c.3 < now as int {
                                    Err(AuthError::TokenExpired)
                                } else if c.4 > now as int {
                                    Err(AuthError::TokenIssuedInFuture)
                                } else {
                                    match lookup_multikey(keys, c.0) {
                                        None => Err(AuthError::VerificationMethodNotFound),
                                        Some(mk) => match b64url_decoded(parts.2) {
                                            None => Err(AuthError::InvalidSignature),
                                            Some(sig) => Ok(AuthReadyV {
                                                did: c.0,
                                                multikey: mk,
                                                signature: sig,
                                                signing_input: parts.0 + seq!['.'] + parts.1,
                                            }),
                                        },
                                    }
                                },
                            },
                        },
                    },
                },
            },
        },
    }
}

/// Decode and validate a compact signed credential from an `Authorization`
/// header value and resolve the signer's key material, leaving only the
/// signature check to perform over `signing_input` and `multikey`.
pub fn authenticate(
    cache: &VerificationKeyCache,
    external_base: &str,
    now: i64,
    authorization: Option<&str>,
) -> (r: Result<AuthReady, AuthError>)
    ensures
        match r {
            Ok(ready) => spec_authenticate(cache@, external_base@, now, opt_str_view(authorization))
                == Ok::<AuthReadyV, AuthError>(ready@),
            Err(e) => spec_authenticate(cache@, external_base@, now, opt_str_view(authorization))
                == Err::<AuthReadyV, AuthError>(e),
        },
{
    let value = match authorization {
        None => {
            return Err(AuthError::MissingAuthorization);
        },
        Some(v) => v,
    };
    let jwt = match strip_bearer(value) {
        None => {
            return Err(AuthError::MissingAuthorization);
        },
        Some(t) => t,
    };
    let parts = match split_token(jwt) {
        None => {
            return Err(AuthError::InvalidToken);
        },
        Some(p) => p,
    };
    let (header_part, claims_part, signature_part) = parts;
    let header_bytes = match b64url_decode(header_part) {
        None => {
            return Err(AuthError::ContentDecodeError);
        },
        Some(b) => b,
    };
    let alg = match parse_header_alg(&header_bytes) {
        None => {
            return Err(AuthError::ContentDecodeError);
        },
        Some(a) => a,
    };
    let claims_bytes = match b64url_decode(claims_part) {
        None => {
            return Err(AuthError::ContentDecodeError);
        },
        Some(b) => b,
    };
    let claims = match parse_claims(&claims_bytes) {
        None => {
            return Err(AuthError::ContentDecodeError);
        },
        Some(c) => c,
    };
    let expected_alg: String = "ES256K".to_owned();
    if !(alg == expected_alg) {
        return Err(AuthError::UnsupportedAlgorithm);
    }
    let expected_lxm: String = "app.bsky.feed.getFeedSkeleton".to_owned();
    if !(claims.lxm == expected_lxm) {
        return Err(AuthError::InvalidResource);
    }
    let mut audience: String = "did:web:".to_owned();
    audience.append(external_base);
    if !(claims.aud == audience) {
        return Err(AuthError::InvalidAudience);
    }
    if claims.exp < now {
        return Err(AuthError::TokenExpired);
    }
    if claims.iat > now {
        return Err(AuthError::TokenIssuedInFuture);
    }
    let multikey = match cache.verification_method_get(claims.iss.as_str()) {
        None => {
            return Err(AuthError::VerificationMethodNotFound);
        },
        Some(mk) => mk,
    };
    let signature = match b64url_decode(signature_part) {
        None => {
            return Err(AuthError::InvalidSignature);
        },
        Some(s) => s,
    };
    let mut signing_input: String = header_part.to_owned();
    signing_input.append(".");
    signing_input.append(claims_part);
    proof {
        reveal_strlit(".");
        assert("."@ =~= seq!['.']);
        assert(signing_input@ == header_part@ + seq!['.'] + claims_part@);
    }
    Ok(AuthReady { did: claims.iss, multikey, signature, signing_input })
}

/// The final protocol step: fold in the outcome of the elliptic-curve
/// signature check performed over `signing_input` with `multikey`. A valid
/// signature authenticates the issuer; anything else is SignatureInvalid.
pub fn finish_authentication(ready: AuthReady, signature_valid: bool) -> (r: Result<
    String,
    AuthError,
>)
    ensures
        signature_valid ==> r is Ok && r.unwrap()@ == ready.did@,
        !signature_valid ==> r == Err::<String, AuthError>(AuthError::SignatureInvalid),
{
    if signature_valid {
        Ok(ready.did)
    } else {
        Err(AuthError::SignatureInvalid)
    }
}

// ---------------------------------------------------------------------------
// Laws of the protocol
// ---------------------------------------------------------------------------

/// For every header value carrying a well-formed credential whose claims
/// name the expected algorithm, method and audience, whose expiry is no
/// earlier than the clock and whose issue time is no later, and whose
/// issuer's key material is cached, the protocol reaches the signature step
/// with exactly the issuer as the candidate identity.
pub proof fn lemma_valid_credential_authenticates(
    keys: Seq<KeyEntryV>,
    base: Seq<char>,
    now: i64,
    h: Seq<char>,
    hp: Seq<char>,
    cp: Seq<char>,
    sp: Seq<char>,
    alg: Seq<char>,
    c: (Seq<char>, Seq<char>, Seq<char>, int, int),
    mk: Seq<char>,
)
    requires
        spec_strip_bearer(h) is Some,
        spec_split_token(spec_strip_bearer(h).unwrap()) == Some((hp, cp, sp)),
        b64url_decoded(hp) is Some,
        jwt_header_alg_of(b64url_decoded(hp).unwrap()) == Some(alg),
        b64url_decoded(cp) is Some,
        jwt_claims_of(b64url_decoded(cp).unwrap()) == Some(c),
        alg == "ES256K"@,
        c.2 == expected_method(),
        c.1 == spec_audience(base),
        c.3 >= now as int,
        c.4 <= now as int,
        lookup_multikey(keys, c.0) == Some(mk),
        b64url_decoded(sp) is Some,
    ensures
        spec_authenticate(keys, base, now, Some(h)) == Ok::<AuthReadyV, AuthError>(AuthReadyV {
            did: c.0,
            multikey: mk,
            signature: b64url_decoded(sp).unwrap(),
            signing_input: hp + seq!['.'] + cp,
        }),
{
}

/// A credential whose expiry lies strictly before the clock fails with
/// TokenExpired whatever its issue time, the cached keys and the signature
/// hold, provided it decodes and its algorithm, method and audience pass
/// the checks made before the expiry one.
pub proof fn lemma_expired_credential_fails(
    keys: Seq<KeyEntryV>,
    base: Seq<char>,
    now: i64,
    h: Seq<char>,
    hp: Seq<char>,
    cp: Seq<char>,
    sp: Seq<char>,
    alg: Seq<char>,
    c: (Seq<char>, Seq<char>, Seq<char>, int, int),
)
    requires
        spec_strip_bearer(h) is Some,
        spec_split_token(spec_strip_bearer(h).unwrap()) == Some((hp, cp, sp)),
        b64url_decoded(hp) is Some,
        jwt_header_alg_of(b64url_decoded(hp).unwrap()) == Some(alg),
        b64url_decoded(cp) is Some,
        jwt_claims_of(b64url_decoded(cp).unwrap()) == Some(c),
        alg == "ES256K"@,
        c.2 == expected_method(),
        c.1 == spec_audience(base),
        c.3 < now as int,
    ensures
        spec_authenticate(keys, base, now, Some(h)) == Err::<AuthReadyV, AuthError>(
            AuthError::TokenExpired,
        ),
{
}

} // verus!
