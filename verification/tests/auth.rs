use base64::Engine;
use supercell::auth::{authenticate, finish_authentication, split_token, AuthError, AuthReady};
use supercell::store::VerificationKeyCache;

fn b64url(data: &str) -> String {
    base64::engine::general_purpose::URL_SAFE_NO_PAD.encode(data.as_bytes())
}

fn make_token(header: &str, claims: &str, signature: &str) -> String {
    format!("{}.{}.{}", b64url(header), b64url(claims), b64url(signature))
}

fn good_header() -> &'static str {
    "{\"alg\":\"ES256K\"}"
}

fn claims_json(iss: &str, aud: &str, lxm: &str, exp: i64, iat: i64) -> String {
    format!(
        "{{\"iss\":\"{}\",\"aud\":\"{}\",\"lxm\":\"{}\",\"exp\":{},\"iat\":{}}}",
        iss, aud, lxm, exp, iat
    )
}

fn good_claims() -> String {
    claims_json(
        "did:plc:qadlgs4xioohnhi2jg54mqds",
        "did:web:feeds.example.com",
        "app.bsky.feed.getFeedSkeleton",
        1_800_000_000,
        1_700_000_000,
    )
}

const NOW: i64 = 1_750_000_000;

fn cache_with_key() -> VerificationKeyCache {
    let mut cache = VerificationKeyCache::new();
    cache.verifcation_method_insert(
        "did:plc:qadlgs4xioohnhi2jg54mqds",
        "zQ3shokFTS3brHcDQrn82RUDfCZESWL1ZdCEJwekUDPQiYBme",
        NOW,
    );
    cache
}

fn expect_err(r: Result<AuthReady, AuthError>) -> AuthError {
    match r {
        Ok(_) => panic!("expected authentication to fail"),
        Err(e) => e,
    }
}

#[test]
fn valid_credential_authenticates_as_issuer() {
    let cache = cache_with_key();
    let token = make_token(good_header(), &good_claims(), "sig-bytes");
    let header_value = format!("Bearer {}", token);
    let r = authenticate(&cache, "feeds.example.com", NOW, Some(&header_value));
    match r {
        Ok(ready) => {
            assert_eq!(ready.did, "did:plc:qadlgs4xioohnhi2jg54mqds");
            assert_eq!(
                ready.multikey,
                "zQ3shokFTS3brHcDQrn82RUDfCZESWL1ZdCEJwekUDPQiYBme"
            );
            assert_eq!(ready.signature, b"sig-bytes".to_vec());
            let expected_input =
                format!("{}.{}", b64url(good_header()), b64url(&good_claims()));
            assert_eq!(ready.signing_input, expected_input);

            let authenticated = finish_authentication(ready, true);
            assert_eq!(
                authenticated,
                Ok("did:plc:qadlgs4xioohnhi2jg54mqds".to_string())
            );
        }
        Err(_) => panic!("expected authentication to reach the signature step"),
    }
}

#[test]
fn invalid_signature_outcome_is_rejected() {
    let cache = cache_with_key();
    let token = make_token(good_header(), &good_claims(), "sig-bytes");
    let header_value = format!("Bearer {}", token);
    let r = authenticate(&cache, "feeds.example.com", NOW, Some(&header_value));
    match r {
        Ok(ready) => {
            assert_eq!(
                finish_authentication(ready, false),
                Err(AuthError::SignatureInvalid)
            );
        }
        Err(_) => panic!("expected authentication to reach the signature step"),
    }
}

#[test]
fn missing_header_is_rejected() {
    let cache = cache_with_key();
    let r = authenticate(&cache, "feeds.example.com", NOW, None);
    assert_eq!(expect_err(r), AuthError::MissingAuthorization);
}

#[test]
fn header_without_bearer_prefix_is_rejected() {
    let cache = cache_with_key();
    let token = make_token(good_header(), &good_claims(), "sig-bytes");
    let r = authenticate(&cache, "feeds.example.com", NOW, Some(&token));
    assert_eq!(expect_err(r), AuthError::MissingAuthorization);
}

#[test]
fn token_with_wrong_part_count_is_rejected() {
    let cache = cache_with_key();
    let header_value = format!("Bearer {}.{}", b64url(good_header()), b64url(&good_claims()));
    let r = authenticate(&cache, "feeds.example.com", NOW, Some(&header_value));
    assert_eq!(expect_err(r), AuthError::InvalidToken);
}

#[test]
fn undecodable_claims_are_rejected() {
    let cache = cache_with_key();
    let token = make_token(good_header(), "not json at all", "sig-bytes");
    let header_value = format!("Bearer {}", token);
    let r = authenticate(&cache, "feeds.example.com", NOW, Some(&header_value));
    assert_eq!(expect_err(r), AuthError::ContentDecodeError);
}

#[test]
fn unsupported_algorithm_is_rejected() {
    let cache = cache_with_key();
    let token = make_token("{\"alg\":\"RS256\"}", &good_claims(), "sig-bytes");
    let header_value = format!("Bearer {}", token);
    let r = authenticate(&cache, "feeds.example.com", NOW, Some(&header_value));
    assert_eq!(expect_err(r), AuthError::UnsupportedAlgorithm);
}

#[test]
fn wrong_method_is_rejected() {
    let cache = cache_with_key();
    let claims = claims_json(
        "did:plc:qadlgs4xioohnhi2jg54mqds",
        "did:web:feeds.example.com",
        "app.bsky.feed.getTimeline",
        1_800_000_000,
        1_700_000_000,
    );
    let header_value = format!("Bearer {}", make_token(good_header(), &claims, "s"));
    let r = authenticate(&cache, "feeds.example.com", NOW, Some(&header_value));
    assert_eq!(expect_err(r), AuthError::InvalidResource);
}

#[test]
fn wrong_audience_is_rejected() {
    let cache = cache_with_key();
    let claims = claims_json(
        "did:plc:qadlgs4xioohnhi2jg54mqds",
        "did:web:other.example.com",
        "app.bsky.feed.getFeedSkeleton",
        1_800_000_000,
        1_700_000_000,
    );
    let header_value = format!("Bearer {}", make_token(good_header(), &claims, "s"));
    let r = authenticate(&cache, "feeds.example.com", NOW, Some(&header_value));
    assert_eq!(expect_err(r), AuthError::InvalidAudience);
}

#[test]
fn expired_credential_is_rejected() {
    let cache = cache_with_key();
    let claims = claims_json(
        "did:plc:qadlgs4xioohnhi2jg54mqds",
        "did:web:feeds.example.com",
        "app.bsky.feed.getFeedSkeleton",
        NOW - 1,
        1_700_000_000,
    );
    let header_value = format!("Bearer {}", make_token(good_header(), &claims, "s"));
    let r = authenticate(&cache, "feeds.example.com", NOW, Some(&header_value));
    assert_eq!(expect_err(r), AuthError::TokenExpired);
}

#[test]
fn credential_expiring_now_is_accepted() {
    let cache = cache_with_key();
    let claims = claims_json(
        "did:plc:qadlgs4xioohnhi2jg54mqds",
        "did:web:feeds.example.com",
        "app.bsky.feed.getFeedSkeleton",
        NOW,
        1_700_000_000,
    );
    let header_value = format!("Bearer {}", make_token(good_header(), &claims, "s"));
    let r = authenticate(&cache, "feeds.example.com", NOW, Some(&header_value));
    assert!(r.is_ok());
}

#[test]
fn credential_issued_in_the_future_is_rejected() {
    let cache = cache_with_key();
    let claims = claims_json(
        "did:plc:qadlgs4xioohnhi2jg54mqds",
        "did:web:feeds.example.com",
        "app.bsky.feed.getFeedSkeleton",
        1_800_000_000,
        NOW + 1,
    );
    let header_value = format!("Bearer {}", make_token(good_header(), &claims, "s"));
    let r = authenticate(&cache, "feeds.example.com", NOW, Some(&header_value));
    assert_eq!(expect_err(r), AuthError::TokenIssuedInFuture);
}

#[test]
fn unknown_issuer_is_rejected() {
    let cache = VerificationKeyCache::new();
    let token = make_token(good_header(), &good_claims(), "sig-bytes");
    let header_value = format!("Bearer {}", token);
    let r = authenticate(&cache, "feeds.example.com", NOW, Some(&header_value));
    assert_eq!(expect_err(r), AuthError::VerificationMethodNotFound);
}

#[test]
fn undecodable_signature_segment_is_rejected() {
    let cache = cache_with_key();
    let token = format!("{}.{}.%%%", b64url(good_header()), b64url(&good_claims()));
    let header_value = format!("Bearer {}", token);
    let r = authenticate(&cache, "feeds.example.com", NOW, Some(&header_value));
    assert_eq!(expect_err(r), AuthError::InvalidSignature);
}

#[test]
fn split_token_accepts_three_parts() {
    let parts = split_token("aa.bb.cc").expect("three parts");
    assert_eq!(parts, ("aa", "bb", "cc"));
}

#[test]
fn split_token_rejects_other_counts() {
    assert!(split_token("aa.bb").is_none());
    assert!(split_token("aa.bb.cc.dd").is_none());
    assert!(split_token("aabbcc").is_none());
    assert!(split_token("..").is_none());
    assert!(split_token(".bb.cc").is_none());
    assert!(split_token("aa.bb.").is_none());
}
