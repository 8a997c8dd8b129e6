use financial_rag::auth::{
    accept_claims, accept_claims_now, admission, bearer_token, Admission, claims_text, sign_token, verify_signature, AuthFailure,
    AuthService, Claims, RateLimiter, RATE_WINDOW_NANOS,
};
use financial_rag::config::AuthConfig;
use base64::Engine;
use hmac::Mac;

fn config(hours: i64, limit: u32) -> AuthConfig {
    AuthConfig {
        enabled: true,
        jwt_secret: "unit-test-secret".to_string(),
        jwt_expiry_hours: hours,
        rate_limit_per_minute: limit,
    }
}

#[test]
fn claims_serialize_in_field_order() {
    assert_eq!(claims_text("alice", 100, 10), "{\"sub\":\"alice\",\"exp\":100,\"iat\":10}");
    assert_eq!(claims_text("a\"b\\c\n", -5, 0), "{\"sub\":\"a\\\"b\\\\c\\n\",\"exp\":-5,\"iat\":0}");
    assert_eq!(
        claims_text("\u{8}\t\u{c}\r\u{1}\u{1f} \u{e9}", 1, 2),
        "{\"sub\":\"\\b\\t\\f\\r\\u0001\\u001f \u{e9}\",\"exp\":1,\"iat\":2}"
    );
}

#[test]
fn signed_token_has_header_payload_and_signature() {
    let token = sign_token("k", "{\"sub\":\"alice\"}");
    let parts: Vec<&str> = token.split('.').collect();
    assert_eq!(parts.len(), 3);
    assert_eq!(parts[0], "eyJhbGciOiJIUzI1NiIsInR5cCI6IkpXVCJ9");
    assert_eq!(parts[1], "eyJzdWIiOiJhbGljZSJ9");
    let mut mac = hmac::Hmac::<sha2::Sha256>::new_from_slice(b"k").unwrap();
    mac.update(format!("{}.{}", parts[0], parts[1]).as_bytes());
    let tag = mac.finalize().into_bytes();
    assert_eq!(parts[2], base64::engine::general_purpose::URL_SAFE_NO_PAD.encode(tag));
}

#[test]
fn a_signed_token_verifies_to_its_payload() {
    let token = sign_token("secret", "{\"sub\":\"bob\",\"exp\":5,\"iat\":1}");
    let payload = verify_signature("secret", &token).unwrap();
    assert_eq!(payload, b"{\"sub\":\"bob\",\"exp\":5,\"iat\":1}".to_vec());
}

#[test]
fn a_token_under_another_secret_is_refused() {
    let token = sign_token("secret", "{}");
    assert!(verify_signature("other", &token).is_none());
}

#[test]
fn a_tampered_or_malformed_token_is_refused() {
    let token = sign_token("secret", "{\"sub\":\"bob\"}");
    let parts: Vec<&str> = token.split('.').collect();
    let forged = format!("{}.{}.{}", parts[0], "eyJzdWIiOiJldmUifQ", parts[2]);
    assert!(verify_signature("secret", &forged).is_none());
    assert!(verify_signature("secret", "a.b").is_none());
    assert!(verify_signature("secret", "a.b.c.d").is_none());
    assert!(verify_signature("secret", &format!("{}.!!", token)).is_none());
    assert!(verify_signature("secret", &format!("{}.{}.{}=", parts[0], parts[1], parts[2])).is_none());
    assert!(verify_signature("secret", "").is_none());
}

#[test]
fn issued_token_carries_the_expected_claims() {
    let service = AuthService::new(config(24, 60));
    let token = service.issue_token_at("carol", 1_000_000);
    let payload = service.verify_payload(&token).unwrap();
    let value: serde_json::Value = serde_json::from_slice(&payload).unwrap();
    assert_eq!(value["sub"], "carol");
    assert_eq!(value["iat"], 1_000_000);
    assert_eq!(value["exp"], 1_000_000 + 24 * 3600);
}

#[test]
fn issue_token_uses_the_current_time() {
    let service = AuthService::new(config(1, 60));
    let token = service.issue_token("dave").unwrap();
    let payload = service.verify_payload(&token).unwrap();
    let value: serde_json::Value = serde_json::from_slice(&payload).unwrap();
    let iat = value["iat"].as_i64().unwrap();
    assert!(iat > 1_600_000_000);
    assert_eq!(value["exp"].as_i64().unwrap(), iat + 3600);
}

#[test]
fn expiry_out_of_range_is_refused() {
    let service = AuthService::new(config(i64::MAX, 60));
    assert!(!service.expiry_fits_at(0));
    assert!(service.issue_token("eve").is_err());
    let service = AuthService::new(config(24, 60));
    assert!(service.expiry_fits_at(0));
    assert!(!service.expiry_fits_at(8210266876799));
    assert!(service.expiry_fits_at(8210266876799 - 24 * 3600));
}

#[test]
fn expired_claims_are_rejected() {
    let claims = Claims { sub: "x".to_string(), exp: 100, iat: 0 };
    assert!(accept_claims(claims.clone(), 100).is_some());
    assert!(accept_claims(claims.clone(), 99).is_some());
    assert!(accept_claims(claims, 101).is_none());
}

#[test]
fn rate_limit_allows_the_first_requests_of_a_window() {
    let mut limiter = RateLimiter::new();
    assert!(limiter.check("u", 0, 2));
    assert!(limiter.check("u", 1, 2));
    assert!(!limiter.check("u", 2, 2));
    assert!(!limiter.check("u", RATE_WINDOW_NANOS, 2));
    assert_eq!(limiter.count_before("u", RATE_WINDOW_NANOS), 4);
    assert!(limiter.check("v", 3, 2));
    assert_eq!(limiter.count_before("u", RATE_WINDOW_NANOS), 4);
    assert!(limiter.check("u", RATE_WINDOW_NANOS + 1, 2));
    assert_eq!(limiter.count_before("u", RATE_WINDOW_NANOS + 1), 1);
}

#[test]
fn rate_limit_through_the_service() {
    let mut service = AuthService::new(config(24, 1));
    assert!(service.check_rate_limit("u", 10));
    assert!(!service.check_rate_limit("u", 20));
    assert_eq!(service.request_count("u", 30), 2);
    assert!(service.enabled());
}

#[test]
fn bearer_header_parsing() {
    assert_eq!(bearer_token(None).unwrap_err(), AuthFailure::MissingHeader);
    assert_eq!(bearer_token(Some("Basic abc")).unwrap_err(), AuthFailure::InvalidScheme);
    assert_eq!(bearer_token(Some("bearer abc")).unwrap_err(), AuthFailure::InvalidScheme);
    assert_eq!(bearer_token(Some("Bearer")).unwrap_err(), AuthFailure::InvalidScheme);
    assert_eq!(bearer_token(Some("Bearer abc.def")).unwrap(), "abc.def");
    assert_eq!(bearer_token(Some("Bearer ")).unwrap(), "");
}

#[test]
fn refusal_status_and_messages() {
    assert_eq!(AuthFailure::MissingHeader.status(), 401);
    assert_eq!(AuthFailure::InvalidScheme.status(), 401);
    assert_eq!(AuthFailure::InvalidToken.status(), 401);
    assert_eq!(AuthFailure::RateLimited.status(), 429);
    assert_eq!(AuthFailure::MissingHeader.message(), "Missing Authorization header");
    assert_eq!(AuthFailure::InvalidScheme.message(), "Invalid auth scheme");
    assert_eq!(AuthFailure::InvalidToken.message(), "Invalid or expired token");
    assert_eq!(AuthFailure::RateLimited.message(), "Rate limit exceeded");
}

#[test]
fn admission_steps() {
    assert!(matches!(admission(false, None), Admission::Pass));
    assert!(matches!(admission(false, Some("junk")), Admission::Pass));
    assert!(matches!(admission(true, None), Admission::Refuse(AuthFailure::MissingHeader)));
    assert!(matches!(admission(true, Some("Token x")), Admission::Refuse(AuthFailure::InvalidScheme)));
    match admission(true, Some("Bearer t.o.k")) {
        Admission::Verify(t) => assert_eq!(t, "t.o.k"),
        other => panic!("unexpected {:?}", other),
    }
}

#[test]
fn claims_are_checked_against_the_clock() {
    let old = Claims { sub: "x".to_string(), exp: 1_000, iat: 0 };
    assert!(accept_claims_now(old).is_none());
    let fresh = Claims { sub: "y".to_string(), exp: i64::MAX, iat: 0 };
    assert_eq!(accept_claims_now(fresh).unwrap().sub, "y");
}

#[test]
fn a_new_window_with_a_zero_limit_refuses() {
    let mut limiter = RateLimiter::new();
    assert!(!limiter.check("u", 0, 0));
    assert!(!limiter.check("u", RATE_WINDOW_NANOS + 5, 0));
    assert_eq!(limiter.count_before("u", RATE_WINDOW_NANOS + 5), 1);
}

#[test]
fn issue_token_succeeds_when_every_clock_reading_fits() {
    let service = AuthService::new(config(0, 1));
    assert!(service.issue_token("alice").is_ok());
    let service = AuthService::new(config(-1000, 1));
    assert!(service.issue_token("alice").is_ok());
}

#[test]
fn expiry_stops_at_the_first_day_chrono_holds() {
    let service = AuthService::new(config(-2315167008, 60));
    assert!(service.expiry_fits_at(0));
    assert!(service.issue_token("alice").is_ok());
    let service = AuthService::new(config(-2315167009, 60));
    assert!(!service.expiry_fits_at(0));
}

#[test]
fn authorization_after_the_token_check() {
    let mut service = AuthService::new(config(24, 1));
    assert_eq!(service.authorize(None, 0), Err(AuthFailure::InvalidToken));
    assert_eq!(service.request_count("alice", 0), 0);
    let claims = Claims { sub: "alice".to_string(), exp: 100, iat: 0 };
    assert_eq!(service.authorize(Some(claims.clone()), 1), Ok("alice".to_string()));
    assert_eq!(service.authorize(Some(claims), 2), Err(AuthFailure::RateLimited));
    assert_eq!(service.request_count("alice", 3), 2);
}
