use songbattle::clock::{millis_of, secs_of};
use songbattle::oauth::{
    authorize_url, challenge_of, exchange_code_pairs, expiry_at, expiry_from, pkce, random_state,
    redirect_uri, refresh_pairs, token_url, PORT,
};

// RFC 7636 §A known vector.
#[test]
fn pkce_challenge_matches_rfc7636_vector() {
    let verifier = "dBjftJeZ4CVP-mB92K27uhbUJU1p1r_wW1gFWFOEjXk";
    assert_eq!(
        challenge_of(verifier),
        "E9Melhoa2OwvFrEMTJguCHaoeK1t8URWbuGJSstw-cM"
    );
}

#[test]
fn pkce_generates_a_fresh_pair_each_call() {
    let (v1, c1) = pkce();
    let (v2, _c2) = pkce();
    assert_eq!(v1.len(), 43); // 32 bytes, base64url no-pad
    assert_eq!(c1.len(), 43); // sha256 digest is also 32 bytes
    assert_ne!(v1, v2, "verifier must be random per call");
    assert_eq!(
        challenge_of(&v1),
        c1,
        "authorize_url must send the challenge matching this verifier"
    );
}

#[test]
fn authorize_url_contains_all_required_params() {
    let url = authorize_url(
        "cid",
        "http://localhost:31337/oauth/callback",
        "user:read channel:read",
        "st4te",
        "chall",
    );
    assert!(url.starts_with("https://id.kick.com/oauth/authorize?"));
    for pair in [
        "response_type=code",
        "client_id=cid",
        "state=st4te",
        "code_challenge=chall",
        "code_challenge_method=S256",
    ] {
        assert!(url.contains(pair), "missing `{pair}` in {url}");
    }
    // redirect_uri / scope are form-encoded on the wire — assert via a
    // decoded round trip instead of a raw substring match.
    let parsed = url::Url::parse(&url).unwrap();
    let pairs: std::collections::HashMap<_, _> = parsed.query_pairs().into_owned().collect();
    assert_eq!(
        pairs.get("redirect_uri").map(String::as_str),
        Some("http://localhost:31337/oauth/callback")
    );
    assert_eq!(
        pairs.get("scope").map(String::as_str),
        Some("user:read channel:read")
    );
}

#[test]
fn redirect_uri_uses_the_server_port() {
    assert_eq!(
        redirect_uri(),
        format!("http://localhost:{}/oauth/callback", PORT)
    );
}

#[test]
fn random_state_is_nonempty_and_random() {
    let a = random_state();
    let b = random_state();
    assert!(!a.is_empty());
    assert_ne!(a, b);
}

#[test]
fn expiry_from_adds_the_relative_seconds() {
    let a = expiry_from(0);
    let b = expiry_from(120);
    assert_eq!(b - a, 120);
}

// ── further cases ──────────────────────────────────────────────────────────
#[test]
fn expiry_at_adds_exactly() {
    assert_eq!(expiry_at(1_700_000_000, 3600), 1_700_003_600);
    assert_eq!(expiry_at(0, 0), 0);
}

#[test]
fn expiry_at_wraps_past_the_top() {
    assert_eq!(expiry_at(u64::MAX, 2), 1);
    assert_eq!(expiry_at(i64::MAX as u64, 1), i64::MIN);
}

#[test]
fn clock_readings_before_the_epoch_read_zero() {
    assert_eq!(secs_of(None), 0);
    assert_eq!(secs_of(Some(1_700_000_000)), 1_700_000_000);
    assert_eq!(millis_of(None), 0);
    assert_eq!(millis_of(Some(1_700_000_000_123)), 1_700_000_000_123);
}

#[test]
fn random_state_encodes_sixteen_bytes() {
    assert_eq!(random_state().len(), 22);
}

#[test]
fn token_requests_carry_their_fields_in_order() {
    let p = exchange_code_pairs("cid", "sec", "c0de", "http://localhost:31337/oauth/callback", "ver");
    let keys: Vec<&str> = p.iter().map(|(k, _)| k.as_str()).collect();
    assert_eq!(
        keys,
        ["grant_type", "client_id", "client_secret", "code", "redirect_uri", "code_verifier"]
    );
    assert_eq!(p[0].1, "authorization_code");
    assert_eq!(p[3].1, "c0de");
    assert_eq!(p[5].1, "ver");
    let r = refresh_pairs("cid", "sec", "RT");
    assert_eq!(r[0], ("grant_type".to_string(), "refresh_token".to_string()));
    assert_eq!(r[3], ("refresh_token".to_string(), "RT".to_string()));
    assert_eq!(token_url(), "https://id.kick.com/oauth/token");
}

#[test]
fn authorize_url_encodes_reserved_characters() {
    let url = authorize_url("c&d", "r", "a b", "s", "x");
    assert!(url.contains("client_id=c%26d"));
    assert!(url.contains("scope=a+b"));
    assert!(!url.contains(' '));
}
