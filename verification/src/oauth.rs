//! Official Kick OAuth 2.1 + PKCE helpers: the PKCE pair, the CSRF state,
//! the loopback redirect URI, the authorize URL, and token expiry.

use vstd::prelude::*;

use crate::clock::now_secs;
use crate::error::msg;
use crate::media::byte_serialized;
use crate::text::{chars_of, chars_of_string, decimal, decimal_u64, string_of};

verus! {

/// The overlay server's loopback port (also the OAuth redirect target).
pub const PORT: u16 = 31337;

pub const AUTHORIZE_URL: &'static str = "https://id.kick.com/oauth/authorize";

pub const TOKEN_URL: &'static str = "https://id.kick.com/oauth/token";

/// A token endpoint response.
#[derive(Debug, Clone)]
pub struct Tokens {
    pub access_token: String,
    /// `None` means "keep the refresh token already stored".
    pub refresh_token: Option<String>,
    pub expires_in: u64,
}

/// What `sha2::Sha256::digest` computes for `data`.
pub uninterp spec fn sha256_of(data: Seq<u8>) -> Seq<u8>;

/// The URL-safe base64 digit of a 6-bit value: `A`-`Z`, `a`-`z`, `0`-`9`,
/// `-`, `_`.
pub open spec fn b64_digit(n: int) -> char {
    if n < 26 {
        (0x41 + n) as char
    } else if n < 52 {
        (0x61 + n - 26) as char
    } else if n < 62 {
        (0x30 + n - 52) as char
    } else if n == 62 {
        '-'
    } else {
        '_'
    }
}

/// What `base64`'s URL-safe, unpadded engine encodes `data` to: each group
/// of three bytes as four digits of six bits, most significant first; a
/// trailing one or two bytes as two or three digits, the last one padded
/// with zero bits.
pub open spec fn b64url_nopad(data: Seq<u8>) -> Seq<char>
    decreases data.len(),
{
    if data.len() == 0 {
        Seq::empty()
    } else if data.len() == 1 {
        let x = data[0] as int;
        seq![b64_digit(x / 4), b64_digit((x % 4) * 16)]
    } else if data.len() == 2 {
        let x = data[0] as int;
        let y = data[1] as int;
        seq![b64_digit(x / 4), b64_digit((x % 4) * 16 + y / 16), b64_digit((y % 16) * 4)]
    } else {
        let x = data[0] as int;
        let y = data[1] as int;
        let z = data[2] as int;
        seq![
            b64_digit(x / 4),
            b64_digit((x % 4) * 16 + y / 16),
            b64_digit((y % 16) * 4 + z / 64),
            b64_digit(z % 64),
        ] + b64url_nopad(data.subrange(3, data.len() as int))
    }
}

/// One pair form-encoded: `name=value`, each side byte-serialized.
pub open spec fn form_pair(p: (Seq<char>, Seq<char>)) -> Seq<char> {
    byte_serialized(p.0) + seq!['='] + byte_serialized(p.1)
}

/// What `url::form_urlencoded::Serializer` produces for these pairs, in
/// order: each pair as `form_pair`, joined by `&`.
pub open spec fn form_encoded(pairs: Seq<(Seq<char>, Seq<char>)>) -> Seq<char>
    decreases pairs.len(),
{
    if pairs.len() == 0 {
        Seq::empty()
    } else if pairs.len() == 1 {
        form_pair(pairs[0])
    } else {
        form_encoded(pairs.drop_last()) + seq!['&'] + form_pair(pairs.last())
    }
}

/// The length of the unpadded base64 encoding of `n` bytes: four characters
/// per three bytes, and two or three for a trailing one or two.
pub open spec fn b64_len(n: nat) -> nat {
    4 * (n / 3) + if n % 3 == 0 {
        0
    } else {
        n % 3 + 1
    }
}

/// The unpadded encoding of `data` is `b64_len` characters long.
pub proof fn lemma_b64_len(data: Seq<u8>)
    ensures
        b64url_nopad(data).len() == b64_len(data.len()),
    decreases data.len(),
{
    if data.len() >= 3 {
        lemma_b64_len(data.subrange(3, data.len() as int));
    }
}

/// `sha2::Sha256::digest`: the 32-byte SHA-256 digest of `data`.
#[verifier::external_body]
fn sha256(data: &[u8]) -> (r: Vec<u8>)
    ensures
        r@ == sha256_of(data@),
        r@.len() == 32,
{
    <sha2::Sha256 as sha2::Digest>::digest(data).to_vec()
}

/// `base64::engine::general_purpose::URL_SAFE_NO_PAD.encode`: the encoding
/// `b64url_nopad` states.
#[verifier::external_body]
fn b64url(data: &[u8]) -> (r: String)
    ensures
        r@ == b64url_nopad(data@),
{
    base64::Engine::encode(&base64::engine::general_purpose::URL_SAFE_NO_PAD, data)
}

/// `rand::random::<[u8; 32]>()`: 32 random bytes.
#[verifier::external_body]
fn random_32() -> (r: Vec<u8>)
    ensures
        r@.len() == 32,
{
    rand::random::<[u8; 32]>().to_vec()
}

/// `url::form_urlencoded::Serializer` over `pairs`.
#[verifier::external_body]
fn form_encode(pairs: &Vec<(String, String)>) -> (r: String)
    ensures
        r@ == form_encoded(pairs@.map_values(|p: (String, String)| (p.0@, p.1@))),
{
    url::form_urlencoded::Serializer::new(String::new()).extend_pairs(pairs.iter()).finish()
}

/// The UTF-8 bytes of a string.
pub open spec fn utf8(s: Seq<char>) -> Seq<u8> {
    vstd::utf8::encode_utf8(s)
}

/// The S256 PKCE challenge of a verifier: base64url-no-pad of the SHA-256
/// of its bytes.
pub open spec fn spec_challenge(verifier: Seq<char>) -> Seq<char> {
    b64url_nopad(sha256_of(utf8(verifier)))
}

/// The S256 challenge of `verifier` (RFC 7636).
pub fn challenge_of(verifier: &str) -> (r: String)
    ensures
        r@ == spec_challenge(verifier@),
        r@.len() == 43,
{
    let bytes = verifier.as_bytes();
    let d = sha256(bytes);
    proof {
        lemma_b64_len(d@);
    }
    b64url(d.as_slice())
}

/// A fresh RFC 7636 pair `(verifier, challenge)`: the verifier encodes 32
/// random bytes, the challenge is the verifier's S256 challenge.
pub fn pkce() -> (r: (String, String))
    ensures
        exists|bytes: Seq<u8>| bytes.len() == 32 && r.0@ == b64url_nopad(bytes),
        r.0@.len() == 43,
        r.1@ == spec_challenge(r.0@),
        r.1@.len() == 43,
{
    let bytes = random_32();
    proof {
        lemma_b64_len(bytes@);
    }
    let verifier = b64url(bytes.as_slice());
    let challenge = challenge_of(verifier.as_str());
    (verifier, challenge)
}

/// A random opaque CSRF token for the OAuth `state`: 16 random bytes,
/// base64url-no-pad.
pub fn random_state() -> (r: String)
    ensures
        exists|bytes: Seq<u8>| bytes.len() == 16 && r@ == b64url_nopad(bytes),
        r@.len() == 22,
{
    let all = random_32();
    let mut bytes: Vec<u8> = Vec::new();
    for k in 0..16
        invariant
            all@.len() == 32,
            bytes@.len() == k,
    {
        bytes.push(all[k]);
    }
    proof {
        lemma_b64_len(bytes@);
    }
    b64url(bytes.as_slice())
}

/// `http://localhost:{PORT}/oauth/callback`.
pub open spec fn spec_redirect_uri() -> Seq<char> {
    "http://localhost:"@ + decimal(PORT as nat) + "/oauth/callback"@
}

/// The registered loopback redirect target.
pub fn redirect_uri() -> (r: String)
    ensures
        r@ == spec_redirect_uri(),
{
    let mut v = chars_of("http://localhost:");
    let d = decimal_u64(PORT as u64);
    let tail = chars_of("/oauth/callback");
    let ghost v0 = v@;
    for k in 0..d.len()
        invariant
            v@ == v0 + d@.take(k as int),
    {
        v.push(d[k]);
        assert(v0 + d@.take(k + 1) =~= v0 + d@.take(k as int) + seq![d@[k as int]]);
    }
    assert(d@.take(d@.len() as int) =~= d@);
    let ghost v1 = v@;
    for k in 0..tail.len()
        invariant
            v@ == v1 + tail@.take(k as int),
    {
        v.push(tail[k]);
        assert(v1 + tail@.take(k + 1) =~= v1 + tail@.take(k as int) + seq![tail@[k as int]]);
    }
    assert(tail@.take(tail@.len() as int) =~= tail@);
    string_of(v.as_slice())
}

/// The query pairs of the authorize URL, in order.
pub open spec fn authorize_pairs(
    client_id: Seq<char>,
    redirect_uri: Seq<char>,
    scope: Seq<char>,
    state: Seq<char>,
    challenge: Seq<char>,
) -> Seq<(Seq<char>, Seq<char>)> {
    seq![
        ("response_type"@, "code"@),
        ("client_id"@, client_id),
        ("redirect_uri"@, redirect_uri),
        ("scope"@, scope),
        ("state"@, state),
        ("code_challenge"@, challenge),
        ("code_challenge_method"@, "S256"@),
    ]
}

/// Build the authorize URL for the login popup: `AUTHORIZE_URL?` and the
/// form-encoded `response_type=code`, client id, redirect URI, scope, state,
/// challenge and `code_challenge_method=S256`.
pub fn authorize_url(
    client_id: &str,
    redirect_uri: &str,
    scope: &str,
    state: &str,
    challenge: &str,
) -> (r: String)
    ensures
        r@ == AUTHORIZE_URL@ + seq!['?'] + form_encoded(
            authorize_pairs(client_id@, redirect_uri@, scope@, state@, challenge@),
        ),
{
    let mut pairs: Vec<(String, String)> = Vec::new();
    pairs.push((msg("response_type"), msg("code")));
    pairs.push((msg("client_id"), msg(client_id)));
    pairs.push((msg("redirect_uri"), msg(redirect_uri)));
    pairs.push((msg("scope"), msg(scope)));
    pairs.push((msg("state"), msg(state)));
    pairs.push((msg("code_challenge"), msg(challenge)));
    pairs.push((msg("code_challenge_method"), msg("S256")));
    assert(pairs@.map_values(|p: (String, String)| (p.0@, p.1@)) =~= authorize_pairs(
        client_id@,
        redirect_uri@,
        scope@,
        state@,
        challenge@,
    ));
    let q = form_encode(&pairs);
    let mut v = chars_of(AUTHORIZE_URL);
    v.push('?');
    let qc = chars_of_string(&q);
    let ghost v0 = v@;
    for k in 0..qc.len()
        invariant
            v@ == v0 + qc@.take(k as int),
    {
        v.push(qc[k]);
        assert(v0 + qc@.take(k + 1) =~= v0 + qc@.take(k as int) + seq![qc@[k as int]]);
    }
    assert(qc@.take(qc@.len() as int) =~= qc@);
    string_of(v.as_slice())
}

/// The token endpoint.
pub fn token_url() -> (r: String)
    ensures
        r@ == TOKEN_URL@,
{
    msg(TOKEN_URL)
}

/// Absolute unix-seconds expiry from a unix-seconds clock reading `now` and
/// a token response's relative `expires_in`, as the signed column stores it:
/// the `u64` sum, wrapping past `u64::MAX`, reinterpreted as `i64`.
pub fn expiry_at(now: u64, expires_in: u64) -> (r: i64)
    ensures
        r == (((now + expires_in) % 0x1_0000_0000_0000_0000int) as u64) as i64,
        now + expires_in <= i64::MAX ==> r == now + expires_in,
{
    let sum: u64 = now.wrapping_add(expires_in);
    assert(sum == (now + expires_in) % 0x1_0000_0000_0000_0000int);
    sum as i64
}

/// Absolute unix-seconds expiry for a token that lives `expires_in` seconds
/// from now: `expiry_at` applied to the current reading of `now_secs`. The
/// reading depends on the wall clock, so the result is stated only through
/// `expiry_at`.
pub fn expiry_from(expires_in: u64) -> (r: i64) {
    let now = now_secs();
    expiry_at(now, expires_in)
}

/// The plain-value view of form pairs.
pub open spec fn pairs_view(v: Seq<(String, String)>) -> Seq<(Seq<char>, Seq<char>)> {
    v.map_values(|p: (String, String)| (p.0@, p.1@))
}

/// The token request for an authorization code (PKCE): grant type, client
/// id and secret, the code, the redirect URI and the verifier, in order.
pub fn exchange_code_pairs(
    client_id: &str,
    client_secret: &str,
    code: &str,
    redirect_uri: &str,
    verifier: &str,
) -> (r: Vec<(String, String)>)
    ensures
        pairs_view(r@) == seq![
            ("grant_type"@, "authorization_code"@),
            ("client_id"@, client_id@),
            ("client_secret"@, client_secret@),
            ("code"@, code@),
            ("redirect_uri"@, redirect_uri@),
            ("code_verifier"@, verifier@),
        ],
{
    let mut pairs: Vec<(String, String)> = Vec::new();
    pairs.push((msg("grant_type"), msg("authorization_code")));
    pairs.push((msg("client_id"), msg(client_id)));
    pairs.push((msg("client_secret"), msg(client_secret)));
    pairs.push((msg("code"), msg(code)));
    pairs.push((msg("redirect_uri"), msg(redirect_uri)));
    pairs.push((msg("code_verifier"), msg(verifier)));
    assert(pairs_view(pairs@) =~= seq![
        ("grant_type"@, "authorization_code"@),
        ("client_id"@, client_id@),
        ("client_secret"@, client_secret@),
        ("code"@, code@),
        ("redirect_uri"@, redirect_uri@),
        ("code_verifier"@, verifier@),
    ]);
    pairs
}

/// The token request that refreshes an access token: grant type, client id
/// and secret, and the refresh token, in order.
pub fn refresh_pairs(client_id: &str, client_secret: &str, refresh_token: &str) -> (r: Vec<
    (String, String),
>)
    ensures
        pairs_view(r@) == seq![
            ("grant_type"@, "refresh_token"@),
            ("client_id"@, client_id@),
            ("client_secret"@, client_secret@),
            ("refresh_token"@, refresh_token@),
        ],
{
    let mut pairs: Vec<(String, String)> = Vec::new();
    pairs.push((msg("grant_type"), msg("refresh_token")));
    pairs.push((msg("client_id"), msg(client_id)));
    pairs.push((msg("client_secret"), msg(client_secret)));
    pairs.push((msg("refresh_token"), msg(refresh_token)));
    assert(pairs_view(pairs@) =~= seq![
        ("grant_type"@, "refresh_token"@),
        ("client_id"@, client_id@),
        ("client_secret"@, client_secret@),
        ("refresh_token"@, refresh_token@),
    ]);
    pairs
}

} // verus!
