//! The decisions of the overlay server's endpoints: the OAuth login
//! callback, the chat webhook's admission, and which embedded asset a path
//! names. The HTTP, the token exchange and the signature check stay with
//! the caller, which hands their outcomes in.

use vstd::prelude::*;

use crate::error::msg;
use crate::song::opt_view;
use crate::state::{spec_take, spec_webhook_seen, OauthSlot, WebhookLog};
use crate::oauth::PORT;
use crate::text::{chars_of, decimal, decimal_u64, push_all, push_str, string_of};

verus! {

/// How a login callback ended; each outcome is one small page.
#[derive(Debug, Clone, Copy, PartialEq, Eq, Structural)]
pub enum OauthOutcome {
    /// The provider sent `error` (consent denied or failed).
    Denied,
    /// `code` or `state` is missing.
    MissingParams,
    /// No login is pending under this `state`.
    Expired,
    /// The stored credentials could not be read.
    Internal,
    /// No client id / secret were stored before the login.
    NoCredentials,
    /// The token exchange failed.
    ExchangeFailed,
    /// The tokens could not be saved.
    SaveFailed,
    /// Logged in.
    Connected,
}

/// The HTTP status of an outcome's page: 400 for an unknown or expired
/// login, 200 for everything else (the popup always shows a page).
pub open spec fn outcome_status(o: OauthOutcome) -> u16 {
    match o {
        OauthOutcome::Expired => 400,
        _ => 200,
    }
}

/// The sentence an outcome's page shows.
pub open spec fn outcome_message(o: OauthOutcome) -> Seq<char> {
    match o {
        OauthOutcome::Denied => "Kick login failed (denied or errored) — you can close this tab."@,
        OauthOutcome::MissingParams => "Kick login failed: missing code/state — you can close this tab."@,
        OauthOutcome::Expired => "Kick login failed: expired session — please try logging in again."@,
        OauthOutcome::Internal => "Kick login failed: internal error — you can close this tab."@,
        OauthOutcome::NoCredentials => "Kick login failed: no credentials configured — you can close this tab."@,
        OauthOutcome::ExchangeFailed => "Kick login failed: token exchange error — you can close this tab."@,
        OauthOutcome::SaveFailed => "Kick login failed: could not save tokens — you can close this tab."@,
        OauthOutcome::Connected => "Kick connected — you can close this tab."@,
    }
}

/// The popup page around a sentence.
pub open spec fn spec_oauth_html(message: Seq<char>) -> Seq<char> {
    "<html><body style=\"font-family:sans-serif;text-align:center;margin-top:3rem\"><p>"@ + message
        + "</p></body></html>"@
}

/// The popup page showing `message`.
pub fn oauth_html(message: &str) -> (r: String)
    ensures
        r@ == spec_oauth_html(message@),
{
    let mut v = chars_of(
        "<html><body style=\"font-family:sans-serif;text-align:center;margin-top:3rem\"><p>",
    );
    let m = chars_of(message);
    push_all(&mut v, m.as_slice());
    push_str(&mut v, "</p></body></html>");
    string_of(v.as_slice())
}

fn outcome_text(o: OauthOutcome) -> (r: &'static str)
    ensures
        r@ == outcome_message(o),
{
    match o {
        OauthOutcome::Denied => "Kick login failed (denied or errored) — you can close this tab.",
        OauthOutcome::MissingParams => "Kick login failed: missing code/state — you can close this tab.",
        OauthOutcome::Expired => "Kick login failed: expired session — please try logging in again.",
        OauthOutcome::Internal => "Kick login failed: internal error — you can close this tab.",
        OauthOutcome::NoCredentials => "Kick login failed: no credentials configured — you can close this tab.",
        OauthOutcome::ExchangeFailed => "Kick login failed: token exchange error — you can close this tab.",
        OauthOutcome::SaveFailed => "Kick login failed: could not save tokens — you can close this tab.",
        OauthOutcome::Connected => "Kick connected — you can close this tab.",
    }
}

/// The status and page of an outcome.
pub fn outcome_page(o: OauthOutcome) -> (r: (u16, String))
    ensures
        r.0 == outcome_status(o),
        r.1@ == spec_oauth_html(outcome_message(o)),
{
    let status: u16 = match o {
        OauthOutcome::Expired => 400,
        _ => 200,
    };
    (status, oauth_html(outcome_text(o)))
}

/// The first step of a login callback: a provider `error` ends it as
/// `Denied`; a missing `code` or `state` as `MissingParams` (the pending
/// login untouched in both cases); otherwise the pending login is taken
/// with `state` (see `spec_take`) and its verifier returned beside the
/// code, or the callback ends as `Expired`.
pub fn callback_begin(
    error: Option<String>,
    code: Option<String>,
    state: Option<String>,
    slot: &mut OauthSlot,
) -> (r: Result<(String, String), OauthOutcome>)
    ensures
        error is Some ==> r == Err::<(String, String), _>(OauthOutcome::Denied) && final(slot)@ == old(
            slot,
        )@,
        error is None && (code is None || state is None) ==> r == Err::<(String, String), _>(
            OauthOutcome::MissingParams,
        ) && final(slot)@ == old(slot)@,
        error is None ==> match (code, state) {
            (Some(c), Some(s)) => {
                let (after, v) = spec_take(old(slot)@, s@);
                &&& final(slot)@ == after
                &&& match v {
                    Some(verifier) => r matches Ok((c2, v2)) && c2@ == c@ && v2@ == verifier,
                    None => r == Err::<(String, String), _>(OauthOutcome::Expired),
                }
            },
            _ => true,
        },
{
    if error.is_some() {
        return Err(OauthOutcome::Denied);
    }
    let (c, s) = match (code, state) {
        (Some(c), Some(s)) => (c, s),
        _ => return Err(OauthOutcome::MissingParams),
    };
    match slot.take(s.as_str()) {
        Some(v) => Ok((c, v)),
        None => Err(OauthOutcome::Expired),
    }
}

/// The second step: the stored client id and secret, or `NoCredentials`
/// when either is missing.
pub fn callback_credentials(client_id: Option<String>, client_secret: Option<String>) -> (r: Result<
    (String, String),
    OauthOutcome,
>)
    ensures
        match (client_id, client_secret) {
            (Some(i), Some(s)) => r matches Ok((i2, s2)) && i2 == i && s2 == s,
            _ => r == Err::<(String, String), _>(OauthOutcome::NoCredentials),
        },
{
    match (client_id, client_secret) {
        (Some(i), Some(s)) => Ok((i, s)),
        _ => Err(OauthOutcome::NoCredentials),
    }
}

/// What the webhook endpoint answers once the headers are present and the
/// signing key is known.
#[derive(Debug, Clone, Copy, PartialEq, Eq, Structural)]
pub enum WebhookVerdict {
    /// The signature does not verify (401).
    Unauthorized,
    /// A redelivery already handled (200, nothing done).
    Duplicate,
    /// A new, verified delivery: process the body (200).
    Process,
}

/// The HTTP status of a verdict.
pub open spec fn verdict_status(v: WebhookVerdict) -> u16 {
    match v {
        WebhookVerdict::Unauthorized => 401,
        _ => 200,
    }
}

/// The status of a verdict.
pub fn webhook_status(v: WebhookVerdict) -> (r: u16)
    ensures
        r == verdict_status(v),
{
    match v {
        WebhookVerdict::Unauthorized => 401,
        _ => 200,
    }
}

/// The message id, timestamp and signature headers of a webhook delivery,
/// when all three are present; `None` otherwise (the delivery is answered
/// 400 Bad Request).
pub fn webhook_headers(id: Option<String>, ts: Option<String>, sig: Option<String>) -> (r: Option<
    (String, String, String),
>)
    ensures
        r == match (id, ts, sig) {
            (Some(a), Some(b), Some(c)) => Some((a, b, c)),
            _ => None,
        },
{
    match (id, ts, sig) {
        (Some(a), Some(b), Some(c)) => Some((a, b, c)),
        _ => None,
    }
}

/// Admit a webhook delivery: the signature is checked before the replay
/// log, so a forged request is refused without touching the log; a
/// verified one is recorded and processed only the first time its id is
/// seen.
pub fn webhook_admit(signature_valid: bool, id: &str, log: &mut WebhookLog) -> (r: WebhookVerdict)
    ensures
        !signature_valid ==> r == WebhookVerdict::Unauthorized && final(log)@ == old(log)@,
        signature_valid ==> final(log)@ == spec_webhook_seen(old(log)@, id@).0 && (r
            == WebhookVerdict::Process) == spec_webhook_seen(old(log)@, id@).1 && r
            != WebhookVerdict::Unauthorized,
{
    if !signature_valid {
        return WebhookVerdict::Unauthorized;
    }
    if log.is_new(id) {
        WebhookVerdict::Process
    } else {
        WebhookVerdict::Duplicate
    }
}

/// Leading `/` chars of a path.
pub open spec fn lead_slashes(s: Seq<char>) -> nat
    decreases s.len(),
{
    if s.len() > 0 && s[0] == '/' {
        1 + lead_slashes(s.drop_first())
    } else {
        0
    }
}

/// The embedded asset a request path names: the path without its leading
/// slashes, `index.html` for the root.
pub open spec fn spec_asset_path(path: Seq<char>) -> Seq<char> {
    let p = path.subrange(lead_slashes(path) as int, path.len() as int);
    if p.len() == 0 {
        "index.html"@
    } else {
        p
    }
}

proof fn lemma_lead_slashes(s: Seq<char>)
    ensures
        lead_slashes(s) <= s.len(),
    decreases s.len(),
{
    if s.len() > 0 && s[0] == '/' {
        lemma_lead_slashes(s.drop_first());
    }
}

/// The embedded asset for a request path (see `spec_asset_path`).
pub fn asset_path(path: &str) -> (r: String)
    ensures
        r@ == spec_asset_path(path@),
{
    let c = chars_of(path);
    let n = c.len();
    let mut i: usize = 0;
    proof {
        lemma_lead_slashes(c@);
        assert(c@.subrange(0, n as int) =~= c@);
    }
    while i < n && c[i] == '/'
        invariant
            n == c@.len(),
            i <= n,
            lead_slashes(c@) == i + lead_slashes(c@.subrange(i as int, n as int)),
        decreases n - i,
    {
        assert(c@.subrange(i as int, n as int).drop_first() =~= c@.subrange(i + 1, n as int));
        i = i + 1;
    }
    if i == n {
        return msg("index.html");
    }
    let mut v: Vec<char> = Vec::new();
    let mut k: usize = i;
    while k < n
        invariant
            i <= k <= n,
            n == c@.len(),
            v@ =~= c@.subrange(i as int, k as int),
        decreases n - k,
    {
        v.push(c[k]);
        k = k + 1;
    }
    string_of(v.as_slice())
}

/// The overlay's address for OBS or a browser: `http://localhost:<PORT>/`.
pub fn overlay_url() -> (r: String)
    ensures
        r@ == "http://localhost:"@ + decimal(PORT as nat) + "/"@,
{
    let mut v = chars_of("http://localhost:");
    let d = decimal_u64(PORT as u64);
    push_all(&mut v, d.as_slice());
    push_str(&mut v, "/");
    string_of(v.as_slice())
}

} // verus!
