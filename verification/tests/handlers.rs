use songbattle::handlers::{
    asset_path, callback_begin, callback_credentials, oauth_html, outcome_page, overlay_url,
    webhook_admit, webhook_headers, webhook_status, OauthOutcome, WebhookVerdict,
};
use songbattle::state::{OauthSlot, WebhookLog};

/// What the callback endpoint answers for a query: its status and page.
fn answer(
    error: Option<&str>,
    code: Option<&str>,
    state: Option<&str>,
    slot: &mut OauthSlot,
    stored: (Option<&str>, Option<&str>),
) -> (u16, String) {
    let own = |o: Option<&str>| o.map(str::to_string);
    match callback_begin(own(error), own(code), own(state), slot) {
        Err(outcome) => outcome_page(outcome),
        Ok(_) => match callback_credentials(own(stored.0), own(stored.1)) {
            Err(outcome) => outcome_page(outcome),
            Ok(_) => outcome_page(OauthOutcome::Connected),
        },
    }
}

#[test]
fn oauth_callback_rejects_unknown_or_expired_state_with_400() {
    // No login was ever started: any state is unknown.
    let mut slot = OauthSlot::new();
    let (status, body) = answer(None, Some("abc123"), Some("not-pending"), &mut slot, (None, None));
    assert_eq!(status, 400);
    assert!(body.contains("expired session"), "{body}");
}

#[test]
fn oauth_callback_handles_missing_params_without_panicking() {
    let mut slot = OauthSlot::new();
    let (status, body) = answer(None, None, None, &mut slot, (None, None));
    assert!((200..300).contains(&status));
    assert!(body.contains("missing code/state"), "{body}");
}

#[test]
fn oauth_callback_surfaces_provider_denial() {
    let mut slot = OauthSlot::new();
    let (status, body) = answer(Some("access_denied"), None, None, &mut slot, (None, None));
    assert!((200..300).contains(&status));
    assert!(body.contains("denied or errored"), "{body}");
}

#[test]
fn oauth_callback_rejects_valid_state_with_no_stored_credentials() {
    // A matching state passes the CSRF check, but no client id / secret was
    // ever stored: the exchange is refused, not attempted.
    let mut slot = OauthSlot::new();
    slot.start("verifier".into(), "state-ok".into());
    let (status, body) = answer(None, Some("abc"), Some("state-ok"), &mut slot, (None, None));
    assert!((200..300).contains(&status));
    assert!(body.contains("no credentials configured"), "{body}");
}

#[test]
fn callback_with_provider_error_keeps_the_pending_login() {
    let mut slot = OauthSlot::new();
    slot.start("v".into(), "s".into());
    let r = callback_begin(Some("access_denied".into()), Some("c".into()), Some("s".into()), &mut slot);
    assert_eq!(r.unwrap_err(), OauthOutcome::Denied);
    assert_eq!(slot.take("s").as_deref(), Some("v"));
}

#[test]
fn callback_missing_param_keeps_the_pending_login() {
    let mut slot = OauthSlot::new();
    slot.start("v".into(), "s".into());
    assert_eq!(callback_begin(None, None, Some("s".into()), &mut slot).unwrap_err(), OauthOutcome::MissingParams);
    assert_eq!(callback_begin(None, Some("c".into()), None, &mut slot).unwrap_err(), OauthOutcome::MissingParams);
    assert_eq!(slot.take("s").as_deref(), Some("v"));
}

#[test]
fn callback_valid_state_hands_out_code_and_verifier_once() {
    let mut slot = OauthSlot::new();
    slot.start("ver".into(), "st".into());
    let (code, verifier) = callback_begin(None, Some("c0de".into()), Some("st".into()), &mut slot).unwrap();
    assert_eq!((code.as_str(), verifier.as_str()), ("c0de", "ver"));
    let again = callback_begin(None, Some("c0de".into()), Some("st".into()), &mut slot);
    assert_eq!(again.unwrap_err(), OauthOutcome::Expired);
}

#[test]
fn callback_credentials_need_both_parts() {
    assert_eq!(callback_credentials(None, Some("s".into())).unwrap_err(), OauthOutcome::NoCredentials);
    assert_eq!(callback_credentials(Some("i".into()), None).unwrap_err(), OauthOutcome::NoCredentials);
    let (i, s) = callback_credentials(Some("i".into()), Some("s".into())).unwrap();
    assert_eq!((i.as_str(), s.as_str()), ("i", "s"));
}

#[test]
fn outcome_pages() {
    assert_eq!(
        oauth_html("hi"),
        "<html><body style=\"font-family:sans-serif;text-align:center;margin-top:3rem\"><p>hi</p></body></html>"
    );
    let (status, page) = outcome_page(OauthOutcome::Connected);
    assert_eq!(status, 200);
    assert!(page.contains("Kick connected — you can close this tab."));
    assert_eq!(outcome_page(OauthOutcome::Denied).0, 200);
    assert!(outcome_page(OauthOutcome::NoCredentials).1.contains("no credentials configured"));
}

#[test]
fn forged_webhook_is_rejected_without_touching_the_log() {
    let mut log = WebhookLog::new();
    let v = webhook_admit(false, "id-1", &mut log);
    assert_eq!(v, WebhookVerdict::Unauthorized);
    assert_eq!(webhook_status(v), 401);
    // the forged attempt did not poison the dedupe set
    assert_eq!(webhook_admit(true, "id-1", &mut log), WebhookVerdict::Process);
    assert_eq!(webhook_admit(true, "id-1", &mut log), WebhookVerdict::Duplicate);
    assert_eq!(webhook_status(WebhookVerdict::Duplicate), 200);
}

#[test]
fn asset_paths() {
    assert_eq!(asset_path("/"), "index.html");
    assert_eq!(asset_path(""), "index.html");
    assert_eq!(asset_path("//assets/app.js"), "assets/app.js");
    assert_eq!(asset_path("/favicon.ico"), "favicon.ico");
}

#[test]
fn overlay_address() {
    assert_eq!(overlay_url(), "http://localhost:31337/");
}

#[test]
fn webhook_needs_all_three_headers() {
    let s = |x: &str| Some(x.to_string());
    assert_eq!(
        webhook_headers(s("id"), s("ts"), s("sig")),
        Some(("id".to_string(), "ts".to_string(), "sig".to_string()))
    );
    assert_eq!(webhook_headers(None, s("ts"), s("sig")), None);
    assert_eq!(webhook_headers(s("id"), None, s("sig")), None);
    assert_eq!(webhook_headers(s("id"), s("ts"), None), None);
}
