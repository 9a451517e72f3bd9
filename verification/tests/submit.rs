use songbattle::battle::{Battle, BattleMode};
use songbattle::song::{Song, Source};
use songbattle::submit::{
    canonical_url, evaluate, lobby_open, SubmitLedger, GLOBAL_SONG_CAP, PER_USER_CAP,
};

fn song(url: &str) -> Song {
    Song {
        id: url.into(),
        title: "t".into(),
        artist: None,
        thumbnail: None,
        duration_sec: None,
        source: Source::Youtube,
        source_url: url.into(),
        submitter: None,
        metadata: None,
    }
}

fn idle_battle(urls: &[&str]) -> Battle {
    let mut b = Battle::new("t".into(), String::new(), String::new());
    for u in urls {
        b.add_song(song(u));
    }
    b // status defaults to Idle
}

#[test]
fn ledger_cooldown_and_cap() {
    let mut l = SubmitLedger::default();
    assert!(l.try_admit("u", 0)); // first is free
    assert!(!l.try_admit("u", 1_000)); // within the 15s cooldown
    assert!(l.try_admit("u", 16_000)); // 2
    assert!(l.try_admit("u", 40_000)); // 3
    assert!(l.try_admit("u", 60_000)); // 4
    assert!(l.try_admit("u", 80_000)); // 5
    assert!(!l.try_admit("u", 200_000)); // per-user cap reached
    assert!(l.try_admit("v", 200_000)); // a different user is independent
}

#[test]
fn canonical_dedup() {
    assert_eq!(
        canonical_url("https://youtu.be/x/"),
        canonical_url("https://YOUTU.BE/x")
    );
    assert_eq!(
        canonical_url("https://youtu.be/x#t=1"),
        canonical_url("https://youtu.be/x")
    );
    assert_ne!(canonical_url("https://youtu.be/x"), canonical_url("https://youtu.be/y"));
    assert_ne!(
        canonical_url("https://www.youtube.com/watch?v=a"),
        canonical_url("https://www.youtube.com/watch?v=b")
    );
}

#[test]
fn evaluate_accepts_then_dedups() {
    let mut l = SubmitLedger::default();
    let b = idle_battle(&[]);
    let r = evaluate(true, Some(&b), &mut l, "u", "https://youtu.be/x", 0);
    assert!(matches!(r, Some((Source::Youtube, _))));
    // same URL (trailing-slash variant) already present -> dedup, no quota burn.
    let b2 = idle_battle(&["https://youtu.be/x"]);
    assert!(evaluate(true, Some(&b2), &mut l, "w", "https://youtu.be/x/", 0).is_none());
}

#[test]
fn evaluate_lobby_only() {
    let mut l = SubmitLedger::default();
    let mut b = idle_battle(&["https://youtu.be/a", "https://youtu.be/b"]);
    b.generate_bracket(BattleMode::Single).unwrap(); // bracket exists -> not a lobby
    assert!(evaluate(true, Some(&b), &mut l, "u", "https://youtu.be/x", 0).is_none());
}

#[test]
fn lobby_open_predicate() {
    assert!(lobby_open(&idle_battle(&[]))); // fresh lobby, under cap

    let urls: Vec<String> = (0..GLOBAL_SONG_CAP)
        .map(|i| format!("https://youtu.be/{i}"))
        .collect();
    let refs: Vec<&str> = urls.iter().map(String::as_str).collect();
    assert!(!lobby_open(&idle_battle(&refs))); // at the global cap

    // A generated bracket is no longer a lobby, even though it's still `Idle`
    // and under the cap.
    let mut b = idle_battle(&["https://youtu.be/a", "https://youtu.be/b"]);
    b.generate_bracket(BattleMode::Single).unwrap();
    assert!(!lobby_open(&b));
}

#[test]
fn evaluate_global_cap() {
    let mut l = SubmitLedger::default();
    let urls: Vec<String> = (0..GLOBAL_SONG_CAP)
        .map(|i| format!("https://youtu.be/{i}"))
        .collect();
    let refs: Vec<&str> = urls.iter().map(String::as_str).collect();
    let b = idle_battle(&refs);
    assert_eq!(b.songs.len(), GLOBAL_SONG_CAP);
    assert!(evaluate(true, Some(&b), &mut l, "u", "https://youtu.be/new", 0).is_none());
}

#[test]
fn evaluate_setting_and_url_validation_no_quota_on_reject() {
    let mut l = SubmitLedger::default();
    let b = idle_battle(&[]);
    assert!(evaluate(false, Some(&b), &mut l, "u", "https://youtu.be/x", 0).is_none()); // disabled
    assert!(evaluate(true, None, &mut l, "u", "https://youtu.be/x", 0).is_none()); // no battle
    assert!(evaluate(true, Some(&b), &mut l, "u", "javascript:alert(1)", 0).is_none()); // unsafe
    // none of the above burned quota -> the first valid one still passes at t=0.
    assert!(evaluate(true, Some(&b), &mut l, "u", "https://youtu.be/ok", 0).is_some());
}

// ── further cases ──────────────────────────────────────────────────────────
#[test]
fn accepted_url_comes_back_trimmed() {
    let mut l = SubmitLedger::new();
    let b = idle_battle(&[]);
    let r = evaluate(true, Some(&b), &mut l, "u", "  https://open.spotify.com/track/z  ", 0);
    let (src, url) = r.unwrap();
    assert_eq!(src, Source::Spotify);
    assert_eq!(url, "https://open.spotify.com/track/z");
}

#[test]
fn throttled_submission_is_refused() {
    let mut l = SubmitLedger::new();
    let b = idle_battle(&[]);
    assert!(evaluate(true, Some(&b), &mut l, "u", "https://youtu.be/1", 0).is_some());
    assert!(evaluate(true, Some(&b), &mut l, "u", "https://youtu.be/2", 5_000).is_none());
    assert!(evaluate(true, Some(&b), &mut l, "u", "https://youtu.be/2", 15_000).is_some());
}

#[test]
fn cap_is_five_per_user_and_clear_resets_it() {
    let mut l = SubmitLedger::new();
    for k in 0..PER_USER_CAP as u64 {
        assert!(l.try_admit("u", k * 20_000));
    }
    assert!(!l.try_admit("u", 1_000_000));
    l.clear();
    assert!(l.try_admit("u", 1_000_001));
}

#[test]
fn canonical_url_of_junk_is_its_lowercased_text() {
    assert_eq!(canonical_url("  Not A URL "), "not a url");
    assert_eq!(canonical_url("https://youtu.be/x?t=5"), "youtu.be/x?t=5");
}

#[test]
fn a_run_of_attempts_admits_at_most_the_cap_spaced_by_the_cooldown() {
    let mut l = SubmitLedger::new();
    let mut admitted: Vec<u64> = Vec::new();
    let mut t: u64 = 0;
    while t <= 400_000 {
        if l.try_admit("u", t) {
            admitted.push(t);
        }
        t += 4_000;
    }
    assert_eq!(admitted.len(), PER_USER_CAP as usize);
    for w in admitted.windows(2) {
        assert!(w[1] >= w[0] + 15_000);
    }
    assert_eq!(admitted, vec![0, 16_000, 32_000, 48_000, 64_000]);
}
