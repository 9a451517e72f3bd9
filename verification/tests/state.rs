use songbattle::battle::{Battle, BattleMode, BattleStatus};
use songbattle::error::AppError;
use songbattle::kick::{ChatMessage, ChatUser};
use songbattle::snapshot::{ConnectionState, Settings};
use songbattle::song::{MediaMetadata, Song, Source};
use songbattle::state::{App, ChatEffect, OauthSlot, WebhookLog};
use songbattle::vote::VoteChoice;

#[test]
fn oauth_state_round_trips_and_is_single_use() {
    let mut state = OauthSlot::new();
    state.start("verifier123".into(), "state-abc".into());
    assert_eq!(state.take("state-abc").as_deref(), Some("verifier123"));
    // consumed: a second take, even with the right state, is None
    assert!(state.take("state-abc").is_none());
}

#[test]
fn oauth_state_mismatch_is_rejected_but_preserves_pending_login() {
    let mut state = OauthSlot::new();
    state.start("verifier123".into(), "state-abc".into());
    // CSRF check: a wrong `state` param never returns the verifier...
    assert!(state.take("attacker-guess").is_none());
    // ...and it does NOT burn the real pending login.
    assert_eq!(state.take("state-abc").as_deref(), Some("verifier123"));
}

#[test]
fn oauth_take_without_a_pending_login_is_none() {
    let mut state = OauthSlot::new();
    assert!(state.take("anything").is_none());
}

#[test]
fn webhook_ids_dedupe_replays() {
    let mut state = WebhookLog::new();
    assert!(state.is_new("id-a"), "first sighting is new");
    assert!(!state.is_new("id-a"), "a replay is not new");
    assert!(state.is_new("id-b"), "a different id is new");
}

// ── further cases ──────────────────────────────────────────────────────────
fn song(i: usize) -> Song {
    Song {
        id: format!("s{i}"),
        title: format!("song {i}"),
        artist: None,
        thumbnail: None,
        duration_sec: None,
        source: Source::Youtube,
        source_url: format!("https://youtu.be/{i}"),
        submitter: Some(format!("fan{i}")),
        metadata: None,
    }
}

fn app_with_lobby(n: usize) -> App {
    let mut app = App::new(Settings::defaults());
    let mut b = Battle::new("t".into(), String::new(), String::new());
    for i in 0..n {
        b.add_song(song(i));
    }
    app.set_battle(b);
    app
}

fn chat(user: &str, is_mod: bool, text: &str) -> ChatMessage {
    ChatMessage {
        id: "m".into(),
        user: ChatUser {
            user_id: user.into(),
            username: format!("name-{user}"),
            display_name: format!("name-{user}"),
            is_mod,
            is_sub: false,
            is_vip: false,
        },
        text: text.into(),
        ts: 0,
    }
}

#[test]
fn webhook_log_forgets_the_oldest_after_its_capacity() {
    let mut log = WebhookLog::new();
    for k in 0..512 {
        assert!(log.is_new(&format!("id-{k}")));
    }
    assert!(!log.is_new("id-0"));
    assert!(log.is_new("id-512")); // drops id-0
    assert!(log.is_new("id-0")); // forgotten, so new again
}

#[test]
fn chat_vote_counts_on_the_running_match() {
    let mut app = app_with_lobby(2);
    app.battle_mut().unwrap().generate_bracket(BattleMode::Single).unwrap();
    assert!(matches!(app.handle_chat(&chat("u1", false, "1"), 0), ChatEffect::Nothing));
    app.battle_mut().unwrap().start_match().unwrap();
    assert!(matches!(app.handle_chat(&chat("u1", false, "!vote 2"), 10), ChatEffect::Redraw));
    assert_eq!(app.battle.as_ref().unwrap().matches[0].votes.tally(), (0, 1));
}

#[test]
fn chat_submission_is_admitted_once() {
    let mut app = app_with_lobby(0);
    match app.handle_chat(&chat("u1", false, "!submit https://youtu.be/new"), 0) {
        ChatEffect::Fetch(src, url, who) => {
            assert_eq!(src, Source::Youtube);
            assert_eq!(url, "https://youtu.be/new");
            assert_eq!(who, "name-u1");
        }
        other => panic!("unexpected {other:?}"),
    }
    // the same user again inside the cooldown
    assert!(matches!(
        app.handle_chat(&chat("u1", false, "!add https://youtu.be/other"), 1_000),
        ChatEffect::Nothing
    ));
}

#[test]
fn moderator_skip_and_reset() {
    let mut app = app_with_lobby(2);
    app.battle_mut().unwrap().set_timer(30);
    app.battle_mut().unwrap().generate_bracket(BattleMode::Single).unwrap();
    app.battle_mut().unwrap().start_match().unwrap();
    app.handle_chat(&chat("u1", false, "2"), 0);
    assert!(matches!(app.handle_chat(&chat("m", true, "!reset"), 0), ChatEffect::Redraw));
    assert_eq!(app.battle.as_ref().unwrap().matches[0].votes.tally(), (0, 0));
    assert!(matches!(app.handle_chat(&chat("v", false, "!skip"), 0), ChatEffect::Nothing));
    assert!(matches!(app.handle_chat(&chat("m", true, "!skip"), 0), ChatEffect::Persist));
    assert_eq!(app.battle.as_ref().unwrap().status, BattleStatus::Finished);
}

#[test]
fn chat_without_a_battle_does_nothing() {
    let mut app = App::new(Settings::defaults());
    assert!(matches!(app.handle_chat(&chat("u", false, "1"), 0), ChatEffect::Nothing));
    assert!(matches!(app.handle_chat(&chat("m", true, "!skip"), 0), ChatEffect::Nothing));
    match app.battle_mut() {
        Err(AppError::NotFound(m)) => assert_eq!(m, "no active battle"),
        _ => panic!("expected no battle"),
    }
}

#[test]
fn connect_validates_and_resets_quotas() {
    let mut app = app_with_lobby(0);
    assert!(app.gate_submission("u", "https://youtu.be/a", 0).is_some());
    assert!(app.begin_connect("bad slug").is_err());
    assert_eq!(app.kick.state, ConnectionState::Disconnected);
    app.begin_connect("xqc").unwrap();
    assert_eq!(app.kick.state, ConnectionState::Connecting);
    assert_eq!(app.kick.channel.as_deref(), Some("xqc"));
    // quotas start afresh: the same user may submit at once
    assert!(app.gate_submission("u", "https://youtu.be/b", 1).is_some());
    app.disconnect();
    assert_eq!(app.kick.state, ConnectionState::Disconnected);
    assert!(app.kick.channel.is_none());
}

#[test]
fn submitted_song_is_added_only_to_an_open_lobby() {
    let mut app = app_with_lobby(0);
    let meta = MediaMetadata {
        title: "T".into(),
        artist: Some("A".into()),
        thumbnail: None,
        duration_sec: None,
        source: Source::Spotify,
        source_url: "https://open.spotify.com/track/z".into(),
    };
    let long_name = "x".repeat(60);
    assert!(app.add_submitted_song(meta.clone(), &long_name));
    let b = app.battle.as_ref().unwrap();
    assert_eq!(b.songs.len(), 1);
    assert_eq!(b.songs[0].submitter.as_deref(), Some("x".repeat(40).as_str()));
    assert_eq!(b.songs[0].title, "T");

    let mut closed = app_with_lobby(2);
    closed.battle_mut().unwrap().generate_bracket(BattleMode::Single).unwrap();
    assert!(!closed.add_submitted_song(meta, "bob"));
    assert_eq!(closed.battle.as_ref().unwrap().songs.len(), 2);
}

#[test]
fn anonymous_snapshot_hides_submitters() {
    let mut app = app_with_lobby(3);
    let s = app.build_snapshot(7);
    assert_eq!(s.seq, 7);
    assert_eq!(s.battle.as_ref().unwrap().songs[0].submitter.as_deref(), Some("fan0"));
    app.set_anonymous(true);
    let s = app.build_snapshot(8);
    assert!(s.anonymous);
    let v = s.battle.unwrap();
    assert!(v.songs.iter().all(|x| x.submitter.is_none()));
    assert_eq!(v.song_count, 3);
}

#[test]
fn anonymous_snapshot_strips_the_live_matchup() {
    let mut app = app_with_lobby(2);
    app.battle_mut().unwrap().generate_bracket(BattleMode::Single).unwrap();
    app.battle_mut().unwrap().start_match().unwrap();
    let open = app.build_snapshot(1).battle.unwrap();
    let live = open.current_match.unwrap();
    assert!(live.a.as_ref().unwrap().submitter.is_some());
    assert_eq!(open.round, live.round);
    assert_eq!(open.title, "t");
    app.set_anonymous(true);
    let hidden = app.build_snapshot(2).battle.unwrap();
    let m = hidden.current_match.unwrap();
    assert_eq!(m.id, live.id);
    assert!(m.a.unwrap().submitter.is_none());
    assert!(m.b.unwrap().submitter.is_none());
    assert_eq!(hidden.round, open.round);
}

#[test]
fn create_battle_uses_the_default_timer() {
    let mut app = App::new(Settings::defaults());
    app.set_default_timer(45);
    app.create_battle("T".into(), "D".into(), "th".into());
    let b = app.battle.as_ref().unwrap();
    assert_eq!(b.duration_sec, 45);
    assert_eq!(b.title, "T");
    assert!(app.is_active(&b.id.clone()));
    assert!(!app.is_active("other"));
}

#[test]
fn tick_battle_runs_the_active_countdown() {
    let mut app = app_with_lobby(2);
    app.battle_mut().unwrap().set_timer(1);
    app.battle_mut().unwrap().generate_bracket(BattleMode::Single).unwrap();
    app.battle_mut().unwrap().start_match().unwrap();
    assert!(app.tick_safe());
    assert!(app.chat_safe());
    assert!(app.battle.as_ref().unwrap().tally_within_limits());
    assert!(app.battle.as_ref().unwrap().counters_within_limits());
    assert!(app.cast_vote("u".into(), VoteChoice::B, 0));
    assert_eq!(app.tick_battle(), (true, true));
    assert_eq!(app.battle.as_ref().unwrap().status, BattleStatus::Finished);
    let mut empty = App::new(Settings::defaults());
    assert_eq!(empty.tick_battle(), (false, false));
}
