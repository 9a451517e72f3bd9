use songbattle::battle::{Battle, BattleMode};
use songbattle::bracket::{MatchGroup, MatchState};
use songbattle::song::{Song, Source};
use songbattle::store::{battle_from_rows, battle_row, match_rows, song_rows, KickAuth};
use songbattle::vote::VoteChoice;

fn sample() -> Battle {
    let mut b = Battle::new("My Battle".into(), "desc".into(), "synthwave".into());
    for i in 0..4 {
        b.add_song(Song {
            id: format!("s{i}"),
            title: format!("song {i}"),
            artist: Some(format!("artist {i}")),
            thumbnail: None,
            duration_sec: Some(120),
            source: Source::Youtube,
            source_url: format!("https://x/{i}"),
            submitter: Some("bob".into()),
            metadata: None,
        });
    }
    b.generate_bracket(BattleMode::Single).unwrap();
    b
}

/// Store `b` as rows and read it back.
fn reload(b: &Battle) -> Battle {
    battle_from_rows(battle_row(b), song_rows(b), match_rows(b))
}

#[test]
fn round_trips_through_sqlite() {
    let b = sample();
    let loaded = reload(&b);
    assert_eq!(loaded.id, b.id);
    assert_eq!(loaded.title, "My Battle");
    assert_eq!(loaded.songs.len(), 4);
    assert_eq!(loaded.matches.len(), b.matches.len());
    assert_eq!(loaded.total_rounds, b.total_rounds);
    assert_eq!(loaded.songs[2].artist.as_deref(), Some("artist 2"));
}

#[test]
fn out_of_range_current_is_clamped_on_load() {
    let mut b = Battle::new("t".into(), String::new(), String::new());
    b.current = Some(99); // malformed pointer, no matches
    assert_eq!(reload(&b).current, None);
}

#[test]
fn double_elim_reload_preserves_current_mid_tourney() {
    let mut b = Battle::new("reload-test".into(), "d".into(), "th".into());
    for i in 0..4_u32 {
        b.add_song(Song {
            id: format!("s{i}"),
            title: format!("song {i}"),
            artist: None,
            thumbnail: None,
            duration_sec: None,
            source: Source::Youtube,
            source_url: format!("https://x/{i}"),
            submitter: None,
            metadata: None,
        });
    }
    b.set_timer(2);
    b.generate_bracket(BattleMode::Double).unwrap();

    b.start_match().unwrap();
    assert_eq!(b.current, Some(0));
    b.cast_vote("u1".into(), VoteChoice::A, 1_000);
    b.tick();
    b.tick();
    assert_eq!(b.matches[0].state, MatchState::Done);

    b.start_match().unwrap();
    assert_eq!(b.current, Some(1));
    b.cast_vote("u2".into(), VoteChoice::A, 2_000);
    b.tick();
    b.tick();
    assert_eq!(b.matches[1].state, MatchState::Done);

    assert_eq!(b.current, Some(2));
    assert_eq!(b.matches[2].group, MatchGroup::Winners);
    assert_eq!(b.matches[2].round, 2);
    let expected_match_id = b.matches[2].id.clone();

    let loaded = reload(&b);
    assert_eq!(loaded.current, Some(2), "current index must survive the round-trip");
    assert_eq!(loaded.matches[2].id, expected_match_id);
    assert_eq!(loaded.matches[2].group, MatchGroup::Winners);
    assert_eq!(loaded.matches[2].round, 2);

    let mut loaded = loaded;
    loaded.start_match().unwrap();
    assert_eq!(loaded.current, Some(2), "start_match must activate WB-r2 (not LB-r1)");
    assert_eq!(loaded.matches[2].state, MatchState::Active);
    assert_eq!(loaded.matches[2].id, expected_match_id);
}

#[test]
fn double_elim_mode_and_routing_round_trip() {
    let mut b = sample(); // 4 songs
    b.generate_bracket(BattleMode::Double).unwrap();
    let loaded = reload(&b);
    assert_eq!(loaded.mode, BattleMode::Double);
    assert_eq!(loaded.matches.len(), b.matches.len()); // 7
    assert!(loaded.matches.iter().any(|m| m.group == MatchGroup::Grand));
    // routing was recomputed on load (not stored): WB final -> grand slot a.
    let wf = loaded
        .matches
        .iter()
        .find(|m| m.group == MatchGroup::Winners && m.round == 2)
        .unwrap();
    assert_eq!(wf.win_to.unwrap().group, MatchGroup::Grand);
    assert!(wf.win_to.unwrap().slot_a);
}

// ── further cases ──────────────────────────────────────────────────────────
#[test]
fn rows_carry_the_text_forms() {
    let mut b = sample();
    b.generate_bracket(BattleMode::Bo3).unwrap();
    let r = battle_row(&b);
    assert_eq!(r.mode, "bo3");
    assert_eq!(r.status, "idle");
    assert_eq!(r.winner_song_id, None);
    let s = song_rows(&b);
    assert_eq!(s[3].ordering, 3);
    assert_eq!(s[3].source, "youtube");
    let m = match_rows(&b);
    assert_eq!(m[0].match_group, "main");
    assert_eq!(m[0].state, "pending");
    assert_eq!(m[0].best_of, 3);
    assert_eq!(m[0].a_song_id.as_deref(), Some("s0"));
    assert_eq!(m[0].b_song_id.as_deref(), Some("s3"));
}

#[test]
fn live_match_reloads_pending_without_votes() {
    let mut b = sample();
    b.start_match().unwrap();
    assert!(b.cast_vote("u".into(), VoteChoice::A, 0));
    let loaded = reload(&b);
    assert_eq!(loaded.matches[0].state, MatchState::Pending);
    assert_eq!(loaded.matches[0].votes.len(), 0);
    assert!(!loaded.matches[0].timer.running);
    assert_eq!(loaded.matches[0].a.as_ref().unwrap().id, "s0");
    assert!(loaded.songs.iter().all(|s| s.metadata.is_none()));
}

#[test]
fn finished_battle_keeps_its_winner() {
    let mut b = sample();
    b.set_timer(1);
    b.generate_bracket(BattleMode::Single).unwrap();
    while b.status != songbattle::battle::BattleStatus::Finished {
        b.start_match().unwrap();
        b.tick();
    }
    let loaded = reload(&b);
    assert_eq!(loaded.status, songbattle::battle::BattleStatus::Finished);
    assert_eq!(loaded.winner.as_ref().map(|s| s.id.clone()), b.winner.as_ref().map(|s| s.id.clone()));
    assert!(loaded.matches.iter().all(|m| m.state == MatchState::Done));
}

#[test]
fn kick_auth_starts_empty() {
    let a = KickAuth::default();
    assert!(a.client_id.is_none() && a.client_secret.is_none() && a.access_token.is_none());
    assert!(a.refresh_token.is_none() && a.expires_at.is_none() && a.subscription_id.is_none());
}

#[test]
fn reload_keeps_songs_and_matches_in_order_even_with_shared_ids() {
    let mut b = Battle::new("dups".into(), String::new(), String::new());
    for (i, t) in ["one", "two", "three"].iter().enumerate() {
        b.add_song(Song {
            id: if i < 2 { "same".into() } else { "other".into() },
            title: (*t).into(),
            artist: Some(format!("artist {i}")),
            thumbnail: None,
            duration_sec: None,
            source: Source::Soundcloud,
            source_url: format!("https://soundcloud.com/a/{i}"),
            submitter: None,
            metadata: None,
        });
    }
    b.generate_bracket(BattleMode::Single).unwrap();
    let l = reload(&b);
    assert_eq!(l.title, "dups");
    assert_eq!(l.mode, BattleMode::Single);
    assert_eq!(l.total_rounds, b.total_rounds);
    assert_eq!(l.current, b.current);
    let titles: Vec<&str> = l.songs.iter().map(|s| s.title.as_str()).collect();
    assert_eq!(titles, vec!["one", "two", "three"]);
    assert_eq!(l.songs[1].artist.as_deref(), Some("artist 1"));
    assert_eq!(l.matches.len(), b.matches.len());
    for (x, m) in l.matches.iter().zip(b.matches.iter()) {
        assert_eq!(x.id, m.id);
        assert_eq!((x.group, x.round, x.idx), (m.group, m.round, m.idx));
    }
}
