use songbattle::battle::{Battle, BattleMode, BattleStatus};
use songbattle::bracket::{Match, MatchGroup, MatchState};
use songbattle::song::{Song, Source};
use songbattle::vote::VoteChoice;

fn battle(n: usize, mode: BattleMode) -> Battle {
    let mut b = Battle::new("t".into(), "d".into(), "th".into());
    for i in 0..n {
        b.add_song(Song {
            id: format!("s{i}"),
            title: format!("song {i}"),
            artist: None,
            thumbnail: None,
            duration_sec: None,
            source: Source::Youtube,
            source_url: format!("https://x/{i}"),
            submitter: None,
            metadata: None,
        });
    }
    b.set_timer(2);
    b.generate_bracket(mode).unwrap();
    b
}

/// Cast `count` votes for `choice` (unique users, monotonic time), return next `now`.
fn votes(b: &mut Battle, choice: VoteChoice, count: usize, mut now: u64) -> u64 {
    for k in 0..count {
        now += 1000;
        assert!(b.cast_vote(format!("u{now}_{k}"), choice, now));
    }
    now
}

fn expire(b: &mut Battle) {
    b.tick();
    b.tick(); // 2s timer
}

/// Start the current match and play one match to a winner (best-of-1).
fn play_match(b: &mut Battle, choice: VoteChoice, now: u64) -> u64 {
    b.start_match().unwrap();
    let now = votes(b, choice, 1, now);
    expire(b);
    now
}

/// Drive a (best-of-1) tournament to completion, slot `a` winning every match
/// except matches matching `pick_b` (which the `b` side wins).
fn run_all(b: &mut Battle, pick_b: impl Fn(&Match) -> bool) -> Option<Song> {
    let mut now = 0;
    let mut guard = 0;
    while b.status != BattleStatus::Finished {
        guard += 1;
        assert!(guard < 100, "tournament did not terminate");
        let Some(i) = b.current else { break };
        let choice = if pick_b(&b.matches[i]) {
            VoteChoice::B
        } else {
            VoteChoice::A
        };
        now = play_match(b, choice, now);
    }
    b.winner.clone()
}

#[test]
fn single_expiry_picks_higher_votes_and_advances() {
    let mut b = battle(2, BattleMode::Single);
    let a_id = b.matches[0].a.clone().unwrap().id;
    play_match(&mut b, VoteChoice::A, 0);
    assert_eq!(b.matches[0].winner, Some(VoteChoice::A));
    assert_eq!(b.status, BattleStatus::Finished);
    assert_eq!(b.winner.as_ref().unwrap().id, a_id);
}

#[test]
fn single_tie_goes_to_a() {
    let mut b = battle(2, BattleMode::Single);
    b.start_match().unwrap();
    let now = votes(&mut b, VoteChoice::A, 2, 0);
    votes(&mut b, VoteChoice::B, 2, now);
    expire(&mut b);
    assert_eq!(b.matches[0].winner, Some(VoteChoice::A));
}

#[test]
fn single_four_song_to_final() {
    let mut b = battle(4, BattleMode::Single);
    assert_eq!(b.total_rounds, 2);
    assert_eq!(b.matches.len(), 3);
    let champ = run_all(&mut b, |_| false);
    assert_eq!(b.status, BattleStatus::Finished);
    assert!(champ.is_some());
    assert!(b.matches.iter().all(|m| m.state == MatchState::Done));
}

#[test]
fn single_byes_for_five() {
    let mut b = battle(5, BattleMode::Single);
    // slots=8 -> 7 matches; 3 first-round byes auto-resolved.
    assert_eq!(b.matches.len(), 7);
    let done = b
        .matches
        .iter()
        .filter(|m| m.round == 1 && m.state == MatchState::Done)
        .count();
    assert_eq!(done, 3);
    run_all(&mut b, |_| false);
    assert_eq!(b.status, BattleStatus::Finished);
}

#[test]
fn skip_resolves_immediately() {
    let mut b = battle(2, BattleMode::Single);
    b.start_match().unwrap();
    b.skip_match().unwrap();
    assert_eq!(b.status, BattleStatus::Finished);
}

#[test]
fn generate_bracket_needs_two_songs() {
    let mut b = Battle::new("t".into(), "d".into(), "th".into());
    assert!(b.generate_bracket(BattleMode::Single).is_err());
}

#[test]
fn out_of_range_current_never_panics_and_normalizes() {
    let mut b = battle(2, BattleMode::Single);
    b.current = Some(99);
    assert_eq!(b.tick(), (false, false));
    assert!(!b.cast_vote("u".into(), VoteChoice::A, 0));
    b.reset_votes();
    assert!(b.skip_match().is_ok());
    b.normalize();
    assert_eq!(b.current, None);
}

#[test]
fn bo3_single_game_does_not_decide() {
    let mut b = battle(2, BattleMode::Bo3);
    assert_eq!(b.matches[0].best_of, 3);
    b.start_match().unwrap();
    votes(&mut b, VoteChoice::A, 1, 0);
    expire(&mut b); // game 1 -> A
    let m = &b.matches[0];
    assert_eq!(m.wins_a, 1);
    assert_eq!(m.winner, None); // series not decided
    assert_eq!(m.state, MatchState::Active); // auto-continued
    assert!(m.timer.running);
    assert_ne!(b.status, BattleStatus::Finished);
}

#[test]
fn bo3_two_nil_resolves_and_advances() {
    let mut b = battle(2, BattleMode::Bo3);
    let win_id = b.matches[0].a.clone().unwrap().id;
    b.start_match().unwrap();
    let now = votes(&mut b, VoteChoice::A, 1, 0);
    expire(&mut b); // 1-0
    votes(&mut b, VoteChoice::A, 1, now);
    expire(&mut b); // 2-0 -> decided
    assert_eq!(b.matches[0].wins_a, 2);
    assert_eq!(b.matches[0].winner, Some(VoteChoice::A));
    assert_eq!(b.status, BattleStatus::Finished);
    assert_eq!(b.winner.as_ref().unwrap().id, win_id);
}

#[test]
fn bo3_two_one_resolves() {
    let mut b = battle(2, BattleMode::Bo3);
    b.start_match().unwrap();
    let mut now = votes(&mut b, VoteChoice::A, 1, 0);
    expire(&mut b); // 1-0 A
    now = votes(&mut b, VoteChoice::B, 1, now);
    expire(&mut b); // 1-1
    assert_eq!(b.matches[0].winner, None); // still going
    votes(&mut b, VoteChoice::A, 1, now);
    expire(&mut b); // 2-1 A
    assert_eq!((b.matches[0].wins_a, b.matches[0].wins_b), (2, 1));
    assert_eq!(b.matches[0].winner, Some(VoteChoice::A));
    assert_eq!(b.status, BattleStatus::Finished);
}

#[test]
fn bo3_skip_short_circuits() {
    let mut b = battle(2, BattleMode::Bo3);
    b.start_match().unwrap();
    votes(&mut b, VoteChoice::A, 1, 0);
    expire(&mut b); // 1-0, not decided
    assert_eq!(b.status, BattleStatus::Running);
    b.skip_match().unwrap(); // leader A wins the whole match
    assert_eq!(b.matches[0].winner, Some(VoteChoice::A));
    assert_eq!(b.status, BattleStatus::Finished);
}

#[test]
fn bo3_four_song_full_run() {
    let mut b = battle(4, BattleMode::Bo3);
    // 4 songs -> 2 winners rounds.
    assert_eq!(b.total_rounds, 2);
    let mut now = 0;
    let mut guard = 0;
    while b.status != BattleStatus::Finished {
        guard += 1;
        assert!(guard < 100);
        b.start_match().unwrap();
        // win 2-0 for A each match
        now = votes(&mut b, VoteChoice::A, 1, now);
        expire(&mut b);
        if b.current.is_some_and(|i| b.matches[i].state == MatchState::Active) {
            now = votes(&mut b, VoteChoice::A, 1, now);
            expire(&mut b);
        }
    }
    // Slot-a (s0) wins every match -> s0 is champion.
    assert_eq!(b.winner.as_ref().unwrap().id, "s0");
    // Every match in the bracket must be resolved.
    assert!(b.matches.iter().all(|m| m.state == MatchState::Done));
}

#[test]
fn double_4_winners_path_champion() {
    let mut b = battle(4, BattleMode::Double);
    let champ = run_all(&mut b, |_| false); // a wins everything incl. GF
    assert_eq!(b.status, BattleStatus::Finished);
    // Top seed s0 wins out via the winners bracket.
    assert_eq!(champ.unwrap().id, "s0");
}

#[test]
fn double_4_bracket_reset_lb_champ_wins() {
    let mut b = battle(4, BattleMode::Double);
    // b-side wins ONLY in the grand bracket -> LB champ forces + wins the reset.
    let champ = run_all(&mut b, |m| m.group == MatchGroup::Grand);
    assert_eq!(b.status, BattleStatus::Finished);
    // Two grand matches were played (final + reset decider).
    let grand_done = b
        .matches
        .iter()
        .filter(|m| m.group == MatchGroup::Grand && m.state == MatchState::Done)
        .count();
    assert_eq!(grand_done, 2);
    // The losers champion (s3) won it all through the reset.
    assert_eq!(champ.unwrap().id, "s3");
}

#[test]
fn double_8_completes_with_full_routing() {
    let mut b = battle(8, BattleMode::Double);
    assert_eq!(b.matches.len(), 15);
    let champ = run_all(&mut b, |_| false);
    assert_eq!(b.status, BattleStatus::Finished);
    assert_eq!(champ.unwrap().id, "s0");
    // every match except the unused reset is resolved
    let done = b
        .matches
        .iter()
        .filter(|m| m.state == MatchState::Done)
        .count();
    // With A winning everything the WB champ wins the grand final outright; the
    // unused bracket reset is marked Done too -> all 15 matches resolved.
    assert_eq!(done, 15);
}

#[test]
fn rewire_restores_state_after_zeroing() {
    let mut b = battle(4, BattleMode::Double);

    // Advance through both WB-r1 matches (A wins each).
    let mut now = play_match(&mut b, VoteChoice::A, 0);
    now = play_match(&mut b, VoteChoice::A, now);
    assert_eq!(b.current, Some(2));
    let expected_id = b.matches[2].id.clone();

    // Clone and wipe every derived field.
    let mut clone = b.clone();
    for m in clone.matches.iter_mut() {
        m.win_to = None;
        m.lose_to = None;
        m.a_filled = false;
        m.b_filled = false;
    }

    // Rewire must restore routing + fill flags.
    clone.rewire();

    // start_match uses first_playable() internally; it must find WB-r2 (index 2).
    clone.start_match().unwrap();
    assert_eq!(
        clone.matches[clone.current.unwrap()].id,
        expected_id,
        "rewire restores first_playable to the WB-r2 match"
    );
    assert_eq!(clone.matches[clone.current.unwrap()].state, MatchState::Active);

    // Delivery still works after rewire: play WB-r2 (A=s0 wins); LB-r1 is next.
    votes(&mut clone, VoteChoice::A, 1, now);
    expire(&mut clone);
    assert_eq!(clone.current, Some(3), "after WB-r2 resolves, LB-r1 is next");
    assert_eq!(clone.matches[3].group, MatchGroup::Losers);
    assert_eq!(clone.matches[3].round, 1);
}

#[test]
fn double_4_winners_path_grand_r2_skipped() {
    let mut b = battle(4, BattleMode::Double);
    run_all(&mut b, |_| false); // A wins every match -> WB champ wins GF outright
    assert_eq!(b.status, BattleStatus::Finished);

    let grand_r2 = b
        .matches
        .iter()
        .find(|m| m.group == MatchGroup::Grand && m.round == 2)
        .expect("Grand r2 must exist");
    assert_eq!(grand_r2.state, MatchState::Done, "unused reset is marked Done");
    assert!(grand_r2.winner.is_none(), "reset match has no winner — not played");

    // Exactly one Grand match was actively decided (Grand r1 only).
    let grand_decided = b
        .matches
        .iter()
        .filter(|m| m.group == MatchGroup::Grand && m.winner.is_some())
        .count();
    assert_eq!(grand_decided, 1, "WB champ wins in a single Grand match");
}

#[test]
fn vote_after_expiry_returns_false() {
    let mut b = battle(2, BattleMode::Single);
    b.start_match().unwrap();
    // Vote is accepted while the match is Active.
    assert!(b.cast_vote("u1".into(), VoteChoice::A, 1_000));
    // Let the 2s timer expire -> match resolves, battle finishes.
    expire(&mut b);
    assert_eq!(b.status, BattleStatus::Finished);
    // No active match; cast_vote must return false.
    assert!(!b.cast_vote("u2".into(), VoteChoice::A, 2_000));
}

#[test]
fn double_6_byes_complete() {
    let mut b = battle(6, BattleMode::Double);
    assert_eq!(b.matches.len(), 15); // padded to 8
    let byes = b
        .matches
        .iter()
        .filter(|m| m.group == MatchGroup::Winners && m.round == 1 && m.state == MatchState::Done)
        .count();
    assert_eq!(byes, 2); // two seeds got a bye
    let champ = run_all(&mut b, |_| false);
    assert_eq!(b.status, BattleStatus::Finished);
    assert!(champ.is_some());
}

// ── further cases ──────────────────────────────────────────────────────────
#[test]
fn start_match_without_playable_match_is_refused() {
    let mut b = battle(2, BattleMode::Single);
    play_match(&mut b, VoteChoice::B, 0);
    assert_eq!(b.status, BattleStatus::Finished);
    let err = b.start_match().unwrap_err();
    assert!(matches!(err, songbattle::error::AppError::Invalid(m) if m == "no pending match to start"));
}

#[test]
fn skip_without_current_match_is_refused() {
    let mut b = Battle::new("t".into(), "d".into(), "th".into());
    let err = b.skip_match().unwrap_err();
    assert!(matches!(err, songbattle::error::AppError::Invalid(m) if m == "no current match"));
}

#[test]
fn single_b_side_can_win() {
    let mut b = battle(2, BattleMode::Single);
    let b_id = b.matches[0].b.clone().unwrap().id;
    play_match(&mut b, VoteChoice::B, 0);
    assert_eq!(b.matches[0].winner, Some(VoteChoice::B));
    assert_eq!(b.winner.unwrap().id, b_id);
}

#[test]
fn remove_song_drops_every_song_with_that_id() {
    let mut b = Battle::new("t".into(), String::new(), String::new());
    for id in ["x", "y", "x"] {
        b.add_song(Song {
            id: id.into(),
            title: id.into(),
            artist: None,
            thumbnail: None,
            duration_sec: None,
            source: Source::Spotify,
            source_url: format!("https://open.spotify.com/track/{id}"),
            submitter: None,
            metadata: None,
        });
    }
    b.remove_song("x");
    assert_eq!(b.songs.len(), 1);
    assert_eq!(b.songs[0].id, "y");
}

#[test]
fn shuffle_keeps_the_same_songs() {
    let mut b = battle(6, BattleMode::Single);
    b.shuffle();
    let mut ids: Vec<String> = b.songs.iter().map(|s| s.id.clone()).collect();
    ids.sort();
    assert_eq!(ids, vec!["s0", "s1", "s2", "s3", "s4", "s5"]);
}

#[test]
fn set_timer_refills_idle_timers() {
    let mut b = battle(4, BattleMode::Single);
    b.set_timer(45);
    assert_eq!(b.duration_sec, 45);
    assert!(b.matches.iter().all(|m| m.timer.duration_sec == 45 && m.timer.remaining_sec == 45));
}

#[test]
fn reset_votes_clears_the_current_tally() {
    let mut b = battle(2, BattleMode::Single);
    b.start_match().unwrap();
    votes(&mut b, VoteChoice::A, 3, 0);
    assert_eq!(b.matches[0].votes.tally(), (3, 0));
    b.reset_votes();
    assert_eq!(b.matches[0].votes.tally(), (0, 0));
    assert!(b.matches[0].timer.running);
}

#[test]
fn every_champion_is_one_of_the_songs() {
    for mode in [BattleMode::Single, BattleMode::Bo3, BattleMode::Double] {
        for n in 2..=9 {
            for pick in [false, true] {
                let mut b = battle(n, mode);
                let mut guard = 0;
                while b.status != BattleStatus::Finished {
                    guard += 1;
                    assert!(guard < 200, "tournament did not terminate");
                    let i = b.current.expect("a current match");
                    if pick ^ (b.matches[i].idx % 2 == 1) {
                        let now = 1_000 * guard as u64;
                        b.start_match().unwrap();
                        assert!(b.cast_vote(format!("u{guard}"), VoteChoice::B, now));
                    }
                    b.skip_match().unwrap();
                }
                let champ = b.winner.clone().expect("a champion");
                assert!(b.songs.iter().any(|s| s.id == champ.id && s.title == champ.title));
                for m in &b.matches {
                    for slot in [&m.a, &m.b] {
                        if let Some(s) = slot {
                            assert!(b.songs.iter().any(|x| x.id == s.id));
                        }
                    }
                }
            }
        }
    }
}

#[test]
fn each_song_sits_in_exactly_one_first_round_slot() {
    for mode in [BattleMode::Single, BattleMode::Double] {
        for n in 2..=9 {
            let b = battle(n, mode);
            for s in &b.songs {
                let seats = b
                    .matches
                    .iter()
                    .filter(|m| m.round == 1 && m.group != MatchGroup::Losers)
                    .filter(|m| m.group != MatchGroup::Grand)
                    .map(|m| {
                        [&m.a, &m.b].iter().filter(|x| x.as_ref().map(|y| &y.id) == Some(&s.id)).count()
                    })
                    .sum::<usize>();
                assert_eq!(seats, 1, "song {} in mode {:?} with {} songs", s.id, mode, n);
            }
        }
    }
}
