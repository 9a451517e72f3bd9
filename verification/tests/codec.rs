use songbattle::battle::{BattleMode, BattleStatus};
use songbattle::bracket::{MatchGroup, MatchState};
use songbattle::codec::{
    group_from, group_str, mode_from, mode_str, source_from, source_str, state_from, state_str,
    status_from, status_str, winner_from, winner_str,
};
use songbattle::song::Source;
use songbattle::vote::VoteChoice;

#[test]
fn every_variant_round_trips_through_its_text() {
    for s in [Source::Youtube, Source::Spotify, Source::Soundcloud] {
        assert_eq!(source_from(source_str(s)), s);
    }
    for s in [BattleStatus::Idle, BattleStatus::Running, BattleStatus::Finished] {
        assert_eq!(status_from(status_str(s)), s);
    }
    for m in [BattleMode::Single, BattleMode::Double, BattleMode::Bo3] {
        assert_eq!(mode_from(mode_str(m)), m);
    }
    for g in [MatchGroup::Main, MatchGroup::Winners, MatchGroup::Losers, MatchGroup::Grand] {
        assert_eq!(group_from(group_str(g)), g);
    }
    for s in [MatchState::Pending, MatchState::Active, MatchState::Done] {
        assert_eq!(state_from(state_str(s)), s);
    }
    for w in [None, Some(VoteChoice::A), Some(VoteChoice::B)] {
        assert_eq!(winner_from(winner_str(w)), w);
    }
}

#[test]
fn unknown_text_decodes_to_the_first_variant() {
    assert_eq!(source_from("vimeo"), Source::Youtube);
    assert_eq!(status_from(""), BattleStatus::Idle);
    assert_eq!(mode_from("SINGLE"), BattleMode::Single);
    assert_eq!(group_from("x"), MatchGroup::Main);
    assert_eq!(state_from("?"), MatchState::Pending);
    assert_eq!(winner_from(Some("c")), None);
    assert_eq!(source_str(Source::Soundcloud), "soundcloud");
    assert_eq!(mode_str(BattleMode::Bo3), "bo3");
}
