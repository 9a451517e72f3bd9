use songbattle::vote::{parse_vote, pct, VoteChoice, Votes};

#[test]
fn parses_all_six_forms() {
    for s in ["1", "!1", "!vote 1", " 1 ", "!VOTE 1"] {
        assert_eq!(parse_vote(s), Some(VoteChoice::A), "{s:?}");
    }
    for s in ["2", "!2", "!vote 2"] {
        assert_eq!(parse_vote(s), Some(VoteChoice::B), "{s:?}");
    }
}

#[test]
fn rejects_junk() {
    for s in ["", "3", "vote", "1!", "a", "11", "!vote", "hello 1"] {
        assert_eq!(parse_vote(s), None, "{s:?}");
    }
}

#[test]
fn one_vote_per_user_change_overwrites() {
    let mut v = Votes::default();
    assert!(v.cast("u1".into(), VoteChoice::A, 0));
    assert!(v.cast("u2".into(), VoteChoice::A, 0));
    // same user changes mind later -> overwrite, not a second vote
    assert!(v.cast("u1".into(), VoteChoice::B, 1000));
    assert_eq!(v.tally(), (1, 1));
}

#[test]
fn cooldown_drops_burst() {
    let mut v = Votes::default();
    assert!(v.cast("u1".into(), VoteChoice::A, 0));
    assert!(!v.cast("u1".into(), VoteChoice::B, 100)); // within cooldown
    assert_eq!(v.tally(), (1, 0));
}

#[test]
fn pct_math() {
    assert_eq!(pct(0, 0), 0);
    assert_eq!(pct(1, 2), 50);
    assert_eq!(pct(2, 3), 66); // floored
    assert_eq!(pct(1, 3), 33);
    assert_eq!(pct(3, 3), 100);
}

// ── further cases ──────────────────────────────────────────────────────────
#[test]
fn cooldown_ends_at_exactly_the_limit() {
    let mut v = Votes::new();
    assert!(v.cast("u".into(), VoteChoice::A, 1_000));
    assert!(!v.cast("u".into(), VoteChoice::B, 1_249));
    assert!(v.cast("u".into(), VoteChoice::B, 1_250));
    assert_eq!(v.tally(), (0, 1));
}

#[test]
fn clear_forgets_ballots_and_cooldowns() {
    let mut v = Votes::new();
    assert!(v.cast("u".into(), VoteChoice::A, 0));
    v.clear();
    assert_eq!(v.len(), 0);
    assert!(v.cast("u".into(), VoteChoice::B, 1));
    assert_eq!(v.tally(), (0, 1));
}

#[test]
fn restore_and_entries_round_trip() {
    let v = Votes::restore(vec![("a".into(), VoteChoice::A), ("b".into(), VoteChoice::B)]);
    assert_eq!(v.tally(), (1, 1));
    let mut e = v.entries();
    e.sort_by(|x, y| x.0.cmp(&y.0));
    assert_eq!(e, vec![("a".to_string(), VoteChoice::A), ("b".to_string(), VoteChoice::B)]);
}

#[test]
fn pct_shares_never_exceed_the_whole() {
    for total in 1u32..=50 {
        for v in 0..=total {
            let a = pct(v, total);
            let b = pct(total - v, total);
            assert!(a <= 100 && a + b <= 100, "{v}/{total}");
        }
    }
}
