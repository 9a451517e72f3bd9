use songbattle::battle::{Battle, BattleMode};
use songbattle::bracket::{generate, parent, total_rounds, MatchState};
use songbattle::song::{Song, Source};

fn songs(n: usize) -> Vec<Song> {
    (0..n)
        .map(|i| Song {
            id: format!("s{i}"),
            title: format!("song {i}"),
            artist: None,
            thumbnail: None,
            duration_sec: None,
            source: Source::Youtube,
            source_url: format!("https://x/{i}"),
            submitter: None,
            metadata: None,
        })
        .collect()
}

#[test]
fn total_rounds_correct() {
    assert_eq!(total_rounds(1), 0);
    assert_eq!(total_rounds(2), 1);
    assert_eq!(total_rounds(3), 2);
    assert_eq!(total_rounds(4), 2);
    assert_eq!(total_rounds(5), 3);
    assert_eq!(total_rounds(8), 3);
    assert_eq!(total_rounds(9), 4);
}

#[test]
fn power_of_two_has_no_byes() {
    let m = generate(&songs(4), 30);
    // 2 first-round matches + 1 final = 3
    assert_eq!(m.len(), 3);
    let r1: Vec<_> = m.iter().filter(|x| x.round == 1).collect();
    assert_eq!(r1.len(), 2);
    assert!(r1.iter().all(|x| x.a.is_some() && x.b.is_some()));
    assert!(r1.iter().all(|x| x.state == MatchState::Pending));
}

#[test]
fn non_power_of_two_resolves_byes_no_empty_matches() {
    let m = generate(&songs(5), 30);
    // slots=8 -> r1:4, r2:2, r3:1 => 7 matches
    assert_eq!(m.len(), 7);
    // round 1 has no both-None ghost (seeding invariant); later rounds may
    // legitimately start empty and fill as winners advance.
    assert!(m
        .iter()
        .filter(|x| x.round == 1)
        .all(|x| x.a.is_some() || x.b.is_some()));
    // 3 byes auto-done in round 1, leaving exactly 1 real round-1 game
    let r1_done = m
        .iter()
        .filter(|x| x.round == 1 && x.state == MatchState::Done)
        .count();
    assert_eq!(r1_done, 3);
    // their winners advanced into round 2 slots
    let r2_filled = m
        .iter()
        .filter(|x| x.round == 2)
        .map(|x| x.a.is_some() as u32 + x.b.is_some() as u32)
        .sum::<u32>();
    assert_eq!(r2_filled, 3);
}

#[test]
fn parent_mapping() {
    assert_eq!(parent(1, 0), (2, 0, true));
    assert_eq!(parent(1, 1), (2, 0, false));
    assert_eq!(parent(1, 2), (2, 1, true));
    assert_eq!(parent(1, 3), (2, 1, false));
}

// ── further cases ──────────────────────────────────────────────────────────
#[test]
fn total_rounds_is_the_least_power_of_two_cover() {
    for n in 2usize..=70 {
        let r = total_rounds(n);
        assert!(n <= 1usize << r, "n={n}");
        assert!((1usize << (r - 1)) < n, "n={n}");
    }
    assert_eq!(total_rounds(0), 0);
    assert_eq!(total_rounds(1024), 10);
    assert_eq!(total_rounds(1025), 11);
}

#[test]
fn seeding_puts_top_seeds_against_the_byes() {
    let m = generate(&songs(3), 30);
    // 4 slots: match 0 is s0 vs (bye), match 1 is s1 vs s2.
    assert_eq!(m[0].a.as_ref().unwrap().id, "s0");
    assert!(m[0].b.is_none());
    assert_eq!(m[0].state, MatchState::Done);
    assert_eq!(m[1].a.as_ref().unwrap().id, "s1");
    assert_eq!(m[1].b.as_ref().unwrap().id, "s2");
    // the bye winner moved into the final's slot a
    assert_eq!(m[2].a.as_ref().unwrap().id, "s0");
}

#[test]
fn parent_of_later_rounds() {
    assert_eq!(parent(2, 5), (3, 2, false));
    assert_eq!(parent(7, 0), (8, 0, true));
}

#[test]
fn bracket_sizes_match_the_rounds() {
    for n in 2usize..=17 {
        let r = total_rounds(n);
        assert_eq!(generate(&songs(n), 30).len(), (1usize << r) - 1, "single n={n}");
        let mut b = Battle::new("t".into(), String::new(), String::new());
        for s in songs(n) {
            b.add_song(s);
        }
        b.generate_bracket(BattleMode::Double).unwrap();
        assert_eq!(b.matches.len(), (1usize << (r + 1)) - 1, "double n={n}");
    }
}
