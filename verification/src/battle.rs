//! The battle aggregate: songs, the bracket, the current-match pointer, and
//! the game → series → match rules. A "game" is one timed vote round; a match
//! is a best-of-`best_of` series of games; deciding a match advances the
//! winner (and, in double elimination, drops the loser) along the bracket's
//! routing pointers. `tick()` is one logical second; `now_ms` is injected.

use vstd::prelude::*;

use crate::bracket::{
    deliver, double_keys, double_layout, empty_votes, first_playable, fresh_id, generate_double,
    generate_single, ids_of, lemma_deliver_slots, lemma_settle_keeps, lemma_settle_slots, models,
    of_songs, refill, settle, single_keys, slots_of_songs,
    single_layout, spec_deliver, spec_first_playable, spec_refill, spec_settle, spec_total_rounds,
    spec_wire, total_rounds, votes_wf, wire, Match, MatchGroup, MatchModel, MatchState,
};
use crate::error::{msg, AppError};
use crate::song::{dup_song, Song};
use crate::timer::{spec_started, spec_tick, spec_tick_fires, Timer};
use crate::vote::{spec_cast, votes_for, VoteChoice, VotesModel};

verus! {

/// Default game length in seconds.
pub const DEFAULT_DURATION: u32 = 30;

#[derive(Debug, Clone, Copy, PartialEq, Eq, Structural)]
pub enum BattleStatus {
    Idle,
    Running,
    Finished,
}

/// Tournament structure. `Single` and `Double` play one game per match;
/// `Bo3` plays best-of-three series.
#[derive(Debug, Clone, Copy, PartialEq, Eq, Structural)]
pub enum BattleMode {
    Single,
    Double,
    Bo3,
}

#[derive(Debug, Clone)]
pub struct Battle {
    pub id: String,
    pub title: String,
    pub description: String,
    pub theme: String,
    pub mode: BattleMode,
    pub status: BattleStatus,
    pub songs: Vec<Song>,
    pub matches: Vec<Match>,
    pub total_rounds: u32,
    pub current: Option<usize>,
    pub winner: Option<Song>,
    pub duration_sec: u32,
}

/// The abstract battle.
pub struct BattleModel {
    pub id: String,
    pub title: String,
    pub description: String,
    pub theme: String,
    pub mode: BattleMode,
    pub status: BattleStatus,
    pub songs: Seq<Song>,
    pub matches: Seq<MatchModel>,
    pub total_rounds: u32,
    pub current: Option<usize>,
    pub winner: Option<Song>,
    pub duration_sec: u32,
}

impl View for Battle {
    type V = BattleModel;

    open spec fn view(&self) -> BattleModel {
        BattleModel {
            id: self.id,
            title: self.title,
            description: self.description,
            theme: self.theme,
            mode: self.mode,
            status: self.status,
            songs: self.songs@,
            matches: models(self.matches@),
            total_rounds: self.total_rounds,
            current: self.current,
            winner: self.winner,
            duration_sec: self.duration_sec,
        }
    }
}

// ── the rules, as functions on the model ────────────────────────────────────
pub open spec fn with_matches(b: BattleModel, ms: Seq<MatchModel>) -> BattleModel {
    BattleModel { matches: ms, ..b }
}

pub open spec fn opt_usize(o: Option<int>) -> Option<usize> {
    match o {
        Some(i) => Some(i as usize),
        None => None,
    }
}

/// The bracket a mode generates (routed, byes not yet resolved).
pub open spec fn layout_for(songs: Seq<Song>, mode: BattleMode, d: u32, ids: Seq<String>) -> Seq<
    MatchModel,
> {
    match mode {
        BattleMode::Single => single_layout(songs, d, 1, ids),
        BattleMode::Bo3 => single_layout(songs, d, 3, ids),
        BattleMode::Double => double_layout(songs, d, ids),
    }
}

/// How many matches the bracket of a mode has for `rounds` rounds.
pub open spec fn layout_len(mode: BattleMode, rounds: nat) -> nat {
    match mode {
        BattleMode::Double => double_keys(rounds).len(),
        _ => single_keys(rounds).len(),
    }
}

/// Every match's timer set to `d` seconds; a timer that is not running is
/// also refilled to `d`.
pub open spec fn retimed(m: MatchModel, d: u32) -> MatchModel {
    MatchModel {
        timer: Timer {
            duration_sec: d,
            remaining_sec: if m.timer.running {
                m.timer.remaining_sec
            } else {
                d
            },
            running: m.timer.running,
        },
        ..m
    }
}

pub open spec fn retime_all(ms: Seq<MatchModel>, d: u32) -> Seq<MatchModel> {
    ms.map_values(|m: MatchModel| retimed(m, d))
}

/// The match started: ballots cleared, active, countdown at full duration.
pub open spec fn started(m: MatchModel) -> MatchModel {
    MatchModel {
        votes: empty_votes(),
        state: MatchState::Active,
        timer: spec_started(m.timer),
        ..m
    }
}

/// The current match index, if it points inside the bracket.
pub open spec fn current_in(b: BattleModel) -> Option<int> {
    match b.current {
        Some(i) => if i < b.matches.len() {
            Some(i as int)
        } else {
            None
        },
        None => None,
    }
}

/// Start the first playable match; `None` when there is none.
pub open spec fn spec_start_match(b: BattleModel) -> Option<BattleModel> {
    match spec_first_playable(b.matches) {
        None => None,
        Some(i) => Some(
            BattleModel {
                current: Some(i as usize),
                matches: b.matches.update(i, started(b.matches[i])),
                status: BattleStatus::Running,
                ..b
            },
        ),
    }
}

/// Clear the current match's ballots (restarting its countdown if active).
pub open spec fn spec_reset_votes(b: BattleModel) -> BattleModel {
    match current_in(b) {
        None => b,
        Some(i) => {
            let m = b.matches[i];
            with_matches(
                b,
                b.matches.update(
                    i,
                    MatchModel {
                        votes: empty_votes(),
                        timer: if m.state == MatchState::Active {
                            spec_started(m.timer)
                        } else {
                            m.timer
                        },
                        ..m
                    },
                ),
            )
        },
    }
}

/// The match decided for `choice`, its countdown stopped at zero.
pub open spec fn decided(m: MatchModel, choice: VoteChoice) -> MatchModel {
    MatchModel {
        winner: Some(choice),
        state: MatchState::Done,
        timer: Timer { running: false, remaining_sec: 0, ..m.timer },
        ..m
    }
}

/// Index of the first match with group `Grand` and round 2 (the bracket
/// reset), at or after `j`.
pub open spec fn reset_from(ms: Seq<MatchModel>, j: nat) -> Option<int>
    decreases ms.len() - j,
{
    if j >= ms.len() {
        None
    } else if ms[j as int].group == MatchGroup::Grand && ms[j as int].round == 2 {
        Some(j as int)
    } else {
        reset_from(ms, j + 1)
    }
}

pub proof fn lemma_reset_from(ms: Seq<MatchModel>, j: nat)
    ensures
        match reset_from(ms, j) {
            Some(x) => j <= x < ms.len() && ms[x].group == MatchGroup::Grand && ms[x].round == 2,
            None => true,
        },
    decreases ms.len() - j,
{
    if j < ms.len() && !(ms[j as int].group == MatchGroup::Grand && ms[j as int].round == 2) {
        lemma_reset_from(ms, j + 1);
    }
}

/// After a grand-final game: the winners champion (slot `a`) winning round 1
/// ends the battle (the unused reset is marked done); the losers champion
/// winning round 1 forces the reset decider with the same two songs; the
/// reset always ends the battle.
pub open spec fn spec_resolve_grand(
    b: BattleModel,
    round: u32,
    choice: VoteChoice,
    win_song: Option<Song>,
    a: Option<Song>,
    bs: Option<Song>,
) -> BattleModel {
    let g2 = reset_from(b.matches, 0);
    if round == 1 && choice == VoteChoice::B && g2 is Some {
        let j = g2->0;
        BattleModel {
            matches: b.matches.update(
                j,
                MatchModel { a, b: bs, a_filled: true, b_filled: true, ..b.matches[j] },
            ),
            current: Some(j as usize),
            ..b
        }
    } else {
        let ms = if round == 1 && g2 is Some {
            let j = g2->0;
            b.matches.update(j, MatchModel { state: MatchState::Done, ..b.matches[j] })
        } else {
            b.matches
        };
        BattleModel {
            matches: ms,
            winner: win_song,
            status: BattleStatus::Finished,
            current: None,
            ..b
        }
    }
}

/// Conclude match `i` for `choice`: record the winner, then advance the
/// winner and drop the loser along the routing pointers, resolve any byes
/// that creates, and move on to the next playable match; a match with no
/// winner target ends the battle with that winner. Grand-final matches follow
/// `spec_resolve_grand`.
pub open spec fn spec_decide(b: BattleModel, i: int, choice: VoteChoice) -> BattleModel {
    let m = b.matches[i];
    let ws = if choice == VoteChoice::A {
        m.a
    } else {
        m.b
    };
    let ls = if choice == VoteChoice::A {
        m.b
    } else {
        m.a
    };
    let ms1 = b.matches.update(i, decided(m, choice));
    if m.group == MatchGroup::Grand {
        spec_resolve_grand(with_matches(b, ms1), m.round, choice, ws, m.a, m.b)
    } else {
        let ms2 = spec_settle(spec_deliver(spec_deliver(ms1, m.win_to, ws), m.lose_to, ls));
        if m.win_to is None {
            BattleModel {
                matches: ms2,
                winner: ws,
                status: BattleStatus::Finished,
                current: None,
                ..b
            }
        } else {
            BattleModel { matches: ms2, current: opt_usize(spec_first_playable(ms2)), ..b }
        }
    }
}

/// The side that took the game: more votes wins, a tie goes to A.
pub open spec fn game_winner(v: VotesModel) -> VoteChoice {
    if votes_for(v.map, VoteChoice::B) > votes_for(v.map, VoteChoice::A) {
        VoteChoice::B
    } else {
        VoteChoice::A
    }
}

/// A game of match `i` has expired: score it; decide the match once a side
/// has won more than half of `best_of`, else start the next game (same two
/// songs, fresh ballots, full countdown).
pub open spec fn spec_resolve_game(b: BattleModel, i: int) -> BattleModel {
    let m = b.matches[i];
    let c = game_winner(m.votes);
    let m1 = if c == VoteChoice::A {
        MatchModel { wins_a: (m.wins_a + 1) as u32, ..m }
    } else {
        MatchModel { wins_b: (m.wins_b + 1) as u32, ..m }
    };
    let w = if c == VoteChoice::A {
        m1.wins_a
    } else {
        m1.wins_b
    };
    if w > m.best_of / 2 {
        spec_decide(with_matches(b, b.matches.update(i, m1)), i, c)
    } else {
        with_matches(
            b,
            b.matches.update(
                i,
                MatchModel { votes: empty_votes(), timer: spec_started(m1.timer), ..m1 },
            ),
        )
    }
}

/// A series is decided exactly when a side has won more than half of its
/// games (best of three: first to two). After a game of match `i` expires,
/// the match is done with that game's winner once the winner's tally passes
/// `best_of / 2`; otherwise it stays as it was, with the tally counted,
/// fresh ballots and a full countdown for the next game.
pub proof fn law_series_decides_at_majority(b: BattleModel, i: int)
    requires
        0 <= i < b.matches.len(),
        b.matches[i].wins_a < u32::MAX,
        b.matches[i].wins_b < u32::MAX,
    ensures
        spec_resolve_game(b, i).matches.len() == b.matches.len(),
        ({
            let m = b.matches[i];
            let c = game_winner(m.votes);
            let w = if c == VoteChoice::A {
                m.wins_a + 1
            } else {
                m.wins_b + 1
            };
            let r = spec_resolve_game(b, i).matches[i];
            &&& w > m.best_of / 2 ==> r.state == MatchState::Done && r.winner == Some(c)
            &&& w <= m.best_of / 2 ==> {
                &&& r.state == m.state
                &&& r.winner == m.winner
                &&& r.votes == empty_votes()
                &&& r.timer == spec_started(m.timer)
                &&& (c == VoteChoice::A ==> r.wins_a == m.wins_a + 1 && r.wins_b == m.wins_b)
                &&& (c == VoteChoice::B ==> r.wins_b == m.wins_b + 1 && r.wins_a == m.wins_a)
            }
        }),
{
    let m = b.matches[i];
    let c = game_winner(m.votes);
    let m1 = if c == VoteChoice::A {
        MatchModel { wins_a: (m.wins_a + 1) as u32, ..m }
    } else {
        MatchModel { wins_b: (m.wins_b + 1) as u32, ..m }
    };
    let w = if c == VoteChoice::A {
        m1.wins_a
    } else {
        m1.wins_b
    };
    if w > m.best_of / 2 {
        let b1 = with_matches(b, b.matches.update(i, m1));
        let ms1 = b1.matches.update(i, decided(m1, c));
        let ws = if c == VoteChoice::A {
            m1.a
        } else {
            m1.b
        };
        let ls = if c == VoteChoice::A {
            m1.b
        } else {
            m1.a
        };
        if m1.group == MatchGroup::Grand {
            lemma_reset_from(ms1, 0);
        } else {
            let d1 = spec_deliver(ms1, m1.win_to, ws);
            let d2 = spec_deliver(d1, m1.lose_to, ls);
            crate::bracket::lemma_deliver_keeps_outcomes(ms1, m1.win_to, ws);
            crate::bracket::lemma_deliver_keeps_outcomes(d1, m1.lose_to, ls);
            crate::bracket::lemma_settle_keeps_done(d2);
            assert(d2[i].state == MatchState::Done);
        }
    }
}

/// Replacing a match by one of the same group and round moves no reset.
proof fn lemma_reset_from_update(ms: Seq<MatchModel>, i: int, x: MatchModel, j: nat)
    requires
        0 <= i < ms.len(),
        x.group == ms[i].group,
        x.round == ms[i].round,
    ensures
        reset_from(ms.update(i, x), j) == reset_from(ms, j),
    decreases ms.len() - j,
{
    if j < ms.len() {
        lemma_reset_from_update(ms, i, x, j + 1);
    }
}

/// Deciding match `i` for `choice` leaves it done with that winner and its
/// series tally as it was.
proof fn lemma_decide_records(b: BattleModel, i: int, choice: VoteChoice)
    requires
        0 <= i < b.matches.len(),
    ensures
        spec_decide(b, i, choice).matches.len() == b.matches.len(),
        spec_decide(b, i, choice).matches[i].state == MatchState::Done,
        spec_decide(b, i, choice).matches[i].winner == Some(choice),
        spec_decide(b, i, choice).matches[i].wins_a == b.matches[i].wins_a,
        spec_decide(b, i, choice).matches[i].wins_b == b.matches[i].wins_b,
{
    let m = b.matches[i];
    let ws = if choice == VoteChoice::A {
        m.a
    } else {
        m.b
    };
    let ls = if choice == VoteChoice::A {
        m.b
    } else {
        m.a
    };
    let ms1 = b.matches.update(i, decided(m, choice));
    if m.group == MatchGroup::Grand {
        lemma_reset_from(ms1, 0);
    } else {
        let d1 = spec_deliver(ms1, m.win_to, ws);
        let d2 = spec_deliver(d1, m.lose_to, ls);
        crate::bracket::lemma_deliver_keeps_outcomes(ms1, m.win_to, ws);
        crate::bracket::lemma_deliver_keeps_outcomes(d1, m.lose_to, ls);
        crate::bracket::lemma_settle_keeps_done(d2);
        assert(d2[i].state == MatchState::Done);
    }
}

/// A game goes to the side with strictly more votes, a tie to A: that
/// side's series tally goes up by one and the other's stays; once the
/// winner's tally passes half the series (a single game, or two of three),
/// the match is done with that side as its winner; otherwise the series goes
/// on with fresh ballots.
pub proof fn law_game_goes_to_more_votes(b: BattleModel, i: int)
    requires
        0 <= i < b.matches.len(),
        b.matches[i].wins_a < u32::MAX,
        b.matches[i].wins_b < u32::MAX,
    ensures
        spec_resolve_game(b, i).matches.len() == b.matches.len(),
        ({
            let m = b.matches[i];
            let va = votes_for(m.votes.map, VoteChoice::A);
            let vb = votes_for(m.votes.map, VoteChoice::B);
            let r = spec_resolve_game(b, i).matches[i];
            &&& vb > va ==> r.wins_b == m.wins_b + 1 && r.wins_a == m.wins_a
            &&& va >= vb ==> r.wins_a == m.wins_a + 1 && r.wins_b == m.wins_b
            &&& vb > va && m.wins_b + 1 > m.best_of / 2 ==> r.state == MatchState::Done && r.winner
                == Some(VoteChoice::B)
            &&& va >= vb && m.wins_a + 1 > m.best_of / 2 ==> r.state == MatchState::Done && r.winner
                == Some(VoteChoice::A)
            &&& vb > va && m.wins_b + 1 <= m.best_of / 2 ==> r.state == m.state && r.winner
                == m.winner && r.votes == empty_votes()
            &&& va >= vb && m.wins_a + 1 <= m.best_of / 2 ==> r.state == m.state && r.winner
                == m.winner && r.votes == empty_votes()
        }),
{
    let m = b.matches[i];
    let c = game_winner(m.votes);
    let m1 = if c == VoteChoice::A {
        MatchModel { wins_a: (m.wins_a + 1) as u32, ..m }
    } else {
        MatchModel { wins_b: (m.wins_b + 1) as u32, ..m }
    };
    let w = if c == VoteChoice::A {
        m1.wins_a
    } else {
        m1.wins_b
    };
    if w > m.best_of / 2 {
        let b1 = with_matches(b, b.matches.update(i, m1));
        lemma_decide_records(b1, i, c);
    }
}

/// When the current match's countdown runs out, the tick scores the game by
/// the votes cast: the side with strictly more votes (a tie: A) gets the
/// game, and the match is decided for it once its tally passes half the
/// series.
pub proof fn law_tick_scores_by_votes(b: BattleModel, i: int)
    requires
        current_in(b) == Some(i),
        b.matches[i].state == MatchState::Active,
        spec_tick_fires(b.matches[i].timer),
        b.matches[i].wins_a < u32::MAX,
        b.matches[i].wins_b < u32::MAX,
    ensures
        ({
            let m = b.matches[i];
            let va = votes_for(m.votes.map, VoteChoice::A);
            let vb = votes_for(m.votes.map, VoteChoice::B);
            let (nb, flags) = spec_battle_tick(b);
            let r = nb.matches[i];
            &&& flags == (true, true)
            &&& nb.matches.len() == b.matches.len()
            &&& vb > va ==> r.wins_b == m.wins_b + 1 && r.wins_a == m.wins_a
            &&& va >= vb ==> r.wins_a == m.wins_a + 1 && r.wins_b == m.wins_b
            &&& vb > va && m.wins_b + 1 > m.best_of / 2 ==> r.state == MatchState::Done && r.winner
                == Some(VoteChoice::B)
            &&& va >= vb && m.wins_a + 1 > m.best_of / 2 ==> r.state == MatchState::Done && r.winner
                == Some(VoteChoice::A)
        }),
{
    let m = b.matches[i];
    let b1 = with_matches(b, b.matches.update(i, MatchModel { timer: spec_tick(m.timer), ..m }));
    law_game_goes_to_more_votes(b1, i);
}

/// A skip decides the current match for the series leader; with the series
/// level, for the side with strictly more votes in the current game (a tie:
/// A).
pub proof fn law_skip_awards_the_leader(b: BattleModel, i: int)
    requires
        current_in(b) == Some(i),
    ensures
        ({
            let m = b.matches[i];
            let va = votes_for(m.votes.map, VoteChoice::A);
            let vb = votes_for(m.votes.map, VoteChoice::B);
            let r = spec_skip(b).matches[i];
            &&& spec_skip(b).matches.len() == b.matches.len()
            &&& r.state == MatchState::Done
            &&& m.wins_b > m.wins_a ==> r.winner == Some(VoteChoice::B)
            &&& m.wins_a > m.wins_b ==> r.winner == Some(VoteChoice::A)
            &&& m.wins_a == m.wins_b && vb > va ==> r.winner == Some(VoteChoice::B)
            &&& m.wins_a == m.wins_b && va >= vb ==> r.winner == Some(VoteChoice::A)
        }),
{
    lemma_decide_records(b, i, skip_winner(b.matches[i]));
}

/// The grand final: when the losers champion (slot `b`) wins round 1, the
/// bracket-reset decider becomes current with the same two songs, the
/// winners champion still in; when the winners champion wins round 1 (the
/// unused decider is marked done), or either side wins the decider, the
/// battle is over with that song as champion.
pub proof fn law_grand_final(b: BattleModel, i: int, choice: VoteChoice)
    requires
        0 <= i < b.matches.len(),
        b.matches[i].group == MatchGroup::Grand,
    ensures
        ({
            let m = b.matches[i];
            let r = spec_decide(b, i, choice);
            &&& r.songs == b.songs
            &&& m.round == 1 && choice == VoteChoice::B ==> (reset_from(b.matches, 0) matches Some(j)
                ==> {
                &&& r.matches[j].a == m.a
                &&& r.matches[j].b == m.b
                &&& r.matches[j].group == MatchGroup::Grand
                &&& r.matches[j].round == 2
                &&& r.current == Some(j as usize)
                &&& r.winner == b.winner
                &&& r.status == b.status
            })
            &&& m.round == 1 && choice == VoteChoice::A ==> r.status == BattleStatus::Finished
                && r.winner == m.a && r.current is None
            &&& m.round == 1 && choice == VoteChoice::A ==> (reset_from(b.matches, 0) matches Some(
                j,
            ) ==> r.matches[j].state == MatchState::Done)
            &&& m.round == 1 && choice == VoteChoice::B && reset_from(b.matches, 0) is None
                ==> r.status == BattleStatus::Finished && r.winner == m.b && r.current is None
            &&& m.round != 1 ==> r.status == BattleStatus::Finished && r.winner == (if choice
                == VoteChoice::A {
                m.a
            } else {
                m.b
            }) && r.current is None
        }),
{
    let m = b.matches[i];
    let ms1 = b.matches.update(i, decided(m, choice));
    lemma_reset_from_update(b.matches, i, decided(m, choice), 0);
    lemma_reset_from(ms1, 0);
}

/// Every decision makes progress, so a tournament always ends: deciding an
/// open match leaves strictly fewer open matches (byes it creates are
/// resolved, and nothing is reopened).
pub proof fn law_decide_progress(b: BattleModel, i: int, choice: VoteChoice)
    requires
        0 <= i < b.matches.len(),
        b.matches[i].state != MatchState::Done,
    ensures
        crate::bracket::open_count(spec_decide(b, i, choice).matches) < crate::bracket::open_count(
            b.matches,
        ),
{
    let m = b.matches[i];
    let ws = if choice == VoteChoice::A {
        m.a
    } else {
        m.b
    };
    let ls = if choice == VoteChoice::A {
        m.b
    } else {
        m.a
    };
    let ms1 = b.matches.update(i, decided(m, choice));
    crate::bracket::lemma_open_update(b.matches, i, decided(m, choice));
    if m.group == MatchGroup::Grand {
        lemma_reset_from(ms1, 0);
        let g2 = reset_from(ms1, 0);
        if let Some(j) = g2 {
            if m.round == 1 && choice == VoteChoice::B {
                crate::bracket::lemma_open_update(
                    ms1,
                    j,
                    MatchModel { a: m.a, b: m.b, a_filled: true, b_filled: true, ..ms1[j] },
                );
            } else if m.round == 1 {
                crate::bracket::lemma_open_update(
                    ms1,
                    j,
                    MatchModel { state: MatchState::Done, ..ms1[j] },
                );
            }
        }
    } else {
        let d1 = spec_deliver(ms1, m.win_to, ws);
        let d2 = spec_deliver(d1, m.lose_to, ls);
        crate::bracket::lemma_open_deliver(ms1, m.win_to, ws);
        crate::bracket::lemma_open_deliver(d1, m.lose_to, ls);
        crate::bracket::lemma_open_settle(d2);
    }
}

/// Every slot of the bracket and the champion are empty or among the
/// battle's songs.
pub open spec fn songs_only(b: BattleModel) -> bool {
    slots_of_songs(b.matches, b.songs) && of_songs(b.winner, b.songs)
}

/// A slot update that keeps the match's two songs.
proof fn lemma_update_keeps_slots(ms: Seq<MatchModel>, i: int, x: MatchModel, songs: Seq<Song>)
    requires
        slots_of_songs(ms, songs),
        0 <= i < ms.len(),
        of_songs(x.a, songs),
        of_songs(x.b, songs),
    ensures
        slots_of_songs(ms.update(i, x), songs),
{
    let u = ms.update(i, x);
    assert forall|k: int| 0 <= k < u.len() implies of_songs((#[trigger] u[k]).a, songs) && of_songs(
        u[k].b,
        songs,
    ) by {
        if k != i {
            assert(u[k] == ms[k]);
        }
    }
}

/// The generated bracket seats only the battle's songs, byes aside, for
/// every mode.
pub proof fn law_bracket_seats_the_songs(songs: Seq<Song>, mode: BattleMode, d: u32, ids: Seq<String>)
    ensures
        slots_of_songs(layout_for(songs, mode, d, ids), songs),
        slots_of_songs(spec_settle(layout_for(songs, mode, d, ids)), songs),
{
    let ms = layout_for(songs, mode, d, ids);
    assert forall|k: int| 0 <= k < ms.len() implies of_songs((#[trigger] ms[k]).a, songs) && of_songs(
        ms[k].b,
        songs,
    ) by {
        let m = ms[k];
        if let Some(x) = m.a {
            let tr = spec_total_rounds(songs.len());
            let key = match mode {
                BattleMode::Double => double_keys(tr)[k],
                _ => single_keys(tr)[k],
            };
            let j = key.2 as int;
            assert(songs[j] == x);
        }
        if let Some(x) = m.b {
            let tr = spec_total_rounds(songs.len());
            let key = match mode {
                BattleMode::Double => double_keys(tr)[k],
                _ => single_keys(tr)[k],
            };
            let j = crate::bracket::p2(tr) - 1 - key.2;
            assert(songs[j] == x);
        }
    }
    lemma_settle_slots(ms, songs);
}

/// The champion is one of the battle's songs: deciding a match (by votes,
/// by a game's expiry, by a tick or by an operator skip) only moves songs
/// already in the bracket, so slots and champion stay among the songs.
pub proof fn law_champion_is_a_song(b: BattleModel, i: int, choice: VoteChoice)
    requires
        songs_only(b),
        0 <= i < b.matches.len(),
    ensures
        songs_only(spec_decide(b, i, choice)),
        songs_only(spec_resolve_game(b, i)),
        songs_only(spec_battle_tick(b).0),
        songs_only(spec_skip(b)),
{
    lemma_decide_keeps_songs(b, i, choice);
    lemma_resolve_game_keeps_songs(b, i);
    if let Some(j) = current_in(b) {
        let m = b.matches[j];
        lemma_decide_keeps_songs(b, j, skip_winner(m));
        if m.state == MatchState::Active {
            let b1 = with_matches(b, b.matches.update(j, MatchModel { timer: spec_tick(m.timer), ..m }));
            lemma_update_keeps_slots(b.matches, j, MatchModel { timer: spec_tick(m.timer), ..m }, b.songs);
            lemma_resolve_game_keeps_songs(b1, j);
        }
    }
}

proof fn lemma_resolve_game_keeps_songs(b: BattleModel, i: int)
    requires
        songs_only(b),
        0 <= i < b.matches.len(),
    ensures
        songs_only(spec_resolve_game(b, i)),
{
    let m = b.matches[i];
    let c = game_winner(m.votes);
    let m1 = if c == VoteChoice::A {
        MatchModel { wins_a: (m.wins_a + 1) as u32, ..m }
    } else {
        MatchModel { wins_b: (m.wins_b + 1) as u32, ..m }
    };
    lemma_update_keeps_slots(b.matches, i, m1, b.songs);
    lemma_decide_keeps_songs(with_matches(b, b.matches.update(i, m1)), i, c);
    lemma_update_keeps_slots(
        b.matches,
        i,
        MatchModel { votes: empty_votes(), timer: spec_started(m1.timer), ..m1 },
        b.songs,
    );
}

proof fn lemma_decide_keeps_songs(b: BattleModel, i: int, choice: VoteChoice)
    requires
        songs_only(b),
        0 <= i < b.matches.len(),
    ensures
        songs_only(spec_decide(b, i, choice)),
{
    let m = b.matches[i];
    let ws = if choice == VoteChoice::A {
        m.a
    } else {
        m.b
    };
    let ls = if choice == VoteChoice::A {
        m.b
    } else {
        m.a
    };
    assert(of_songs(m.a, b.songs) && of_songs(m.b, b.songs));
    let ms1 = b.matches.update(i, decided(m, choice));
    lemma_update_keeps_slots(b.matches, i, decided(m, choice), b.songs);
    if m.group == MatchGroup::Grand {
        lemma_reset_from(ms1, 0);
        if let Some(j) = reset_from(ms1, 0) {
            lemma_update_keeps_slots(
                ms1,
                j,
                MatchModel { a: m.a, b: m.b, a_filled: true, b_filled: true, ..ms1[j] },
                b.songs,
            );
            assert(of_songs(ms1[j].a, b.songs) && of_songs(ms1[j].b, b.songs));
            lemma_update_keeps_slots(ms1, j, MatchModel { state: MatchState::Done, ..ms1[j] }, b.songs);
        }
    } else {
        let d1 = spec_deliver(ms1, m.win_to, ws);
        lemma_deliver_slots(ms1, m.win_to, ws, b.songs);
        lemma_deliver_slots(d1, m.lose_to, ls, b.songs);
        lemma_settle_slots(spec_deliver(d1, m.lose_to, ls), b.songs);
    }
}

/// The countdown closes voting: when the current match's game expires and
/// its winner takes the series (every best-of-one game does), no further
/// vote is counted until an operator starts the next match. This holds
/// when the current match is the only live one.
pub proof fn law_votes_close_with_the_game(
    b: BattleModel,
    i: int,
    user: Seq<char>,
    choice: VoteChoice,
    now: u64,
)
    requires
        b.matches.len() <= usize::MAX,
        current_in(b) == Some(i),
        b.matches[i].state == MatchState::Active,
        spec_tick_fires(b.matches[i].timer),
        b.matches[i].wins_a < u32::MAX,
        b.matches[i].wins_b < u32::MAX,
        (if game_winner(b.matches[i].votes) == VoteChoice::A {
            b.matches[i].wins_a + 1
        } else {
            b.matches[i].wins_b + 1
        }) > b.matches[i].best_of / 2,
        forall|k: int| 0 <= k < b.matches.len() && k != i ==> b.matches[k].state != MatchState::Active,
    ensures
        spec_cast_vote(spec_battle_tick(b).0, user, choice, now) == (spec_battle_tick(b).0, false),
{
    let m = b.matches[i];
    let b1 = with_matches(b, b.matches.update(i, MatchModel { timer: spec_tick(m.timer), ..m }));
    let m0 = b1.matches[i];
    let c = game_winner(m0.votes);
    let m1 = if c == VoteChoice::A {
        MatchModel { wins_a: (m0.wins_a + 1) as u32, ..m0 }
    } else {
        MatchModel { wins_b: (m0.wins_b + 1) as u32, ..m0 }
    };
    let b2 = with_matches(b1, b1.matches.update(i, m1));
    let ms1 = b2.matches.update(i, decided(m1, c));
    let ws = if c == VoteChoice::A {
        m1.a
    } else {
        m1.b
    };
    let ls = if c == VoteChoice::A {
        m1.b
    } else {
        m1.a
    };
    let r = spec_battle_tick(b).0;
    assert(r == spec_decide(b2, i, c));
    if m1.group == MatchGroup::Grand {
        lemma_reset_from(ms1, 0);
        if let Some(j) = reset_from(ms1, 0) {
            if m1.round == 1 {
                // the reset decider is another match, so it is not live
                assert(j != i);
                assert(ms1[j] == b.matches[j]);
            }
        }
    } else if m1.win_to is Some {
        // the next current match is a pending one
        let d1 = spec_deliver(ms1, m1.win_to, ws);
        let d2 = spec_deliver(d1, m1.lose_to, ls);
        let ms2 = spec_settle(d2);
        crate::bracket::lemma_deliver_keeps_outcomes(ms1, m1.win_to, ws);
        crate::bracket::lemma_deliver_keeps_outcomes(d1, m1.lose_to, ls);
        crate::bracket::lemma_settle_keeps_done(d2);
        crate::bracket::lemma_first_playable(ms2, 0);
    }
}

/// One logical second: `(battle, (redraw, persist))`. Nothing happens unless
/// the current match is active; its countdown ticks (redraw); when it
/// expires the game is resolved (persist).
pub open spec fn spec_battle_tick(b: BattleModel) -> (BattleModel, (bool, bool)) {
    match current_in(b) {
        None => (b, (false, false)),
        Some(i) => {
            let m = b.matches[i];
            if m.state != MatchState::Active {
                (b, (false, false))
            } else {
                let b1 = with_matches(b, b.matches.update(i, MatchModel { timer: spec_tick(m.timer), ..m }));
                if spec_tick_fires(m.timer) {
                    (spec_resolve_game(b1, i), (true, true))
                } else {
                    (b1, (true, false))
                }
            }
        },
    }
}

/// The side a skip awards: the series leader, else the current game's
/// tally, a tie going to A.
pub open spec fn skip_winner(m: MatchModel) -> VoteChoice {
    if m.wins_b > m.wins_a {
        VoteChoice::B
    } else if m.wins_a > m.wins_b {
        VoteChoice::A
    } else {
        game_winner(m.votes)
    }
}

/// Derived state recomputed after a load or an import: routing and fill
/// flags rebuilt, an out-of-range `current` dropped.
pub open spec fn spec_restore(b: BattleModel) -> BattleModel {
    BattleModel {
        matches: spec_refill(spec_wire(b.matches, b.total_rounds)),
        current: match current_in(b) {
            Some(i) => Some(i as usize),
            None => None,
        },
        ..b
    }
}

/// The battle after an operator skip: the current match is decided for its
/// `skip_winner`; without an in-range current match nothing changes.
pub open spec fn spec_skip(b: BattleModel) -> BattleModel {
    match current_in(b) {
        Some(i) => spec_decide(b, i, skip_winner(b.matches[i])),
        None => b,
    }
}

/// The battle after a vote, and whether it counted: only a running game of
/// the current match takes votes.
pub open spec fn spec_cast_vote(b: BattleModel, user: Seq<char>, choice: VoteChoice, now: u64) -> (
    BattleModel,
    bool,
) {
    match current_in(b) {
        Some(i) => {
            let m = b.matches[i];
            if m.state == MatchState::Active && m.timer.running {
                let (v, ok) = spec_cast(m.votes, user, choice, now);
                (with_matches(b, b.matches.update(i, MatchModel { votes: v, ..m })), ok)
            } else {
                (b, false)
            }
        },
        None => (b, false),
    }
}

/// `songs` without the songs whose id is `id`, order kept.
pub open spec fn without_id(songs: Seq<Song>, id: Seq<char>) -> Seq<Song>
    decreases songs.len(),
{
    if songs.len() == 0 {
        songs
    } else {
        let rest = without_id(songs.drop_last(), id);
        if songs.last().id@ == id {
            rest
        } else {
            rest.push(songs.last())
        }
    }
}

/// `str::to_owned` on the error text.
fn invalid(text: &str) -> (e: AppError)
    ensures
        e matches AppError::Invalid(m) && m@ == text@,
{
    AppError::Invalid(msg(text))
}

/// `rand::seq::SliceRandom::shuffle` with the thread-local generator: the
/// songs come back in a random order (a permutation of the input).
#[verifier::external_body]
fn shuffle_in_place(v: &mut Vec<Song>)
    ensures
        final(v)@.to_multiset() == old(v)@.to_multiset(),
{
    rand::seq::SliceRandom::shuffle(v.as_mut_slice(), &mut rand::thread_rng());
}

impl Battle {
    /// The ballot boxes are well formed.
    pub open spec fn wf(&self) -> bool {
        votes_wf(self.matches@)
    }

    /// The current match's ballot count fits the `u32` tally.
    pub open spec fn tally_ok(&self) -> bool {
        current_in(self@) matches Some(i) ==> self.matches@[i].votes.voters() <= u32::MAX
    }

    /// The current match's series counters can take one more win, and its
    /// ballot count fits the `u32` tally.
    pub open spec fn counters_ok(&self) -> bool {
        current_in(self@) matches Some(i) ==> self.matches@[i].wins_a < u32::MAX
            && self.matches@[i].wins_b < u32::MAX && self.matches@[i].votes.voters()
            <= u32::MAX
    }

    /// Whether `tally_ok` holds.
    pub fn tally_within_limits(&self) -> (r: bool)
        ensures
            r == self.tally_ok(),
    {
        match self.current {
            Some(i) => i >= self.matches.len() || self.matches[i].votes.len() <= u32::MAX as usize,
            None => true,
        }
    }

    /// Whether `counters_ok` holds.
    pub fn counters_within_limits(&self) -> (r: bool)
        ensures
            r == self.counters_ok(),
    {
        match self.current {
            Some(i) => i >= self.matches.len() || (self.matches[i].wins_a < u32::MAX
                && self.matches[i].wins_b < u32::MAX && self.matches[i].votes.len()
                <= u32::MAX as usize),
            None => true,
        }
    }

    /// A fresh idle battle with no songs, no bracket and the default timer.
    pub fn new(title: String, description: String, theme: String) -> (b: Self)
        ensures
            b.wf(),
            b@ == (BattleModel {
                id: b.id,
                title,
                description,
                theme,
                mode: BattleMode::Single,
                status: BattleStatus::Idle,
                songs: Seq::empty(),
                matches: Seq::empty(),
                total_rounds: 0,
                current: None,
                winner: None,
                duration_sec: DEFAULT_DURATION,
            }),
    {
        let b = Self {
            id: fresh_id(),
            title,
            description,
            theme,
            mode: BattleMode::Single,
            status: BattleStatus::Idle,
            songs: Vec::new(),
            matches: Vec::new(),
            total_rounds: 0,
            current: None,
            winner: None,
            duration_sec: DEFAULT_DURATION,
        };
        assert(b@.matches =~= Seq::empty());
        b
    }

    /// Append a song to the lobby.
    pub fn add_song(&mut self, song: Song)
        requires
            old(self).wf(),
        ensures
            final(self).wf(),
            final(self)@ == (BattleModel { songs: old(self)@.songs.push(song), ..old(self)@ }),
    {
        self.songs.push(song);
    }

    /// Remove every song whose id is `id`.
    pub fn remove_song(&mut self, id: &str)
        requires
            old(self).wf(),
        ensures
            final(self).wf(),
            final(self)@ == (BattleModel { songs: without_id(old(self)@.songs, id@), ..old(self)@ }),
    {
        let mut kept: Vec<Song> = Vec::new();
        let n = self.songs.len();
        let target = crate::text::chars_of(id);
        for k in 0..n
            invariant
                n == self.songs@.len(),
                target@ == id@,
                kept@ == without_id(self.songs@.take(k as int), id@),
        {
            let sid = crate::text::chars_of_string(&self.songs[k].id);
            let same = crate::text::chars_eq(sid.as_slice(), id);
            proof {
                assert(self.songs@.take(k + 1).drop_last() =~= self.songs@.take(k as int));
            }
            if !same {
                kept.push(self.songs[k].duplicate());
            }
        }
        proof {
            assert(self.songs@.take(n as int) =~= self.songs@);
        }
        self.songs = kept;
    }

    /// Put the songs in a random order (seeding for the next bracket).
    pub fn shuffle(&mut self)
        requires
            old(self).wf(),
        ensures
            final(self).wf(),
            final(self)@.songs.to_multiset() == old(self)@.songs.to_multiset(),
            final(self)@.songs.len() == old(self)@.songs.len(),
            final(self)@ == (BattleModel { songs: final(self)@.songs, ..old(self)@ }),
    {
        shuffle_in_place(&mut self.songs);
        proof {
            old(self)@.songs.to_multiset_ensures();
            self@.songs.to_multiset_ensures();
        }
    }

    /// Set the game length: the battle's default and every match's timer;
    /// timers that are not running are refilled to the new length.
    pub fn set_timer(&mut self, duration_sec: u32)
        requires
            old(self).wf(),
        ensures
            final(self).wf(),
            final(self)@ == (BattleModel {
                duration_sec,
                matches: retime_all(old(self)@.matches, duration_sec),
                ..old(self)@
            }),
    {
        self.duration_sec = duration_sec;
        let n = self.matches.len();
        for k in 0..n
            invariant
                n == self.matches@.len(),
                n == old(self).matches@.len(),
                votes_wf(self.matches@),
                self@ == (BattleModel { matches: self@.matches, duration_sec, ..old(self)@ }),
                forall|j: int|
                    0 <= j < k ==> (#[trigger] self.matches@[j])@ == retimed(
                        old(self).matches@[j]@,
                        duration_sec,
                    ),
                forall|j: int| k <= j < n ==> #[trigger] self.matches@[j] == old(self).matches@[j],
        {
            self.matches[k].timer.duration_sec = duration_sec;
            if !self.matches[k].timer.running {
                self.matches[k].timer.remaining_sec = duration_sec;
            }
        }
        assert(self@.matches =~= retime_all(old(self)@.matches, duration_sec));
    }

    /// Generate the bracket for `mode` from the songs in their current order:
    /// refused (nothing changes) with fewer than 2 songs; otherwise the
    /// mode's layout with its byes resolved, the first playable match
    /// current, no winner, status idle.
    pub fn generate_bracket(&mut self, mode: BattleMode) -> (r: Result<(), AppError>)
        requires
            old(self).wf(),
            old(self)@.songs.len() <= usize::MAX / 2 + 1,
        ensures
            final(self).wf(),
            old(self)@.songs.len() < 2 <==> r is Err,
            r matches Err(e) ==> e matches AppError::Invalid(m) && m@ == "need at least 2 songs"@,
            r is Err ==> final(self)@ == old(self)@,
            r is Ok ==> final(self)@.matches.len() == layout_len(
                mode,
                spec_total_rounds(old(self)@.songs.len()),
            ),
            r is Ok ==> final(self)@.matches == spec_settle(
                layout_for(
                    old(self)@.songs,
                    mode,
                    old(self)@.duration_sec,
                    ids_of(final(self)@.matches),
                ),
            ),
            r is Ok ==> final(self)@ == (BattleModel {
                mode,
                matches: final(self)@.matches,
                total_rounds: spec_total_rounds(old(self)@.songs.len()) as u32,
                current: opt_usize(spec_first_playable(final(self)@.matches)),
                winner: None,
                status: BattleStatus::Idle,
                ..old(self)@
            }),
    {
        if self.songs.len() < 2 {
            return Err(invalid("need at least 2 songs"));
        }
        self.mode = mode;
        let mut ms = match mode {
            BattleMode::Single => generate_single(self.songs.as_slice(), self.duration_sec, 1),
            BattleMode::Bo3 => generate_single(self.songs.as_slice(), self.duration_sec, 3),
            BattleMode::Double => generate_double(self.songs.as_slice(), self.duration_sec),
        };
        let ghost layout = models(ms@);
        self.total_rounds = total_rounds(self.songs.len());
        settle(&mut ms);
        proof {
            lemma_settle_keeps(layout);
        }
        self.matches = ms;
        let fp = first_playable(&self.matches);
        self.current = fp;
        self.winner = None;
        self.status = BattleStatus::Idle;
        Ok(())
    }

    /// Recompute the routing and fill flags (derived state) after a load or
    /// an import.
    pub fn rewire(&mut self)
        requires
            old(self).wf(),
        ensures
            final(self).wf(),
            final(self)@ == (BattleModel {
                matches: spec_refill(spec_wire(old(self)@.matches, old(self)@.total_rounds)),
                ..old(self)@
            }),
    {
        wire(&mut self.matches, self.total_rounds);
        refill(&mut self.matches);
    }

    /// Start the first playable match: fresh ballots, active, full countdown,
    /// battle running. Refused (nothing changes) when no match is playable.
    pub fn start_match(&mut self) -> (r: Result<(), AppError>)
        requires
            old(self).wf(),
        ensures
            final(self).wf(),
            spec_start_match(old(self)@) is None <==> r is Err,
            r matches Err(e) ==> e matches AppError::Invalid(m) && m@ == "no pending match to start"@,
            r is Err ==> final(self)@ == old(self)@,
            r is Ok ==> Some(final(self)@) == spec_start_match(old(self)@),
    {
        proof {
            crate::bracket::lemma_first_playable(self@.matches, 0);
        }
        let i = match first_playable(&self.matches) {
            Some(i) => i,
            None => {
                return Err(invalid("no pending match to start"));
            },
        };
        self.current = Some(i);
        self.matches[i].votes.clear();
        self.matches[i].state = MatchState::Active;
        self.matches[i].timer.start();
        self.status = BattleStatus::Running;
        proof {
            let ms = old(self)@.matches;
            assert(self@.matches =~= ms.update(i as int, started(ms[i as int])));
        }
        Ok(())
    }

    /// Clear the current match's ballots; an active match also restarts its
    /// countdown. No current match: nothing happens.
    pub fn reset_votes(&mut self)
        requires
            old(self).wf(),
        ensures
            final(self).wf(),
            final(self)@ == spec_reset_votes(old(self)@),
    {
        let i = match self.current {
            Some(i) => i,
            None => return ,
        };
        if i < self.matches.len() {
            self.matches[i].votes.clear();
            if self.matches[i].state == MatchState::Active {
                self.matches[i].timer.start();
            }
            proof {
                let ms = old(self)@.matches;
                let m = ms[i as int];
                assert(self@.matches =~= ms.update(
                    i as int,
                    MatchModel {
                        votes: empty_votes(),
                        timer: if m.state == MatchState::Active {
                            spec_started(m.timer)
                        } else {
                            m.timer
                        },
                        ..m
                    },
                ));
            }
        }
    }

    /// Record a viewer's vote on the current match (see `spec_cast_vote`).
    pub fn cast_vote(&mut self, user_id: String, choice: VoteChoice, now_ms: u64) -> (r: bool)
        requires
            old(self).wf(),
        ensures
            final(self).wf(),
            (final(self)@, r) == spec_cast_vote(old(self)@, user_id@, choice, now_ms),
    {
        let i = match self.current {
            Some(i) => i,
            None => return false,
        };
        if i < self.matches.len() && self.matches[i].state == MatchState::Active
            && self.matches[i].timer.running {
            let ghost user = user_id@;
            let ok = self.matches[i].votes.cast(user_id, choice, now_ms);
            proof {
                let ms = old(self)@.matches;
                let (v, _) = spec_cast(ms[i as int].votes, user, choice, now_ms);
                assert(self@.matches =~= ms.update(i as int, MatchModel { votes: v, ..ms[i as int] }));
            }
            ok
        } else {
            false
        }
    }

    /// Clamp loaded state into a bootable shape: an out-of-range `current`
    /// becomes `None`.
    pub fn normalize(&mut self)
        requires
            old(self).wf(),
        ensures
            final(self).wf(),
            final(self)@ == (BattleModel {
                current: match old(self)@.current {
                    Some(i) => if i < old(self)@.matches.len() {
                        Some(i)
                    } else {
                        None
                    },
                    None => None,
                },
                ..old(self)@
            }),
    {
        if let Some(i) = self.current {
            if i >= self.matches.len() {
                self.current = None;
            }
        }
    }

    fn find_reset(&self) -> (r: Option<usize>)
        ensures
            match r {
                Some(j) => reset_from(self@.matches, 0) == Some(j as int),
                None => reset_from(self@.matches, 0) is None,
            },
    {
        let ghost ms = self@.matches;
        let n = self.matches.len();
        for k in 0..n
            invariant
                n == self.matches@.len(),
                ms == self@.matches,
                reset_from(ms, 0) == reset_from(ms, k as nat),
        {
            if self.matches[k].group == MatchGroup::Grand && self.matches[k].round == 2 {
                return Some(k);
            }
        }
        None
    }

    fn resolve_grand(
        &mut self,
        round: u32,
        choice: VoteChoice,
        win_song: Option<Song>,
        a: Option<Song>,
        b: Option<Song>,
    )
        requires
            old(self).wf(),
        ensures
            final(self).wf(),
            final(self)@ == spec_resolve_grand(old(self)@, round, choice, win_song, a, b),
    {
        proof {
            lemma_reset_from(self@.matches, 0);
        }
        let g2 = self.find_reset();
        if round == 1 && choice == VoteChoice::B {
            if let Some(j) = g2 {
                let ghost ms = self@.matches;
                self.matches[j].a = a;
                self.matches[j].b = b;
                self.matches[j].a_filled = true;
                self.matches[j].b_filled = true;
                self.current = Some(j);
                proof {
                    assert(self@.matches =~= ms.update(
                        j as int,
                        MatchModel { a, b, a_filled: true, b_filled: true, ..ms[j as int] },
                    ));
                }
                return ;
            }
        }
        if round == 1 {
            if let Some(j) = g2 {
                let ghost ms = self@.matches;
                self.matches[j].state = MatchState::Done;
                proof {
                    assert(self@.matches =~= ms.update(
                        j as int,
                        MatchModel { state: MatchState::Done, ..ms[j as int] },
                    ));
                }
            }
        }
        self.winner = win_song;
        self.status = BattleStatus::Finished;
        self.current = None;
    }

    fn decide_match(&mut self, i: usize, choice: VoteChoice)
        requires
            old(self).wf(),
            i < old(self)@.matches.len(),
        ensures
            final(self).wf(),
            final(self)@ == spec_decide(old(self)@, i as int, choice),
    {
        let ghost b0 = self@;
        let group = self.matches[i].group;
        let round = self.matches[i].round;
        let win_to = self.matches[i].win_to;
        let lose_to = self.matches[i].lose_to;
        let a = dup_song(&self.matches[i].a);
        let b = dup_song(&self.matches[i].b);
        let (win_song, lose_song) = match choice {
            VoteChoice::A => (dup_song(&a), dup_song(&b)),
            VoteChoice::B => (dup_song(&b), dup_song(&a)),
        };
        self.matches[i].winner = Some(choice);
        self.matches[i].state = MatchState::Done;
        self.matches[i].timer.running = false;
        self.matches[i].timer.remaining_sec = 0;
        proof {
            assert(self@.matches =~= b0.matches.update(i as int, decided(b0.matches[i as int], choice)));
        }
        if group == MatchGroup::Grand {
            self.resolve_grand(round, choice, win_song, a, b);
            return ;
        }
        let ws = dup_song(&win_song);
        deliver(&mut self.matches, win_to, ws);
        deliver(&mut self.matches, lose_to, lose_song);
        settle(&mut self.matches);
        if win_to.is_none() {
            self.winner = win_song;
            self.status = BattleStatus::Finished;
            self.current = None;
        } else {
            let fp = first_playable(&self.matches);
            self.current = fp;
        }
    }

    /// A game of match `i` expired: score it, then decide the match or start
    /// the series' next game.
    fn resolve_game(&mut self, i: usize)
        requires
            old(self).wf(),
            i < old(self)@.matches.len(),
            old(self).matches@[i as int].wins_a < u32::MAX,
            old(self).matches@[i as int].wins_b < u32::MAX,
            old(self).matches@[i as int].votes.voters() <= u32::MAX,
        ensures
            final(self).wf(),
            final(self)@ == spec_resolve_game(old(self)@, i as int),
    {
        let ghost b0 = self@;
        let (va, vb) = self.matches[i].votes.tally();
        let choice = if vb > va {
            VoteChoice::B
        } else {
            VoteChoice::A
        };
        match choice {
            VoteChoice::A => self.matches[i].wins_a = self.matches[i].wins_a + 1,
            VoteChoice::B => self.matches[i].wins_b = self.matches[i].wins_b + 1,
        }
        let wins_now = if choice == VoteChoice::A {
            self.matches[i].wins_a
        } else {
            self.matches[i].wins_b
        };
        let best_of = self.matches[i].best_of;
        let ghost m = b0.matches[i as int];
        let ghost m1 = if choice == VoteChoice::A {
            MatchModel { wins_a: (m.wins_a + 1) as u32, ..m }
        } else {
            MatchModel { wins_b: (m.wins_b + 1) as u32, ..m }
        };
        proof {
            assert(choice == game_winner(m.votes));
            assert(self@.matches =~= b0.matches.update(i as int, m1));
        }
        if wins_now > best_of / 2 {
            self.decide_match(i, choice);
        } else {
            self.matches[i].votes.clear();
            self.matches[i].timer.start();
            proof {
                assert(self@.matches =~= b0.matches.update(
                    i as int,
                    MatchModel { votes: empty_votes(), timer: spec_started(m1.timer), ..m1 },
                ));
            }
        }
    }

    /// One logical second (see `spec_battle_tick`): `(redraw, persist)`,
    /// `redraw` while a match is active, `persist` when a game completed.
    pub fn tick(&mut self) -> (r: (bool, bool))
        requires
            old(self).wf(),
            old(self).counters_ok(),
        ensures
            final(self).wf(),
            (final(self)@, r) == spec_battle_tick(old(self)@),
    {
        let ghost b0 = self@;
        let i = match self.current {
            Some(i) => i,
            None => return (false, false),
        };
        if i >= self.matches.len() {
            return (false, false);
        }
        if self.matches[i].state != MatchState::Active {
            return (false, false);
        }
        assert(self.matches@[i as int].wins_a < u32::MAX);
        let fired = self.matches[i].timer.tick();
        proof {
            let m = b0.matches[i as int];
            assert(self@.matches =~= b0.matches.update(
                i as int,
                MatchModel { timer: spec_tick(m.timer), ..m },
            ));
        }
        if fired {
            self.resolve_game(i);
            (true, true)
        } else {
            (true, false)
        }
    }

    /// Force the current match to resolve now (operator skip): the series
    /// leader wins, else the current game's tally (a tie goes to A). Refused
    /// when there is no current match; an out-of-range current is a no-op.
    pub fn skip_match(&mut self) -> (r: Result<(), AppError>)
        requires
            old(self).wf(),
            old(self).tally_ok(),
        ensures
            final(self).wf(),
            old(self)@.current is None <==> r is Err,
            r matches Err(e) ==> e matches AppError::Invalid(m) && m@ == "no current match"@,
            r is Err ==> final(self)@ == old(self)@,
            r is Ok ==> final(self)@ == match current_in(old(self)@) {
                Some(i) => spec_decide(old(self)@, i, skip_winner(old(self)@.matches[i])),
                None => old(self)@,
            },
    {
        let i = match self.current {
            Some(i) => i,
            None => {
                return Err(invalid("no current match"));
            },
        };
        if i >= self.matches.len() {
            return Ok(());
        }
        let wa = self.matches[i].wins_a;
        let wb = self.matches[i].wins_b;
        let choice = if wb > wa {
            VoteChoice::B
        } else if wa > wb {
            VoteChoice::A
        } else {
            assert(self.matches@[i as int].votes.voters() <= u32::MAX);
            let (va, vb) = self.matches[i].votes.tally();
            if vb > va {
                VoteChoice::B
            } else {
                VoteChoice::A
            }
        };
        self.decide_match(i, choice);
        Ok(())
    }
}

} // verus!
