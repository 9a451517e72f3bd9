//! The wire views: what the overlay and dashboard see of the battle, built
//! by pure projections of the battle aggregate.

use vstd::prelude::*;

use crate::battle::{Battle, BattleStatus};
use crate::bracket::{Match, MatchModel, MatchState};
use crate::song::{dup_opt, dup_song, Song};
use crate::vote::{pct, spec_pct, votes_for, VoteChoice};

verus! {

#[derive(Debug, Clone, Copy, PartialEq, Eq, Structural)]
pub enum ConnectionState {
    Disconnected,
    Connecting,
    Connected,
    Reconnecting,
    Error,
}

#[derive(Debug, Clone, Copy, PartialEq, Eq, Structural)]
pub struct TimerView {
    pub duration_sec: u32,
    pub remaining_sec: u32,
    pub running: bool,
}

#[derive(Debug, Clone)]
pub struct MatchView {
    pub id: String,
    pub round: u32,
    pub a: Option<Song>,
    pub b: Option<Song>,
    pub votes_a: u32,
    pub votes_b: u32,
    pub pct_a: u32,
    pub pct_b: u32,
    pub total: u32,
    pub state: MatchState,
    pub winner: Option<VoteChoice>,
    pub timer: Option<TimerView>,
}

#[derive(Debug, Clone)]
pub struct BattleView {
    pub id: String,
    pub title: String,
    pub description: String,
    pub theme: String,
    pub status: BattleStatus,
    pub round: u32,
    pub total_rounds: u32,
    pub current_match: Option<MatchView>,
    pub bracket: Vec<MatchView>,
    pub winner: Option<Song>,
    pub songs: Vec<Song>,
    pub song_count: u32,
}

#[derive(Debug, Clone)]
pub struct KickView {
    pub state: ConnectionState,
    pub channel: Option<String>,
}

#[derive(Debug, Clone)]
pub struct Snapshot {
    pub seq: u64,
    pub battle: Option<BattleView>,
    pub kick: KickView,
    pub anonymous: bool,
}

/// Persisted app settings.
#[derive(Debug, Clone, Copy, PartialEq, Eq, Structural)]
pub struct Settings {
    pub anonymous: bool,
    pub default_timer_sec: u32,
    pub chat_submissions: bool,
}

/// A default game length is kept between 5 and 600 seconds.
pub open spec fn spec_clamp_timer(sec: u32) -> u32 {
    if sec < 5 {
        5
    } else if sec > 600 {
        600
    } else {
        sec
    }
}

/// Clamp a requested default game length (see `spec_clamp_timer`).
pub fn clamp_timer(sec: u32) -> (r: u32)
    ensures
        r == spec_clamp_timer(sec),
{
    if sec < 5 {
        5
    } else if sec > 600 {
        600
    } else {
        sec
    }
}

impl Settings {
    /// Not anonymous, 30-second games, chat submissions on.
    pub fn defaults() -> (s: Settings)
        ensures
            s == (Settings { anonymous: false, default_timer_sec: 30, chat_submissions: true }),
    {
        Settings { anonymous: false, default_timer_sec: 30, chat_submissions: true }
    }
}

/// A saved-tournament summary.
#[derive(Debug, Clone)]
pub struct SavedBattle {
    pub id: String,
    pub title: String,
    pub theme: String,
    pub status: BattleStatus,
    pub updated_at: i64,
    pub song_count: u32,
}

/// The view of one match: its tallies, floored percentages, and its timer
/// while active.
pub open spec fn spec_match_view(m: MatchModel) -> MatchView {
    let va = votes_for(m.votes.map, VoteChoice::A);
    let vb = votes_for(m.votes.map, VoteChoice::B);
    MatchView {
        id: m.id,
        round: m.round,
        a: m.a,
        b: m.b,
        votes_a: va as u32,
        votes_b: vb as u32,
        pct_a: spec_pct(va as int, (va + vb) as int) as u32,
        pct_b: spec_pct(vb as int, (va + vb) as int) as u32,
        total: (va + vb) as u32,
        state: m.state,
        winner: m.winner,
        timer: if m.state == MatchState::Active {
            Some(
                TimerView {
                    duration_sec: m.timer.duration_sec,
                    remaining_sec: m.timer.remaining_sec,
                    running: m.timer.running,
                },
            )
        } else {
            None
        },
    }
}

/// A match view shows each side its own ballots: `votes_a` counts the
/// viewers whose ballot names A, `votes_b` those naming B, `total` both,
/// and each percentage is that side's floored share of the total; the side
/// with more ballots shows the larger count and the share at least as
/// large. The slots, state and decision are the match's own.
pub proof fn law_match_view_counts(m: MatchModel)
    requires
        (votes_for(m.votes.map, VoteChoice::A) + votes_for(m.votes.map, VoteChoice::B)) * 100
            <= u32::MAX,
    ensures
        ({
            let na = votes_for(m.votes.map, VoteChoice::A);
            let nb = votes_for(m.votes.map, VoteChoice::B);
            let v = spec_match_view(m);
            &&& v.votes_a == na
            &&& v.votes_b == nb
            &&& v.total == na + nb
            &&& v.pct_a == spec_pct(na as int, (na + nb) as int)
            &&& v.pct_b == spec_pct(nb as int, (na + nb) as int)
            &&& na > nb ==> v.votes_a > v.votes_b && v.pct_a >= v.pct_b
            &&& nb > na ==> v.votes_b > v.votes_a && v.pct_b >= v.pct_a
            &&& v.a == m.a && v.b == m.b && v.state == m.state && v.winner == m.winner
        }),
{
    let na = votes_for(m.votes.map, VoteChoice::A) as int;
    let nb = votes_for(m.votes.map, VoteChoice::B) as int;
    let t = na + nb;
    if t > 0 {
        assert(0 <= (na * 100) / t <= 100 && 0 <= (nb * 100) / t <= 100) by (nonlinear_arith)
            requires
                0 <= na,
                0 <= nb,
                t == na + nb,
                t > 0,
        ;
        assert(na > nb ==> (na * 100) / t >= (nb * 100) / t) by (nonlinear_arith)
            requires
                0 <= nb,
                t > 0,
        ;
        assert(nb > na ==> (nb * 100) / t >= (na * 100) / t) by (nonlinear_arith)
            requires
                0 <= na,
                t > 0,
        ;
    }
}

/// The view of the battle's current match, when it points at one.
pub open spec fn spec_current_view(b: Battle) -> Option<MatchView> {
    match b.current {
        Some(i) => if i < b.matches@.len() {
            Some(spec_match_view(b@.matches[i as int]))
        } else {
            None
        },
        None => None,
    }
}

/// A current match with its songs anonymized.
pub open spec fn spec_anon_current(c: Option<MatchView>) -> Option<MatchView> {
    match c {
        Some(m) => Some(spec_anon_match(m)),
        None => None,
    }
}

/// Each match's ballot count is small enough for the percentage arithmetic.
pub open spec fn views_ok(b: &Battle) -> bool {
    &&& b.wf()
    &&& forall|k: int|
        0 <= k < b.matches@.len() ==> (#[trigger] b.matches@[k]).votes.voters() * 100
            <= u32::MAX
}

/// Whether `views_ok` holds.
pub fn views_within_limits(b: &Battle) -> (r: bool)
    requires
        b.wf(),
    ensures
        r == views_ok(b),
{
    let n = b.matches.len();
    for k in 0..n
        invariant
            n == b.matches@.len(),
            forall|j: int|
                0 <= j < k ==> (#[trigger] b.matches@[j]).votes.voters() * 100 <= u32::MAX,
    {
        if b.matches[k].votes.len() > (u32::MAX / 100) as usize {
            return false;
        }
    }
    true
}

fn match_view(m: &Match) -> (v: MatchView)
    requires
        m.votes.wf(),
        m.votes.voters() * 100 <= u32::MAX,
    ensures
        v == spec_match_view(m@),
{
    proof {
        m.votes.lemma_model();
    }
    let (votes_a, votes_b) = m.votes.tally();
    let total = votes_a + votes_b;
    let timer = if m.state == MatchState::Active {
        Some(
            TimerView {
                duration_sec: m.timer.duration_sec,
                remaining_sec: m.timer.remaining_sec,
                running: m.timer.running,
            },
        )
    } else {
        None
    };
    MatchView {
        id: m.id.clone(),
        round: m.round,
        a: dup_song(&m.a),
        b: dup_song(&m.b),
        votes_a,
        votes_b,
        pct_a: pct(votes_a, total),
        pct_b: pct(votes_b, total),
        total,
        state: m.state,
        winner: m.winner,
        timer,
    }
}

/// Project a battle into its view: every match's view, the current match's
/// view (if `current` points at a match), the round being played (the
/// current match's, else the total), the songs and their count.
pub fn battle_view(b: &Battle) -> (v: BattleView)
    requires
        views_ok(b),
    ensures
        v.id == b.id,
        v.title == b.title,
        v.description == b.description,
        v.theme == b.theme,
        v.status == b.status,
        v.total_rounds == b.total_rounds,
        v.bracket@ == b@.matches.map_values(|m: MatchModel| spec_match_view(m)),
        v.current_match == spec_current_view(*b),
        v.round == (match v.current_match {
            Some(m) => m.round,
            None => b.total_rounds,
        }),
        v.winner == b.winner,
        v.songs@ == b.songs@,
        v.song_count == b.songs@.len() as u32,
{
    let mut bracket: Vec<MatchView> = Vec::new();
    let n = b.matches.len();
    for k in 0..n
        invariant
            n == b.matches@.len(),
            views_ok(b),
            bracket@ =~= b@.matches.take(k as int).map_values(|m: MatchModel| spec_match_view(m)),
    {
        assert(b.matches@[k as int].votes.wf());
        let mv = match_view(&b.matches[k]);
        bracket.push(mv);
    }
    assert(b@.matches.take(n as int) =~= b@.matches);
    let current_match = match b.current {
        Some(i) => if i < b.matches.len() {
            Some(match_view(&b.matches[i]))
        } else {
            None
        },
        None => None,
    };
    let round = match &current_match {
        Some(m) => m.round,
        None => b.total_rounds,
    };
    let mut songs: Vec<Song> = Vec::new();
    let sn = b.songs.len();
    for k in 0..sn
        invariant
            sn == b.songs@.len(),
            songs@ =~= b.songs@.take(k as int),
    {
        songs.push(b.songs[k].duplicate());
    }
    assert(b.songs@.take(sn as int) =~= b.songs@);
    BattleView {
        id: b.id.clone(),
        title: b.title.clone(),
        description: b.description.clone(),
        theme: b.theme.clone(),
        status: b.status,
        round,
        total_rounds: b.total_rounds,
        current_match,
        bracket,
        winner: dup_song(&b.winner),
        songs,
        song_count: b.songs.len() as u32,
    }
}

/// `s` with its submitter removed.
pub open spec fn spec_anon_song(s: Song) -> Song {
    Song { submitter: None, ..s }
}

pub open spec fn spec_anon_opt(o: Option<Song>) -> Option<Song> {
    match o {
        Some(s) => Some(spec_anon_song(s)),
        None => None,
    }
}

pub open spec fn spec_anon_match(m: MatchView) -> MatchView {
    MatchView { a: spec_anon_opt(m.a), b: spec_anon_opt(m.b), ..m }
}

fn anon_song(s: Song) -> (r: Song)
    ensures
        r == spec_anon_song(s),
{
    Song { submitter: None, ..s }
}

fn anon_opt(o: Option<Song>) -> (r: Option<Song>)
    ensures
        r == spec_anon_opt(o),
{
    match o {
        Some(s) => Some(anon_song(s)),
        None => None,
    }
}

fn anon_match(m: MatchView) -> (r: MatchView)
    ensures
        r == spec_anon_match(m),
{
    MatchView { a: anon_opt(m.a), b: anon_opt(m.b), ..m }
}

/// Every song of a list, anonymized.
pub open spec fn anon_songs(s: Seq<Song>) -> Seq<Song> {
    s.map_values(|x: Song| spec_anon_song(x))
}

/// Every match of a bracket view, anonymized.
pub open spec fn anon_bracket(b: Seq<MatchView>) -> Seq<MatchView> {
    b.map_values(|m: MatchView| spec_anon_match(m))
}

/// Anonymous mode hides every submitter: no song of the anonymized view,
/// in the song list, the bracket, the current match or as the winner,
/// carries a submitter name.
pub proof fn law_anonymous_hides_submitters(v: BattleView)
    ensures
        forall|i: int|
            0 <= i < v.songs@.len() ==> (#[trigger] anon_songs(v.songs@)[i]).submitter is None,
        forall|i: int|
            0 <= i < v.bracket@.len() ==> {
                let m = #[trigger] anon_bracket(v.bracket@)[i];
                &&& m.a matches Some(s) ==> s.submitter is None
                &&& m.b matches Some(s) ==> s.submitter is None
            },
        spec_anon_opt(v.winner) matches Some(s) ==> s.submitter is None,
        v.current_match matches Some(m) ==> (spec_anon_match(m).a matches Some(s)
            ==> s.submitter is None) && (spec_anon_match(m).b matches Some(s) ==> s.submitter is None),
{
}

/// Anonymous mode: the same view with every song's submitter removed.
pub fn anonymize(v: BattleView) -> (r: BattleView)
    ensures
        r.id == v.id && r.title == v.title && r.description == v.description && r.theme
            == v.theme && r.status == v.status && r.round == v.round && r.total_rounds
            == v.total_rounds && r.song_count == v.song_count,
        r.current_match == spec_anon_current(v.current_match),
        r.bracket@ == anon_bracket(v.bracket@),
        r.winner == spec_anon_opt(v.winner),
        r.songs@ == anon_songs(v.songs@),
{
    let BattleView {
        id,
        title,
        description,
        theme,
        status,
        round,
        total_rounds,
        current_match,
        bracket,
        winner,
        songs,
        song_count,
    } = v;
    let mut nb: Vec<MatchView> = Vec::new();
    let mut src = bracket;
    let ghost orig = src@;
    let mut k: usize = src.len();
    let mut rev: Vec<MatchView> = Vec::new();
    while k > 0
        invariant
            k == src@.len(),
            k <= orig.len(),
            src@ =~= orig.take(k as int),
            rev@.len() == orig.len() - k,
            forall|j: int| 0 <= j < rev@.len() ==> #[trigger] rev@[j] == spec_anon_match(orig[orig.len() - 1 - j]),
        decreases k,
    {
        let m = src.pop().unwrap();
        rev.push(anon_match(m));
        k = k - 1;
    }
    let mut j: usize = rev.len();
    while j > 0
        invariant
            j == rev@.len(),
            j <= orig.len(),
            nb@.len() == orig.len() - j,
            forall|q: int| 0 <= q < nb@.len() ==> #[trigger] nb@[q] == spec_anon_match(orig[q]),
            forall|q: int| 0 <= q < j ==> #[trigger] rev@[q] == spec_anon_match(orig[orig.len() - 1 - q]),
        decreases j,
    {
        let m = rev.pop().unwrap();
        nb.push(m);
        j = j - 1;
    }
    assert(nb@ =~= anon_bracket(orig));
    let mut ns: Vec<Song> = Vec::new();
    let sn = songs.len();
    for q in 0..sn
        invariant
            sn == songs@.len(),
            ns@ =~= anon_songs(songs@.take(q as int)),
    {
        let s = songs[q].duplicate();
        ns.push(anon_song(s));
    }
    assert(songs@.take(sn as int) =~= songs@);
    BattleView {
        id,
        title,
        description,
        theme,
        status,
        round,
        total_rounds,
        current_match: match current_match {
            Some(m) => Some(anon_match(m)),
            None => None,
        },
        bracket: nb,
        winner: anon_opt(winner),
        songs: ns,
        song_count,
    }
}

} // verus!
