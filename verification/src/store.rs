//! The rows a battle is stored as (battles / songs / matches), and the
//! battle rebuilt from them. Votes and live timers are not stored; an
//! `active` match reloads as `pending`, and the routing is recomputed.

use vstd::prelude::*;

use crate::battle::{spec_restore, Battle, BattleModel};
use crate::bracket::{empty_votes, Match, MatchModel, MatchState};
use crate::codec::{
    group_from, group_str, mode_from, mode_str, source_from, source_str, spec_group_from,
    spec_group_str, spec_mode_from, spec_mode_str, spec_source_from, spec_source_str,
    spec_state_from, spec_state_str, spec_status_from, spec_status_str, spec_winner_from,
    spec_winner_str, state_from, state_str, status_from, status_str, winner_from, winner_str,
};
use crate::error::msg;
use crate::song::{dup_opt, opt_view, Song};
use crate::text::{chars_eq, chars_of_string};
use crate::timer::Timer;
use crate::vote::Votes;

verus! {

/// A `battles` row.
#[derive(Debug, Clone)]
pub struct BattleRow {
    pub id: String,
    pub title: String,
    pub description: String,
    pub theme: String,
    pub mode: String,
    pub status: String,
    pub total_rounds: u32,
    pub duration_sec: u32,
    pub winner_song_id: Option<String>,
    pub current_idx: Option<i64>,
}

/// A `songs` row; `ordering` is the song's position in the battle.
#[derive(Debug, Clone)]
pub struct SongRow {
    pub id: String,
    pub ordering: i64,
    pub title: String,
    pub artist: Option<String>,
    pub thumbnail: Option<String>,
    pub duration_sec: Option<u32>,
    pub source: String,
    pub source_url: String,
    pub submitter: Option<String>,
}

/// A `matches` row; the slots hold song ids.
#[derive(Debug, Clone)]
pub struct MatchRow {
    pub id: String,
    pub round: u32,
    pub idx: u32,
    pub a_song_id: Option<String>,
    pub b_song_id: Option<String>,
    pub winner: Option<String>,
    pub state: String,
    pub match_group: String,
    pub best_of: u32,
    pub wins_a: u32,
    pub wins_b: u32,
}

/// The stored official-Kick login: client credentials, tokens and the
/// webhook subscription; all unset until the user logs in.
#[derive(Debug, Clone)]
pub struct KickAuth {
    pub client_id: Option<String>,
    pub client_secret: Option<String>,
    pub access_token: Option<String>,
    pub refresh_token: Option<String>,
    pub expires_at: Option<i64>,
    pub subscription_id: Option<String>,
}

impl Default for KickAuth {
    /// Nothing stored.
    fn default() -> (a: KickAuth)
        ensures
            a.client_id is None,
            a.client_secret is None,
            a.access_token is None,
            a.refresh_token is None,
            a.expires_at is None,
            a.subscription_id is None,
    {
        KickAuth {
            client_id: None,
            client_secret: None,
            access_token: None,
            refresh_token: None,
            expires_at: None,
            subscription_id: None,
        }
    }
}

// ── loading ─────────────────────────────────────────────────────────────────
/// Index of the last song with id `id` (an id → song index keeps the last
/// song of each id).
pub open spec fn last_with_id(songs: Seq<Song>, id: Seq<char>) -> Option<int>
    decreases songs.len(),
{
    if songs.len() == 0 {
        None
    } else if songs.last().id@ == id {
        Some(songs.len() - 1)
    } else {
        last_with_id(songs.drop_last(), id)
    }
}

/// Index of the first song with id `id` at or after `j`.
pub open spec fn first_with_id(songs: Seq<Song>, id: Seq<char>, j: nat) -> Option<int>
    decreases songs.len() - j,
{
    if j >= songs.len() {
        None
    } else if songs[j as int].id@ == id {
        Some(j as int)
    } else {
        first_with_id(songs, id, j + 1)
    }
}

/// The song a slot's id names (the last song with that id); `None` for an
/// empty slot or an unknown id.
pub open spec fn slot_song(songs: Seq<Song>, id: Option<String>) -> Option<Song> {
    match id {
        Some(i) => match last_with_id(songs, i@) {
            Some(k) => Some(songs[k]),
            None => None,
        },
        None => None,
    }
}

/// The battle's winner from its id: the first song with that id.
pub open spec fn winner_song(songs: Seq<Song>, id: Option<String>) -> Option<Song> {
    match id {
        Some(i) => match first_with_id(songs, i@, 0) {
            Some(k) => Some(songs[k]),
            None => None,
        },
        None => None,
    }
}

pub proof fn lemma_last_with_id(songs: Seq<Song>, id: Seq<char>)
    ensures
        match last_with_id(songs, id) {
            Some(k) => 0 <= k < songs.len() && songs[k].id@ == id,
            None => forall|k: int| 0 <= k < songs.len() ==> songs[k].id@ != id,
        },
    decreases songs.len(),
{
    if songs.len() > 0 && songs.last().id@ != id {
        let d = songs.drop_last();
        lemma_last_with_id(d, id);
        assert forall|k: int| 0 <= k < d.len() implies d[k] == songs[k] by {}
        if last_with_id(d, id) is None {
            assert forall|k: int| 0 <= k < songs.len() implies songs[k].id@ != id by {
                if k < d.len() {
                    assert(d[k] == songs[k]);
                }
            }
        }
    }
}

pub proof fn lemma_first_with_id(songs: Seq<Song>, id: Seq<char>, j: nat)
    ensures
        match first_with_id(songs, id, j) {
            Some(k) => j <= k < songs.len() && songs[k].id@ == id,
            None => forall|k: int| j <= k < songs.len() ==> songs[k].id@ != id,
        },
    decreases songs.len() - j,
{
    if j < songs.len() && songs[j as int].id@ != id {
        lemma_first_with_id(songs, id, j + 1);
    }
}

/// The song a `songs` row describes (no provider metadata).
pub open spec fn spec_song_from_row(r: SongRow) -> Song {
    Song {
        id: r.id,
        title: r.title,
        artist: r.artist,
        thumbnail: r.thumbnail,
        duration_sec: r.duration_sec,
        source: spec_source_from(r.source@),
        source_url: r.source_url,
        submitter: r.submitter,
        metadata: None,
    }
}

/// The state a stored match reloads in: a live match restarts as pending.
pub open spec fn loaded_state(t: Seq<char>) -> MatchState {
    if spec_state_from(t) == MatchState::Active {
        MatchState::Pending
    } else {
        spec_state_from(t)
    }
}

/// The match a `matches` row describes: slots resolved against `songs`,
/// fresh ballots, a stopped full timer of `d` seconds, routing not yet
/// computed.
pub open spec fn spec_match_from_row(r: MatchRow, songs: Seq<Song>, d: u32) -> MatchModel {
    MatchModel {
        id: r.id,
        group: spec_group_from(r.match_group@),
        round: r.round,
        idx: r.idx,
        a: slot_song(songs, r.a_song_id),
        b: slot_song(songs, r.b_song_id),
        votes: empty_votes(),
        state: loaded_state(r.state@),
        winner: spec_winner_from(opt_view(r.winner)),
        timer: Timer { duration_sec: d, remaining_sec: d, running: false },
        best_of: r.best_of,
        wins_a: r.wins_a,
        wins_b: r.wins_b,
        win_to: None,
        lose_to: None,
        a_filled: false,
        b_filled: false,
    }
}

pub open spec fn songs_of_rows(rows: Seq<SongRow>) -> Seq<Song> {
    rows.map_values(|r: SongRow| spec_song_from_row(r))
}

pub open spec fn matches_of_rows(rows: Seq<MatchRow>, songs: Seq<Song>, d: u32) -> Seq<MatchModel> {
    rows.map_values(|r: MatchRow| spec_match_from_row(r, songs, d))
}

/// The battle its rows describe, before the derived state is recomputed.
pub open spec fn spec_battle_from_rows(
    row: BattleRow,
    song_rows: Seq<SongRow>,
    match_rows: Seq<MatchRow>,
) -> BattleModel {
    let songs = songs_of_rows(song_rows);
    BattleModel {
        id: row.id,
        title: row.title,
        description: row.description,
        theme: row.theme,
        mode: spec_mode_from(row.mode@),
        status: spec_status_from(row.status@),
        songs,
        matches: matches_of_rows(match_rows, songs, row.duration_sec),
        total_rounds: row.total_rounds,
        current: match row.current_idx {
            Some(c) => Some(c as usize),
            None => None,
        },
        winner: winner_song(songs, row.winner_song_id),
        duration_sec: row.duration_sec,
    }
}

/// The song a `songs` row describes (see `spec_song_from_row`).
pub fn song_from_row(r: &SongRow) -> (s: Song)
    ensures
        s == spec_song_from_row(*r),
{
    let source = source_from(r.source.as_str());
    Song {
        id: r.id.clone(),
        title: r.title.clone(),
        artist: dup_opt(&r.artist),
        thumbnail: dup_opt(&r.thumbnail),
        duration_sec: r.duration_sec,
        source,
        source_url: r.source_url.clone(),
        submitter: dup_opt(&r.submitter),
        metadata: None,
    }
}

fn find_last(songs: &Vec<Song>, id: &Option<String>) -> (r: Option<Song>)
    ensures
        r == slot_song(songs@, *id),
{
    let target = match id {
        Some(i) => i,
        None => return None,
    };
    let mut k: usize = songs.len();
    assert(songs@.take(k as int) =~= songs@);
    while k > 0
        invariant
            k <= songs@.len(),
            *id == Some(*target),
            last_with_id(songs@, target@) == last_with_id(songs@.take(k as int), target@),
        decreases k,
    {
        let c = chars_of_string(&songs[k - 1].id);
        if chars_eq(c.as_slice(), target.as_str()) {
            assert(songs@.take(k as int).last() == songs@[k - 1]);
            assert(last_with_id(songs@, target@) == Some(k - 1));
            let found = songs[k - 1].duplicate();
            assert(found == songs@[k - 1]);
            assert(*id == Some(*target));
            assert(slot_song(songs@, *id) == Some(songs@[k - 1]));
            return Some(found);
        }
        assert(songs@.take(k as int).drop_last() =~= songs@.take(k - 1));
        k = k - 1;
    }
    None
}

fn find_first(songs: &Vec<Song>, id: &Option<String>) -> (r: Option<Song>)
    ensures
        r == winner_song(songs@, *id),
{
    let target = match id {
        Some(i) => i,
        None => return None,
    };
    let n = songs.len();
    for k in 0..n
        invariant
            n == songs@.len(),
            *id == Some(*target),
            first_with_id(songs@, target@, 0) == first_with_id(songs@, target@, k as nat),
    {
        let c = chars_of_string(&songs[k].id);
        if chars_eq(c.as_slice(), target.as_str()) {
            assert(songs@[k as int].id@ == target@);
            assert(first_with_id(songs@, target@, k as nat) == Some(k as int));
            return Some(songs[k].duplicate());
        }
    }
    None
}

/// The match a `matches` row describes (see `spec_match_from_row`).
pub fn match_from_row(r: &MatchRow, songs: &Vec<Song>, duration_sec: u32) -> (m: Match)
    ensures
        m@ == spec_match_from_row(*r, songs@, duration_sec),
        m.votes.wf(),
{
    let a = find_last(songs, &r.a_song_id);
    let b = find_last(songs, &r.b_song_id);
    let state0 = state_from(r.state.as_str());
    let state = if state0 == MatchState::Active {
        MatchState::Pending
    } else {
        state0
    };
    let winner = match &r.winner {
        Some(w) => winner_from(Some(w.as_str())),
        None => winner_from(None),
    };
    let group = group_from(r.match_group.as_str());
    Match {
        id: r.id.clone(),
        group,
        round: r.round,
        idx: r.idx,
        a,
        b,
        votes: Votes::new(),
        state,
        winner,
        timer: Timer::new(duration_sec),
        best_of: r.best_of,
        wins_a: r.wins_a,
        wins_b: r.wins_b,
        win_to: None,
        lose_to: None,
        a_filled: false,
        b_filled: false,
    }
}

/// The battle stored as these rows, its routing and fill flags recomputed
/// and an out-of-range current match dropped (see `spec_restore`).
pub fn battle_from_rows(row: BattleRow, song_rows: Vec<SongRow>, match_rows: Vec<MatchRow>) -> (b:
    Battle)
    ensures
        b.wf(),
        b@ == spec_restore(spec_battle_from_rows(row, song_rows@, match_rows@)),
{
    let mut songs: Vec<Song> = Vec::new();
    let n = song_rows.len();
    for k in 0..n
        invariant
            n == song_rows@.len(),
            songs@ =~= songs_of_rows(song_rows@.take(k as int)),
    {
        songs.push(song_from_row(&song_rows[k]));
        assert(song_rows@.take(k + 1) =~= song_rows@.take(k as int).push(song_rows@[k as int]));
    }
    assert(song_rows@.take(n as int) =~= song_rows@);
    let mut matches: Vec<Match> = Vec::new();
    let m_n = match_rows.len();
    for j in 0..m_n
        invariant
            m_n == match_rows@.len(),
            songs@ == songs_of_rows(song_rows@),
            crate::bracket::votes_wf(matches@),
            crate::bracket::models(matches@) =~= matches_of_rows(
                match_rows@.take(j as int),
                songs@,
                row.duration_sec,
            ),
    {
        let m = match_from_row(&match_rows[j], &songs, row.duration_sec);
        let ghost before = matches@;
        matches.push(m);
        assert(match_rows@.take(j + 1) =~= match_rows@.take(j as int).push(match_rows@[j as int]));
        assert(crate::bracket::models(matches@) =~= crate::bracket::models(before).push(m@));
    }
    assert(match_rows@.take(m_n as int) =~= match_rows@);
    let winner = find_first(&songs, &row.winner_song_id);
    let current = match row.current_idx {
        Some(c) => Some(#[verifier::truncate] (c as usize)),
        None => None,
    };
    let mut b = Battle {
        id: row.id,
        title: row.title,
        description: row.description,
        theme: row.theme,
        mode: mode_from(row.mode.as_str()),
        status: status_from(row.status.as_str()),
        songs,
        matches,
        total_rounds: row.total_rounds,
        current,
        winner,
        duration_sec: row.duration_sec,
    };
    b.rewire();
    b.normalize();
    b
}

// ── saving ──────────────────────────────────────────────────────────────────
/// The id a slot stores.
pub open spec fn slot_id(s: Option<Song>) -> Option<String> {
    match s {
        Some(x) => Some(x.id),
        None => None,
    }
}

/// `r` is the `battles` row of `b`.
pub open spec fn battle_row_of(r: BattleRow, b: BattleModel) -> bool {
    &&& r.id == b.id
    &&& r.title == b.title
    &&& r.description == b.description
    &&& r.theme == b.theme
    &&& r.mode@ == spec_mode_str(b.mode)
    &&& r.status@ == spec_status_str(b.status)
    &&& r.total_rounds == b.total_rounds
    &&& r.duration_sec == b.duration_sec
    &&& r.winner_song_id == slot_id(b.winner)
    &&& r.current_idx == match b.current {
        Some(c) => Some(c as i64),
        None => None,
    }
}

/// `r` is the `songs` row of `s`, stored at position `i`.
pub open spec fn song_row_of(r: SongRow, s: Song, i: int) -> bool {
    &&& r.id == s.id
    &&& r.ordering == i as i64
    &&& r.title == s.title
    &&& r.artist == s.artist
    &&& r.thumbnail == s.thumbnail
    &&& r.duration_sec == s.duration_sec
    &&& r.source@ == spec_source_str(s.source)
    &&& r.source_url == s.source_url
    &&& r.submitter == s.submitter
}

/// `r` is the `matches` row of `m`.
pub open spec fn match_row_of(r: MatchRow, m: MatchModel) -> bool {
    &&& r.id == m.id
    &&& r.round == m.round
    &&& r.idx == m.idx
    &&& r.a_song_id == slot_id(m.a)
    &&& r.b_song_id == slot_id(m.b)
    &&& opt_view(r.winner) == spec_winner_str(m.winner)
    &&& r.state@ == spec_state_str(m.state)
    &&& r.match_group@ == spec_group_str(m.group)
    &&& r.best_of == m.best_of
    &&& r.wins_a == m.wins_a
    &&& r.wins_b == m.wins_b
}

fn id_of_slot(s: &Option<Song>) -> (r: Option<String>)
    ensures
        r == slot_id(*s),
{
    match s {
        Some(x) => Some(x.id.clone()),
        None => None,
    }
}

/// The `battles` row of a battle.
pub fn battle_row(b: &Battle) -> (r: BattleRow)
    ensures
        battle_row_of(r, b@),
{
    BattleRow {
        id: b.id.clone(),
        title: b.title.clone(),
        description: b.description.clone(),
        theme: b.theme.clone(),
        mode: msg(mode_str(b.mode)),
        status: msg(status_str(b.status)),
        total_rounds: b.total_rounds,
        duration_sec: b.duration_sec,
        winner_song_id: id_of_slot(&b.winner),
        current_idx: match b.current {
            Some(c) => Some(#[verifier::truncate] (c as i64)),
            None => None,
        },
    }
}

/// The `songs` rows of a battle, in song order.
pub fn song_rows(b: &Battle) -> (r: Vec<SongRow>)
    ensures
        r@.len() == b@.songs.len(),
        forall|i: int| 0 <= i < r@.len() ==> song_row_of(#[trigger] r@[i], b@.songs[i], i),
{
    let mut r: Vec<SongRow> = Vec::new();
    let n = b.songs.len();
    for i in 0..n
        invariant
            n == b.songs@.len(),
            r@.len() == i,
            forall|k: int| 0 <= k < i ==> song_row_of(#[trigger] r@[k], b.songs@[k], k),
    {
        let s = &b.songs[i];
        r.push(
            SongRow {
                id: s.id.clone(),
                ordering: #[verifier::truncate] (i as i64),
                title: s.title.clone(),
                artist: dup_opt(&s.artist),
                thumbnail: dup_opt(&s.thumbnail),
                duration_sec: s.duration_sec,
                source: msg(source_str(s.source)),
                source_url: s.source_url.clone(),
                submitter: dup_opt(&s.submitter),
            },
        );
    }
    r
}

/// The `matches` rows of a battle, in bracket order.
pub fn match_rows(b: &Battle) -> (r: Vec<MatchRow>)
    ensures
        r@.len() == b@.matches.len(),
        forall|i: int| 0 <= i < r@.len() ==> match_row_of(#[trigger] r@[i], b@.matches[i]),
{
    let mut r: Vec<MatchRow> = Vec::new();
    let n = b.matches.len();
    for i in 0..n
        invariant
            n == b.matches@.len(),
            r@.len() == i,
            forall|k: int| 0 <= k < i ==> match_row_of(#[trigger] r@[k], b.matches@[k]@),
    {
        let m = &b.matches[i];
        let winner = match winner_str(m.winner) {
            Some(t) => Some(msg(t)),
            None => None,
        };
        r.push(
            MatchRow {
                id: m.id.clone(),
                round: m.round,
                idx: m.idx,
                a_song_id: id_of_slot(&m.a),
                b_song_id: id_of_slot(&m.b),
                winner,
                state: msg(state_str(m.state)),
                match_group: msg(group_str(m.group)),
                best_of: m.best_of,
                wins_a: m.wins_a,
                wins_b: m.wins_b,
            },
        );
    }
    r
}

// ── the round trip ──────────────────────────────────────────────────────────
/// A stored match as it comes back: fresh ballots, a stopped full timer of
/// `d` seconds, a live match pending again, routing to be recomputed.
pub open spec fn reloaded(m: MatchModel, d: u32) -> MatchModel {
    MatchModel {
        votes: empty_votes(),
        state: if m.state == MatchState::Active {
            MatchState::Pending
        } else {
            m.state
        },
        timer: Timer { duration_sec: d, remaining_sec: d, running: false },
        win_to: None,
        lose_to: None,
        a_filled: false,
        b_filled: false,
        ..m
    }
}

/// No two songs share an id.
pub open spec fn ids_distinct(songs: Seq<Song>) -> bool {
    forall|i: int, j: int| 0 <= i < j < songs.len() ==> songs[i].id@ != songs[j].id@
}

/// `o` is empty or one of `songs`.
pub open spec fn among(o: Option<Song>, songs: Seq<Song>) -> bool {
    o matches Some(x) ==> songs.contains(x)
}

proof fn lemma_lookup_distinct(songs: Seq<Song>, x: Song)
    requires
        ids_distinct(songs),
        songs.contains(x),
    ensures
        slot_song(songs, Some(x.id)) == Some(x),
        winner_song(songs, Some(x.id)) == Some(x),
{
    let k = choose|k: int| 0 <= k < songs.len() && songs[k] == x;
    lemma_last_with_id(songs, x.id@);
    lemma_first_with_id(songs, x.id@, 0);
    match last_with_id(songs, x.id@) {
        Some(j) => {
            if j != k {
                if j < k {
                    assert(songs[j].id@ != songs[k].id@);
                } else {
                    assert(songs[k].id@ != songs[j].id@);
                }
            }
        },
        None => {
            assert(songs[k].id@ != x.id@);
        },
    }
    match first_with_id(songs, x.id@, 0) {
        Some(j) => {
            if j != k {
                if j < k {
                    assert(songs[j].id@ != songs[k].id@);
                } else {
                    assert(songs[k].id@ != songs[j].id@);
                }
            }
        },
        None => {
            assert(songs[k].id@ != x.id@);
        },
    }
}

/// A song read back from its row is the song stored (provider metadata is
/// not stored).
pub proof fn law_song_row_round_trip(r: SongRow, s: Song, i: int)
    requires
        song_row_of(r, s, i),
        s.metadata is None,
    ensures
        spec_song_from_row(r) == s,
{
    crate::codec::law_codec_round_trip(
        s.source,
        crate::battle::BattleStatus::Idle,
        crate::battle::BattleMode::Single,
        crate::bracket::MatchGroup::Main,
        MatchState::Pending,
        None,
    );
}

/// A match read back from its row is the stored match `reloaded`, when its
/// slots hold songs of the battle and song ids are distinct.
pub proof fn law_match_row_round_trip(r: MatchRow, m: MatchModel, songs: Seq<Song>, d: u32)
    requires
        match_row_of(r, m),
        ids_distinct(songs),
        among(m.a, songs),
        among(m.b, songs),
    ensures
        spec_match_from_row(r, songs, d) == reloaded(m, d),
{
    crate::codec::law_codec_round_trip(
        crate::song::Source::Youtube,
        crate::battle::BattleStatus::Idle,
        crate::battle::BattleMode::Single,
        m.group,
        m.state,
        m.winner,
    );
    if let Some(x) = m.a {
        lemma_lookup_distinct(songs, x);
    }
    if let Some(x) = m.b {
        lemma_lookup_distinct(songs, x);
    }
}

/// A stored current index reads back as itself: the cast to the signed
/// column and back keeps every `usize`.
proof fn lemma_index_round_trip(c: usize)
    ensures
        ((c as i64) as usize) == c,
{
    assert(((c as i64) as usize) == c) by (bit_vector);
}

/// What loading the rows a battle was saved as gives back, whatever its
/// songs: its identity, text, mode, status, round count and timer; its
/// current match while that points into the bracket; its songs in order,
/// each as stored (provider metadata is not stored); and its matches in
/// order, each with its id, place in the bracket, series length, wins and
/// decision, and its state (a live match pending again).
pub proof fn law_battle_rows_reload(
    b: BattleModel,
    br: BattleRow,
    srows: Seq<SongRow>,
    mrows: Seq<MatchRow>,
)
    requires
        battle_row_of(br, b),
        srows.len() == b.songs.len(),
        forall|i: int| 0 <= i < srows.len() ==> song_row_of(#[trigger] srows[i], b.songs[i], i),
        mrows.len() == b.matches.len(),
        forall|i: int| 0 <= i < mrows.len() ==> match_row_of(#[trigger] mrows[i], b.matches[i]),
    ensures
        ({
            let l = spec_restore(spec_battle_from_rows(br, srows, mrows));
            &&& l.id == b.id
            &&& l.title == b.title
            &&& l.description == b.description
            &&& l.theme == b.theme
            &&& l.mode == b.mode
            &&& l.status == b.status
            &&& l.total_rounds == b.total_rounds
            &&& l.duration_sec == b.duration_sec
            &&& l.current == match b.current {
                Some(c) => if c < b.matches.len() {
                    Some(c)
                } else {
                    None
                },
                None => None,
            }
            &&& l.songs.len() == b.songs.len()
            &&& forall|i: int|
                0 <= i < b.songs.len() ==> #[trigger] l.songs[i] == (Song {
                    metadata: None,
                    ..b.songs[i]
                })
            &&& l.matches.len() == b.matches.len()
            &&& forall|i: int|
                0 <= i < b.matches.len() ==> {
                    let x = #[trigger] l.matches[i];
                    let m = b.matches[i];
                    &&& x.id == m.id
                    &&& x.group == m.group
                    &&& x.round == m.round
                    &&& x.idx == m.idx
                    &&& x.best_of == m.best_of
                    &&& x.wins_a == m.wins_a
                    &&& x.wins_b == m.wins_b
                    &&& x.winner == m.winner
                    &&& x.state == reloaded(m, b.duration_sec).state
                }
        }),
{
    if let Some(c) = b.current {
        lemma_index_round_trip(c);
    }
    crate::codec::law_codec_round_trip(
        crate::song::Source::Youtube,
        b.status,
        b.mode,
        crate::bracket::MatchGroup::Main,
        MatchState::Pending,
        None,
    );
    let loaded = spec_battle_from_rows(br, srows, mrows);
    assert forall|i: int| 0 <= i < srows.len() implies #[trigger] loaded.songs[i] == (Song {
        metadata: None,
        ..b.songs[i]
    }) by {
        law_song_row_round_trip(srows[i], Song { metadata: None, ..b.songs[i] }, i);
    }
    let l = spec_restore(loaded);
    assert forall|i: int| 0 <= i < b.matches.len() implies {
        let x = #[trigger] l.matches[i];
        let m = b.matches[i];
        &&& x.id == m.id
        &&& x.group == m.group
        &&& x.round == m.round
        &&& x.idx == m.idx
        &&& x.best_of == m.best_of
        &&& x.wins_a == m.wins_a
        &&& x.wins_b == m.wins_b
        &&& x.winner == m.winner
        &&& x.state == reloaded(m, b.duration_sec).state
    } by {
        let m = b.matches[i];
        crate::codec::law_codec_round_trip(
            crate::song::Source::Youtube,
            b.status,
            b.mode,
            m.group,
            m.state,
            m.winner,
        );
        assert(match_row_of(mrows[i], m));
    }
}

/// Saving then loading a battle gives it back, but for what is not stored:
/// the ballots, live timers and routing of its matches (`reloaded`). This
/// holds when song ids are distinct, every slot and the winner are songs
/// of the battle, and no song carries provider metadata.
pub proof fn law_battle_rows_round_trip(
    b: BattleModel,
    br: BattleRow,
    srows: Seq<SongRow>,
    mrows: Seq<MatchRow>,
)
    requires
        battle_row_of(br, b),
        srows.len() == b.songs.len(),
        forall|i: int| 0 <= i < srows.len() ==> song_row_of(#[trigger] srows[i], b.songs[i], i),
        mrows.len() == b.matches.len(),
        forall|i: int| 0 <= i < mrows.len() ==> match_row_of(#[trigger] mrows[i], b.matches[i]),
        ids_distinct(b.songs),
        forall|i: int| 0 <= i < b.songs.len() ==> (#[trigger] b.songs[i]).metadata is None,
        forall|i: int|
            0 <= i < b.matches.len() ==> among((#[trigger] b.matches[i]).a, b.songs) && among(
                b.matches[i].b,
                b.songs,
            ),
        among(b.winner, b.songs),
    ensures
        spec_battle_from_rows(br, srows, mrows) == (BattleModel {
            matches: b.matches.map_values(|m: MatchModel| reloaded(m, b.duration_sec)),
            ..b
        }),
{
    if let Some(c) = b.current {
        lemma_index_round_trip(c);
    }
    crate::codec::law_codec_round_trip(
        crate::song::Source::Youtube,
        b.status,
        b.mode,
        crate::bracket::MatchGroup::Main,
        MatchState::Pending,
        None,
    );
    assert forall|i: int| 0 <= i < srows.len() implies spec_song_from_row(srows[i]) == b.songs[i] by {
        law_song_row_round_trip(srows[i], b.songs[i], i);
    }
    assert(songs_of_rows(srows) =~= b.songs);
    assert forall|i: int| 0 <= i < mrows.len() implies spec_match_from_row(
        mrows[i],
        b.songs,
        b.duration_sec,
    ) == reloaded(b.matches[i], b.duration_sec) by {
        law_match_row_round_trip(mrows[i], b.matches[i], b.songs, b.duration_sec);
    }
    assert(matches_of_rows(mrows, b.songs, b.duration_sec) =~= b.matches.map_values(
        |m: MatchModel| reloaded(m, b.duration_sec),
    ));
    if let Some(x) = b.winner {
        lemma_lookup_distinct(b.songs, x);
    }
}

} // verus!
