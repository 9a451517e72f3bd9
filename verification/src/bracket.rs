//! Bracket layout and routing. Single elimination (`Main`), double
//! elimination (`Winners` / `Losers` / `Grand`), seeding in the songs' order
//! with byes on the top seeds, and the routing pointers along which winners
//! advance and losers drop.

use vstd::prelude::*;

use crate::song::{dup_song, Song};
use crate::timer::Timer;
use crate::vote::{VoteChoice, Votes, VotesModel};

verus! {

#[derive(Debug, Clone, Copy, PartialEq, Eq, Structural)]
pub enum MatchState {
    Pending,
    Active,
    Done,
}

/// Which part of the tournament a match belongs to.
#[derive(Debug, Clone, Copy, PartialEq, Eq, Structural)]
pub enum MatchGroup {
    Main,
    Winners,
    Losers,
    Grand,
}

/// A routing target: the slot of the match `(group, round, idx)` a song
/// moves into.
#[derive(Debug, Clone, Copy, PartialEq, Eq, Structural)]
pub struct Dest {
    pub group: MatchGroup,
    pub round: u32,
    pub idx: u32,
    pub slot_a: bool,
}

/// One match: two slots, a best-of series of timed games, and where its
/// winner and loser go.
#[derive(Debug, Clone)]
pub struct Match {
    pub id: String,
    pub group: MatchGroup,
    /// 1-based round within the group.
    pub round: u32,
    /// 0-based index within the round.
    pub idx: u32,
    pub a: Option<Song>,
    pub b: Option<Song>,
    pub votes: Votes,
    pub state: MatchState,
    pub winner: Option<VoteChoice>,
    pub timer: Timer,
    pub best_of: u32,
    pub wins_a: u32,
    pub wins_b: u32,
    pub win_to: Option<Dest>,
    pub lose_to: Option<Dest>,
    /// The slot has received its song (or its bye) from the feeder.
    pub a_filled: bool,
    pub b_filled: bool,
}

/// The abstract match: the same fields, with the ballot box as its model.
pub struct MatchModel {
    pub id: String,
    pub group: MatchGroup,
    pub round: u32,
    pub idx: u32,
    pub a: Option<Song>,
    pub b: Option<Song>,
    pub votes: VotesModel,
    pub state: MatchState,
    pub winner: Option<VoteChoice>,
    pub timer: Timer,
    pub best_of: u32,
    pub wins_a: u32,
    pub wins_b: u32,
    pub win_to: Option<Dest>,
    pub lose_to: Option<Dest>,
    pub a_filled: bool,
    pub b_filled: bool,
}

impl View for Match {
    type V = MatchModel;

    open spec fn view(&self) -> MatchModel {
        MatchModel {
            id: self.id,
            group: self.group,
            round: self.round,
            idx: self.idx,
            a: self.a,
            b: self.b,
            votes: self.votes@,
            state: self.state,
            winner: self.winner,
            timer: self.timer,
            best_of: self.best_of,
            wins_a: self.wins_a,
            wins_b: self.wins_b,
            win_to: self.win_to,
            lose_to: self.lose_to,
            a_filled: self.a_filled,
            b_filled: self.b_filled,
        }
    }
}

/// The models of a vector of matches.
pub open spec fn models(v: Seq<Match>) -> Seq<MatchModel> {
    v.map_values(|m: Match| m@)
}

/// Every ballot box is well formed.
pub open spec fn votes_wf(v: Seq<Match>) -> bool {
    forall|k: int| 0 <= k < v.len() ==> (#[trigger] v[k]).votes.wf()
}

pub open spec fn empty_votes() -> VotesModel {
    VotesModel { map: Map::empty(), last: Map::empty() }
}

// ── round counts ────────────────────────────────────────────────────────────
/// `2^e`.
pub open spec fn p2(e: nat) -> nat
    decreases e,
{
    if e == 0 {
        1
    } else {
        2 * p2((e - 1) as nat)
    }
}

/// `ceil(log2(n))`; 0 for `n < 2`.
pub open spec fn spec_total_rounds(n: nat) -> nat
    decreases n,
{
    if n < 2 {
        0
    } else {
        1 + spec_total_rounds(((n + 1) / 2) as nat)
    }
}

pub proof fn lemma_p2_mono(a: nat, b: nat)
    requires
        a <= b,
    ensures
        p2(a) <= p2(b),
        a < b ==> p2(a) < p2(b),
        p2(a) >= 1,
    decreases b,
{
    if a < b {
        lemma_p2_mono(a, (b - 1) as nat);
    } else if a > 0 {
        lemma_p2_mono((a - 1) as nat, (a - 1) as nat);
    }
}

/// `spec_total_rounds(n)` is the least `r` with `n <= 2^r`.
pub proof fn lemma_total_rounds(n: nat)
    ensures
        n <= p2(spec_total_rounds(n)) || n == 0,
        n >= 2 ==> spec_total_rounds(n) >= 1 && p2((spec_total_rounds(n) - 1) as nat) < n,
    decreases n,
{
    if n >= 2 {
        let m = ((n + 1) / 2) as nat;
        lemma_total_rounds(m);
        if m >= 2 {
            lemma_p2_mono(0, spec_total_rounds(m));
        }
    }
}

proof fn lemma_rounds_unique(n: nat, r: nat)
    requires
        n >= 2,
        r >= 1,
        p2((r - 1) as nat) < n,
        n <= p2(r),
    ensures
        r == spec_total_rounds(n),
{
    let t = spec_total_rounds(n);
    lemma_total_rounds(n);
    if r < t {
        lemma_p2_mono(r, (t - 1) as nat);
    } else if t < r {
        lemma_p2_mono(t, (r - 1) as nat);
    }
}

proof fn lemma_p2_64()
    ensures
        p2(64) == 0x1_0000_0000_0000_0000,
{
    reveal_with_fuel(p2, 65);
}

/// `ceil(log2(n))`; 0 for `n < 2`: the number of single-elimination rounds
/// for `n` songs.
pub fn total_rounds(n: usize) -> (r: u32)
    requires
        n <= usize::MAX / 2 + 1,
    ensures
        r == spec_total_rounds(n as nat),
        n >= 2 ==> p2((r - 1) as nat) < n <= p2(r as nat),
        n < 2 ==> r == 0,
{
    if n < 2 {
        return 0;
    }
    let mut rounds: u32 = 0;
    let mut size: usize = 1;
    proof {
        lemma_p2_64();
    }
    while size < n
        invariant
            2 <= n <= usize::MAX / 2 + 1,
            size == p2(rounds as nat),
            size >= 1,
            rounds <= 64,
            rounds == 0 || p2((rounds - 1) as nat) < n,
            p2(64) == 0x1_0000_0000_0000_0000,
        decreases usize::MAX - size,
    {
        if rounds == 64 {
            assert(false);
        }
        size = size * 2;
        rounds = rounds + 1;
    }
    proof {
        lemma_rounds_unique(n as nat, rounds as nat);
    }
    rounds
}

/// The match a winner of `(round, idx)` feeds into in a single-elimination
/// bracket: `(round + 1, idx / 2, idx is even)`.
pub fn parent(round: u32, idx: u32) -> (r: (u32, u32, bool))
    requires
        round < u32::MAX,
    ensures
        r == ((round + 1) as u32, idx / 2, idx % 2 == 0),
{
    (round + 1, idx / 2, idx % 2 == 0)
}

// ── layout ──────────────────────────────────────────────────────────────────
/// `(group, round, idx)` of each match in build order: every round of a
/// group, in round then index order.
pub open spec fn keys_upto(g: MatchGroup, count: spec_fn(nat) -> nat, r: nat) -> Seq<
    (MatchGroup, nat, nat),
>
    decreases r,
{
    if r == 0 {
        Seq::empty()
    } else {
        keys_upto(g, count, (r - 1) as nat) + Seq::new(
            count(r),
            |i: int| (g, r, i as nat),
        )
    }
}

/// Matches in round `r` of a main / winners bracket of `tr` rounds.
pub open spec fn main_count(tr: nat) -> spec_fn(nat) -> nat {
    |r: nat| p2((tr - r) as nat)
}

/// Matches in losers round `k` of a double-elimination bracket of `tr`
/// winners rounds: rounds `2j-1` and `2j` both hold `2^(tr-1-j)` matches.
pub open spec fn lb_count(tr: nat) -> spec_fn(nat) -> nat {
    |k: nat| p2((tr - 1 - (k + 1) / 2) as nat)
}

/// Number of losers rounds.
pub open spec fn lb_rounds(tr: nat) -> nat {
    if tr >= 1 {
        (2 * (tr - 1)) as nat
    } else {
        0
    }
}

/// Build order of a single-elimination bracket.
pub open spec fn single_keys(tr: nat) -> Seq<(MatchGroup, nat, nat)> {
    keys_upto(MatchGroup::Main, main_count(tr), tr)
}

/// Build order of a double-elimination bracket: all winners rounds, all
/// losers rounds, then the grand final and its bracket-reset decider.
pub open spec fn double_keys(tr: nat) -> Seq<(MatchGroup, nat, nat)> {
    keys_upto(MatchGroup::Winners, main_count(tr), tr) + keys_upto(
        MatchGroup::Losers,
        lb_count(tr),
        lb_rounds(tr),
    ) + seq![(MatchGroup::Grand, 1nat, 0nat), (MatchGroup::Grand, 2nat, 0nat)]
}

/// The seed at position `j`, if there is one.
pub open spec fn seed(songs: Seq<Song>, j: int) -> Option<Song> {
    if 0 <= j < songs.len() {
        Some(songs[j])
    } else {
        None
    }
}

/// A fresh, unrouted match for key `(g, r, i)`. First-round winners / main
/// slots are seeded `seed[i]` vs `seed[slots-1-i]` (so byes land on the top
/// seeds) and count as filled; every other slot starts empty.
pub open spec fn shape(
    songs: Seq<Song>,
    tr: nat,
    key: (MatchGroup, nat, nat),
    d: u32,
    bo: u32,
    id: String,
) -> MatchModel {
    let (g, r, i) = key;
    let seeded = (g == MatchGroup::Main || g == MatchGroup::Winners) && r == 1;
    MatchModel {
        id,
        group: g,
        round: r as u32,
        idx: i as u32,
        a: if seeded {
            seed(songs, i as int)
        } else {
            None
        },
        b: if seeded {
            seed(songs, p2(tr) - 1 - i)
        } else {
            None
        },
        votes: empty_votes(),
        state: MatchState::Pending,
        winner: None,
        timer: Timer { duration_sec: d, remaining_sec: d, running: false },
        best_of: bo,
        wins_a: 0,
        wins_b: 0,
        win_to: None,
        lose_to: None,
        a_filled: seeded,
        b_filled: seeded,
    }
}

proof fn lemma_main_keys_len(g: MatchGroup, tr: nat, r: nat)
    requires
        r <= tr,
    ensures
        keys_upto(g, main_count(tr), r).len() == p2(tr) - p2((tr - r) as nat),
    decreases r,
{
    if r > 0 {
        lemma_main_keys_len(g, tr, (r - 1) as nat);
        assert(p2((tr - (r - 1)) as nat) == 2 * p2((tr - r) as nat));
    }
}

proof fn lemma_losers_keys_len(tr: nat, j: nat)
    requires
        tr >= 1,
        j <= tr - 1,
    ensures
        keys_upto(MatchGroup::Losers, lb_count(tr), 2 * j).len() == 2 * (p2((tr - 1) as nat) - p2(
            (tr - 1 - j) as nat,
        )),
    decreases j,
{
    if j > 0 {
        lemma_losers_keys_len(tr, (j - 1) as nat);
        let c = lb_count(tr);
        assert(c((2 * j - 1) as nat) == p2((tr - 1 - j) as nat));
        assert(c(2 * j) == p2((tr - 1 - j) as nat));
        assert(p2((tr - 1 - (j - 1)) as nat) == 2 * p2((tr - 1 - j) as nat));
        assert(keys_upto(MatchGroup::Losers, c, 2 * j).len() == keys_upto(
            MatchGroup::Losers,
            c,
            (2 * j - 1) as nat,
        ).len() + c(2 * j));
        assert(keys_upto(MatchGroup::Losers, c, (2 * j - 1) as nat).len() == keys_upto(
            MatchGroup::Losers,
            c,
            (2 * (j - 1)) as nat,
        ).len() + c((2 * j - 1) as nat));
    }
}

/// Bracket sizes: a single-elimination bracket of `rounds` rounds has
/// `2^rounds - 1` matches; a double-elimination one has `2^(rounds+1) - 1`
/// (winners `2^rounds - 1`, losers `2^rounds - 2`, and the grand final with
/// its reset).
pub proof fn law_bracket_sizes(rounds: nat)
    ensures
        single_keys(rounds).len() == p2(rounds) - 1,
        rounds >= 1 ==> double_keys(rounds).len() == 2 * p2(rounds) - 1,
{
    lemma_main_keys_len(MatchGroup::Main, rounds, rounds);
    if rounds >= 1 {
        lemma_main_keys_len(MatchGroup::Winners, rounds, rounds);
        lemma_losers_keys_len(rounds, (rounds - 1) as nat);
        assert(p2(rounds) == 2 * p2((rounds - 1) as nat));
    }
}

/// Seeding of a bracket for `songs` (at least 2): every first-round match
/// has a song in slot `a`, so no first-round match is empty; and song `j`
/// sits in exactly one first-round slot: slot `a` of match `j` when it is in
/// the top half of the seeds, else slot `b` of match `2^rounds - 1 - j`
/// (the top seeds meet the byes).
pub proof fn law_first_round_seeding(songs: Seq<Song>, g: MatchGroup, i: nat, j: int, d: u32, bo: u32, id: String)
    requires
        songs.len() >= 2,
        g == MatchGroup::Main || g == MatchGroup::Winners,
    ensures
        i < p2((spec_total_rounds(songs.len()) - 1) as nat) ==> shape(
            songs,
            spec_total_rounds(songs.len()),
            (g, 1, i),
            d,
            bo,
            id,
        ).a == Some(songs[i as int]),
        0 <= j < songs.len() && j < p2((spec_total_rounds(songs.len()) - 1) as nat) ==> shape(
            songs,
            spec_total_rounds(songs.len()),
            (g, 1, j as nat),
            d,
            bo,
            id,
        ).a == Some(songs[j]),
        0 <= j < songs.len() && j >= p2((spec_total_rounds(songs.len()) - 1) as nat) ==> ({
            let k = p2(spec_total_rounds(songs.len())) - 1 - j;
            &&& 0 <= k < p2((spec_total_rounds(songs.len()) - 1) as nat)
            &&& shape(songs, spec_total_rounds(songs.len()), (g, 1, k as nat), d, bo, id).b
                == Some(songs[j])
        }),
{
    let tr = spec_total_rounds(songs.len());
    lemma_total_rounds(songs.len());
    assert(p2(tr) == 2 * p2((tr - 1) as nat));
}

/// With no song listed twice, a first-round slot holding song `j` is the one
/// `law_first_round_seeding` names: slot `a` of match `j`, or slot `b` of
/// match `2^rounds - 1 - j`. So each song sits in exactly one first-round
/// slot.
pub proof fn law_first_round_slot_is_unique(
    songs: Seq<Song>,
    g: MatchGroup,
    k: nat,
    j: int,
    d: u32,
    bo: u32,
    id: String,
)
    requires
        songs.no_duplicates(),
        songs.len() >= 2,
        g == MatchGroup::Main || g == MatchGroup::Winners,
        k < p2((spec_total_rounds(songs.len()) - 1) as nat),
        0 <= j < songs.len(),
    ensures
        shape(songs, spec_total_rounds(songs.len()), (g, 1, k), d, bo, id).a == Some(songs[j])
            ==> k == j,
        shape(songs, spec_total_rounds(songs.len()), (g, 1, k), d, bo, id).b == Some(songs[j])
            ==> k == p2(spec_total_rounds(songs.len())) - 1 - j,
{
    let tr = spec_total_rounds(songs.len());
    lemma_total_rounds(songs.len());
    assert(p2(tr) == 2 * p2((tr - 1) as nat));
}

// ── routing ─────────────────────────────────────────────────────────────────
pub open spec fn dest(g: MatchGroup, r: int, i: int, slot_a: bool) -> Option<Dest> {
    Some(Dest { group: g, round: r as u32, idx: i as u32, slot_a })
}

/// Where the winner of `(g, r, i)` goes in a bracket of `tr` main/winners
/// rounds. Main: the parent match, none after the final. Winners: the parent,
/// the grand final's slot `a` after the winners final. Losers: odd rounds keep
/// the index and fill slot `a` (slot `b` takes a winners-bracket loser); even
/// rounds pair up; the losers final feeds the grand final's slot `b`.
pub open spec fn route_win(g: MatchGroup, r: u32, i: u32, tr: u32) -> Option<Dest> {
    if tr > 64 {
        None
    } else {
        match g {
            MatchGroup::Main => if 1 <= r < tr {
                dest(MatchGroup::Main, r + 1, (i / 2) as int, i % 2 == 0)
            } else {
                None
            },
            MatchGroup::Winners => if r < tr {
                dest(MatchGroup::Winners, r + 1, (i / 2) as int, i % 2 == 0)
            } else {
                dest(MatchGroup::Grand, 1, 0, true)
            },
            MatchGroup::Losers => if r >= 2 * (tr - 1) {
                dest(MatchGroup::Grand, 1, 0, false)
            } else if r % 2 == 1 {
                dest(MatchGroup::Losers, r + 1, i as int, true)
            } else {
                dest(MatchGroup::Losers, r + 1, (i / 2) as int, i % 2 == 0)
            },
            MatchGroup::Grand => None,
        }
    }
}

/// Where the loser of `(g, r, i)` drops: winners round 1 pairs up into
/// losers round 1; winners round `r >= 2` drops into slot `b` of losers round
/// `2(r-1)`, same index; with a single winners round the loser goes straight
/// to the grand final. Everyone else is eliminated.
pub open spec fn route_lose(g: MatchGroup, r: u32, i: u32, tr: u32) -> Option<Dest> {
    if tr > 64 {
        None
    } else {
        match g {
            MatchGroup::Winners => if r <= 1 {
                if tr <= 1 {
                    dest(MatchGroup::Grand, 1, 0, false)
                } else {
                    dest(MatchGroup::Losers, 1, (i / 2) as int, i % 2 == 0)
                }
            } else if r <= tr {
                dest(MatchGroup::Losers, 2 * (r - 1), i as int, false)
            } else {
                None
            },
            _ => None,
        }
    }
}

/// `m` with its routing recomputed for a bracket of `tr` rounds.
pub open spec fn wired(m: MatchModel, tr: u32) -> MatchModel {
    MatchModel {
        win_to: route_win(m.group, m.round, m.idx, tr),
        lose_to: route_lose(m.group, m.round, m.idx, tr),
        ..m
    }
}

pub open spec fn spec_wire(ms: Seq<MatchModel>, tr: u32) -> Seq<MatchModel> {
    ms.map_values(|m: MatchModel| wired(m, tr))
}

fn route_win_exec(g: MatchGroup, r: u32, i: u32, tr: u32) -> (d: Option<Dest>)
    ensures
        d == route_win(g, r, i, tr),
{
    if tr > 64 {
        return None;
    }
    match g {
        MatchGroup::Main => if 1 <= r && r < tr {
            Some(Dest { group: MatchGroup::Main, round: r + 1, idx: i / 2, slot_a: i % 2 == 0 })
        } else {
            None
        },
        MatchGroup::Winners => if r < tr {
            Some(Dest { group: MatchGroup::Winners, round: r + 1, idx: i / 2, slot_a: i % 2 == 0 })
        } else {
            Some(Dest { group: MatchGroup::Grand, round: 1, idx: 0, slot_a: true })
        },
        MatchGroup::Losers => {
            if tr == 0 || r >= 2 * (tr - 1) {
                Some(Dest { group: MatchGroup::Grand, round: 1, idx: 0, slot_a: false })
            } else if r % 2 == 1 {
                Some(Dest { group: MatchGroup::Losers, round: r + 1, idx: i, slot_a: true })
            } else {
                Some(
                    Dest {
                        group: MatchGroup::Losers,
                        round: r + 1,
                        idx: i / 2,
                        slot_a: i % 2 == 0,
                    },
                )
            }
        },
        MatchGroup::Grand => None,
    }
}

fn route_lose_exec(g: MatchGroup, r: u32, i: u32, tr: u32) -> (d: Option<Dest>)
    ensures
        d == route_lose(g, r, i, tr),
{
    if tr > 64 {
        return None;
    }
    match g {
        MatchGroup::Winners => if r <= 1 {
            if tr <= 1 {
                Some(Dest { group: MatchGroup::Grand, round: 1, idx: 0, slot_a: false })
            } else {
                Some(Dest { group: MatchGroup::Losers, round: 1, idx: i / 2, slot_a: i % 2 == 0 })
            }
        } else if r <= tr {
            Some(Dest { group: MatchGroup::Losers, round: 2 * (r - 1), idx: i, slot_a: false })
        } else {
            None
        },
        _ => None,
    }
}

/// Recompute every match's routing for a bracket of `total_rounds` rounds.
pub fn wire(matches: &mut Vec<Match>, total_rounds: u32)
    requires
        votes_wf(old(matches)@),
    ensures
        votes_wf(final(matches)@),
        models(final(matches)@) == spec_wire(models(old(matches)@), total_rounds),
{
    let n = matches.len();
    for k in 0..n
        invariant
            n == matches@.len(),
            n == old(matches)@.len(),
            votes_wf(matches@),
            forall|j: int|
                0 <= j < k ==> (#[trigger] matches@[j])@ == wired(old(matches)@[j]@, total_rounds),
            forall|j: int| k <= j < n ==> #[trigger] matches@[j] == old(matches)@[j],
    {
        let g = matches[k].group;
        let r = matches[k].round;
        let i = matches[k].idx;
        let w = route_win_exec(g, r, i, total_rounds);
        let l = route_lose_exec(g, r, i, total_rounds);
        matches[k].win_to = w;
        matches[k].lose_to = l;
    }
    assert(models(matches@) =~= spec_wire(models(old(matches)@), total_rounds));
}

// ── generation ──────────────────────────────────────────────────────────────
/// A fresh random identifier (`uuid::Uuid::new_v4`, hyphenated).
#[verifier::external_body]
pub(crate) fn fresh_id() -> String {
    uuid::Uuid::new_v4().to_string()
}

/// `2^e` as a `usize`.
fn pow2_usize(e: u32) -> (r: usize)
    requires
        p2(e as nat) <= usize::MAX,
    ensures
        r == p2(e as nat),
{
    let mut r: usize = 1;
    let mut k: u32 = 0;
    while k < e
        invariant
            k <= e,
            r == p2(k as nat),
            p2(e as nat) <= usize::MAX,
        decreases e - k,
    {
        proof {
            lemma_p2_mono((k + 1) as nat, e as nat);
        }
        r = r * 2;
        k = k + 1;
    }
    r
}

/// Push the `count` matches of round `round` of group `g`.
fn push_round(
    v: &mut Vec<Match>,
    songs: &[Song],
    tr: u32,
    slots: usize,
    g: MatchGroup,
    round: u32,
    count: usize,
    d: u32,
    bo: u32,
)
    requires
        votes_wf(old(v)@),
        slots == p2(tr as nat),
        count <= slots,
    ensures
        votes_wf(final(v)@),
        final(v)@.len() == old(v)@.len() + count,
        forall|j: int| 0 <= j < old(v)@.len() ==> #[trigger] final(v)@[j] == old(v)@[j],
        forall|k: int|
            old(v)@.len() <= k < final(v)@.len() ==> (#[trigger] final(v)@[k])@ == shape(
                songs@,
                tr as nat,
                (g, round as nat, (k - old(v)@.len()) as nat),
                d,
                bo,
                final(v)@[k].id,
            ),
{
    let ghost start = v@.len();
    let seeded = (g == MatchGroup::Main || g == MatchGroup::Winners) && round == 1;
    for m in 0..count
        invariant
            start == old(v)@.len(),
            slots == p2(tr as nat),
            count <= slots,
            seeded == ((g == MatchGroup::Main || g == MatchGroup::Winners) && round == 1),
            votes_wf(v@),
            v@.len() == start + m,
            forall|j: int| 0 <= j < start ==> #[trigger] v@[j] == old(v)@[j],
            forall|k: int|
                start <= k < v@.len() ==> (#[trigger] v@[k])@ == shape(
                    songs@,
                    tr as nat,
                    (g, round as nat, (k - start) as nat),
                    d,
                    bo,
                    v@[k].id,
                ),
    {
        let (a, b) = if seeded {
            let a = if m < songs.len() {
                Some(songs[m].duplicate())
            } else {
                None
            };
            let j = slots - 1 - m;
            let b = if j < songs.len() {
                Some(songs[j].duplicate())
            } else {
                None
            };
            (a, b)
        } else {
            (None, None)
        };
        let mt = Match {
            id: fresh_id(),
            group: g,
            round,
            idx: m as u32,
            a,
            b,
            votes: Votes::new(),
            state: MatchState::Pending,
            winner: None,
            timer: Timer::new(d),
            best_of: bo,
            wins_a: 0,
            wins_b: 0,
            win_to: None,
            lose_to: None,
            a_filled: seeded,
            b_filled: seeded,
        };
        proof {
            assert(mt.votes@ == empty_votes());
        }
        v.push(mt);
    }
}

/// Push every round `1..=rounds` of group `g`.
fn push_group(
    v: &mut Vec<Match>,
    songs: &[Song],
    tr: u32,
    slots: usize,
    g: MatchGroup,
    Ghost(count): Ghost<spec_fn(nat) -> nat>,
    rounds: u32,
    d: u32,
    bo: u32,
)
    requires
        votes_wf(old(v)@),
        slots == p2(tr as nat),
        tr <= 64,
        rounds <= 2 * tr,
        g == MatchGroup::Losers ==> count == lb_count(tr as nat) && rounds == lb_rounds(tr as nat),
        g != MatchGroup::Losers ==> count == main_count(tr as nat) && rounds == tr,
    ensures
        votes_wf(final(v)@),
        final(v)@.len() == old(v)@.len() + keys_upto(g, count, rounds as nat).len(),
        forall|j: int| 0 <= j < old(v)@.len() ==> #[trigger] final(v)@[j] == old(v)@[j],
        forall|k: int|
            old(v)@.len() <= k < final(v)@.len() ==> (#[trigger] final(v)@[k])@ == shape(
                songs@,
                tr as nat,
                keys_upto(g, count, rounds as nat)[k - old(v)@.len()],
                d,
                bo,
                final(v)@[k].id,
            ),
{
    let ghost start = v@.len();
    let mut round: u32 = 1;
    while round <= rounds
        invariant
            start == old(v)@.len(),
            slots == p2(tr as nat),
            tr <= 64,
            rounds <= 2 * tr,
            1 <= round <= rounds + 1,
            g == MatchGroup::Losers ==> count == lb_count(tr as nat) && rounds == lb_rounds(
                tr as nat,
            ),
            g != MatchGroup::Losers ==> count == main_count(tr as nat) && rounds == tr,
            votes_wf(v@),
            v@.len() == start + keys_upto(g, count, (round - 1) as nat).len(),
            forall|j: int| 0 <= j < start ==> #[trigger] v@[j] == old(v)@[j],
            forall|k: int|
                start <= k < v@.len() ==> (#[trigger] v@[k])@ == shape(
                    songs@,
                    tr as nat,
                    keys_upto(g, count, (round - 1) as nat)[k - start],
                    d,
                    bo,
                    v@[k].id,
                ),
        decreases rounds + 1 - round,
    {
        let e: u32 = if g == MatchGroup::Losers {
            tr - 1 - (round + 1) / 2
        } else {
            tr - round
        };
        proof {
            lemma_p2_mono(e as nat, tr as nat);
        }
        let c = pow2_usize(e);
        assert(c == count(round as nat));
        let ghost before = v@;
        push_round(v, songs, tr, slots, g, round, c, d, bo);
        proof {
            let kp = keys_upto(g, count, (round - 1) as nat);
            let kn = keys_upto(g, count, round as nat);
            assert(kn =~= kp + Seq::new(count(round as nat), |i: int| (g, round as nat, i as nat)));
            assert forall|k: int| start <= k < v@.len() implies (#[trigger] v@[k])@ == shape(
                songs@,
                tr as nat,
                kn[k - start],
                d,
                bo,
                v@[k].id,
            ) by {
                if k < before.len() {
                    assert(v@[k] == before[k]);
                }
            }
        }
        round = round + 1;
    }
}

/// Build a single-elimination bracket (group `Main`, best-of-`best_of`
/// matches of `duration_sec`-second games), routed, byes not yet resolved.
pub fn generate_single(songs: &[Song], duration_sec: u32, best_of: u32) -> (r: Vec<Match>)
    requires
        songs@.len() <= usize::MAX / 2 + 1,
    ensures
        votes_wf(r@),
        models(r@) == single_layout(songs@, duration_sec, best_of, ids_of(models(r@))),
        r@.len() == single_keys(spec_total_rounds(songs@.len())).len(),
        forall|k: int|
            0 <= k < r@.len() ==> (#[trigger] r@[k])@ == wired(
                shape(
                    songs@,
                    spec_total_rounds(songs@.len()),
                    single_keys(spec_total_rounds(songs@.len()))[k],
                    duration_sec,
                    best_of,
                    r@[k].id,
                ),
                spec_total_rounds(songs@.len()) as u32,
            ),
{
    let tr = total_rounds(songs.len());
    proof {
        lemma_p2_64();
        lemma_total_rounds(songs@.len());
    }
    assert(tr <= 64) by {
        if tr > 64 {
            lemma_p2_mono(64, (tr - 1) as nat);
        }
    }
    proof {
        lemma_p2_mono(tr as nat, 64);
    }
    let slots = pow2_usize(tr);
    let mut v: Vec<Match> = Vec::new();
    push_group(&mut v, songs, tr, slots, MatchGroup::Main, Ghost(main_count(tr as nat)), tr, duration_sec, best_of);
    let ghost unrouted = v@;
    assert(unrouted.len() == single_keys(tr as nat).len());
    wire(&mut v, tr);
    assert(models(v@).len() == v@.len());
    assert(v@.len() == unrouted.len());
    proof {
        assert forall|k: int| 0 <= k < v@.len() implies (#[trigger] v@[k])@ == wired(
            shape(songs@, tr as nat, single_keys(tr as nat)[k], duration_sec, best_of, v@[k].id),
            tr,
        ) by {
            assert(models(v@)[k] == spec_wire(models(unrouted), tr)[k]);
            assert(unrouted[k]@ == shape(songs@, tr as nat, single_keys(tr as nat)[k - 0], duration_sec, best_of, unrouted[k].id));
        }
        assert(models(v@) =~= single_layout(songs@, duration_sec, best_of, ids_of(models(v@))));
    }
    v
}

/// Build a double-elimination bracket (winners, losers, grand final and
/// bracket reset; one game per match), routed, byes not yet resolved.
pub fn generate_double(songs: &[Song], duration_sec: u32) -> (r: Vec<Match>)
    requires
        songs@.len() <= usize::MAX / 2 + 1,
    ensures
        votes_wf(r@),
        models(r@) == double_layout(songs@, duration_sec, ids_of(models(r@))),
        r@.len() == double_keys(spec_total_rounds(songs@.len())).len(),
        forall|k: int|
            0 <= k < r@.len() ==> (#[trigger] r@[k])@ == wired(
                shape(
                    songs@,
                    spec_total_rounds(songs@.len()),
                    double_keys(spec_total_rounds(songs@.len()))[k],
                    duration_sec,
                    1,
                    r@[k].id,
                ),
                spec_total_rounds(songs@.len()) as u32,
            ),
{
    let tr = total_rounds(songs.len());
    proof {
        lemma_p2_64();
        lemma_total_rounds(songs@.len());
    }
    assert(tr <= 64) by {
        if tr > 64 {
            lemma_p2_mono(64, (tr - 1) as nat);
        }
    }
    proof {
        lemma_p2_mono(tr as nat, 64);
    }
    let slots = pow2_usize(tr);
    let mut v: Vec<Match> = Vec::new();
    push_group(&mut v, songs, tr, slots, MatchGroup::Winners, Ghost(main_count(tr as nat)), tr, duration_sec, 1);
    let ghost w = v@;
    let lr: u32 = if tr >= 1 {
        2 * (tr - 1)
    } else {
        0
    };
    push_group(&mut v, songs, tr, slots, MatchGroup::Losers, Ghost(lb_count(tr as nat)), lr, duration_sec, 1);
    let ghost wl = v@;
    push_round(&mut v, songs, tr, slots, MatchGroup::Grand, 1, 1, duration_sec, 1);
    push_round(&mut v, songs, tr, slots, MatchGroup::Grand, 2, 1, duration_sec, 1);
    let ghost unrouted = v@;
    proof {
        let kw = keys_upto(MatchGroup::Winners, main_count(tr as nat), tr as nat);
        let kl = keys_upto(MatchGroup::Losers, lb_count(tr as nat), lr as nat);
        let keys = double_keys(tr as nat);
        assert(keys =~= kw + kl + seq![(MatchGroup::Grand, 1nat, 0nat), (MatchGroup::Grand, 2nat, 0nat)]);
        assert forall|k: int| 0 <= k < unrouted.len() implies (#[trigger] unrouted[k])@ == shape(
            songs@,
            tr as nat,
            keys[k],
            duration_sec,
            1,
            unrouted[k].id,
        ) by {
            if k < kw.len() {
                assert(unrouted[k] == w[k]);
                assert(w[k]@ == shape(songs@, tr as nat, kw[k - 0], duration_sec, 1, w[k].id));
            } else if k < kw.len() + kl.len() {
                assert(unrouted[k] == wl[k]);
            } else if k == kw.len() + kl.len() {
            } else {
            }
        }
    }
    assert(unrouted.len() == double_keys(tr as nat).len());
    wire(&mut v, tr);
    assert(models(v@).len() == v@.len());
    assert(v@.len() == unrouted.len());
    proof {
        assert forall|k: int| 0 <= k < v@.len() implies (#[trigger] v@[k])@ == wired(
            shape(songs@, tr as nat, double_keys(tr as nat)[k], duration_sec, 1, v@[k].id),
            tr,
        ) by {
            assert(models(v@)[k] == spec_wire(models(unrouted), tr)[k]);
        }
        assert(models(v@) =~= double_layout(songs@, duration_sec, ids_of(models(v@))));
    }
    v
}


// ── lookup, delivery, byes ──────────────────────────────────────────────────
pub open spec fn key_is(m: MatchModel, g: MatchGroup, r: u32, i: u32) -> bool {
    m.group == g && m.round == r && m.idx == i
}

/// Index of the first match at or after `j` with key `(g, r, i)`.
pub open spec fn find_from(ms: Seq<MatchModel>, g: MatchGroup, r: u32, i: u32, j: nat) -> Option<
    int,
>
    decreases ms.len() - j,
{
    if j >= ms.len() {
        None
    } else if key_is(ms[j as int], g, r, i) {
        Some(j as int)
    } else {
        find_from(ms, g, r, i, j + 1)
    }
}

/// Index of the first match with the key of `d`.
pub open spec fn spec_find(ms: Seq<MatchModel>, d: Dest) -> Option<int> {
    find_from(ms, d.group, d.round, d.idx, 0)
}

pub proof fn lemma_find_from(ms: Seq<MatchModel>, g: MatchGroup, r: u32, i: u32, j: nat)
    ensures
        match find_from(ms, g, r, i, j) {
            Some(x) => j <= x < ms.len() && key_is(ms[x], g, r, i),
            None => forall|y: int| j <= y < ms.len() ==> !key_is(#[trigger] ms[y], g, r, i),
        },
    decreases ms.len() - j,
{
    if j < ms.len() && !key_is(ms[j as int], g, r, i) {
        lemma_find_from(ms, g, r, i, j + 1);
    }
}

/// Same length and the same `(group, round, idx)` at every index.
pub open spec fn same_keys(a: Seq<MatchModel>, b: Seq<MatchModel>) -> bool {
    &&& a.len() == b.len()
    &&& forall|k: int|
        0 <= k < a.len() ==> (#[trigger] a[k]).group == b[k].group && a[k].round == b[k].round
            && a[k].idx == b[k].idx
}

pub proof fn lemma_find_same_keys(
    a: Seq<MatchModel>,
    b: Seq<MatchModel>,
    g: MatchGroup,
    r: u32,
    i: u32,
    j: nat,
)
    requires
        same_keys(a, b),
    ensures
        find_from(a, g, r, i, j) == find_from(b, g, r, i, j),
    decreases a.len() - j,
{
    if j < a.len() {
        assert(a[j as int].group == b[j as int].group);
        lemma_find_same_keys(a, b, g, r, i, j + 1);
    }
}

/// The index of the match `d` points at, if any.
pub fn find_idx(matches: &Vec<Match>, d: Dest) -> (r: Option<usize>)
    ensures
        match r {
            Some(x) => spec_find(models(matches@), d) == Some(x as int),
            None => spec_find(models(matches@), d) is None,
        },
{
    let ghost ms = models(matches@);
    let n = matches.len();
    for k in 0..n
        invariant
            n == matches@.len(),
            ms == models(matches@),
            spec_find(ms, d) == find_from(ms, d.group, d.round, d.idx, k as nat),
    {
        if matches[k].group == d.group && matches[k].round == d.round && matches[k].idx == d.idx {
            return Some(k);
        }
    }
    None
}

/// `m` with slot `a` (or `b`) set to `s` and marked filled.
pub open spec fn set_slot(m: MatchModel, slot_a: bool, s: Option<Song>) -> MatchModel {
    if slot_a {
        MatchModel { a: s, a_filled: true, ..m }
    } else {
        MatchModel { b: s, b_filled: true, ..m }
    }
}

/// Put `s` (a song, or a bye) into the slot `to` points at; nothing when
/// there is no target or no such match.
pub open spec fn spec_deliver(ms: Seq<MatchModel>, to: Option<Dest>, s: Option<Song>) -> Seq<
    MatchModel,
> {
    match to {
        None => ms,
        Some(d) => match spec_find(ms, d) {
            None => ms,
            Some(i) => ms.update(i, set_slot(ms[i], d.slot_a, s)),
        },
    }
}

/// Deliver `song` (or a bye) along the routing pointer `to`.
pub fn deliver(matches: &mut Vec<Match>, to: Option<Dest>, song: Option<Song>)
    requires
        votes_wf(old(matches)@),
    ensures
        votes_wf(final(matches)@),
        models(final(matches)@) == spec_deliver(models(old(matches)@), to, song),
{
    if let Some(d) = to {
        proof {
            lemma_find_from(models(matches@), d.group, d.round, d.idx, 0);
        }
        if let Some(i) = find_idx(matches, d) {
            let ghost before = models(matches@);
            if d.slot_a {
                matches[i].a = song;
                matches[i].a_filled = true;
            } else {
                matches[i].b = song;
                matches[i].b_filled = true;
            }
            assert(models(matches@) =~= before.update(i as int, set_slot(before[i as int], d.slot_a, song)));
        }
    }
}

/// A pending match whose two feeders have both delivered, but which lacks a
/// song on at least one side: it is decided without a vote.
pub open spec fn resolvable(m: MatchModel) -> bool {
    m.state == MatchState::Pending && m.a_filled && m.b_filled && !(m.a is Some && m.b is Some)
}

pub open spec fn first_resolvable_from(ms: Seq<MatchModel>, j: nat) -> Option<int>
    decreases ms.len() - j,
{
    if j >= ms.len() {
        None
    } else if resolvable(ms[j as int]) {
        Some(j as int)
    } else {
        first_resolvable_from(ms, j + 1)
    }
}

pub proof fn lemma_first_resolvable(ms: Seq<MatchModel>, j: nat)
    ensures
        match first_resolvable_from(ms, j) {
            Some(x) => j <= x < ms.len() && resolvable(ms[x]),
            None => forall|y: int| j <= y < ms.len() ==> !resolvable(#[trigger] ms[y]),
        },
    decreases ms.len() - j,
{
    if j < ms.len() && !resolvable(ms[j as int]) {
        lemma_first_resolvable(ms, j + 1);
    }
}

/// A bye: the side holding a song wins (no winner when both are empty).
pub open spec fn bye_winner(m: MatchModel) -> Option<VoteChoice> {
    if m.a is Some {
        Some(VoteChoice::A)
    } else if m.b is Some {
        Some(VoteChoice::B)
    } else {
        None
    }
}

pub open spec fn bye_song(m: MatchModel) -> Option<Song> {
    if m.a is Some {
        m.a
    } else {
        m.b
    }
}

/// Decide the bye at `i`: mark it done for its present side, advance that
/// song along `win_to`, and deliver an empty slot along `lose_to`.
pub open spec fn spec_resolve_bye(ms: Seq<MatchModel>, i: int) -> Seq<MatchModel> {
    let m = ms[i];
    let m2 = MatchModel {
        winner: bye_winner(m),
        state: MatchState::Done,
        timer: Timer { running: false, ..m.timer },
        ..m
    };
    spec_deliver(spec_deliver(ms.update(i, m2), m.win_to, bye_song(m)), m.lose_to, None)
}

/// Number of pending matches.
pub open spec fn pending_count(ms: Seq<MatchModel>) -> nat
    decreases ms.len(),
{
    if ms.len() == 0 {
        0
    } else {
        pending_count(ms.drop_last()) + if ms.last().state == MatchState::Pending {
            1nat
        } else {
            0nat
        }
    }
}

pub proof fn lemma_pending_update(ms: Seq<MatchModel>, i: int, x: MatchModel)
    requires
        0 <= i < ms.len(),
    ensures
        pending_count(ms.update(i, x)) + (if ms[i].state == MatchState::Pending {
            1nat
        } else {
            0nat
        }) == pending_count(ms) + (if x.state == MatchState::Pending {
            1nat
        } else {
            0nat
        }),
    decreases ms.len(),
{
    let u = ms.update(i, x);
    if i == ms.len() - 1 {
        assert(u.drop_last() =~= ms.drop_last());
    } else {
        lemma_pending_update(ms.drop_last(), i, x);
        assert(u.drop_last() =~= ms.drop_last().update(i, x));
    }
}

pub proof fn lemma_pending_deliver(ms: Seq<MatchModel>, to: Option<Dest>, s: Option<Song>)
    ensures
        pending_count(spec_deliver(ms, to, s)) == pending_count(ms),
        same_keys(spec_deliver(ms, to, s), ms),
        forall|k: int|
            0 <= k < ms.len() ==> (#[trigger] spec_deliver(ms, to, s)[k]).state == ms[k].state,
{
    if let Some(d) = to {
        lemma_find_from(ms, d.group, d.round, d.idx, 0);
        if let Some(i) = spec_find(ms, d) {
            lemma_pending_update(ms, i, set_slot(ms[i], d.slot_a, s));
        }
    }
}

pub proof fn lemma_resolve_bye_decreases(ms: Seq<MatchModel>, i: int)
    requires
        0 <= i < ms.len(),
        ms[i].state == MatchState::Pending,
    ensures
        pending_count(spec_resolve_bye(ms, i)) < pending_count(ms),
{
    let m = ms[i];
    let m2 = MatchModel {
        winner: bye_winner(m),
        state: MatchState::Done,
        timer: Timer { running: false, ..m.timer },
        ..m
    };
    let u = ms.update(i, m2);
    lemma_pending_update(ms, i, m2);
    lemma_pending_deliver(u, m.win_to, bye_song(m));
    lemma_pending_deliver(spec_deliver(u, m.win_to, bye_song(m)), m.lose_to, None);
}

/// Delivering a song never changes any match's state, winner or series
/// tally.
pub proof fn lemma_deliver_keeps_outcomes(ms: Seq<MatchModel>, to: Option<Dest>, s: Option<Song>)
    ensures
        spec_deliver(ms, to, s).len() == ms.len(),
        forall|k: int|
            0 <= k < ms.len() ==> (#[trigger] spec_deliver(ms, to, s)[k]).state == ms[k].state
                && spec_deliver(ms, to, s)[k].winner == ms[k].winner && spec_deliver(ms, to, s)[k].wins_a
                == ms[k].wins_a && spec_deliver(ms, to, s)[k].wins_b == ms[k].wins_b,
{
    if let Some(d) = to {
        lemma_find_from(ms, d.group, d.round, d.idx, 0);
    }
}

/// Resolve byes, lowest index first, until none is left.
pub open spec fn spec_settle(ms: Seq<MatchModel>) -> Seq<MatchModel>
    decreases pending_count(ms),
{
    match first_resolvable_from(ms, 0) {
        None => ms,
        Some(i) => if 0 <= i < ms.len() && ms[i].state == MatchState::Pending {
            proof {
                lemma_resolve_bye_decreases(ms, i);
            }
            spec_settle(spec_resolve_bye(ms, i))
        } else {
            ms
        },
    }
}

/// Number of matches not yet done.
pub open spec fn open_count(ms: Seq<MatchModel>) -> nat
    decreases ms.len(),
{
    if ms.len() == 0 {
        0
    } else {
        open_count(ms.drop_last()) + if ms.last().state != MatchState::Done {
            1nat
        } else {
            0nat
        }
    }
}

pub proof fn lemma_open_update(ms: Seq<MatchModel>, i: int, x: MatchModel)
    requires
        0 <= i < ms.len(),
    ensures
        open_count(ms.update(i, x)) + (if ms[i].state != MatchState::Done {
            1nat
        } else {
            0nat
        }) == open_count(ms) + (if x.state != MatchState::Done {
            1nat
        } else {
            0nat
        }),
    decreases ms.len(),
{
    let u = ms.update(i, x);
    if i == ms.len() - 1 {
        assert(u.drop_last() =~= ms.drop_last());
    } else {
        lemma_open_update(ms.drop_last(), i, x);
        assert(u.drop_last() =~= ms.drop_last().update(i, x));
    }
}

/// Delivering a song never changes how many matches are open.
pub proof fn lemma_open_deliver(ms: Seq<MatchModel>, to: Option<Dest>, s: Option<Song>)
    ensures
        open_count(spec_deliver(ms, to, s)) == open_count(ms),
{
    if let Some(d) = to {
        lemma_find_from(ms, d.group, d.round, d.idx, 0);
        if let Some(i) = spec_find(ms, d) {
            lemma_open_update(ms, i, set_slot(ms[i], d.slot_a, s));
        }
    }
}

/// Resolving byes never opens a match.
pub proof fn lemma_open_settle(ms: Seq<MatchModel>)
    ensures
        open_count(spec_settle(ms)) <= open_count(ms),
    decreases pending_count(ms),
{
    lemma_first_resolvable(ms, 0);
    match first_resolvable_from(ms, 0) {
        None => {},
        Some(i) => {
            if 0 <= i < ms.len() && ms[i].state == MatchState::Pending {
                lemma_resolve_bye_decreases(ms, i);
                let m = ms[i];
                let m2 = MatchModel {
                    winner: bye_winner(m),
                    state: MatchState::Done,
                    timer: Timer { running: false, ..m.timer },
                    ..m
                };
                let u = ms.update(i, m2);
                lemma_open_update(ms, i, m2);
                lemma_open_deliver(u, m.win_to, bye_song(m));
                lemma_open_deliver(spec_deliver(u, m.win_to, bye_song(m)), m.lose_to, None);
                lemma_open_settle(spec_resolve_bye(ms, i));
            }
        },
    }
}

/// Resolving byes never reopens a decided match: a done match stays done
/// with the same winner.
pub proof fn lemma_settle_keeps_done(ms: Seq<MatchModel>)
    ensures
        spec_settle(ms).len() == ms.len(),
        forall|k: int|
            0 <= k < ms.len() && ms[k].state == MatchState::Done ==> (#[trigger] spec_settle(
                ms,
            )[k]).state == MatchState::Done && spec_settle(ms)[k].winner == ms[k].winner
                && spec_settle(ms)[k].wins_a == ms[k].wins_a && spec_settle(ms)[k].wins_b
                == ms[k].wins_b,
    decreases pending_count(ms),
{
    lemma_first_resolvable(ms, 0);
    match first_resolvable_from(ms, 0) {
        None => {},
        Some(i) => {
            if 0 <= i < ms.len() && ms[i].state == MatchState::Pending {
                lemma_resolve_bye_decreases(ms, i);
                let m = ms[i];
                let m2 = MatchModel {
                    winner: bye_winner(m),
                    state: MatchState::Done,
                    timer: Timer { running: false, ..m.timer },
                    ..m
                };
                let u = ms.update(i, m2);
                let u1 = spec_deliver(u, m.win_to, bye_song(m));
                lemma_deliver_keeps_outcomes(u, m.win_to, bye_song(m));
                lemma_deliver_keeps_outcomes(u1, m.lose_to, None);
                let r = spec_resolve_bye(ms, i);
                lemma_settle_keeps_done(r);
                assert forall|k: int|
                    0 <= k < ms.len() && ms[k].state == MatchState::Done implies (
                    #[trigger] spec_settle(ms)[k]).state == MatchState::Done && spec_settle(
                    ms,
                )[k].winner == ms[k].winner && spec_settle(ms)[k].wins_a == ms[k].wins_a
                    && spec_settle(ms)[k].wins_b == ms[k].wins_b by {
                    assert(k != i);
                    assert(u[k] == ms[k]);
                    assert(r[k].state == MatchState::Done && r[k].winner == ms[k].winner);
                    assert(r[k].wins_a == ms[k].wins_a && r[k].wins_b == ms[k].wins_b);
                }
            }
        },
    }
}

/// `o` is a bye or one of `songs`.
pub open spec fn of_songs(o: Option<Song>, songs: Seq<Song>) -> bool {
    o matches Some(x) ==> songs.contains(x)
}

/// Every slot of every match is empty or holds one of `songs`.
pub open spec fn slots_of_songs(ms: Seq<MatchModel>, songs: Seq<Song>) -> bool {
    forall|k: int|
        0 <= k < ms.len() ==> of_songs((#[trigger] ms[k]).a, songs) && of_songs(ms[k].b, songs)
}

/// Delivering a bye or one of `songs` keeps every slot among `songs`.
pub proof fn lemma_deliver_slots(ms: Seq<MatchModel>, to: Option<Dest>, s: Option<Song>, songs: Seq<Song>)
    requires
        slots_of_songs(ms, songs),
        of_songs(s, songs),
    ensures
        slots_of_songs(spec_deliver(ms, to, s), songs),
{
    if let Some(d) = to {
        lemma_find_from(ms, d.group, d.round, d.idx, 0);
        if let Some(i) = spec_find(ms, d) {
            let r = spec_deliver(ms, to, s);
            assert forall|k: int| 0 <= k < r.len() implies of_songs((#[trigger] r[k]).a, songs)
                && of_songs(r[k].b, songs) by {
                if k != i {
                    assert(r[k] == ms[k]);
                }
            }
        }
    }
}

/// Resolving byes only moves songs already in the bracket.
pub proof fn lemma_settle_slots(ms: Seq<MatchModel>, songs: Seq<Song>)
    requires
        slots_of_songs(ms, songs),
    ensures
        slots_of_songs(spec_settle(ms), songs),
    decreases pending_count(ms),
{
    lemma_first_resolvable(ms, 0);
    if let Some(i) = first_resolvable_from(ms, 0) {
        if 0 <= i < ms.len() && ms[i].state == MatchState::Pending {
            lemma_resolve_bye_decreases(ms, i);
            let m = ms[i];
            let m2 = MatchModel {
                winner: bye_winner(m),
                state: MatchState::Done,
                timer: Timer { running: false, ..m.timer },
                ..m
            };
            let u = ms.update(i, m2);
            assert(slots_of_songs(u, songs)) by {
                assert forall|k: int| 0 <= k < u.len() implies of_songs((#[trigger] u[k]).a, songs)
                    && of_songs(u[k].b, songs) by {
                    assert(of_songs(ms[k].a, songs));
                }
            }
            assert(of_songs(bye_song(m), songs)) by {
                assert(of_songs(ms[i].a, songs));
            }
            lemma_deliver_slots(u, m.win_to, bye_song(m), songs);
            lemma_deliver_slots(spec_deliver(u, m.win_to, bye_song(m)), m.lose_to, None, songs);
            lemma_settle_slots(spec_resolve_bye(ms, i), songs);
        }
    }
}

fn first_resolvable(matches: &Vec<Match>) -> (r: Option<usize>)
    ensures
        match r {
            Some(x) => first_resolvable_from(models(matches@), 0) == Some(x as int),
            None => first_resolvable_from(models(matches@), 0) is None,
        },
{
    let ghost ms = models(matches@);
    let n = matches.len();
    for k in 0..n
        invariant
            n == matches@.len(),
            ms == models(matches@),
            first_resolvable_from(ms, 0) == first_resolvable_from(ms, k as nat),
    {
        let m = &matches[k];
        if m.state == MatchState::Pending && m.a_filled && m.b_filled && !(m.a.is_some()
            && m.b.is_some()) {
            return Some(k);
        }
    }
    None
}

fn resolve_bye(matches: &mut Vec<Match>, i: usize)
    requires
        votes_wf(old(matches)@),
        i < old(matches)@.len(),
    ensures
        votes_wf(final(matches)@),
        models(final(matches)@) == spec_resolve_bye(models(old(matches)@), i as int),
{
    let ghost ms = models(matches@);
    let (w, adv) = if matches[i].a.is_some() {
        (Some(VoteChoice::A), dup_song(&matches[i].a))
    } else if matches[i].b.is_some() {
        (Some(VoteChoice::B), dup_song(&matches[i].b))
    } else {
        (None, None)
    };
    let win_to = matches[i].win_to;
    let lose_to = matches[i].lose_to;
    matches[i].winner = w;
    matches[i].state = MatchState::Done;
    matches[i].timer.running = false;
    let ghost m = ms[i as int];
    assert(models(matches@) =~= ms.update(
        i as int,
        MatchModel {
            winner: bye_winner(m),
            state: MatchState::Done,
            timer: Timer { running: false, ..m.timer },
            ..m
        },
    ));
    deliver(matches, win_to, adv);
    deliver(matches, lose_to, None);
}

/// Resolve every bye (lowest index first, repeatedly) so that no pending
/// match with both slots delivered is left without two songs.
pub fn settle(matches: &mut Vec<Match>)
    requires
        votes_wf(old(matches)@),
    ensures
        votes_wf(final(matches)@),
        models(final(matches)@) == spec_settle(models(old(matches)@)),
{
    loop
        invariant
            votes_wf(matches@),
            spec_settle(models(matches@)) == spec_settle(models(old(matches)@)),
        ensures
            votes_wf(matches@),
            models(matches@) == spec_settle(models(old(matches)@)),
        decreases pending_count(models(matches@)),
    {
        proof {
            lemma_first_resolvable(models(matches@), 0);
        }
        match first_resolvable(matches) {
            None => {
                break ;
            },
            Some(i) => {
                proof {
                    lemma_resolve_bye_decreases(models(matches@), i as int);
                }
                resolve_bye(matches, i);
            },
        }
    }
}

/// The ids of a sequence of matches.
pub open spec fn ids_of(ms: Seq<MatchModel>) -> Seq<String> {
    ms.map_values(|m: MatchModel| m.id)
}

/// The routed single-elimination layout for `songs`, with the given ids.
pub open spec fn single_layout(songs: Seq<Song>, d: u32, bo: u32, ids: Seq<String>) -> Seq<
    MatchModel,
> {
    let tr = spec_total_rounds(songs.len());
    Seq::new(
        ids.len(),
        |k: int| wired(shape(songs, tr, single_keys(tr)[k], d, bo, ids[k]), tr as u32),
    )
}

/// The routed double-elimination layout for `songs`, with the given ids.
pub open spec fn double_layout(songs: Seq<Song>, d: u32, ids: Seq<String>) -> Seq<MatchModel> {
    let tr = spec_total_rounds(songs.len());
    Seq::new(
        ids.len(),
        |k: int| wired(shape(songs, tr, double_keys(tr)[k], d, 1, ids[k]), tr as u32),
    )
}

pub proof fn lemma_deliver_keeps(ms: Seq<MatchModel>, to: Option<Dest>, s: Option<Song>)
    ensures
        ids_of(spec_deliver(ms, to, s)) == ids_of(ms),
        same_keys(spec_deliver(ms, to, s), ms),
{
    lemma_pending_deliver(ms, to, s);
    if let Some(d) = to {
        if let Some(i) = spec_find(ms, d) {
            lemma_find_from(ms, d.group, d.round, d.idx, 0);
            assert(ids_of(spec_deliver(ms, to, s)) =~= ids_of(ms));
        }
    }
}

/// Settling keeps every match's id and key.
pub proof fn lemma_settle_keeps(ms: Seq<MatchModel>)
    ensures
        ids_of(spec_settle(ms)) == ids_of(ms),
        same_keys(spec_settle(ms), ms),
    decreases pending_count(ms),
{
    lemma_first_resolvable(ms, 0);
    if let Some(i) = first_resolvable_from(ms, 0) {
        let m = ms[i];
        let m2 = MatchModel {
            winner: bye_winner(m),
            state: MatchState::Done,
            timer: Timer { running: false, ..m.timer },
            ..m
        };
        let u = ms.update(i, m2);
        assert(ids_of(u) =~= ids_of(ms));
        lemma_deliver_keeps(u, m.win_to, bye_song(m));
        lemma_deliver_keeps(spec_deliver(u, m.win_to, bye_song(m)), m.lose_to, None);
        lemma_resolve_bye_decreases(ms, i);
        lemma_settle_keeps(spec_resolve_bye(ms, i));
    }
}

/// A single-elimination bracket of best-of-1 matches with its byes already
/// resolved.
pub fn generate(songs: &[Song], duration_sec: u32) -> (r: Vec<Match>)
    requires
        songs@.len() <= usize::MAX / 2 + 1,
    ensures
        votes_wf(r@),
        r@.len() == single_keys(spec_total_rounds(songs@.len())).len(),
        models(r@) == spec_settle(single_layout(songs@, duration_sec, 1, ids_of(models(r@)))),
{
    let mut v = generate_single(songs, duration_sec, 1);
    let ghost before = models(v@);
    assert(before =~= single_layout(songs@, duration_sec, 1, ids_of(before)));
    settle(&mut v);
    proof {
        lemma_settle_keeps(before);
    }
    v
}

// ── playable ────────────────────────────────────────────────────────────────
/// A pending match with a song on both sides.
pub open spec fn playable(m: MatchModel) -> bool {
    m.state == MatchState::Pending && m.a is Some && m.b is Some
}

pub open spec fn first_playable_from(ms: Seq<MatchModel>, j: nat) -> Option<int>
    decreases ms.len() - j,
{
    if j >= ms.len() {
        None
    } else if playable(ms[j as int]) {
        Some(j as int)
    } else {
        first_playable_from(ms, j + 1)
    }
}

/// The lowest-index playable match.
pub open spec fn spec_first_playable(ms: Seq<MatchModel>) -> Option<int> {
    first_playable_from(ms, 0)
}

pub proof fn lemma_first_playable(ms: Seq<MatchModel>, j: nat)
    ensures
        match first_playable_from(ms, j) {
            Some(x) => j <= x < ms.len() && playable(ms[x]),
            None => forall|y: int| j <= y < ms.len() ==> !playable(#[trigger] ms[y]),
        },
    decreases ms.len() - j,
{
    if j < ms.len() && !playable(ms[j as int]) {
        lemma_first_playable(ms, j + 1);
    }
}

/// Lowest-ordered pending match with both slots holding a real song.
pub fn first_playable(matches: &Vec<Match>) -> (r: Option<usize>)
    ensures
        match r {
            Some(x) => spec_first_playable(models(matches@)) == Some(x as int),
            None => spec_first_playable(models(matches@)) is None,
        },
{
    let ghost ms = models(matches@);
    let n = matches.len();
    for k in 0..n
        invariant
            n == matches@.len(),
            ms == models(matches@),
            spec_first_playable(ms) == first_playable_from(ms, k as nat),
    {
        let m = &matches[k];
        if m.state == MatchState::Pending && m.a.is_some() && m.b.is_some() {
            return Some(k);
        }
    }
    None
}

// ── fill flags ──────────────────────────────────────────────────────────────
/// First-round main / winners slots are seeded, so they count as filled.
pub open spec fn seeded_slot(m: MatchModel) -> bool {
    (m.group == MatchGroup::Main || m.group == MatchGroup::Winners) && m.round == 1
}

/// `to` points at slot `slot_a` of match `i`.
pub open spec fn feeds_via(ms: Seq<MatchModel>, to: Option<Dest>, i: int, slot_a: bool) -> bool {
    match to {
        Some(d) => d.slot_a == slot_a && spec_find(ms, d) == Some(i),
        None => false,
    }
}

/// `m` is resolved and has delivered into slot `slot_a` of match `i`.
pub open spec fn feeds(m: MatchModel, ms: Seq<MatchModel>, i: int, slot_a: bool) -> bool {
    m.state == MatchState::Done && (feeds_via(ms, m.win_to, i, slot_a) || feeds_via(
        ms,
        m.lose_to,
        i,
        slot_a,
    ))
}

/// Some match before `n` feeds slot `slot_a` of match `i`.
pub open spec fn fed_upto(ms: Seq<MatchModel>, i: int, slot_a: bool, n: int) -> bool {
    exists|k: int| 0 <= k < n && #[trigger] feeds(ms[k], ms, i, slot_a)
}

/// A slot is filled when it holds a song, is a seeded first-round slot, or
/// a resolved feeder has delivered into it (a bye included).
pub open spec fn refilled(ms: Seq<MatchModel>, i: int) -> MatchModel {
    MatchModel {
        a_filled: ms[i].a is Some || seeded_slot(ms[i]) || fed_upto(ms, i, true, ms.len() as int),
        b_filled: ms[i].b is Some || seeded_slot(ms[i]) || fed_upto(
            ms,
            i,
            false,
            ms.len() as int,
        ),
        ..ms[i]
    }
}

pub open spec fn spec_refill(ms: Seq<MatchModel>) -> Seq<MatchModel> {
    Seq::new(ms.len(), |i: int| refilled(ms, i))
}

/// Recompute every slot's fill flag from the songs present, the seeding and
/// the resolved feeders.
pub fn refill(matches: &mut Vec<Match>)
    requires
        votes_wf(old(matches)@),
    ensures
        votes_wf(final(matches)@),
        models(final(matches)@) == spec_refill(models(old(matches)@)),
{
    let ghost ms = models(matches@);
    let n = matches.len();
    for k in 0..n
        invariant
            n == matches@.len(),
            ms.len() == n,
            ms == models(old(matches)@),
            votes_wf(matches@),
            forall|j: int|
                0 <= j < k ==> (#[trigger] matches@[j])@ == (MatchModel {
                    a_filled: ms[j].a is Some || seeded_slot(ms[j]),
                    b_filled: ms[j].b is Some || seeded_slot(ms[j]),
                    ..ms[j]
                }),
            forall|j: int| k <= j < n ==> (#[trigger] matches@[j])@ == ms[j],
    {
        let seeded = (matches[k].group == MatchGroup::Main || matches[k].group == MatchGroup::Winners)
            && matches[k].round == 1;
        let fa = matches[k].a.is_some() || seeded;
        let fb = matches[k].b.is_some() || seeded;
        matches[k].a_filled = fa;
        matches[k].b_filled = fb;
    }
    let ghost base = models(matches@);
    assert(same_keys(base, ms));
    for k in 0..n
        invariant
            n == matches@.len(),
            ms.len() == n,
            same_keys(base, ms),
            votes_wf(matches@),
            forall|j: int|
                0 <= j < n ==> (#[trigger] matches@[j])@ == (MatchModel {
                    a_filled: ms[j].a is Some || seeded_slot(ms[j]) || fed_upto(ms, j, true, k as int),
                    b_filled: ms[j].b is Some || seeded_slot(ms[j]) || fed_upto(ms, j, false, k as int),
                    ..ms[j]
                }),
    {
        let ghost cur = models(matches@);
        proof {
            assert(same_keys(cur, ms));
        }
        if matches[k].state == MatchState::Done {
            let wt = matches[k].win_to;
            let lt = matches[k].lose_to;
            mark_fed(matches, wt, Ghost(ms));
            mark_fed(matches, lt, Ghost(ms));
        }
        proof {
            assert forall|j: int| 0 <= j < n implies (#[trigger] matches@[j])@ == (MatchModel {
                a_filled: ms[j].a is Some || seeded_slot(ms[j]) || fed_upto(ms, j, true, k + 1),
                b_filled: ms[j].b is Some || seeded_slot(ms[j]) || fed_upto(ms, j, false, k + 1),
                ..ms[j]
            }) by {
                if feeds(ms[k as int], ms, j, true) {
                    assert(fed_upto(ms, j, true, k + 1));
                }
                if feeds(ms[k as int], ms, j, false) {
                    assert(fed_upto(ms, j, false, k + 1));
                }
                if fed_upto(ms, j, true, k + 1) && !feeds(ms[k as int], ms, j, true) {
                    let w = choose|w: int| 0 <= w < k + 1 && #[trigger] feeds(ms[w], ms, j, true);
                    assert(fed_upto(ms, j, true, k as int));
                }
                if fed_upto(ms, j, false, k + 1) && !feeds(ms[k as int], ms, j, false) {
                    let w = choose|w: int| 0 <= w < k + 1 && #[trigger] feeds(ms[w], ms, j, false);
                    assert(fed_upto(ms, j, false, k as int));
                }
            }
        }
    }
    assert(models(matches@) =~= spec_refill(ms));
}

/// Mark the slot `to` points at as filled (looked up in `ms`, whose keys
/// equal the current ones).
fn mark_fed(matches: &mut Vec<Match>, to: Option<Dest>, Ghost(ms): Ghost<Seq<MatchModel>>)
    requires
        votes_wf(old(matches)@),
        same_keys(models(old(matches)@), ms),
    ensures
        votes_wf(final(matches)@),
        same_keys(models(final(matches)@), ms),
        forall|j: int|
            0 <= j < old(matches)@.len() ==> (#[trigger] final(matches)@[j])@ == (MatchModel {
                a_filled: old(matches)@[j].a_filled || feeds_via(ms, to, j, true),
                b_filled: old(matches)@[j].b_filled || feeds_via(ms, to, j, false),
                ..old(matches)@[j]@
            }),
{
    if let Some(d) = to {
        proof {
            lemma_find_same_keys(models(matches@), ms, d.group, d.round, d.idx, 0);
            lemma_find_from(ms, d.group, d.round, d.idx, 0);
        }
        if let Some(i) = find_idx(matches, d) {
            let ghost before = models(matches@);
            if d.slot_a {
                matches[i].a_filled = true;
            } else {
                matches[i].b_filled = true;
            }
            assert forall|k: int| 0 <= k < matches@.len() implies (#[trigger] models(matches@)[k]).group
                == ms[k].group && models(matches@)[k].round == ms[k].round && models(matches@)[k].idx
                == ms[k].idx by {
                assert(before[k].group == ms[k].group);
            }
        }
    }
}

} // verus!
