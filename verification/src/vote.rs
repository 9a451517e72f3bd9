//! Chat votes: parsing the six vote forms, per-user ballots with a burst
//! cooldown, and the tally.

use vstd::prelude::*;

use crate::text::{ascii_lower, chars_of, chars_eq, lower_all, trim, trim_chars};

verus! {

/// Which side a viewer voted for.
#[derive(Debug, Clone, Copy, PartialEq, Eq, Structural)]
pub enum VoteChoice {
    A,
    B,
}

/// The vote a chat message casts: the trimmed, ASCII-lower-cased text must be
/// one of `1`, `!1`, `!vote 1` (side A) or `2`, `!2`, `!vote 2` (side B).
pub open spec fn spec_parse_vote(text: Seq<char>) -> Option<VoteChoice> {
    let s = ascii_lower(trim(text));
    if s == "1"@ || s == "!1"@ || s == "!vote 1"@ {
        Some(VoteChoice::A)
    } else if s == "2"@ || s == "!2"@ || s == "!vote 2"@ {
        Some(VoteChoice::B)
    } else {
        None
    }
}

/// Parse a chat message into a vote (see `spec_parse_vote`).
pub fn parse_vote(text: &str) -> (r: Option<VoteChoice>)
    ensures
        r == spec_parse_vote(text@),
{
    let raw = chars_of(text);
    let t = trim_chars(raw.as_slice());
    let s = lower_all(t.as_slice());
    if chars_eq(s.as_slice(), "1") || chars_eq(s.as_slice(), "!1") || chars_eq(s.as_slice(), "!vote 1") {
        Some(VoteChoice::A)
    } else if chars_eq(s.as_slice(), "2") || chars_eq(s.as_slice(), "!2") || chars_eq(
        s.as_slice(),
        "!vote 2",
    ) {
        Some(VoteChoice::B)
    } else {
        None
    }
}

/// Floored integer percentage of `votes` out of `total`; 0 when `total` is 0.
pub open spec fn spec_pct(votes: int, total: int) -> int {
    if total == 0 {
        0
    } else {
        (votes * 100) / total
    }
}

/// Integer percentage 0..=100 (floored). `total == 0` gives 0.
pub fn pct(votes: u32, total: u32) -> (r: u32)
    requires
        votes * 100 <= u32::MAX,
    ensures
        r == spec_pct(votes as int, total as int),
{
    (votes * 100).checked_div(total).unwrap_or(0)
}

/// A share of a total is a percentage: between 0 and 100, and the two
/// sides' floored percentages never add up to more than 100.
pub proof fn law_pct_bounded(votes: nat, total: nat)
    requires
        votes <= total,
    ensures
        0 <= spec_pct(votes as int, total as int) <= 100,
        spec_pct(votes as int, total as int) + spec_pct(total - votes, total as int) <= 100,
        votes == total && total > 0 ==> spec_pct(votes as int, total as int) == 100,
{
    if total > 0 {
        let t = total as int;
        let v = votes as int;
        assert(0 <= (v * 100) / t <= 100) by (nonlinear_arith)
            requires
                0 <= v <= t,
                t > 0,
        ;
        assert((v * 100) / t + ((t - v) * 100) / t <= 100) by (nonlinear_arith)
            requires
                0 <= v <= t,
                t > 0,
        ;
        assert((t * 100) / t == 100) by (nonlinear_arith)
            requires
                t > 0,
        ;
    }
}

/// Per-user cooldown between two counted votes, in milliseconds.
pub const COOLDOWN_MS: u64 = 250;

/// One viewer's current vote; `last_ms` is when their last counted vote
/// arrived (runtime only, absent after a restore).
#[derive(Debug, Clone)]
pub struct Ballot {
    pub user: String,
    pub choice: VoteChoice,
    pub last_ms: Option<u64>,
}

/// The abstract ballot box: each user's current choice, and the time of each
/// user's last counted vote.
pub struct VotesModel {
    pub map: Map<Seq<char>, VoteChoice>,
    pub last: Map<Seq<char>, u64>,
}

/// The ballot box after `user` votes `choice` at `now`, and whether the vote
/// counted: a vote within `COOLDOWN_MS` of the user's last counted one is
/// dropped; otherwise it replaces the user's ballot (one vote per user).
pub open spec fn spec_cast(v: VotesModel, user: Seq<char>, choice: VoteChoice, now: u64) -> (
    VotesModel,
    bool,
) {
    if v.last.dom().contains(user) && now - v.last[user] < COOLDOWN_MS {
        (v, false)
    } else {
        (VotesModel { map: v.map.insert(user, choice), last: v.last.insert(user, now) }, true)
    }
}

/// One vote per user (last write wins), with a small per-user cooldown that
/// drops burst spam.
#[derive(Debug, Clone)]
pub struct Votes {
    ballots: Vec<Ballot>,
}

pub open spec fn users_distinct(s: Seq<Ballot>) -> bool {
    forall|i: int, j: int| 0 <= i < j < s.len() ==> s[i].user@ != s[j].user@
}

pub open spec fn map_of(s: Seq<Ballot>) -> Map<Seq<char>, VoteChoice>
    decreases s.len(),
{
    if s.len() == 0 {
        Map::empty()
    } else {
        map_of(s.drop_last()).insert(s.last().user@, s.last().choice)
    }
}

pub open spec fn last_of(s: Seq<Ballot>) -> Map<Seq<char>, u64>
    decreases s.len(),
{
    if s.len() == 0 {
        Map::empty()
    } else {
        match s.last().last_ms {
            Some(t) => last_of(s.drop_last()).insert(s.last().user@, t),
            None => last_of(s.drop_last()).remove(s.last().user@),
        }
    }
}

/// The ballots a list of stored `(user, choice)` pairs describes: each
/// user's last pair wins.
pub open spec fn restored_map(pairs: Seq<(String, VoteChoice)>) -> Map<Seq<char>, VoteChoice>
    decreases pairs.len(),
{
    if pairs.len() == 0 {
        Map::empty()
    } else {
        restored_map(pairs.drop_last()).insert(pairs.last().0@, pairs.last().1)
    }
}

proof fn lemma_restored(pairs: Seq<(String, VoteChoice)>)
    ensures
        forall|k: Seq<char>|
            #[trigger] restored_map(pairs).dom().contains(k) <==> exists|i: int|
                0 <= i < pairs.len() && pairs[i].0@ == k,
        forall|k: Seq<char>|
            #[trigger] restored_map(pairs).dom().contains(k) ==> exists|i: int|
                0 <= i < pairs.len() && pairs[i].0@ == k && restored_map(pairs)[k] == pairs[i].1,
    decreases pairs.len(),
{
    if pairs.len() > 0 {
        let d = pairs.drop_last();
        lemma_restored(d);
        let last = (pairs.len() - 1) as int;
        assert forall|k: Seq<char>|
            #[trigger] restored_map(pairs).dom().contains(k) <==> exists|i: int|
                0 <= i < pairs.len() && pairs[i].0@ == k by {
            assert(restored_map(pairs) == restored_map(d).insert(pairs.last().0@, pairs.last().1));
            if restored_map(pairs).dom().contains(k) {
                if k == pairs.last().0@ {
                    assert(pairs[last].0@ == k);
                } else {
                    assert(restored_map(d).dom().contains(k));
                    let i = choose|i: int| 0 <= i < d.len() && d[i].0@ == k;
                    assert(pairs[i] == d[i]);
                }
            }
            if exists|i: int| 0 <= i < pairs.len() && pairs[i].0@ == k {
                let i = choose|i: int| 0 <= i < pairs.len() && pairs[i].0@ == k;
                if i < last {
                    assert(d[i] == pairs[i]);
                    assert(restored_map(d).dom().contains(k));
                }
            }
        }
        assert forall|k: Seq<char>|
            #[trigger] restored_map(pairs).dom().contains(k) implies exists|i: int|
                0 <= i < pairs.len() && pairs[i].0@ == k && restored_map(pairs)[k] == pairs[i].1 by {
            assert(restored_map(pairs) == restored_map(d).insert(pairs.last().0@, pairs.last().1));
            if k == pairs.last().0@ {
                assert(pairs[last].0@ == k && restored_map(pairs)[k] == pairs[last].1);
            } else {
                assert(restored_map(d).dom().contains(k));
                let i = choose|i: int|
                    0 <= i < d.len() && d[i].0@ == k && restored_map(d)[k] == d[i].1;
                assert(pairs[i] == d[i]);
            }
        }
    }
}

/// Storing a ballot box as `(user, choice)` pairs and restoring it gives
/// back the same ballots: any list of pairs that names exactly the voters,
/// each with their choice, restores to that ballot map.
pub proof fn law_restore_entries(m: Map<Seq<char>, VoteChoice>, pairs: Seq<(String, VoteChoice)>)
    requires
        forall|k: Seq<char>|
            #[trigger] m.dom().contains(k) <==> exists|i: int| 0 <= i < pairs.len() && pairs[i].0@ == k,
        forall|i: int| 0 <= i < pairs.len() ==> m[#[trigger] pairs[i].0@] == pairs[i].1,
    ensures
        restored_map(pairs) == m,
{
    lemma_restored(pairs);
    assert forall|k: Seq<char>| #[trigger] restored_map(pairs).dom().contains(k) implies restored_map(pairs)[k] == m[k] by {
        let i = choose|i: int| 0 <= i < pairs.len() && pairs[i].0@ == k && restored_map(pairs)[k] == pairs[i].1;
        assert(m[pairs[i].0@] == pairs[i].1);
    }
    assert(restored_map(pairs).dom() =~= m.dom());
    assert(restored_map(pairs) =~= m);
}

/// Number of users currently voting for `c`.
pub open spec fn votes_for(m: Map<Seq<char>, VoteChoice>, c: VoteChoice) -> nat {
    m.dom().filter(chose(m, c)).len()
}

/// The users of `m` whose choice is `c`, as a predicate.
pub open spec fn chose(m: Map<Seq<char>, VoteChoice>, c: VoteChoice) -> spec_fn(Seq<char>) -> bool {
    |k: Seq<char>| m[k] == c
}

pub open spec fn count_seq(s: Seq<Ballot>, c: VoteChoice) -> nat
    decreases s.len(),
{
    if s.len() == 0 {
        0
    } else {
        count_seq(s.drop_last(), c) + if s.last().choice == c {
            1nat
        } else {
            0nat
        }
    }
}

proof fn lemma_map_of_dom(s: Seq<Ballot>, k: Seq<char>)
    ensures
        map_of(s).dom().finite(),
        map_of(s).dom().contains(k) <==> exists|i: int| 0 <= i < s.len() && s[i].user@ == k,
        last_of(s).dom().contains(k) ==> map_of(s).dom().contains(k),
    decreases s.len(),
{
    if s.len() > 0 {
        lemma_map_of_dom(s.drop_last(), k);
        if map_of(s).dom().contains(k) && s.last().user@ != k {
            let i = choose|i: int| 0 <= i < s.drop_last().len() && s.drop_last()[i].user@ == k;
            assert(s[i].user@ == k);
        }
        if exists|i: int| 0 <= i < s.len() && s[i].user@ == k {
            let i = choose|i: int| 0 <= i < s.len() && s[i].user@ == k;
            if i < s.len() - 1 {
                assert(s.drop_last()[i].user@ == k);
            }
        }
    }
}

proof fn lemma_map_of_at(s: Seq<Ballot>, i: int)
    requires
        users_distinct(s),
        0 <= i < s.len(),
    ensures
        map_of(s).dom().contains(s[i].user@),
        map_of(s)[s[i].user@] == s[i].choice,
        last_of(s).dom().contains(s[i].user@) <==> s[i].last_ms is Some,
        s[i].last_ms matches Some(t) ==> last_of(s)[s[i].user@] == t,
    decreases s.len(),
{
    if i < s.len() - 1 {
        lemma_map_of_at(s.drop_last(), i);
        assert(s.drop_last()[i] == s[i]);
    }
}

proof fn lemma_map_of_update(s: Seq<Ballot>, i: int, b: Ballot)
    requires
        users_distinct(s),
        0 <= i < s.len(),
        b.user@ == s[i].user@,
    ensures
        users_distinct(s.update(i, b)),
        map_of(s.update(i, b)) == map_of(s).insert(b.user@, b.choice),
        last_of(s.update(i, b)) == (match b.last_ms {
            Some(t) => last_of(s).insert(b.user@, t),
            None => last_of(s).remove(b.user@),
        }),
    decreases s.len(),
{
    let s2 = s.update(i, b);
    if i == s.len() - 1 {
        assert(s2.drop_last() =~= s.drop_last());
        assert(map_of(s2) =~= map_of(s).insert(b.user@, b.choice));
        assert(last_of(s2) =~= (match b.last_ms {
            Some(t) => last_of(s).insert(b.user@, t),
            None => last_of(s).remove(b.user@),
        }));
    } else {
        lemma_map_of_update(s.drop_last(), i, b);
        assert(s2.drop_last() =~= s.drop_last().update(i, b));
        assert(s.last().user@ != b.user@);
        assert(map_of(s2) =~= map_of(s).insert(b.user@, b.choice));
        assert(last_of(s2) =~= (match b.last_ms {
            Some(t) => last_of(s).insert(b.user@, t),
            None => last_of(s).remove(b.user@),
        }));
    }
}

proof fn lemma_count_seq(s: Seq<Ballot>, c: VoteChoice)
    requires
        users_distinct(s),
    ensures
        count_seq(s, c) == votes_for(map_of(s), c),
        count_seq(s, c) <= s.len(),
    decreases s.len(),
{
    let m = map_of(s);
    if s.len() == 0 {
        assert(m.dom().filter(chose(m, c)) =~= Set::empty());
    } else {
        let p = s.drop_last();
        let mp = map_of(p);
        let k = s.last().user@;
        lemma_count_seq(p, c);
        lemma_map_of_dom(p, k);
        if mp.dom().contains(k) {
            let j = choose|j: int| 0 <= j < p.len() && p[j].user@ == k;
            assert(s[j].user@ == s[s.len() - 1].user@);
        }
        let fp = mp.dom().filter(chose(mp, c));
        let fs = m.dom().filter(chose(m, c));
        mp.dom().lemma_len_filter(chose(mp, c));
        assert(!mp.dom().contains(k));
        assert(!fp.contains(k));
        assert(count_seq(p, c) == fp.len());
        assert(m == mp.insert(k, s.last().choice));
        if s.last().choice == c {
            assert(fs =~= fp.insert(k));
            assert(fs.len() == fp.len() + 1);
        } else {
            assert(fs =~= fp);
        }
        assert(votes_for(m, c) == fs.len());
    }
}

proof fn lemma_count_prefix(s: Seq<Ballot>, i: int, c: VoteChoice)
    requires
        0 <= i < s.len(),
    ensures
        count_seq(s.take(i + 1), c) == count_seq(s.take(i), c) + if s[i].choice == c {
            1nat
        } else {
            0nat
        },
{
    assert(s.take(i + 1).drop_last() =~= s.take(i));
}

impl View for Votes {
    type V = VotesModel;

    closed spec fn view(&self) -> VotesModel {
        VotesModel { map: map_of(self.ballots@), last: last_of(self.ballots@) }
    }
}

impl Default for Votes {
    /// An empty ballot box.
    fn default() -> (v: Votes)
        ensures
            v.wf(),
            v@.map == Map::<Seq<char>, VoteChoice>::empty(),
            v@.last == Map::<Seq<char>, u64>::empty(),
    {
        Votes::new()
    }
}

impl Votes {
    /// The ballots are keyed by distinct users.
    pub closed spec fn wf(&self) -> bool {
        users_distinct(self.ballots@)
    }

    /// Number of users with a ballot.
    pub closed spec fn voters(&self) -> nat {
        self.ballots@.len()
    }

    pub proof fn lemma_model(&self)
        requires
            self.wf(),
        ensures
            self@.map.dom().finite(),
            self@.map.dom().len() == self.voters(),
            self@.last.dom().subset_of(self@.map.dom()),
            votes_for(self@.map, VoteChoice::A) + votes_for(self@.map, VoteChoice::B)
                == self.voters(),
    {
        lemma_count_seq(self.ballots@, VoteChoice::A);
        lemma_count_seq(self.ballots@, VoteChoice::B);
        lemma_count_split(self.ballots@);
        lemma_dom_len(self.ballots@);
        lemma_map_of_dom(self.ballots@, Seq::empty());
        assert forall|k: Seq<char>| self@.last.dom().contains(k) implies self@.map.dom().contains(
            k,
        ) by {
            lemma_map_of_dom(self.ballots@, k);
        }
    }

    /// An empty ballot box.
    pub fn new() -> (v: Votes)
        ensures
            v.wf(),
            v@.map == Map::<Seq<char>, VoteChoice>::empty(),
            v@.last == Map::<Seq<char>, u64>::empty(),
            v.voters() == 0,
    {
        Votes { ballots: Vec::new() }
    }

    fn find(&self, user: &String) -> (r: Option<usize>)
        requires
            self.wf(),
        ensures
            match r {
                Some(i) => i < self.ballots@.len() && self.ballots@[i as int].user@ == user@,
                None => forall|i: int|
                    0 <= i < self.ballots@.len() ==> self.ballots@[i].user@ != user@,
            },
    {
        let n = self.ballots.len();
        for i in 0..n
            invariant
                n == self.ballots@.len(),
                forall|k: int| 0 <= k < i ==> self.ballots@[k].user@ != user@,
        {
            if self.ballots[i].user == *user {
                return Some(i);
            }
        }
        None
    }

    /// Record `choice` for `user_id` at `now_ms`. Dropped (returns false,
    /// nothing changes) when the user's last counted vote was less than
    /// `COOLDOWN_MS` ago; otherwise the user's ballot is set to `choice` and
    /// their last-vote time to `now_ms`.
    pub fn cast(&mut self, user_id: String, choice: VoteChoice, now_ms: u64) -> (r: bool)
        requires
            old(self).wf(),
        ensures
            final(self).wf(),
            (final(self)@, r) == spec_cast(old(self)@, user_id@, choice, now_ms),
            r == !(old(self)@.last.dom().contains(user_id@) && now_ms - old(
                self,
            )@.last[user_id@] < COOLDOWN_MS),
            r ==> final(self)@.map == old(self)@.map.insert(user_id@, choice),
            r ==> final(self)@.last == old(self)@.last.insert(user_id@, now_ms),
            r ==> final(self).voters() == old(self).voters() + if old(self)@.map.dom().contains(
                user_id@,
            ) {
                0int
            } else {
                1int
            },
            !r ==> final(self)@ == old(self)@,
            !r ==> final(self).voters() == old(self).voters(),
    {
        proof {
            lemma_map_of_dom(self.ballots@, user_id@);
        }
        match self.find(&user_id) {
            Some(i) => {
                proof {
                    lemma_map_of_at(self.ballots@, i as int);
                }
                let prev = self.ballots[i].last_ms;
                if let Some(t) = prev {
                    if now_ms.saturating_sub(t) < COOLDOWN_MS {
                        return false;
                    }
                }
                let b = Ballot { user: user_id, choice, last_ms: Some(now_ms) };
                proof {
                    lemma_map_of_update(self.ballots@, i as int, b);
                }
                self.ballots.set(i, b);
                true
            },
            None => {
                let ghost old_s = self.ballots@;
                let b = Ballot { user: user_id, choice, last_ms: Some(now_ms) };
                self.ballots.push(b);
                proof {
                    assert(self.ballots@.drop_last() =~= old_s);
                }
                true
            },
        }
    }

    /// Remove every ballot.
    pub fn clear(&mut self)
        ensures
            final(self).wf(),
            final(self)@.map == Map::<Seq<char>, VoteChoice>::empty(),
            final(self)@.last == Map::<Seq<char>, u64>::empty(),
            final(self).voters() == 0,
    {
        self.ballots.clear();
    }

    /// `(votes for A, votes for B)`.
    pub fn tally(&self) -> (r: (u32, u32))
        requires
            self.wf(),
            self.voters() <= u32::MAX,
        ensures
            r.0 == votes_for(self@.map, VoteChoice::A),
            r.1 == votes_for(self@.map, VoteChoice::B),
            r.0 + r.1 == self.voters(),
    {
        let mut a: u32 = 0;
        let mut b: u32 = 0;
        let n = self.ballots.len();
        for i in 0..n
            invariant
                n == self.ballots@.len(),
                n <= u32::MAX,
                a == count_seq(self.ballots@.take(i as int), VoteChoice::A),
                b == count_seq(self.ballots@.take(i as int), VoteChoice::B),
                a + b == i,
        {
            proof {
                lemma_count_prefix(self.ballots@, i as int, VoteChoice::A);
                lemma_count_prefix(self.ballots@, i as int, VoteChoice::B);
            }
            match self.ballots[i].choice {
                VoteChoice::A => a += 1,
                VoteChoice::B => b += 1,
            }
        }
        proof {
            assert(self.ballots@.take(n as int) =~= self.ballots@);
            lemma_count_seq(self.ballots@, VoteChoice::A);
            lemma_count_seq(self.ballots@, VoteChoice::B);
        }
        (a, b)
    }

    /// Number of users with a ballot.
    pub fn len(&self) -> (r: usize)
        ensures
            r == self.voters(),
    {
        self.ballots.len()
    }

    /// Rebuild a ballot box from stored `(user, choice)` pairs (no cooldown
    /// times); a later pair for the same user replaces an earlier one.
    pub fn restore(pairs: Vec<(String, VoteChoice)>) -> (v: Votes)
        ensures
            v.wf(),
            v@.last == Map::<Seq<char>, u64>::empty(),
            v@.map == restored_map(pairs@),
    {
        let mut v = Votes::new();
        let n = pairs.len();
        for i in 0..n
            invariant
                n == pairs@.len(),
                v.wf(),
                v@.last == Map::<Seq<char>, u64>::empty(),
                v@.map == restored_map(pairs@.take(i as int)),
        {
            let user = pairs[i].0.clone();
            let choice = pairs[i].1;
            let ghost old_map = v@.map;
            proof {
                lemma_map_of_dom(v.ballots@, user@);
            }
            match v.find(&user) {
                Some(j) => {
                    let b = Ballot { user, choice, last_ms: None };
                    proof {
                        lemma_map_of_update(v.ballots@, j as int, b);
                        assert(v@.last.remove(b.user@) =~= v@.last);
                    }
                    v.ballots.set(j, b);
                },
                None => {
                    let ghost old_s = v.ballots@;
                    v.ballots.push(Ballot { user, choice, last_ms: None });
                    proof {
                        assert(v.ballots@.drop_last() =~= old_s);
                        assert(last_of(old_s).remove(pairs@[i as int].0@) =~= last_of(old_s));
                    }
                },
            }
            proof {
                assert(pairs@.take(i + 1).drop_last() =~= pairs@.take(i as int));
                assert(v@.map == old_map.insert(pairs@[i as int].0@, choice));
            }
        }
        assert(pairs@.take(n as int) =~= pairs@);
        v
    }

    /// The stored `(user, choice)` pairs, one per user.
    pub fn entries(&self) -> (r: Vec<(String, VoteChoice)>)
        requires
            self.wf(),
        ensures
            r@.len() == self.voters(),
            forall|k: Seq<char>| #[trigger] self@.map.dom().contains(k) <==> exists|i: int|
                0 <= i < r@.len() && r@[i].0@ == k,
            forall|i: int| 0 <= i < r@.len() ==> self@.map[#[trigger] r@[i].0@] == r@[i].1,
    {
        let mut r: Vec<(String, VoteChoice)> = Vec::new();
        let n = self.ballots.len();
        for i in 0..n
            invariant
                n == self.ballots@.len(),
                self.wf(),
                r@.len() == i,
                forall|j: int| 0 <= j < i ==> (#[trigger] r@[j]).0@ == self.ballots@[j].user@ && r@[j].1
                    == self.ballots@[j].choice,
        {
            let u = self.ballots[i].user.clone();
            r.push((u, self.ballots[i].choice));
            assert(r@[i as int].0@ == self.ballots@[i as int].user@);
        }
        proof {
            assert forall|k: Seq<char>| #[trigger] self@.map.dom().contains(k) <==> exists|i: int|
                0 <= i < r@.len() && r@[i].0@ == k by {
                lemma_map_of_dom(self.ballots@, k);
                if self@.map.dom().contains(k) {
                    let i = choose|i: int| 0 <= i < self.ballots@.len() && self.ballots@[i].user@ == k;
                    assert(r@[i].0@ == k);
                }
            }
            assert forall|i: int| 0 <= i < r@.len() implies self@.map[#[trigger] r@[i].0@] == r@[i].1 by {
                lemma_map_of_at(self.ballots@, i);
            }
        }
        r
    }
}

proof fn lemma_count_split(s: Seq<Ballot>)
    ensures
        count_seq(s, VoteChoice::A) + count_seq(s, VoteChoice::B) == s.len(),
    decreases s.len(),
{
    if s.len() > 0 {
        lemma_count_split(s.drop_last());
    }
}

proof fn lemma_dom_len(s: Seq<Ballot>)
    requires
        users_distinct(s),
    ensures
        map_of(s).dom().len() == s.len(),
    decreases s.len(),
{
    if s.len() > 0 {
        let p = s.drop_last();
        lemma_dom_len(p);
        lemma_map_of_dom(p, s.last().user@);
        if map_of(p).dom().contains(s.last().user@) {
            let j = choose|j: int| 0 <= j < p.len() && p[j].user@ == s.last().user@;
            assert(s[j].user@ == s[s.len() - 1].user@);
        }
    }
}

} // verus!
