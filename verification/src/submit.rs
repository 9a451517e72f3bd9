//! Anti-flood checks for chat song submissions (`!submit <url>`): per-user
//! cooldown and cap, a global song cap, https/known-host validation, and URL
//! dedup. The ledger is RAM-only.

use vstd::prelude::*;

use crate::battle::{Battle, BattleModel};
use crate::song::{detect_source, parse_url, parsed_url, spec_detect_source, Source, UrlModel, UrlParts};
use crate::text::{ascii_lower, chars_of, chars_of_string, lower_all, string_of, trim, trim_chars};

verus! {

pub const SUBMIT_COOLDOWN_MS: u64 = 15_000;

pub const PER_USER_CAP: u32 = 5;

pub const GLOBAL_SONG_CAP: usize = 64;

/// One user's submission count and the time of their last admitted one.
#[derive(Debug, Clone)]
pub struct UserSubs {
    pub user: String,
    pub count: u32,
    pub last_ms: u64,
}

/// Per-user submission accounting (by chat user id). Not persisted.
#[derive(Debug, Clone)]
pub struct SubmitLedger {
    per_user: Vec<UserSubs>,
}

pub open spec fn subs_distinct(s: Seq<UserSubs>) -> bool {
    forall|i: int, j: int| 0 <= i < j < s.len() ==> s[i].user@ != s[j].user@
}

pub open spec fn subs_map(s: Seq<UserSubs>) -> Map<Seq<char>, (u32, u64)>
    decreases s.len(),
{
    if s.len() == 0 {
        Map::empty()
    } else {
        subs_map(s.drop_last()).insert(s.last().user@, (s.last().count, s.last().last_ms))
    }
}

proof fn lemma_subs_dom(s: Seq<UserSubs>, k: Seq<char>)
    ensures
        subs_map(s).dom().contains(k) <==> exists|i: int| 0 <= i < s.len() && s[i].user@ == k,
    decreases s.len(),
{
    if s.len() > 0 {
        lemma_subs_dom(s.drop_last(), k);
        if subs_map(s).dom().contains(k) && s.last().user@ != k {
            let i = choose|i: int| 0 <= i < s.drop_last().len() && s.drop_last()[i].user@ == k;
            assert(s[i].user@ == k);
        }
        if exists|i: int| 0 <= i < s.len() && s[i].user@ == k {
            let i = choose|i: int| 0 <= i < s.len() && s[i].user@ == k;
            if i < s.len() - 1 {
                assert(s.drop_last()[i].user@ == k);
            }
        }
    }
}

proof fn lemma_subs_at(s: Seq<UserSubs>, i: int)
    requires
        subs_distinct(s),
        0 <= i < s.len(),
    ensures
        subs_map(s).dom().contains(s[i].user@),
        subs_map(s)[s[i].user@] == (s[i].count, s[i].last_ms),
    decreases s.len(),
{
    if i < s.len() - 1 {
        lemma_subs_at(s.drop_last(), i);
        assert(s.drop_last()[i] == s[i]);
    }
}

proof fn lemma_subs_update(s: Seq<UserSubs>, i: int, e: UserSubs)
    requires
        subs_distinct(s),
        0 <= i < s.len(),
        e.user@ == s[i].user@,
    ensures
        subs_distinct(s.update(i, e)),
        subs_map(s.update(i, e)) == subs_map(s).insert(e.user@, (e.count, e.last_ms)),
    decreases s.len(),
{
    let s2 = s.update(i, e);
    if i == s.len() - 1 {
        assert(s2.drop_last() =~= s.drop_last());
        assert(subs_map(s2) =~= subs_map(s).insert(e.user@, (e.count, e.last_ms)));
    } else {
        lemma_subs_update(s.drop_last(), i, e);
        assert(s2.drop_last() =~= s.drop_last().update(i, e));
        assert(s.last().user@ != e.user@);
        assert(subs_map(s2) =~= subs_map(s).insert(e.user@, (e.count, e.last_ms)));
    }
}

/// The ledger after an admission attempt by `user` at `now`, and whether it
/// was admitted: refused at `PER_USER_CAP` submissions, or within
/// `SUBMIT_COOLDOWN_MS` of the user's last one; otherwise the count goes up
/// by one and the time is recorded. A refusal changes nothing.
pub open spec fn spec_admit(m: Map<Seq<char>, (u32, u64)>, user: Seq<char>, now: u64) -> (
    Map<Seq<char>, (u32, u64)>,
    bool,
) {
    if !m.dom().contains(user) {
        (m.insert(user, (1u32, now)), true)
    } else {
        let (c, t) = m[user];
        if c >= PER_USER_CAP {
            (m, false)
        } else if c > 0 && now - t < SUBMIT_COOLDOWN_MS {
            (m, false)
        } else {
            (m.insert(user, ((c + 1) as u32, now)), true)
        }
    }
}

/// Admission never takes a user past `PER_USER_CAP` and never touches
/// another user's tally; a refusal changes nothing; an admission counts one
/// more submission at `now`; a user whose last admission was less than
/// `SUBMIT_COOLDOWN_MS` ago is refused.
pub proof fn law_admit_respects_cap(m: Map<Seq<char>, (u32, u64)>, user: Seq<char>, now: u64)
    requires
        forall|u: Seq<char>| m.dom().contains(u) ==> #[trigger] m[u].0 <= PER_USER_CAP,
    ensures
        ({
            let (m2, ok) = spec_admit(m, user, now);
            &&& forall|u: Seq<char>| m2.dom().contains(u) ==> #[trigger] m2[u].0 <= PER_USER_CAP
            &&& forall|u: Seq<char>| u != user ==> (#[trigger] m2.dom().contains(u)) == m.dom().contains(u)
                && (m.dom().contains(u) ==> m2[u] == m[u])
            &&& !ok ==> m2 == m
            &&& ok ==> m2.dom().contains(user) && m2[user].1 == now && m2[user].0 == (if m.dom().contains(user) {
                m[user].0 + 1
            } else {
                1
            })
            &&& m.dom().contains(user) && m[user].0 > 0 && now - m[user].1 < SUBMIT_COOLDOWN_MS ==> !ok
        }),
{
}

/// Every user's tally lies in `1..=PER_USER_CAP`: what admissions from an
/// empty ledger leave behind.
pub open spec fn tallies_ok(m: Map<Seq<char>, (u32, u64)>) -> bool {
    forall|u: Seq<char>| m.dom().contains(u) ==> 1 <= #[trigger] m[u].0 <= PER_USER_CAP
}

/// A run of admission attempts `(user, now)` in order, from ledger `m`: the
/// final ledger and each attempt's answer.
pub open spec fn spec_admit_run(m: Map<Seq<char>, (u32, u64)>, calls: Seq<(Seq<char>, u64)>) -> (
    Map<Seq<char>, (u32, u64)>,
    Seq<bool>,
)
    decreases calls.len(),
{
    if calls.len() == 0 {
        (m, Seq::empty())
    } else {
        let (m1, oks) = spec_admit_run(m, calls.drop_last());
        let (m2, ok) = spec_admit(m1, calls.last().0, calls.last().1);
        (m2, oks.push(ok))
    }
}

/// How many of the attempts were by `user` and admitted.
pub open spec fn admitted_count(calls: Seq<(Seq<char>, u64)>, oks: Seq<bool>, user: Seq<char>) -> nat
    decreases calls.len(),
{
    if calls.len() == 0 {
        0
    } else {
        admitted_count(calls.drop_last(), oks.drop_last(), user) + if calls.last().0 == user
            && oks[calls.len() - 1] {
            1nat
        } else {
            0nat
        }
    }
}

/// A user's tally in `m`, 0 when absent.
pub open spec fn tally_of(m: Map<Seq<char>, (u32, u64)>, user: Seq<char>) -> int {
    if m.dom().contains(user) {
        m[user].0 as int
    } else {
        0
    }
}

proof fn lemma_admit_run(m0: Map<Seq<char>, (u32, u64)>, calls: Seq<(Seq<char>, u64)>)
    requires
        tallies_ok(m0),
    ensures
        ({
            let (m, oks) = spec_admit_run(m0, calls);
            &&& oks.len() == calls.len()
            &&& tallies_ok(m)
            &&& forall|u: Seq<char>|
                #![trigger m.dom().contains(u)]
                #![trigger admitted_count(calls, oks, u)]
                m.dom().contains(u) <==> (m0.dom().contains(u) || admitted_count(calls, oks, u) > 0)
            &&& forall|u: Seq<char>|
                #![trigger admitted_count(calls, oks, u)]
                tally_of(m, u) == tally_of(m0, u) + admitted_count(calls, oks, u)
            &&& forall|u: Seq<char>|
                m0.dom().contains(u) ==> #[trigger] m.dom().contains(u) && m[u].1 >= m0[u].1
            &&& forall|i: int|
                0 <= i < calls.len() && #[trigger] oks[i] ==> m.dom().contains(calls[i].0)
                    && m[calls[i].0].1 >= calls[i].1
            &&& forall|i: int|
                0 <= i < calls.len() && #[trigger] oks[i] && m0.dom().contains(calls[i].0)
                    ==> calls[i].1 >= m0[calls[i].0].1 + SUBMIT_COOLDOWN_MS
            &&& forall|i: int, j: int|
                #![trigger oks[i], oks[j]]
                0 <= i < j < calls.len() && oks[i] && oks[j] && calls[i].0 == calls[j].0
                    ==> calls[j].1 >= calls[i].1 + SUBMIT_COOLDOWN_MS
        }),
    decreases calls.len(),
{
    if calls.len() > 0 {
        let pre = calls.drop_last();
        lemma_admit_run(m0, pre);
        let (m1, oks1) = spec_admit_run(m0, pre);
        let (u1, t1) = calls.last();
        let (m2, ok) = spec_admit(m1, u1, t1);
        let oks = oks1.push(ok);
        assert(oks.drop_last() =~= oks1);
        assert forall|u: Seq<char>|
            #![trigger admitted_count(calls, oks, u)]
            admitted_count(calls, oks, u) == admitted_count(pre, oks1, u) + (if u == u1 && ok {
                1int
            } else {
                0int
            }) by {}
        assert forall|i: int| 0 <= i < pre.len() implies calls[i] == pre[i] && oks[i] == oks1[i] by {}
        assert forall|i: int|
            0 <= i < calls.len() && #[trigger] oks[i] implies m2.dom().contains(calls[i].0)
                && m2[calls[i].0].1 >= calls[i].1 by {
            if i < pre.len() {
                assert(oks1[i]);
            }
        }
        assert forall|i: int|
            0 <= i < calls.len() && #[trigger] oks[i] && m0.dom().contains(calls[i].0)
                implies calls[i].1 >= m0[calls[i].0].1 + SUBMIT_COOLDOWN_MS by {
            if i < pre.len() {
                assert(oks1[i]);
            } else {
                assert(m1.dom().contains(u1));
                assert(m1[u1].0 >= 1);
            }
        }
        assert forall|i: int, j: int|
            #![trigger oks[i], oks[j]]
            0 <= i < j < calls.len() && oks[i] && oks[j] && calls[i].0 == calls[j].0
                implies calls[j].1 >= calls[i].1 + SUBMIT_COOLDOWN_MS by {
            assert(oks1[i]);
            if j < pre.len() {
                assert(oks1[j]);
            } else {
                assert(m1.dom().contains(u1));
                assert(m1[u1].0 >= 1);
            }
        }
    }
}

/// Over any run of admission attempts on one valid ledger (no `clear`
/// between): no user is admitted more often than the cap leaves room for,
/// and two admissions of the same user lie at least `SUBMIT_COOLDOWN_MS`
/// apart, as does a user's first admission in the run from their last one
/// before it.
pub proof fn law_admit_sequence(l: SubmitLedger, calls: Seq<(Seq<char>, u64)>)
    requires
        l.wf(),
    ensures
        ({
            let (m, oks) = spec_admit_run(l@, calls);
            &&& oks.len() == calls.len()
            &&& tallies_ok(m)
            &&& forall|u: Seq<char>|
                tally_of(l@, u) + #[trigger] admitted_count(calls, oks, u) <= PER_USER_CAP
            &&& forall|i: int, j: int|
                #![trigger oks[i], oks[j]]
                0 <= i < j < calls.len() && oks[i] && oks[j] && calls[i].0 == calls[j].0
                    ==> calls[j].1 >= calls[i].1 + SUBMIT_COOLDOWN_MS
            &&& forall|i: int|
                0 <= i < calls.len() && #[trigger] oks[i] && l@.dom().contains(calls[i].0)
                    ==> calls[i].1 >= l@[calls[i].0].1 + SUBMIT_COOLDOWN_MS
        }),
{
    let m0 = l@;
    lemma_admit_run(m0, calls);
    let (m, oks) = spec_admit_run(m0, calls);
    assert forall|u: Seq<char>|
        tally_of(m0, u) + #[trigger] admitted_count(calls, oks, u) <= PER_USER_CAP by {
        if m.dom().contains(u) {
        } else {
            assert(!m0.dom().contains(u));
        }
    }
}

impl View for SubmitLedger {
    type V = Map<Seq<char>, (u32, u64)>;

    closed spec fn view(&self) -> Map<Seq<char>, (u32, u64)> {
        subs_map(self.per_user@)
    }
}

impl Default for SubmitLedger {
    /// An empty ledger.
    fn default() -> (l: SubmitLedger)
        ensures
            l.wf(),
            l@ == Map::<Seq<char>, (u32, u64)>::empty(),
    {
        SubmitLedger::new()
    }
}

impl SubmitLedger {
    /// One entry per user, each tally in `1..=PER_USER_CAP`.
    pub closed spec fn wf(&self) -> bool {
        subs_distinct(self.per_user@) && tallies_ok(self@)
    }

    /// An empty ledger.
    pub fn new() -> (l: SubmitLedger)
        ensures
            l.wf(),
            l@ == Map::<Seq<char>, (u32, u64)>::empty(),
    {
        SubmitLedger { per_user: Vec::new() }
    }

    /// Forget every user's tally.
    pub fn clear(&mut self)
        ensures
            final(self).wf(),
            final(self)@ == Map::<Seq<char>, (u32, u64)>::empty(),
    {
        self.per_user.clear();
    }

    fn find_user(&self, user_id: &str) -> (r: Option<usize>)
        ensures
            match r {
                Some(i) => i < self.per_user@.len() && self.per_user@[i as int].user@ == user_id@,
                None => forall|j: int|
                    0 <= j < self.per_user@.len() ==> self.per_user@[j].user@ != user_id@,
            },
    {
        let n = self.per_user.len();
        for k in 0..n
            invariant
                n == self.per_user@.len(),
                forall|j: int| 0 <= j < k ==> self.per_user@[j].user@ != user_id@,
        {
            let kc = chars_of_string(&self.per_user[k].user);
            if crate::text::chars_eq(kc.as_slice(), user_id) {
                return Some(k);
            }
        }
        None
    }

    /// Admit one submission for `user_id` (cooldown + cap), bumping their
    /// tally. Returns false (and does not bump) when throttled.
    pub fn try_admit(&mut self, user_id: &str, now_ms: u64) -> (r: bool)
        requires
            old(self).wf(),
        ensures
            final(self).wf(),
            (final(self)@, r) == spec_admit(old(self)@, user_id@, now_ms),
    {
        let uc = chars_of(user_id);
        let found = self.find_user(user_id);
        proof {
            lemma_subs_dom(self.per_user@, user_id@);
        }
        match found {
            None => {
                let ghost old_s = self.per_user@;
                self.per_user.push(UserSubs { user: string_of(uc.as_slice()), count: 1, last_ms: now_ms });
                proof {
                    assert(self.per_user@.drop_last() =~= old_s);
                }
                true
            },
            Some(i) => {
                proof {
                    lemma_subs_at(self.per_user@, i as int);
                }
                let c = self.per_user[i].count;
                let t = self.per_user[i].last_ms;
                if c >= PER_USER_CAP {
                    return false;
                }
                if c > 0 && now_ms.saturating_sub(t) < SUBMIT_COOLDOWN_MS {
                    return false;
                }
                let e = UserSubs { user: string_of(uc.as_slice()), count: c + 1, last_ms: now_ms };
                proof {
                    lemma_subs_update(self.per_user@, i as int, e);
                }
                self.per_user.set(i, e);
                true
            },
        }
    }
}

/// `s` without its trailing `/`s.
pub open spec fn strip_slashes(s: Seq<char>) -> Seq<char>
    decreases s.len(),
{
    if s.len() > 0 && s.last() == '/' {
        strip_slashes(s.drop_last())
    } else {
        s
    }
}

/// The dedup key of a URL given what parsing its trimmed text gave: the
/// lower-cased host, the path without trailing slashes, and `?query` when
/// there is one (the fragment is dropped); when it does not parse, the
/// trimmed text lower-cased.
pub open spec fn spec_canonical_from(trimmed: Seq<char>, p: Option<UrlModel>) -> Seq<char> {
    match p {
        Some((_, host, path, query)) => {
            let h = match host {
                Some(h) => ascii_lower(h),
                None => Seq::empty(),
            };
            let base = h + strip_slashes(path);
            match query {
                Some(q) => base + seq!['?'] + q,
                None => base,
            }
        },
        None => ascii_lower(trimmed),
    }
}

/// The dedup key of a raw URL.
pub open spec fn spec_canonical_url(raw: Seq<char>) -> Seq<char> {
    spec_canonical_from(trim(raw), parsed_url(trim(raw)))
}

fn strip_slashes_exec(v: &[char]) -> (r: Vec<char>)
    ensures
        r@ == strip_slashes(v@),
{
    let mut j = v.len();
    assert(v@.subrange(0, j as int) =~= v@);
    while j > 0 && v[j - 1] == '/'
        invariant
            j <= v@.len(),
            strip_slashes(v@) == strip_slashes(v@.subrange(0, j as int)),
        decreases j,
    {
        assert(v@.subrange(0, j as int).drop_last() =~= v@.subrange(0, j - 1));
        j = j - 1;
    }
    let mut r: Vec<char> = Vec::new();
    for k in 0..j
        invariant
            j <= v@.len(),
            r@ =~= v@.subrange(0, k as int),
    {
        r.push(v[k]);
    }
    r
}

fn append(dst: &mut Vec<char>, src: &[char])
    ensures
        final(dst)@ == old(dst)@ + src@,
{
    let n = src.len();
    for k in 0..n
        invariant
            n == src@.len(),
            dst@ =~= old(dst)@ + src@.take(k as int),
    {
        dst.push(src[k]);
    }
    assert(src@.take(n as int) =~= src@);
}

/// The dedup key from the trimmed text and its parse result.
pub fn canonical_of_parts(trimmed: &[char], p: &Option<UrlParts>) -> (r: String)
    ensures
        r@ == spec_canonical_from(trimmed@, match p {
            Some(q) => Some(q@),
            None => None,
        }),
{
    match p {
        Some(u) => {
            let mut out: Vec<char> = match &u.host {
                Some(h) => {
                    let hc = chars_of_string(h);
                    lower_all(hc.as_slice())
                },
                None => Vec::new(),
            };
            let pc = chars_of_string(&u.path);
            let sp = strip_slashes_exec(pc.as_slice());
            append(&mut out, sp.as_slice());
            match &u.query {
                Some(q) => {
                    out.push('?');
                    let qc = chars_of_string(q);
                    append(&mut out, qc.as_slice());
                },
                None => {},
            }
            proof {
                let h = match crate::song::opt_view(u.host) {
                    Some(h) => ascii_lower(h),
                    None => Seq::<char>::empty(),
                };
                assert(match crate::song::opt_view(u.query) {
                    Some(q) => out@ =~= h + strip_slashes(u.path@) + seq!['?'] + q,
                    None => out@ =~= h + strip_slashes(u.path@),
                });
            }
            string_of(out.as_slice())
        },
        None => {
            let l = lower_all(trimmed);
            string_of(l.as_slice())
        },
    }
}

/// Normalize a URL for dedup: lower-case host, drop fragment and trailing
/// slashes, keep the query (it carries the media id, e.g. `watch?v=…`).
pub fn canonical_url(raw: &str) -> (r: String)
    ensures
        r@ == spec_canonical_url(raw@),
{
    let rc = chars_of(raw);
    let t = trim_chars(rc.as_slice());
    let ts = string_of(t.as_slice());
    let p = parse_url(ts.as_str());
    canonical_of_parts(t.as_slice(), &p)
}

/// A lobby: no bracket generated yet, and below the global song cap.
pub open spec fn spec_lobby_open(b: BattleModel) -> bool {
    b.matches.len() == 0 && b.songs.len() < GLOBAL_SONG_CAP
}

/// A battle accepts chat submissions only while it is a true lobby: no
/// bracket generated yet and below the global song cap.
pub fn lobby_open(battle: &Battle) -> (r: bool)
    ensures
        r == spec_lobby_open(battle@),
{
    battle.matches.len() == 0 && battle.songs.len() < GLOBAL_SONG_CAP
}

/// Some song of the lobby already has this dedup key.
pub open spec fn already_in(songs: Seq<crate::song::Song>, key: Seq<char>) -> bool {
    exists|i: int| 0 <= i < songs.len() && spec_canonical_url(#[trigger] songs[i].source_url@) == key
}

/// The ledger after gating one `!submit`, and the accepted source and
/// trimmed URL: refused when submissions are off, there is no battle, it is
/// not a lobby, the URL has no known source, the URL is already in the
/// lobby, or the ledger throttles the user (only that last check touches the
/// ledger, and only on success).
pub open spec fn spec_evaluate(
    chat_submissions: bool,
    battle: Option<BattleModel>,
    ledger: Map<Seq<char>, (u32, u64)>,
    user: Seq<char>,
    raw: Seq<char>,
    now: u64,
) -> (Map<Seq<char>, (u32, u64)>, Option<(Source, Seq<char>)>) {
    if !chat_submissions {
        (ledger, None)
    } else {
        match battle {
            None => (ledger, None),
            Some(b) => if !spec_lobby_open(b) {
                (ledger, None)
            } else {
                match spec_detect_source(raw) {
                    None => (ledger, None),
                    Some(src) => if already_in(b.songs, spec_canonical_url(raw)) {
                        (ledger, None)
                    } else {
                        let (l2, ok) = spec_admit(ledger, user, now);
                        if ok {
                            (l2, Some((src, trim(raw))))
                        } else {
                            (ledger, None)
                        }
                    },
                }
            },
        }
    }
}

/// A refused submission never costs the user quota: whenever the checks
/// refuse, the ledger is unchanged; when they accept, the battle is an open
/// lobby, the URL's source is known and the URL is not in the lobby yet.
pub proof fn law_refusal_keeps_quota(
    chat_submissions: bool,
    battle: Option<BattleModel>,
    ledger: Map<Seq<char>, (u32, u64)>,
    user: Seq<char>,
    raw: Seq<char>,
    now: u64,
)
    ensures
        spec_evaluate(chat_submissions, battle, ledger, user, raw, now).1 is None ==> spec_evaluate(
            chat_submissions,
            battle,
            ledger,
            user,
            raw,
            now,
        ).0 == ledger,
        spec_evaluate(chat_submissions, battle, ledger, user, raw, now).1 matches Some((src, u)) ==> {
            &&& chat_submissions
            &&& battle matches Some(b) && spec_lobby_open(b) && !already_in(
                b.songs,
                spec_canonical_url(raw),
            )
            &&& spec_detect_source(raw) == Some(src)
            &&& u == trim(raw)
        },
{
}

/// Decide whether a raw `!submit` URL is accepted (see `spec_evaluate`). On
/// accept the ledger is bumped and the detected source with the trimmed URL
/// returned.
pub fn evaluate(
    chat_submissions: bool,
    battle: Option<&Battle>,
    ledger: &mut SubmitLedger,
    user_id: &str,
    raw_url: &str,
    now_ms: u64,
) -> (r: Option<(Source, String)>)
    requires
        old(ledger).wf(),
    ensures
        final(ledger).wf(),
        final(ledger)@ == spec_evaluate(
            chat_submissions,
            match battle {
                Some(b) => Some(b@),
                None => None,
            },
            old(ledger)@,
            user_id@,
            raw_url@,
            now_ms,
        ).0,
        (match r {
            Some((s, u)) => Some((s, u@)),
            None => None,
        }) == spec_evaluate(
            chat_submissions,
            match battle {
                Some(b) => Some(b@),
                None => None,
            },
            old(ledger)@,
            user_id@,
            raw_url@,
            now_ms,
        ).1,
{
    if !chat_submissions {
        return None;
    }
    let bt = match battle {
        Some(b) => b,
        None => return None,
    };
    if !lobby_open(bt) {
        return None;
    }
    let source = match detect_source(raw_url) {
        Some(s) => s,
        None => return None,
    };
    let canon = canonical_url(raw_url);
    let n = bt.songs.len();
    for k in 0..n
        invariant
            n == bt.songs@.len(),
            canon@ == spec_canonical_url(raw_url@),
            ledger@ == old(ledger)@,
            ledger.wf(),
            chat_submissions,
            spec_lobby_open(bt@),
            battle == Some(bt),
            spec_detect_source(raw_url@) == Some(source),
            forall|j: int|
                0 <= j < k ==> spec_canonical_url(#[trigger] bt.songs@[j].source_url@)
                    != canon@,
    {
        let c = canonical_url(bt.songs[k].source_url.as_str());
        if c == canon {
            assert(spec_canonical_url(bt.songs@[k as int].source_url@) == canon@);
            return None;
        }
    }
    if !ledger.try_admit(user_id, now_ms) {
        return None;
    }
    let rc = chars_of(raw_url);
    let t = trim_chars(rc.as_slice());
    Some((source, string_of(t.as_slice())))
}

} // verus!
