//! The live in-memory state: the active battle, the chat connection, the
//! settings and the submission ledger; plus the replay log for webhook
//! deliveries and the single pending OAuth login.

use vstd::prelude::*;

use crate::battle::{
    spec_battle_tick, spec_cast_vote, spec_reset_votes, spec_restore, spec_skip, Battle, BattleMode,
    BattleModel, BattleStatus,
};
use crate::bracket::MatchModel;
use crate::kick::{
    classify_chat, spec_classify, valid_slug, validate_channel, ChatAction, ChatActionModel,
    ChatMessage,
};
use crate::bracket::fresh_id;
use crate::error::{msg, AppError};
use crate::snapshot::{
    anon_bracket, anon_songs, anonymize, battle_view, spec_anon_current, spec_anon_opt,
    spec_current_view, spec_match_view, views_ok, ConnectionState, KickView, Settings, Snapshot,
};
use crate::song::{dup_opt, opt_view, MediaMetadata, Song, Source};
use crate::submit::{evaluate, lobby_open, spec_evaluate, spec_lobby_open, SubmitLedger};
use crate::text::{chars_of, chars_of_string, string_of};
use crate::vote::VoteChoice;

verus! {

/// Longest submitter name kept for a chat submission.
pub const SUBMITTER_MAX_CHARS: usize = 40;

/// How many webhook message ids are remembered for replay detection.
pub const WEBHOOK_ID_CAP: usize = 512;

/// The chat connection's state and channel.
#[derive(Debug, Clone)]
pub struct KickConn {
    pub state: ConnectionState,
    pub channel: Option<String>,
}

impl Default for KickConn {
    fn default() -> (r: Self)
        ensures
            r.state == ConnectionState::Disconnected,
            r.channel is None,
    {
        Self { state: ConnectionState::Disconnected, channel: None }
    }
}

/// What the chat loop does after handling one message.
#[derive(Debug)]
pub enum ChatEffect {
    /// Nothing changed.
    Nothing,
    /// The live state changed: broadcast it.
    Redraw,
    /// The bracket changed: persist it (and broadcast).
    Persist,
    /// A submission was admitted: resolve its metadata off the loop, then
    /// `add_submitted_song` with this submitter name.
    Fetch(Source, String, String),
}

/// Live state behind the lock.
pub struct App {
    pub battle: Option<Battle>,
    pub kick: KickConn,
    pub settings: Settings,
    pub submit_ledger: SubmitLedger,
}

/// The model of an optional battle.
pub open spec fn battle_model(b: Option<Battle>) -> Option<BattleModel> {
    match b {
        Some(x) => Some(x@),
        None => None,
    }
}

impl App {
    pub open spec fn wf(&self) -> bool {
        &&& (self.battle matches Some(b) ==> b.wf())
        &&& self.submit_ledger.wf()
    }

    /// No battle, disconnected, an empty ledger, and the given settings.
    pub fn new(settings: Settings) -> (a: App)
        ensures
            a.wf(),
            a.battle is None,
            a.kick.state == ConnectionState::Disconnected,
            a.kick.channel is None,
            a.settings == settings,
            a.submit_ledger@ == Map::<Seq<char>, (u32, u64)>::empty(),
    {
        App {
            battle: None,
            kick: KickConn::default(),
            settings,
            submit_ledger: SubmitLedger::new(),
        }
    }

    /// Make `battle` the active battle.
    pub fn set_battle(&mut self, battle: Battle)
        requires
            old(self).wf(),
            battle.wf(),
        ensures
            final(self).wf(),
            final(self).battle == Some(battle),
            final(self).kick == old(self).kick,
            final(self).settings == old(self).settings,
            final(self).submit_ledger == old(self).submit_ledger,
    {
        self.battle = Some(battle);
    }

    /// The active battle, to mutate in place; refused with
    /// `no active battle` when there is none.
    pub fn battle_mut(&mut self) -> (r: Result<&mut Battle, AppError>)
        ensures
            match r {
                Ok(b) => old(self).battle == Some(*b) && final(self).battle == Some(*final(b))
                    && final(self).kick == old(self).kick && final(self).settings == old(
                    self,
                ).settings && final(self).submit_ledger == old(self).submit_ledger,
                Err(e) => old(self).battle is None && *final(self) == *old(self) && (
                e matches AppError::NotFound(m) && m@ == "no active battle"@),
            },
    {
        match &mut self.battle {
            Some(b) => Ok(b),
            None => Err(AppError::NotFound(msg("no active battle"))),
        }
    }

    /// Count a chat vote on the active battle (`false` without one).
    pub fn cast_vote(&mut self, user_id: String, choice: VoteChoice, now_ms: u64) -> (r: bool)
        requires
            old(self).wf(),
        ensures
            final(self).wf(),
            final(self).kick == old(self).kick,
            final(self).settings == old(self).settings,
            final(self).submit_ledger == old(self).submit_ledger,
            match old(self).battle {
                Some(b) => final(self).battle matches Some(nb) && (nb@, r) == spec_cast_vote(
                    b@,
                    user_id@,
                    choice,
                    now_ms,
                ),
                None => !r && final(self).battle is None,
            },
    {
        match &mut self.battle {
            Some(b) => b.cast_vote(user_id, choice, now_ms),
            None => false,
        }
    }

    /// Whether the active battle's counters allow a tick (see
    /// `Battle::counters_ok`); true without a battle.
    pub fn tick_safe(&self) -> (r: bool)
        ensures
            r == (self.battle matches Some(b) ==> b.counters_ok()),
    {
        match &self.battle {
            Some(b) => b.counters_within_limits(),
            None => true,
        }
    }

    /// Whether the active battle's current tally fits (see
    /// `Battle::tally_ok`), as chat handling needs; true without a battle.
    pub fn chat_safe(&self) -> (r: bool)
        ensures
            r == (self.battle matches Some(b) ==> b.tally_ok()),
    {
        match &self.battle {
            Some(b) => b.tally_within_limits(),
            None => true,
        }
    }

    /// One logical second for the active countdown: `(redraw, resolved)`;
    /// `(false, false)` without a battle.
    pub fn tick_battle(&mut self) -> (r: (bool, bool))
        requires
            old(self).wf(),
            old(self).battle matches Some(b) ==> b.counters_ok(),
        ensures
            final(self).wf(),
            final(self).kick == old(self).kick,
            final(self).settings == old(self).settings,
            final(self).submit_ledger == old(self).submit_ledger,
            match old(self).battle {
                Some(b) => final(self).battle matches Some(nb) && (nb@, r) == spec_battle_tick(b@),
                None => r == (false, false) && final(self).battle is None,
            },
    {
        match &mut self.battle {
            Some(b) => b.tick(),
            None => (false, false),
        }
    }

    /// Apply one chat message (see `spec_classify`): a vote is cast on the
    /// active battle; a submission goes through the anti-flood checks; a moderator reset
    /// clears the current match's ballots; a moderator skip resolves the
    /// current match. The effect says what the caller must do next.
    pub fn handle_chat(&mut self, m: &ChatMessage, now_ms: u64) -> (r: ChatEffect)
        requires
            old(self).wf(),
            old(self).battle matches Some(b) ==> b.tally_ok(),
        ensures
            final(self).wf(),
            final(self).kick == old(self).kick,
            final(self).settings == old(self).settings,
            match spec_classify(m.user.is_mod, m.text@) {
                ChatActionModel::Vote(c) => final(self).submit_ledger == old(self).submit_ledger
                    && match old(self).battle {
                    Some(b) => final(self).battle matches Some(nb) && (r is Redraw || r is Nothing)
                        && (nb@, r is Redraw) == spec_cast_vote(b@, m.user.user_id@, c, now_ms),
                    None => r is Nothing && final(self).battle is None,
                },
                ChatActionModel::Submit(u) => {
                    let ev = spec_evaluate(
                        old(self).settings.chat_submissions,
                        battle_model(old(self).battle),
                        old(self).submit_ledger@,
                        m.user.user_id@,
                        u,
                        now_ms,
                    );
                    &&& final(self).battle == old(self).battle
                    &&& final(self).submit_ledger@ == ev.0
                    &&& match ev.1 {
                        Some((src, url)) => r matches ChatEffect::Fetch(s2, u2, who) && s2 == src
                            && u2@ == url && who@ == m.user.username@,
                        None => r is Nothing,
                    }
                },
                ChatActionModel::ResetVotes => final(self).submit_ledger == old(self).submit_ledger
                    && match old(self).battle {
                    Some(b) => final(self).battle matches Some(nb) && nb@ == spec_reset_votes(b@)
                        && r is Redraw,
                    None => r is Nothing && final(self).battle is None,
                },
                ChatActionModel::Skip => final(self).submit_ledger == old(self).submit_ledger
                    && match old(self).battle {
                    Some(b) => final(self).battle matches Some(nb) && nb@ == spec_skip(b@)
                        && r is Persist,
                    None => r is Nothing && final(self).battle is None,
                },
                ChatActionModel::Ignore => r is Nothing && final(self).battle == old(self).battle
                    && final(self).submit_ledger == old(self).submit_ledger,
            },
    {
        match classify_chat(m.user.is_mod, m.text.as_str()) {
            ChatAction::Vote(c) => {
                let uid = m.user.user_id.clone();
                if self.cast_vote(uid, c, now_ms) {
                    ChatEffect::Redraw
                } else {
                    ChatEffect::Nothing
                }
            },
            ChatAction::Submit(u) => {
                match self.gate_submission(m.user.user_id.as_str(), u.as_str(), now_ms) {
                    Some((src, url)) => ChatEffect::Fetch(src, url, m.user.username.clone()),
                    None => ChatEffect::Nothing,
                }
            },
            ChatAction::ResetVotes => {
                match self.battle_mut() {
                    Ok(b) => {
                        b.reset_votes();
                        ChatEffect::Redraw
                    },
                    Err(_) => ChatEffect::Nothing,
                }
            },
            ChatAction::Skip => {
                match self.battle_mut() {
                    Ok(b) => {
                        let _ = b.skip_match();
                        ChatEffect::Persist
                    },
                    Err(_) => ChatEffect::Nothing,
                }
            },
            ChatAction::Ignore => ChatEffect::Nothing,
        }
    }

    /// Start a chat session on `channel`: refused (nothing changes) for an
    /// invalid slug; otherwise the submission quotas start afresh and the
    /// connection is `Connecting` to `channel`.
    pub fn begin_connect(&mut self, channel: &str) -> (r: Result<(), AppError>)
        requires
            old(self).wf(),
        ensures
            final(self).wf(),
            r is Ok <==> valid_slug(channel@),
            r matches Err(e) ==> e matches AppError::Invalid(m) && m@ == "invalid kick channel: "@
                + channel@,
            r is Err ==> *final(self) == *old(self),
            r is Ok ==> final(self).submit_ledger@ == Map::<Seq<char>, (u32, u64)>::empty()
                && final(self).kick.state == ConnectionState::Connecting
                && opt_view(final(self).kick.channel) == Some(channel@) && final(self).battle
                == old(self).battle && final(self).settings == old(self).settings,
    {
        match validate_channel(channel) {
            Ok(()) => {},
            Err(e) => return Err(e),
        }
        self.submit_ledger.clear();
        self.kick = KickConn { state: ConnectionState::Connecting, channel: Some(msg(channel)) };
        Ok(())
    }

    /// End the chat session: quotas forgotten, disconnected, no channel.
    pub fn disconnect(&mut self)
        requires
            old(self).wf(),
        ensures
            final(self).wf(),
            final(self).submit_ledger@ == Map::<Seq<char>, (u32, u64)>::empty(),
            final(self).kick.state == ConnectionState::Disconnected,
            final(self).kick.channel is None,
            final(self).battle == old(self).battle,
            final(self).settings == old(self).settings,
    {
        self.submit_ledger.clear();
        self.kick = KickConn { state: ConnectionState::Disconnected, channel: None };
    }

    /// Make an imported (or loaded) battle active after recomputing its
    /// derived state (see `spec_restore`).
    pub fn import_battle(&mut self, battle: Battle)
        requires
            old(self).wf(),
            battle.wf(),
        ensures
            final(self).wf(),
            final(self).battle matches Some(nb) && nb@ == spec_restore(battle@),
            final(self).kick == old(self).kick,
            final(self).settings == old(self).settings,
            final(self).submit_ledger == old(self).submit_ledger,
    {
        let mut b = battle;
        b.rewire();
        b.normalize();
        self.battle = Some(b);
    }

    /// A new battle, timed by the default game length, made active.
    pub fn create_battle(&mut self, title: String, description: String, theme: String)
        requires
            old(self).wf(),
        ensures
            final(self).wf(),
            final(self).battle matches Some(nb) && nb@ == (BattleModel {
                id: nb.id,
                title,
                description,
                theme,
                mode: BattleMode::Single,
                status: BattleStatus::Idle,
                songs: Seq::empty(),
                matches: Seq::empty(),
                total_rounds: 0,
                current: None,
                winner: None,
                duration_sec: old(self).settings.default_timer_sec,
            }),
            final(self).kick == old(self).kick,
            final(self).settings == old(self).settings,
            final(self).submit_ledger == old(self).submit_ledger,
    {
        let mut b = Battle::new(title, description, theme);
        b.set_timer(self.settings.default_timer_sec);
        assert(b@.matches =~= Seq::<MatchModel>::empty());
        self.battle = Some(b);
    }

    /// The settings.
    pub fn settings(&self) -> (r: Settings)
        ensures
            r == self.settings,
    {
        self.settings
    }

    /// The default game length for new battles.
    pub fn default_timer_sec(&self) -> (r: u32)
        ensures
            r == self.settings.default_timer_sec,
    {
        self.settings.default_timer_sec
    }

    /// Turn anonymous mode (submitter names hidden) on or off.
    pub fn set_anonymous(&mut self, anonymous: bool)
        ensures
            final(self).settings == (Settings { anonymous, ..old(self).settings }),
            final(self).battle == old(self).battle,
            final(self).kick == old(self).kick,
            final(self).submit_ledger == old(self).submit_ledger,
    {
        self.settings.anonymous = anonymous;
    }

    /// Set the default game length for new battles.
    pub fn set_default_timer(&mut self, sec: u32)
        ensures
            final(self).settings == (Settings { default_timer_sec: sec, ..old(self).settings }),
            final(self).battle == old(self).battle,
            final(self).kick == old(self).kick,
            final(self).submit_ledger == old(self).submit_ledger,
    {
        self.settings.default_timer_sec = sec;
    }

    /// Allow or refuse chat song submissions.
    pub fn set_chat_submissions(&mut self, enabled: bool)
        ensures
            final(self).settings == (Settings { chat_submissions: enabled, ..old(self).settings }),
            final(self).battle == old(self).battle,
            final(self).kick == old(self).kick,
            final(self).submit_ledger == old(self).submit_ledger,
    {
        self.settings.chat_submissions = enabled;
    }

    /// Whether the active battle has id `id` (it must be replaced when that
    /// battle is deleted).
    pub fn is_active(&self, id: &str) -> (r: bool)
        ensures
            r == (self.battle matches Some(b) && b.id@ == id@),
    {
        match &self.battle {
            Some(b) => {
                let c = chars_of_string(&b.id);
                crate::text::chars_eq(c.as_slice(), id)
            },
            None => false,
        }
    }

    /// Set the chat connection's state and channel.
    pub fn set_kick(&mut self, state: ConnectionState, channel: Option<String>)
        ensures
            final(self).kick.state == state,
            final(self).kick.channel == channel,
            final(self).battle == old(self).battle,
            final(self).settings == old(self).settings,
            final(self).submit_ledger == old(self).submit_ledger,
    {
        self.kick = KickConn { state, channel };
    }

    /// Set the chat connection's state, keeping its channel.
    pub fn set_kick_state(&mut self, state: ConnectionState)
        ensures
            final(self).kick.state == state,
            final(self).kick.channel == old(self).kick.channel,
            final(self).battle == old(self).battle,
            final(self).settings == old(self).settings,
            final(self).submit_ledger == old(self).submit_ledger,
    {
        self.kick.state = state;
    }

    /// Screen one chat `!submit` (see `spec_evaluate`), bumping the ledger on
    /// accept.
    pub fn gate_submission(&mut self, user_id: &str, raw_url: &str, now_ms: u64) -> (r: Option<
        (Source, String),
    >)
        requires
            old(self).wf(),
        ensures
            final(self).wf(),
            final(self).battle == old(self).battle,
            final(self).kick == old(self).kick,
            final(self).settings == old(self).settings,
            final(self).submit_ledger@ == spec_evaluate(
                old(self).settings.chat_submissions,
                battle_model(old(self).battle),
                old(self).submit_ledger@,
                user_id@,
                raw_url@,
                now_ms,
            ).0,
            (match r {
                Some((s, u)) => Some((s, u@)),
                None => None,
            }) == spec_evaluate(
                old(self).settings.chat_submissions,
                battle_model(old(self).battle),
                old(self).submit_ledger@,
                user_id@,
                raw_url@,
                now_ms,
            ).1,
    {
        let b = match &self.battle {
            Some(b) => Some(b),
            None => None,
        };
        evaluate(self.settings.chat_submissions, b, &mut self.submit_ledger, user_id, raw_url, now_ms)
    }

    /// Append a resolved chat submission to the lobby. Re-checks that the
    /// battle is still a lobby under the cap; the submitter name is clipped
    /// to `SUBMITTER_MAX_CHARS` chars. Returns whether the song was added.
    pub fn add_submitted_song(&mut self, meta: MediaMetadata, submitter: &str) -> (r: bool)
        requires
            old(self).wf(),
        ensures
            final(self).wf(),
            final(self).kick == old(self).kick,
            final(self).settings == old(self).settings,
            final(self).submit_ledger == old(self).submit_ledger,
            r == (old(self).battle matches Some(b) && spec_lobby_open(b@)),
            !r ==> final(self).battle == old(self).battle,
            r ==> (final(self).battle matches Some(nb) && old(self).battle matches Some(ob) && {
                let s = nb@.songs.last();
                &&& nb@ == (BattleModel { songs: ob@.songs.push(s), ..ob@ })
                &&& s.title == meta.title
                &&& s.artist == meta.artist
                &&& s.thumbnail == meta.thumbnail
                &&& s.duration_sec == meta.duration_sec
                &&& s.source == meta.source
                &&& s.source_url == meta.source_url
                &&& s.submitter matches Some(n) && n@ == submitter@.take(
                    if submitter@.len() < SUBMITTER_MAX_CHARS {
                        submitter@.len() as int
                    } else {
                        SUBMITTER_MAX_CHARS as int
                    },
                )
                &&& s.metadata is None
            }),
    {
        let open = match &self.battle {
            Some(b) => lobby_open(b),
            None => false,
        };
        if !open {
            return false;
        }
        let sc = chars_of(submitter);
        let keep = if sc.len() < SUBMITTER_MAX_CHARS {
            sc.len()
        } else {
            SUBMITTER_MAX_CHARS
        };
        let mut clipped: Vec<char> = Vec::new();
        for k in 0..keep
            invariant
                keep <= sc@.len(),
                clipped@ =~= sc@.take(k as int),
        {
            clipped.push(sc[k]);
        }
        let song = Song {
            id: fresh_id(),
            title: meta.title,
            artist: meta.artist,
            thumbnail: meta.thumbnail,
            duration_sec: meta.duration_sec,
            source: meta.source,
            source_url: meta.source_url,
            submitter: Some(string_of(clipped.as_slice())),
            metadata: None,
        };
        match &mut self.battle {
            Some(b) => {
                b.add_song(song);
            },
            None => {},
        }
        true
    }

    /// Add an operator-imported song to the active battle: a fresh id, the
    /// looked-up metadata, the detected `source` and the URL as given.
    /// Refused with `no active battle` when there is none.
    pub fn import_song(
        &mut self,
        meta: MediaMetadata,
        source: Source,
        url: String,
        submitter: Option<String>,
    ) -> (r: Result<(), AppError>)
        requires
            old(self).wf(),
        ensures
            final(self).wf(),
            final(self).kick == old(self).kick,
            final(self).settings == old(self).settings,
            final(self).submit_ledger == old(self).submit_ledger,
            r is Err <==> old(self).battle is None,
            r matches Err(e) ==> e matches AppError::NotFound(m) && m@ == "no active battle"@,
            r is Err ==> final(self).battle is None,
            r is Ok ==> (final(self).battle matches Some(nb) && old(self).battle matches Some(ob) && {
                let s = nb@.songs.last();
                &&& nb@ == (BattleModel { songs: ob@.songs.push(s), ..ob@ })
                &&& s.title == meta.title
                &&& s.artist == meta.artist
                &&& s.thumbnail == meta.thumbnail
                &&& s.duration_sec == meta.duration_sec
                &&& s.source == source
                &&& s.source_url == url
                &&& s.submitter == submitter
                &&& s.metadata is None
            }),
    {
        let song = Song {
            id: fresh_id(),
            title: meta.title,
            artist: meta.artist,
            thumbnail: meta.thumbnail,
            duration_sec: meta.duration_sec,
            source,
            source_url: url,
            submitter,
            metadata: None,
        };
        match self.battle_mut() {
            Ok(b) => {
                b.add_song(song);
                Ok(())
            },
            Err(e) => Err(e),
        }
    }

    /// Forget every user's submission tally.
    pub fn clear_submit_ledger(&mut self)
        requires
            old(self).wf(),
        ensures
            final(self).wf(),
            final(self).battle == old(self).battle,
            final(self).kick == old(self).kick,
            final(self).settings == old(self).settings,
            final(self).submit_ledger@ == Map::<Seq<char>, (u32, u64)>::empty(),
    {
        self.submit_ledger.clear();
    }

    /// The snapshot numbered `seq`: the battle's view (submitters removed in
    /// anonymous mode), the chat connection, and the anonymous flag.
    pub fn build_snapshot(&self, seq: u64) -> (s: Snapshot)
        requires
            self.battle matches Some(b) ==> views_ok(&b),
        ensures
            s.seq == seq,
            s.anonymous == self.settings.anonymous,
            s.kick.state == self.kick.state,
            s.kick.channel == self.kick.channel,
            s.battle is Some <==> self.battle is Some,
            s.battle matches Some(v) ==> self.battle matches Some(b) && v.id == b.id
                && v.title == b.title && v.description == b.description && v.theme == b.theme
                && v.status == b.status && v.total_rounds == b.total_rounds && v.song_count
                == b.songs@.len() as u32 && v.round == (match spec_current_view(b) {
                Some(m) => m.round,
                None => b.total_rounds,
            }) && (if self.settings.anonymous {
                &&& v.current_match == spec_anon_current(spec_current_view(b))
                &&& v.songs@ == anon_songs(b.songs@)
                &&& v.bracket@ == anon_bracket(
                    b@.matches.map_values(|m: MatchModel| spec_match_view(m)),
                )
                &&& v.winner == spec_anon_opt(b.winner)
            } else {
                &&& v.current_match == spec_current_view(b)
                &&& v.songs@ == b.songs@
                &&& v.bracket@ == b@.matches.map_values(|m: MatchModel| spec_match_view(m))
                &&& v.winner == b.winner
            }),
    {
        let battle = match &self.battle {
            Some(b) => {
                let v = battle_view(b);
                if self.settings.anonymous {
                    Some(anonymize(v))
                } else {
                    Some(v)
                }
            },
            None => None,
        };
        Snapshot {
            seq,
            battle,
            kick: KickView { state: self.kick.state, channel: dup_opt(&self.kick.channel) },
            anonymous: self.settings.anonymous,
        }
    }
}

// ── webhook replay log ──────────────────────────────────────────────────────
/// The last `WEBHOOK_ID_CAP` webhook message ids seen, oldest first.
pub struct WebhookLog {
    ids: Vec<String>,
}

/// The log after seeing `id`, and whether `id` was new: a known id changes
/// nothing; a new one is appended, dropping the oldest when full.
pub open spec fn spec_webhook_seen(log: Seq<Seq<char>>, id: Seq<char>) -> (Seq<Seq<char>>, bool) {
    if log.contains(id) {
        (log, false)
    } else if log.len() >= WEBHOOK_ID_CAP {
        (log.drop_first().push(id), true)
    } else {
        (log.push(id), true)
    }
}

impl View for WebhookLog {
    type V = Seq<Seq<char>>;

    closed spec fn view(&self) -> Seq<Seq<char>> {
        self.ids@.map_values(|s: String| s@)
    }
}

impl WebhookLog {
    /// The log never holds more than `WEBHOOK_ID_CAP` ids.
    #[verifier::type_invariant]
    closed spec fn bounded(self) -> bool {
        self.ids@.len() <= WEBHOOK_ID_CAP
    }

    pub fn new() -> (l: WebhookLog)
        ensures
            l@ == Seq::<Seq<char>>::empty(),
    {
        let l = WebhookLog { ids: Vec::new() };
        assert(l@ =~= Seq::<Seq<char>>::empty());
        l
    }

    /// Record a webhook message id; `true` if it is new (to be processed),
    /// `false` for a redelivery already handled.
    pub fn is_new(&mut self, id: &str) -> (r: bool)
        ensures
            (final(self)@, r) == spec_webhook_seen(old(self)@, id@),
            final(self)@.len() <= WEBHOOK_ID_CAP,
    {
        proof {
            use_type_invariant(&*self);
        }
        let n = self.ids.len();
        let ghost v = self@;
        for k in 0..n
            invariant
                n == self.ids@.len(),
                v == self@,
                v.len() == n,
                n <= WEBHOOK_ID_CAP,
                forall|j: int| 0 <= j < k ==> v[j] != id@,
        {
            let kc = chars_of_string(&self.ids[k]);
            if crate::text::chars_eq(kc.as_slice(), id) {
                assert(v[k as int] == id@);
                return false;
            }
        }
        assert(!v.contains(id@));
        let ic = chars_of(id);
        let s = string_of(ic.as_slice());
        let mut ids: Vec<String> = Vec::new();
        std::mem::swap(&mut ids, &mut self.ids);
        if ids.len() >= WEBHOOK_ID_CAP {
            ids.remove(0);
        }
        ids.push(s);
        proof {
            let w = ids@.map_values(|x: String| x@);
            if v.len() >= WEBHOOK_ID_CAP {
                assert(w =~= v.drop_first().push(id@));
            } else {
                assert(w =~= v.push(id@));
            }
        }
        self.ids = ids;
        true
    }
}

/// A redelivered webhook id is never processed twice in a row: right after
/// an id is recorded, seeing it again reports it as not new and changes
/// nothing.
pub proof fn law_webhook_replay_is_not_new(log: Seq<Seq<char>>, id: Seq<char>)
    requires
        log.len() <= WEBHOOK_ID_CAP,
    ensures
        spec_webhook_seen(log, id).0.contains(id),
        spec_webhook_seen(spec_webhook_seen(log, id).0, id) == (spec_webhook_seen(log, id).0, false),
        spec_webhook_seen(log, id).0.len() <= WEBHOOK_ID_CAP,
{
    let l2 = spec_webhook_seen(log, id).0;
    if !log.contains(id) {
        if log.len() >= WEBHOOK_ID_CAP {
            assert(l2[l2.len() - 1] == id);
        } else {
            assert(l2[l2.len() - 1] == id);
        }
    }
}

// ── pending OAuth login ─────────────────────────────────────────────────────
/// The (verifier, state) pair of an in-flight OAuth login.
pub struct OauthSlot {
    pending: Option<(String, String)>,
}

/// The slot after taking `state`, and the verifier handed out: the pending
/// login is consumed only when its state matches; a wrong state leaves it.
pub open spec fn spec_take(p: Option<(Seq<char>, Seq<char>)>, state: Seq<char>) -> (
    Option<(Seq<char>, Seq<char>)>,
    Option<Seq<char>>,
) {
    match p {
        Some((v, s)) => if s == state {
            (None, Some(v))
        } else {
            (p, None)
        },
        None => (None, None),
    }
}

impl View for OauthSlot {
    type V = Option<(Seq<char>, Seq<char>)>;

    closed spec fn view(&self) -> Option<(Seq<char>, Seq<char>)> {
        match self.pending {
            Some((v, s)) => Some((v@, s@)),
            None => None,
        }
    }
}

impl OauthSlot {
    pub fn new() -> (o: OauthSlot)
        ensures
            o@ is None,
    {
        OauthSlot { pending: None }
    }

    /// Stash the PKCE verifier and CSRF state of a new login (replacing any
    /// earlier one).
    pub fn start(&mut self, verifier: String, state: String)
        ensures
            final(self)@ == Some((verifier@, state@)),
    {
        self.pending = Some((verifier, state));
    }

    /// Validate a callback's `state`: the verifier on a match (single use),
    /// `None` when no login is pending or the state does not match.
    pub fn take(&mut self, state: &str) -> (r: Option<String>)
        ensures
            (final(self)@, match r {
                Some(v) => Some(v@),
                None => None,
            }) == spec_take(old(self)@, state@),
    {
        let matches_state = match &self.pending {
            Some(p) => {
                let sc = chars_of_string(&p.1);
                crate::text::chars_eq(sc.as_slice(), state)
            },
            None => false,
        };
        if matches_state {
            match self.pending.take() {
                Some(p) => Some(p.0),
                None => None,
            }
        } else {
            None
        }
    }
}

/// A pending login is single use, and a wrong guess does not burn it.
pub proof fn law_oauth_single_use(v: Seq<char>, s: Seq<char>, guess: Seq<char>)
    ensures
        spec_take(Some((v, s)), s) == (None::<(Seq<char>, Seq<char>)>, Some(v)),
        spec_take(spec_take(Some((v, s)), s).0, s).1 is None,
        guess != s ==> spec_take(Some((v, s)), guess) == (Some((v, s)), None::<Seq<char>>),
        spec_take(None, guess).1 is None,
{
}

} // verus!
